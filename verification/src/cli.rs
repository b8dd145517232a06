//! The text conversions behind the command line: JSON-compatible Nix data
//! written as Pkl, and a Nix expression wrapped into a NixOS module.
use vstd::prelude::*;

use crate::deserializer::{
    lemma_pkl_string_literal_reads_back, pkl_escaped, pkl_literal, pkl_unescape, push_pkl_literal,
};
use crate::nix_serializer::{
    class_header, is_ascii_alnum, is_ascii_alpha, nix_fields, quoted, unquoted, nix_text, push_spaces, spaces, with_fraction, with_fraction_chars,
    PklValue, SerializeOptions,
};
use crate::text::{
    chars_of, decimal, is_white_space, lemma_bool_literals_read_back, lemma_decimal_reads_back,
    read_bool, read_decimal, push_chars, push_decimal, push_str, string_of, trim,
    trim_chars, trim_end, trim_start,
};

verus! {

broadcast use vstd::string::group_string_axioms;

/// A JSON number: an integer that fits `i64`, any other number by the text
/// that Rust's `Display` gives for it as an `f64`, or, for a number that has
/// no `f64` form, its own text.
#[derive(Debug)]
pub enum JsonNumber {
    Int(i64),
    Float(String),
    Text(String),
}

/// JSON-compatible data. Object members are kept in the order given.
#[derive(Debug)]
pub enum JsonValue {
    Null,
    Bool(bool),
    Number(JsonNumber),
    String(String),
    Array(Vec<JsonValue>),
    Object(Vec<(String, JsonValue)>),
}

/// The words that Pkl reads as keywords or literals.
pub open spec fn is_pkl_keyword(s: Seq<char>) -> bool {
    s == "amends"@ ||
    s == "import"@ ||
    s == "as"@ ||
    s == "local"@ ||
    s == "const"@ ||
    s == "fixed"@ ||
    s == "hidden"@ ||
    s == "new"@ ||
    s == "extends"@ ||
    s == "abstract"@ ||
    s == "open"@ ||
    s == "external"@ ||
    s == "class"@ ||
    s == "typealias"@ ||
    s == "function"@ ||
    s == "this"@ ||
    s == "super"@ ||
    s == "module"@ ||
    s == "if"@ ||
    s == "else"@ ||
    s == "when"@ ||
    s == "is"@ ||
    s == "let"@ ||
    s == "throw"@ ||
    s == "trace"@ ||
    s == "read"@ ||
    s == "for"@ ||
    s == "in"@ ||
    s == "true"@ ||
    s == "false"@ ||
    s == "null"@ ||
    s == "NaN"@ ||
    s == "Infinity"@
}

/// Whether `char::is_alphabetic` holds of `c` (the Unicode `Alphabetic`
/// property).
pub uninterp spec fn char_is_alphabetic(c: char) -> bool;

/// Whether `char::is_alphanumeric` holds of `c` (the Unicode `Alphabetic`
/// or `Numeric` property).
pub uninterp spec fn char_is_alphanumeric(c: char) -> bool;

/// `char::is_alphabetic`. The Unicode property table is not restated: the
/// result is named `char_is_alphabetic(c)`; the documentation's fact that
/// ASCII letters have the property is stated.
#[verifier::external_body]
fn alphabetic(c: char) -> (r: bool)
    ensures
        r == char_is_alphabetic(c),
        is_ascii_alpha(c) ==> r,
{
    c.is_alphabetic()
}

/// `char::is_alphanumeric`. The Unicode property tables are not restated:
/// the result is named `char_is_alphanumeric(c)`; the documentation's fact
/// that ASCII letters and digits have the property is stated.
#[verifier::external_body]
fn alphanumeric(c: char) -> (r: bool)
    ensures
        r == char_is_alphanumeric(c),
        is_ascii_alnum(c) ==> r,
{
    c.is_alphanumeric()
}

/// A name that Pkl reads as a plain property name: a letter, `_` or `$`,
/// then letters, digits, `_` or `$`, and not a keyword.
pub open spec fn is_pkl_ident(s: Seq<char>) -> bool {
    &&& s.len() > 0
    &&& (char_is_alphabetic(s[0]) || s[0] == '_' || s[0] == '$')
    &&& forall|i: int|
        1 <= i < s.len() ==> char_is_alphanumeric(s[i]) || s[i] == '_' || s[i] == '$'
    &&& !is_pkl_keyword(s)
}

/// How a member name is written: plainly when it is an identifier, else as
/// an entry key `["name"]`.
pub open spec fn pkl_member_name(k: Seq<char>) -> Seq<char> {
    if is_pkl_ident(k) {
        k
    } else {
        seq!['['] + pkl_literal(k) + seq![']']
    }
}

fn chars_equal(a: &Vec<char>, b: &str) -> (r: bool)
    ensures
        r == (a@ == b@),
{
    let bs = chars_of(b);
    if a.len() != bs.len() {
        assert(a@.len() != b@.len());
        return false;
    }
    let mut i: usize = 0;
    while i < a.len()
        invariant
            i <= a@.len(),
            a@.len() == bs@.len(),
            bs@ == b@,
            forall|k: int| 0 <= k < i ==> a@[k] == bs@[k],
        decreases a@.len() - i,
    {
        if a[i] != bs[i] {
            assert(a@[i as int] != bs@[i as int]);
            assert(a@ != b@) by {
                if a@ == b@ {
                    assert(a@[i as int] == bs@[i as int]);
                }
            }
            return false;
        }
        i = i + 1;
    }
    assert(a@ =~= bs@);
    true
}

fn pkl_keyword(cs: &Vec<char>) -> (r: bool)
    ensures
        r == is_pkl_keyword(cs@),
{
    chars_equal(cs, "amends") ||
    chars_equal(cs, "import") ||
    chars_equal(cs, "as") ||
    chars_equal(cs, "local") ||
    chars_equal(cs, "const") ||
    chars_equal(cs, "fixed") ||
    chars_equal(cs, "hidden") ||
    chars_equal(cs, "new") ||
    chars_equal(cs, "extends") ||
    chars_equal(cs, "abstract") ||
    chars_equal(cs, "open") ||
    chars_equal(cs, "external") ||
    chars_equal(cs, "class") ||
    chars_equal(cs, "typealias") ||
    chars_equal(cs, "function") ||
    chars_equal(cs, "this") ||
    chars_equal(cs, "super") ||
    chars_equal(cs, "module") ||
    chars_equal(cs, "if") ||
    chars_equal(cs, "else") ||
    chars_equal(cs, "when") ||
    chars_equal(cs, "is") ||
    chars_equal(cs, "let") ||
    chars_equal(cs, "throw") ||
    chars_equal(cs, "trace") ||
    chars_equal(cs, "read") ||
    chars_equal(cs, "for") ||
    chars_equal(cs, "in") ||
    chars_equal(cs, "true") ||
    chars_equal(cs, "false") ||
    chars_equal(cs, "null") ||
    chars_equal(cs, "NaN") ||
    chars_equal(cs, "Infinity")
}

fn pkl_ident(cs: &Vec<char>) -> (r: bool)
    ensures
        r == is_pkl_ident(cs@),
{
    if cs.len() == 0 {
        return false;
    }
    let first = cs[0];
    if !alphabetic(first) && first != '_' && first != '$' {
        return false;
    }
    let mut i: usize = 1;
    while i < cs.len()
        invariant
            1 <= i <= cs@.len(),
            forall|k: int|
                1 <= k < i ==> char_is_alphanumeric(cs@[k]) || cs@[k] == '_' || cs@[k] == '$',
        decreases cs@.len() - i,
    {
        let c = cs[i];
        if !alphanumeric(c) && c != '_' && c != '$' {
            return false;
        }
        i = i + 1;
    }
    !pkl_keyword(cs)
}

fn push_member_name(out: &mut Vec<char>, k: &String)
    ensures
        final(out)@ == old(out)@ + pkl_member_name(k@),
{
    let cs = chars_of(k.as_str());
    if pkl_ident(&cs) {
        push_chars(out, &cs);
    } else {
        out.push('[');
        push_pkl_literal(out, &cs);
        out.push(']');
    }
}

/// The Pkl text of a value whose nested lines are indented by `indent`.
pub open spec fn pkl_text(v: JsonValue, indent: nat) -> Seq<char>
    decreases v,
{
    match v {
        JsonValue::Null => "null"@,
        JsonValue::Bool(b) => if b {
            "true"@
        } else {
            "false"@
        },
        JsonValue::Number(JsonNumber::Int(n)) => decimal(n as int),
        JsonValue::Number(JsonNumber::Float(t)) => with_fraction(t@),
        JsonValue::Number(JsonNumber::Text(t)) => t@,
        JsonValue::String(s) => pkl_literal(s@),
        JsonValue::Array(items) => if items@.len() == 0 {
            "new Listing {}"@
        } else {
            "new {\n"@ + pkl_items(items@, indent + 2) + spaces(indent) + "}"@
        },
        JsonValue::Object(es) => if es@.len() == 0 {
            "new {}"@
        } else {
            "new {\n"@ + pkl_members(es@, indent + 2) + spaces(indent) + "}"@
        },
    }
}

/// The elements of an array, each on its own line indented by `indent`.
pub open spec fn pkl_items(items: Seq<JsonValue>, indent: nat) -> Seq<char>
    decreases items,
{
    if items.len() == 0 {
        Seq::empty()
    } else {
        pkl_items(items.drop_last(), indent) + spaces(indent) + pkl_text(items.last(), indent)
            + "\n"@
    }
}

/// The members of an object, each as `name = value` on its own line.
pub open spec fn pkl_members(es: Seq<(String, JsonValue)>, indent: nat) -> Seq<char>
    decreases es,
{
    if es.len() == 0 {
        Seq::empty()
    } else {
        pkl_members(es.drop_last(), indent) + spaces(indent) + pkl_member_name(es.last().0@) + " = "@
            + pkl_text(
            es.last().1,
            indent,
        ) + "\n"@
    }
}

/// How deeply arrays and objects are nested in `v`.
pub open spec fn json_depth(v: JsonValue) -> nat
    decreases v,
{
    match v {
        JsonValue::Array(items) => 1 + items_json_depth(items@),
        JsonValue::Object(es) => 1 + members_json_depth(es@),
        _ => 0,
    }
}

pub open spec fn items_json_depth(items: Seq<JsonValue>) -> nat
    decreases items,
{
    if items.len() == 0 {
        0
    } else {
        let a = items_json_depth(items.drop_last());
        let b = json_depth(items.last());
        if a >= b {
            a
        } else {
            b
        }
    }
}

pub open spec fn members_json_depth(es: Seq<(String, JsonValue)>) -> nat
    decreases es,
{
    if es.len() == 0 {
        0
    } else {
        let a = members_json_depth(es.drop_last());
        let b = json_depth(es.last().1);
        if a >= b {
            a
        } else {
            b
        }
    }
}

proof fn lemma_item_json_depth(items: Seq<JsonValue>, i: int)
    requires
        0 <= i < items.len(),
    ensures
        json_depth(items[i]) <= items_json_depth(items),
    decreases items.len(),
{
    if i < items.len() - 1 {
        lemma_item_json_depth(items.drop_last(), i);
    }
}

proof fn lemma_member_json_depth(es: Seq<(String, JsonValue)>, i: int)
    requires
        0 <= i < es.len(),
    ensures
        json_depth(es[i].1) <= members_json_depth(es),
    decreases es.len(),
{
    if i < es.len() - 1 {
        lemma_member_json_depth(es.drop_last(), i);
    }
}

fn push_pkl(out: &mut Vec<char>, value: &JsonValue, indent: usize)
    requires
        indent + 2 * json_depth(*value) <= usize::MAX,
    ensures
        final(out)@ == old(out)@ + pkl_text(*value, indent as nat),
    decreases value,
{
    match value {
        JsonValue::Null => push_str(out, "null"),
        JsonValue::Bool(b) => {
            if *b {
                push_str(out, "true");
            } else {
                push_str(out, "false");
            }
        },
        JsonValue::Number(JsonNumber::Int(n)) => push_decimal(out, *n),
        JsonValue::Number(JsonNumber::Float(t)) => {
            let cs = chars_of(t.as_str());
            let w = with_fraction_chars(&cs);
            push_chars(out, &w);
        },
        JsonValue::Number(JsonNumber::Text(t)) => push_str(out, t.as_str()),
        JsonValue::String(s) => {
            let cs = chars_of(s.as_str());
            push_pkl_literal(out, &cs);
        },
        JsonValue::Array(items) => {
            if items.len() == 0 {
                push_str(out, "new Listing {}");
                return ;
            }
            push_str(out, "new {\n");
            let ghost header = out@;
            let child = indent + 2;
            let mut i: usize = 0;
            while i < items.len()
                invariant
                    i <= items@.len(),
                    child == indent + 2,
                    *value == JsonValue::Array(*items),
                    child + 2 * items_json_depth(items@) <= usize::MAX,
                    out@ == header + pkl_items(items@.take(i as int), child as nat),
                decreases items@.len() - i,
            {
                proof {
                    lemma_item_json_depth(items@, i as int);
                    assert(items@.take(i + 1).drop_last() =~= items@.take(i as int));
                    assert(items@.take(i + 1).last() == items@[i as int]);
                    assert(decreases_to!(*value => items@[i as int])) by {
                        assert(decreases_to!(*value => value->Array_0));
                        assert(decreases_to!(*items => items@));
                        assert(decreases_to!(items@ => items@[i as int]));
                    }
                }
                push_spaces(out, child);
                push_pkl(out, &items[i], child);
                push_str(out, "\n");
                i = i + 1;
            }
            assert(items@.take(items@.len() as int) =~= items@);
            push_spaces(out, indent);
            push_str(out, "}");
        },
        JsonValue::Object(es) => {
            if es.len() == 0 {
                push_str(out, "new {}");
                return ;
            }
            push_str(out, "new {\n");
            let ghost header = out@;
            let child = indent + 2;
            let mut i: usize = 0;
            while i < es.len()
                invariant
                    i <= es@.len(),
                    child == indent + 2,
                    *value == JsonValue::Object(*es),
                    child + 2 * members_json_depth(es@) <= usize::MAX,
                    out@ == header + pkl_members(es@.take(i as int), child as nat),
                decreases es@.len() - i,
            {
                proof {
                    lemma_member_json_depth(es@, i as int);
                    assert(es@.take(i + 1).drop_last() =~= es@.take(i as int));
                    assert(es@.take(i + 1).last() == es@[i as int]);
                    assert(decreases_to!(*value => es@[i as int].1)) by {
                        assert(decreases_to!(*value => value->Object_0));
                        assert(decreases_to!(*es => es@));
                        assert(decreases_to!(es@ => es@[i as int]));
                        assert(decreases_to!(es@[i as int] => es@[i as int].1));
                    }
                }
                let entry = &es[i];
                push_spaces(out, child);
                push_member_name(out, &entry.0);
                push_str(out, " = ");
                push_pkl(out, &entry.1, child);
                push_str(out, "\n");
                i = i + 1;
            }
            assert(es@.take(es@.len() as int) =~= es@);
            push_spaces(out, indent);
            push_str(out, "}");
        },
    }
}

/// Writes JSON-compatible data as Pkl: strings become Pkl string literals,
/// arrays listings, objects `new { ... }` blocks whose members that are not
/// plain identifiers are written as entries `["name"]`; nested lines are
/// indented by two spaces more than their parent's `indent`.
pub fn json_value_to_pkl(value: &JsonValue, indent: usize) -> (r: String)
    requires
        indent + 2 * json_depth(*value) <= usize::MAX,
    ensures
        r@ == pkl_text(*value, indent as nat),
{
    let mut out: Vec<char> = Vec::new();
    push_pkl(&mut out, value, indent);
    string_of(&out)
}

/// `n`, or `usize::MAX` when `n` is larger.
pub open spec fn capped_depth(n: nat) -> nat {
    if n <= usize::MAX {
        n
    } else {
        usize::MAX as nat
    }
}

impl JsonValue {
    /// How deeply arrays and objects are nested in this value, or
    /// `usize::MAX` when that does not fit.
    pub fn nesting_depth(&self) -> (d: usize)
        ensures
            d == capped_depth(json_depth(*self)),
        decreases self,
    {
        match self {
            JsonValue::Array(items) => {
                let mut m: usize = 0;
                let mut i: usize = 0;
                while i < items.len()
                    invariant
                        i <= items@.len(),
                        *self == JsonValue::Array(*items),
                        m == capped_depth(items_json_depth(items@.take(i as int))),
                    decreases items@.len() - i,
                {
                    proof {
                        assert(items@.take(i + 1).drop_last() =~= items@.take(i as int));
                        assert(items@.take(i + 1).last() == items@[i as int]);
                        assert(decreases_to!(*self => items@[i as int])) by {
                            assert(decreases_to!(*self => self->Array_0));
                            assert(decreases_to!(*items => items@));
                            assert(decreases_to!(items@ => items@[i as int]));
                        }
                    }
                    let c = items[i].nesting_depth();
                    if c > m {
                        m = c;
                    }
                    i = i + 1;
                }
                assert(items@.take(items@.len() as int) =~= items@);
                if m == usize::MAX {
                    m
                } else {
                    m + 1
                }
            },
            JsonValue::Object(es) => {
                let mut m: usize = 0;
                let mut i: usize = 0;
                while i < es.len()
                    invariant
                        i <= es@.len(),
                        *self == JsonValue::Object(*es),
                        m == capped_depth(members_json_depth(es@.take(i as int))),
                    decreases es@.len() - i,
                {
                    proof {
                        assert(es@.take(i + 1).drop_last() =~= es@.take(i as int));
                        assert(es@.take(i + 1).last() == es@[i as int]);
                        assert(decreases_to!(*self => es@[i as int].1)) by {
                            assert(decreases_to!(*self => self->Object_0));
                            assert(decreases_to!(*es => es@));
                            assert(decreases_to!(es@ => es@[i as int]));
                            assert(decreases_to!(es@[i as int] => es@[i as int].1));
                        }
                    }
                    let c = es[i].1.nesting_depth();
                    if c > m {
                        m = c;
                    }
                    i = i + 1;
                }
                assert(es@.take(es@.len() as int) =~= es@);
                if m == usize::MAX {
                    m
                } else {
                    m + 1
                }
            },
            _ => 0,
        }
    }
}

// ---------------------------------------------------------------------------
// NixOS modules
// ---------------------------------------------------------------------------

/// The body of the module: the trimmed expression, and when that is an
/// attribute set in braces, its trimmed inside.
pub open spec fn module_body(nix: Seq<char>) -> Seq<char> {
    let t = trim(nix);
    if t.len() >= 2 && t[0] == '{' && t.last() == '}' {
        trim(t.subrange(1, t.len() - 1))
    } else {
        t
    }
}

/// The NixOS module skeleton around a Nix expression.
pub open spec fn nixos_module_text(nix: Seq<char>) -> Seq<char> {
    "{ config, pkgs, ... }: {\n  "@ + module_body(nix) + "\n}"@
}

/// Wraps a Nix expression into a NixOS module skeleton: an attribute set's
/// contents go inside the module's own braces, anything else as it is.
pub fn wrap_nixos_module(nix: &str) -> (r: String)
    ensures
        r@ == nixos_module_text(nix@),
{
    let cs = chars_of(nix);
    let t = trim_chars(&cs);
    let n = t.len();
    let mut out: Vec<char> = Vec::new();
    push_str(&mut out, "{ config, pkgs, ... }: {\n  ");
    if n >= 2 && t[0] == '{' && t[n - 1] == '}' {
        let mut inner: Vec<char> = Vec::new();
        let mut i: usize = 1;
        while i < n - 1
            invariant
                1 <= i <= n - 1,
                n == t@.len(),
                inner@ == t@.subrange(1, i as int),
            decreases n - 1 - i,
        {
            inner.push(t[i]);
            assert(t@.subrange(1, i + 1) =~= t@.subrange(1, i as int).push(t@[i as int]));
            i = i + 1;
        }
        let body = trim_chars(&inner);
        push_chars(&mut out, &body);
    } else {
        push_chars(&mut out, &t);
    }
    push_str(&mut out, "\n}");
    string_of(&out)
}

/// The NixOS module of a serialized non-empty object holds the object's
/// properties (and class line) inside the module's braces.
pub proof fn lemma_module_of_object(v: PklValue, opts: SerializeOptions)
    requires
        v is Object,
        v->Object_0@.len() > 0,
    ensures
        nixos_module_text(nix_text(v, 0, opts)) == "{ config, pkgs, ... }: {\n  "@ + trim(
            class_header(v->Object_1, opts) + nix_fields(v->Object_0@, 2, opts),
        ) + "\n}"@,
{
    reveal_strlit("{ ");
    reveal_strlit("}");
    let x = class_header(v->Object_1, opts) + nix_fields(v->Object_0@, 2, opts);
    let n = nix_text(v, 0, opts);
    assert(n == "{ "@ + x + "}"@);
    assert(n =~= seq!['{', ' '] + x + seq!['}']);
    assert(n[0] == '{');
    assert(n.last() == '}');
    assert(!is_white_space('{'));
    assert(!is_white_space('}'));
    assert(trim_start(n) == n);
    assert(trim_end(n) == n);
    assert(trim(n) == n);
    let inner = n.subrange(1, n.len() - 1);
    assert(inner =~= seq![' '] + x);
    assert(is_white_space(' '));
    assert(inner.drop_first() =~= x);
    assert(trim_start(inner) == trim_start(x));
}

/// Every member name reads back as itself: an identifier is written as it
/// is, any other name as an entry key whose string literal reads back as the
/// name.
pub proof fn lemma_member_name_reads_back(k: Seq<char>)
    ensures
        is_pkl_ident(k) ==> pkl_member_name(k) == k,
        !is_pkl_ident(k) ==> pkl_member_name(k) == seq!['[', '"'] + pkl_escaped(k) + seq![
            '"',
            ']',
        ] && pkl_unescape(pkl_escaped(k)) == Some(k),
{
    lemma_pkl_string_literal_reads_back(k);
    if !is_pkl_ident(k) {
        assert(pkl_member_name(k) =~= seq!['[', '"'] + pkl_escaped(k) + seq!['"', ']']);
    }
}

/// Scalars are written as Pkl literals that read back as the same value:
/// `null`, the boolean literal of a boolean, the decimal literal of an
/// integer, and a string literal that reads back as the string.
pub proof fn lemma_pkl_scalars_read_back(v: JsonValue, indent: nat)
    ensures
        v is Null ==> pkl_text(v, indent) == seq!['n', 'u', 'l', 'l'],
        v is Bool ==> read_bool(pkl_text(v, indent)) == Some(v->Bool_0),
        v matches JsonValue::Number(JsonNumber::Int(n)) ==> read_decimal(pkl_text(v, indent)) == Some(
            n as int,
        ),
        v is String ==> pkl_text(v, indent) == quoted(unquoted(pkl_text(v, indent)))
            && pkl_unescape(unquoted(pkl_text(v, indent))) == Some(v->String_0@),
{
    lemma_bool_literals_read_back();
    match v {
        JsonValue::Null => {
            reveal_strlit("null");
            assert("null"@ =~= seq!['n', 'u', 'l', 'l']);
        },
        JsonValue::Number(JsonNumber::Int(n)) => lemma_decimal_reads_back(n as int),
        JsonValue::String(s) => {
            lemma_pkl_string_literal_reads_back(s@);
            let t = pkl_text(v, indent);
            assert(unquoted(t) =~= pkl_escaped(s@));
            assert(t =~= quoted(unquoted(t)));
        },
        _ => {},
    }
}

/// A member name is written bare exactly when Pkl reads it as a property
/// name: a letter, `_` or `$`, then letters, digits, `_` or `$`, and not one
/// of Pkl's keywords or literal words. Every other name is written as an
/// entry key (which reads back, by `lemma_member_name_reads_back`).
pub proof fn lemma_bare_members_are_identifiers(k: Seq<char>)
    ensures
        pkl_member_name(k) == k <==> {
            &&& k.len() > 0
            &&& (char_is_alphabetic(k[0]) || k[0] == '_' || k[0] == '$')
            &&& forall|i: int|
                1 <= i < k.len() ==> char_is_alphanumeric(k[i]) || k[i] == '_' || k[i] == '$'
            &&& !(k == "amends"@ || k == "import"@ || k == "as"@ || k == "local"@ || k == "const"@ || k == "fixed"@ || k == "hidden"@ || k == "new"@ || k == "extends"@ || k == "abstract"@ || k == "open"@ || k == "external"@ || k == "class"@ || k == "typealias"@ || k == "function"@ || k == "this"@ || k == "super"@ || k == "module"@ || k == "if"@ || k == "else"@ || k == "when"@ || k == "is"@ || k == "let"@ || k == "throw"@ || k == "trace"@ || k == "read"@ || k == "for"@ || k == "in"@ || k == "true"@ || k == "false"@ || k == "null"@ || k == "NaN"@ || k == "Infinity"@)
        },
{
    if !is_pkl_ident(k) {
        assert(pkl_member_name(k).len() > k.len()) by {
            lemma_escaped_len(k);
        }
    }
}

proof fn lemma_escaped_len(s: Seq<char>)
    ensures
        pkl_escaped(s).len() >= s.len(),
    decreases s.len(),
{
    if s.len() > 0 {
        lemma_escaped_len(s.drop_first());
    }
}

/// An object's Pkl text has its members in their order, each on a line
/// of its own as `name = value`.
pub proof fn lemma_members_in_order(es: Seq<(String, JsonValue)>, i: int, indent: nat)
    requires
        0 <= i < es.len(),
    ensures
        pkl_members(es.take(i + 1), indent) == pkl_members(es.take(i), indent) + spaces(indent)
            + pkl_member_name(es[i].0@) + " = "@ + pkl_text(es[i].1, indent) + "\n"@,
        pkl_members(es.take(es.len() as int), indent) == pkl_members(es, indent),
{
    assert(es.take(i + 1).drop_last() =~= es.take(i));
    assert(es.take(i + 1).last() == es[i]);
    assert(es.take(es.len() as int) =~= es);
}

/// An array's Pkl text has its elements in their order, each on a line of
/// its own.
pub proof fn lemma_array_items_in_order(items: Seq<JsonValue>, i: int, indent: nat)
    requires
        0 <= i < items.len(),
    ensures
        pkl_items(items.take(i + 1), indent) == pkl_items(items.take(i), indent) + spaces(indent)
            + pkl_text(items[i], indent) + "\n"@,
        pkl_items(items.take(items.len() as int), indent) == pkl_items(items, indent),
{
    assert(items.take(i + 1).drop_last() =~= items.take(i));
    assert(items.take(i + 1).last() == items[i]);
    assert(items.take(items.len() as int) =~= items);
}

} // verus!
