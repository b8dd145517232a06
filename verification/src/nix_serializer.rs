//! Rendering of evaluated Pkl values as Nix expressions.
use vstd::prelude::*;

use crate::text::{
    chars_of, contains_char, decimal, lemma_bool_literals_read_back, lemma_decimal_reads_back,
    occurs_at, read_bool, read_decimal, push_chars, push_decimal, push_str, replace_all,
    replace_pattern, string_of,
};

verus! {

broadcast use vstd::string::group_string_axioms;

// ---------------------------------------------------------------------------
// The value model
// ---------------------------------------------------------------------------

/// How a Pkl float is written out: one of its three special values, or the
/// text that Rust's `Display` gives for a finite `f64` (such as `2.5`, `42`
/// or `1e300`).
#[derive(Debug)]
pub enum FloatText {
    PosInfinity,
    NegInfinity,
    NaN,
    Finite(String),
}

/// An evaluated Pkl value. An object holds its properties in definition
/// order together with the name of the class it was made from, if any.
#[derive(Debug)]
pub enum PklValue {
    Null,
    Bool(bool),
    Int(i64),
    Float(FloatText),
    String(String),
    Object(Vec<(String, PklValue)>, Option<String>),
    List(Vec<PklValue>),
    Lambda,
}

/// What the serializer writes besides the data itself.
#[derive(Debug, Clone, Copy, PartialEq, Eq, Structural)]
pub struct SerializeOptions {
    /// Write `__pkl_class = "Name"; ` into objects made from a class.
    pub class_metadata: bool,
    /// Write object properties whose value is `null`.
    pub null_fields: bool,
}

/// The options used by `pkl_value_to_nix`: everything is written.
pub open spec fn full_options() -> SerializeOptions {
    SerializeOptions { class_metadata: true, null_fields: true }
}

impl Default for SerializeOptions {
    fn default() -> (o: Self)
        ensures
            o == full_options(),
    {
        SerializeOptions { class_metadata: true, null_fields: true }
    }
}

impl SerializeOptions {
    /// Data only: neither class metadata nor `null` properties.
    pub fn data_only() -> (o: Self)
        ensures
            !o.class_metadata,
            !o.null_fields,
    {
        SerializeOptions { class_metadata: false, null_fields: false }
    }
}

// ---------------------------------------------------------------------------
// What the serializer writes
// ---------------------------------------------------------------------------

/// `t` between double quotes.
pub open spec fn quoted(t: Seq<char>) -> Seq<char> {
    seq!['"'] + t + seq!['"']
}

/// Backslashes doubled, then double quotes and `${` escaped with a
/// backslash.
pub open spec fn escape_nix(s: Seq<char>) -> Seq<char> {
    replace_all(
        replace_all(replace_all(s, "\\"@, "\\\\"@), "\""@, "\\\""@),
        "${"@,
        "\\${"@,
    )
}

/// A Pkl string as a Nix string literal: backslashes, double quotes and
/// `${` escaped, between double quotes.
pub open spec fn nix_string(s: Seq<char>) -> Seq<char> {
    quoted(escape_nix(s))
}

pub open spec fn is_ascii_alpha(c: char) -> bool {
    ('a' <= c && c <= 'z') || ('A' <= c && c <= 'Z')
}

pub open spec fn is_ascii_alnum(c: char) -> bool {
    is_ascii_alpha(c) || ('0' <= c && c <= '9')
}

/// A key that Nix accepts unquoted: a letter or `_`, then letters, digits,
/// `-`, `_` or `'`.
pub open spec fn is_nix_ident(s: Seq<char>) -> bool {
    &&& s.len() > 0
    &&& (is_ascii_alpha(s[0]) || s[0] == '_')
    &&& forall|i: int|
        1 <= i < s.len() ==> is_ascii_alnum(s[i]) || s[i] == '-' || s[i] == '_' || s[i] == '\''
}

/// How an attribute name is written.
pub open spec fn nix_key(k: Seq<char>) -> Seq<char> {
    if is_nix_ident(k) {
        k
    } else {
        quoted(escape_nix(k))
    }
}

/// A float text that looks like an integer gets `.0` appended.
pub open spec fn with_fraction(t: Seq<char>) -> Seq<char> {
    if !t.contains('.') && !t.contains('e') && !t.contains('E') {
        t + ".0"@
    } else {
        t
    }
}

pub open spec fn float_text(f: FloatText) -> Seq<char> {
    match f {
        FloatText::PosInfinity => "Infinity"@,
        FloatText::NegInfinity => "-Infinity"@,
        FloatText::NaN => "NaN"@,
        FloatText::Finite(t) => with_fraction(t@),
    }
}

/// `n` spaces.
pub open spec fn spaces(n: nat) -> Seq<char> {
    Seq::new(n, |i: int| ' ')
}

/// The class line that opens an object, if it is written.
pub open spec fn class_header(class_name: Option<String>, opts: SerializeOptions) -> Seq<char> {
    match class_name {
        Some(name) => if opts.class_metadata {
            "__pkl_class = "@ + nix_string(name@) + "; "@
        } else {
            Seq::empty()
        },
        None => Seq::empty(),
    }
}

/// A property is left out only when `null` properties are not written and
/// its value is `null`.
pub open spec fn field_written(v: PklValue, opts: SerializeOptions) -> bool {
    opts.null_fields || !(v is Null)
}

/// The Nix text of a value whose nested lines are indented by `indent`.
pub open spec fn nix_text(v: PklValue, indent: nat, opts: SerializeOptions) -> Seq<char>
    decreases v,
{
    match v {
        PklValue::Null => "null"@,
        PklValue::Bool(b) => if b {
            "true"@
        } else {
            "false"@
        },
        PklValue::Int(n) => decimal(n as int),
        PklValue::Float(f) => float_text(f),
        PklValue::String(s) => nix_string(s@),
        PklValue::Object(es, class_name) => if es@.len() == 0 && class_header(
            class_name,
            opts,
        ).len() == 0 {
            "{ }"@
        } else {
            "{ "@ + class_header(class_name, opts) + nix_fields(es@, indent + 2, opts) + "}"@
        },
        PklValue::List(items) => if items@.len() == 0 {
            "[ ]"@
        } else {
            "[\n"@ + nix_items(items@, indent + 2, opts) + spaces(indent) + "]"@
        },
        PklValue::Lambda => "\"<lambda>\""@,
    }
}

/// The properties of an object, each as `key = value; `.
pub open spec fn nix_fields(es: Seq<(String, PklValue)>, indent: nat, opts: SerializeOptions) -> Seq<
    char,
>
    decreases es,
{
    if es.len() == 0 {
        Seq::empty()
    } else {
        let prev = nix_fields(es.drop_last(), indent, opts);
        let k = es.last().0;
        let v = es.last().1;
        if field_written(v, opts) {
            prev + nix_key(k@) + " = "@ + nix_text(v, indent, opts) + "; "@
        } else {
            prev
        }
    }
}

/// The elements of a list, each on its own line indented by `indent`.
pub open spec fn nix_items(items: Seq<PklValue>, indent: nat, opts: SerializeOptions) -> Seq<char>
    decreases items,
{
    if items.len() == 0 {
        Seq::empty()
    } else {
        nix_items(items.drop_last(), indent, opts) + spaces(indent) + nix_text(
            items.last(),
            indent,
            opts,
        ) + "\n"@
    }
}

/// How deeply objects and lists are nested in `v`.
pub open spec fn depth(v: PklValue) -> nat
    decreases v,
{
    match v {
        PklValue::Object(es, _) => 1 + fields_depth(es@),
        PklValue::List(items) => 1 + items_depth(items@),
        _ => 0,
    }
}

pub open spec fn fields_depth(es: Seq<(String, PklValue)>) -> nat
    decreases es,
{
    if es.len() == 0 {
        0
    } else {
        let a = fields_depth(es.drop_last());
        let b = depth(es.last().1);
        if a >= b {
            a
        } else {
            b
        }
    }
}

pub open spec fn items_depth(items: Seq<PklValue>) -> nat
    decreases items,
{
    if items.len() == 0 {
        0
    } else {
        let a = items_depth(items.drop_last());
        let b = depth(items.last());
        if a >= b {
            a
        } else {
            b
        }
    }
}

// ---------------------------------------------------------------------------
// Facts about nesting depth
// ---------------------------------------------------------------------------

proof fn lemma_field_depth(es: Seq<(String, PklValue)>, i: int)
    requires
        0 <= i < es.len(),
    ensures
        depth(es[i].1) <= fields_depth(es),
    decreases es.len(),
{
    if i < es.len() - 1 {
        lemma_field_depth(es.drop_last(), i);
    }
}

proof fn lemma_item_depth(items: Seq<PklValue>, i: int)
    requires
        0 <= i < items.len(),
    ensures
        depth(items[i]) <= items_depth(items),
    decreases items.len(),
{
    if i < items.len() - 1 {
        lemma_item_depth(items.drop_last(), i);
    }
}

// ---------------------------------------------------------------------------
// The serializer
// ---------------------------------------------------------------------------

pub(crate) fn ascii_alpha(c: char) -> (r: bool)
    ensures
        r == is_ascii_alpha(c),
{
    ('a' <= c && c <= 'z') || ('A' <= c && c <= 'Z')
}

pub(crate) fn ascii_alnum(c: char) -> (r: bool)
    ensures
        r == is_ascii_alnum(c),
{
    ascii_alpha(c) || ('0' <= c && c <= '9')
}

fn ident_chars(cs: &Vec<char>) -> (r: bool)
    ensures
        r == is_nix_ident(cs@),
{
    if cs.len() == 0 {
        return false;
    }
    let first = cs[0];
    if !ascii_alpha(first) && first != '_' {
        return false;
    }
    let mut i: usize = 1;
    while i < cs.len()
        invariant
            1 <= i <= cs@.len(),
            forall|k: int|
                1 <= k < i ==> is_ascii_alnum(cs@[k]) || cs@[k] == '-' || cs@[k] == '_' || cs@[k]
                    == '\'',
        decreases cs@.len() - i,
    {
        let c = cs[i];
        if !ascii_alnum(c) && c != '-' && c != '_' && c != '\'' {
            return false;
        }
        i = i + 1;
    }
    true
}

/// Whether `s` can stand unquoted as a Nix attribute name.
pub fn is_simple_nix_ident(s: &str) -> (r: bool)
    ensures
        r == is_nix_ident(s@),
{
    let cs = chars_of(s);
    ident_chars(&cs)
}

fn escape_chars(cs: &Vec<char>) -> (r: Vec<char>)
    ensures
        r@ == escape_nix(cs@),
{
    let backslash = chars_of("\\");
    let backslash2 = chars_of("\\\\");
    let quote = chars_of("\"");
    let quote2 = chars_of("\\\"");
    let dollar = chars_of("${");
    let dollar2 = chars_of("\\${");
    proof {
        reveal_strlit("\\");
        reveal_strlit("\"");
        reveal_strlit("${");
    }
    let a = replace_pattern(cs, &backslash, &backslash2);
    let b = replace_pattern(&a, &quote, &quote2);
    replace_pattern(&b, &dollar, &dollar2)
}

fn push_quoted(out: &mut Vec<char>, t: &Vec<char>)
    ensures
        final(out)@ == old(out)@ + quoted(t@),
{
    out.push('"');
    push_chars(out, t);
    out.push('"');
}

/// `k` quoted, with backslashes, double quotes and `${` escaped.
pub fn escape_nix_quoted_key(k: &str) -> (r: String)
    ensures
        r@ == quoted(escape_nix(k@)),
{
    let cs = chars_of(k);
    let e = escape_chars(&cs);
    let mut out: Vec<char> = Vec::new();
    push_quoted(&mut out, &e);
    string_of(&out)
}

fn nix_string_chars(cs: &Vec<char>) -> (r: Vec<char>)
    ensures
        r@ == nix_string(cs@),
{
    let e = escape_chars(cs);
    let mut out: Vec<char> = Vec::new();
    push_quoted(&mut out, &e);
    out
}

/// A Pkl string as a Nix string literal.
pub fn format_nix_string(s: &str) -> (r: String)
    ensures
        r@ == nix_string(s@),
{
    let cs = chars_of(s);
    let out = nix_string_chars(&cs);
    string_of(&out)
}

pub(crate) fn with_fraction_chars(t: &Vec<char>) -> (r: Vec<char>)
    ensures
        r@ == with_fraction(t@),
{
    let mut out: Vec<char> = Vec::new();
    push_chars(&mut out, t);
    if !contains_char(t, '.') && !contains_char(t, 'e') && !contains_char(t, 'E') {
        push_str(&mut out, ".0");
    }
    out
}

fn push_float(out: &mut Vec<char>, f: &FloatText)
    ensures
        final(out)@ == old(out)@ + float_text(*f),
{
    match f {
        FloatText::PosInfinity => push_str(out, "Infinity"),
        FloatText::NegInfinity => push_str(out, "-Infinity"),
        FloatText::NaN => push_str(out, "NaN"),
        FloatText::Finite(t) => {
            let cs = chars_of(t.as_str());
            let w = with_fraction_chars(&cs);
            push_chars(out, &w);
        },
    }
}

/// A float as Nix text: `Infinity`, `-Infinity`, `NaN`, or its decimal
/// text with `.0` added when it has neither a point nor an exponent.
pub fn format_nix_float(f: &FloatText) -> (r: String)
    ensures
        r@ == float_text(*f),
{
    let mut out: Vec<char> = Vec::new();
    push_float(&mut out, f);
    string_of(&out)
}

fn push_key(out: &mut Vec<char>, k: &String)
    ensures
        final(out)@ == old(out)@ + nix_key(k@),
{
    let cs = chars_of(k.as_str());
    if ident_chars(&cs) {
        push_chars(out, &cs);
    } else {
        let e = escape_chars(&cs);
        push_quoted(out, &e);
    }
}

pub(crate) fn push_spaces(out: &mut Vec<char>, n: usize)
    ensures
        final(out)@ == old(out)@ + spaces(n as nat),
{
    let ghost start = out@;
    let mut i: usize = 0;
    while i < n
        invariant
            i <= n,
            out@ == start + spaces(i as nat),
        decreases n - i,
    {
        out.push(' ');
        assert(spaces((i + 1) as nat) =~= spaces(i as nat).push(' '));
        i = i + 1;
    }
}

fn write_value(out: &mut Vec<char>, value: &PklValue, indent: usize, opts: &SerializeOptions)
    requires
        indent + 2 * depth(*value) <= usize::MAX,
    ensures
        final(out)@ == old(out)@ + nix_text(*value, indent as nat, *opts),
    decreases value,
{
    match value {
        PklValue::Null => push_str(out, "null"),
        PklValue::Bool(b) => {
            if *b {
                push_str(out, "true");
            } else {
                push_str(out, "false");
            }
        },
        PklValue::Int(n) => push_decimal(out, *n),
        PklValue::Float(f) => push_float(out, f),
        PklValue::String(s) => {
            let cs = chars_of(s.as_str());
            let t = nix_string_chars(&cs);
            push_chars(out, &t);
        },
        PklValue::Object(es, class_name) => {
            let class_written = opts.class_metadata && class_name.is_some();
            if es.len() == 0 && !class_written {
                proof {
                    assert(class_header(*class_name, *opts).len() == 0);
                }
                push_str(out, "{ }");
                return ;
            }
            push_str(out, "{ ");
            if opts.class_metadata {
                match class_name {
                    Some(name) => {
                        push_str(out, "__pkl_class = ");
                        let cs = chars_of(name.as_str());
                        let t = nix_string_chars(&cs);
                        push_chars(out, &t);
                        push_str(out, "; ");
                    },
                    None => {},
                }
            }
            let ghost header = out@;
            let child = indent + 2;
            let mut i: usize = 0;
            while i < es.len()
                invariant
                    i <= es@.len(),
                    child == indent + 2,
                    *value == PklValue::Object(*es, *class_name),
                    child + 2 * fields_depth(es@) <= usize::MAX,
                    out@ == header + nix_fields(es@.take(i as int), child as nat, *opts),
                decreases es@.len() - i,
            {
                let entry = &es[i];
                proof {
                    lemma_field_depth(es@, i as int);
                    assert(es@.take(i + 1).drop_last() =~= es@.take(i as int));
                    assert(es@.take(i + 1).last() == es@[i as int]);
                    assert(decreases_to!(*value => es@[i as int].1)) by {
                        assert(decreases_to!(*value => value->Object_0));
                        assert(decreases_to!(*es => es@));
                        assert(decreases_to!(es@ => es@[i as int]));
                        assert(decreases_to!(es@[i as int] => es@[i as int].1));
                    }
                }
                if opts.null_fields || !matches!(entry.1, PklValue::Null) {
                    push_key(out, &entry.0);
                    push_str(out, " = ");
                    write_value(out, &entry.1, child, opts);
                    push_str(out, "; ");
                }
                i = i + 1;
            }
            assert(es@.take(es@.len() as int) =~= es@);
            push_str(out, "}");
        },
        PklValue::List(items) => {
            if items.len() == 0 {
                push_str(out, "[ ]");
                return ;
            }
            push_str(out, "[\n");
            let ghost header = out@;
            let child = indent + 2;
            let mut i: usize = 0;
            while i < items.len()
                invariant
                    i <= items@.len(),
                    child == indent + 2,
                    *value == PklValue::List(*items),
                    child + 2 * items_depth(items@) <= usize::MAX,
                    out@ == header + nix_items(items@.take(i as int), child as nat, *opts),
                decreases items@.len() - i,
            {
                proof {
                    lemma_item_depth(items@, i as int);
                    assert(items@.take(i + 1).drop_last() =~= items@.take(i as int));
                    assert(items@.take(i + 1).last() == items@[i as int]);
                    assert(decreases_to!(*value => items@[i as int])) by {
                        assert(decreases_to!(*value => value->List_0));
                        assert(decreases_to!(*items => items@));
                        assert(decreases_to!(items@ => items@[i as int]));
                    }
                }
                push_spaces(out, child);
                write_value(out, &items[i], child, opts);
                push_str(out, "\n");
                i = i + 1;
            }
            assert(items@.take(items@.len() as int) =~= items@);
            push_spaces(out, indent);
            push_str(out, "]");
        },
        PklValue::Lambda => push_str(out, "\"<lambda>\""),
    }
}

/// Serializes a value as a Nix expression, with class metadata and `null`
/// properties.
pub fn pkl_value_to_nix(value: &PklValue) -> (r: String)
    requires
        2 * depth(*value) <= usize::MAX,
    ensures
        r@ == nix_text(*value, 0, full_options()),
{
    pkl_value_to_nix_with_options(value, SerializeOptions::default())
}

/// Serializes a value as a Nix expression under the given options.
pub fn pkl_value_to_nix_with_options(value: &PklValue, options: SerializeOptions) -> (r: String)
    requires
        2 * depth(*value) <= usize::MAX,
    ensures
        r@ == nix_text(*value, 0, options),
{
    value_to_nix_inner(value, 0, options)
}

/// The Nix text of a value whose nested lines are indented by `indent`
/// spaces.
pub fn value_to_nix_inner(value: &PklValue, indent: usize, options: SerializeOptions) -> (r:
    String)
    requires
        indent + 2 * depth(*value) <= usize::MAX,
    ensures
        r@ == nix_text(*value, indent as nat, options),
{
    let mut out: Vec<char> = Vec::new();
    write_value(&mut out, value, indent, &options);
    string_of(&out)
}

/// `n`, or `usize::MAX` when `n` is larger.
pub open spec fn capped(n: nat) -> nat {
    if n <= usize::MAX {
        n
    } else {
        usize::MAX as nat
    }
}

impl PklValue {
    /// How deeply objects and lists are nested in this value, or
    /// `usize::MAX` when that does not fit.
    pub fn nesting_depth(&self) -> (d: usize)
        ensures
            d == capped(depth(*self)),
        decreases self,
    {
        match self {
            PklValue::Object(es, _) => {
                let mut m: usize = 0;
                let mut i: usize = 0;
                while i < es.len()
                    invariant
                        i <= es@.len(),
                        *self == PklValue::Object(*es, self->Object_1),
                        m == capped(fields_depth(es@.take(i as int))),
                    decreases es@.len() - i,
                {
                    proof {
                        assert(es@.take(i + 1).drop_last() =~= es@.take(i as int));
                        assert(es@.take(i + 1).last() == es@[i as int]);
                        assert(decreases_to!(*self => es@[i as int].1)) by {
                            assert(decreases_to!(*self => self->Object_0));
                            assert(decreases_to!(*es => es@));
                            assert(decreases_to!(es@ => es@[i as int]));
                            assert(decreases_to!(es@[i as int] => es@[i as int].1));
                        }
                    }
                    let c = es[i].1.nesting_depth();
                    if c > m {
                        m = c;
                    }
                    i = i + 1;
                }
                assert(es@.take(es@.len() as int) =~= es@);
                if m == usize::MAX {
                    m
                } else {
                    m + 1
                }
            },
            PklValue::List(items) => {
                let mut m: usize = 0;
                let mut i: usize = 0;
                while i < items.len()
                    invariant
                        i <= items@.len(),
                        *self == PklValue::List(*items),
                        m == capped(items_depth(items@.take(i as int))),
                    decreases items@.len() - i,
                {
                    proof {
                        assert(items@.take(i + 1).drop_last() =~= items@.take(i as int));
                        assert(items@.take(i + 1).last() == items@[i as int]);
                        assert(decreases_to!(*self => items@[i as int])) by {
                            assert(decreases_to!(*self => self->List_0));
                            assert(decreases_to!(*items => items@));
                            assert(decreases_to!(items@ => items@[i as int]));
                        }
                    }
                    let c = items[i].nesting_depth();
                    if c > m {
                        m = c;
                    }
                    i = i + 1;
                }
                assert(items@.take(items@.len() as int) =~= items@);
                if m == usize::MAX {
                    m
                } else {
                    m + 1
                }
            },
            _ => 0,
        }
    }
}

// ---------------------------------------------------------------------------
// Reading Nix string literals back
// ---------------------------------------------------------------------------

/// What a backslash followed by `c` stands for in a Nix string.
pub open spec fn nix_escaped_char(c: char) -> char {
    if c == 'n' {
        '\n'
    } else if c == 'r' {
        '\r'
    } else if c == 't' {
        '\t'
    } else {
        c
    }
}

/// The text that the body of a Nix double-quoted string stands for, read
/// from left to right: a backslash takes the next character, and the body
/// may hold neither an unescaped `"` nor an unescaped `${` (`None` if it
/// does).
pub open spec fn nix_unescape(t: Seq<char>) -> Option<Seq<char>>
    decreases t.len(),
{
    if t.len() == 0 {
        Some(Seq::empty())
    } else if t[0] == '\\' {
        if t.len() < 2 {
            None
        } else {
            match nix_unescape(t.skip(2)) {
                Some(rest) => Some(seq![nix_escaped_char(t[1])] + rest),
                None => None,
            }
        }
    } else if t[0] == '"' {
        None
    } else if t[0] == '$' && t.len() >= 2 && t[1] == '{' {
        None
    } else {
        match nix_unescape(t.drop_first()) {
            Some(rest) => Some(seq![t[0]] + rest),
            None => None,
        }
    }
}

/// The inside of a quoted text.
pub open spec fn unquoted(q: Seq<char>) -> Seq<char> {
    q.subrange(1, q.len() - 1)
}

/// Escaping one character at a time: what the three replacements of
/// `escape_nix` amount to.
pub open spec fn escape_nix_chars(s: Seq<char>) -> Seq<char>
    decreases s.len(),
{
    if s.len() == 0 {
        Seq::empty()
    } else if s[0] == '\\' {
        seq!['\\', '\\'] + escape_nix_chars(s.drop_first())
    } else if s[0] == '"' {
        seq!['\\', '"'] + escape_nix_chars(s.drop_first())
    } else if s[0] == '$' && s.len() >= 2 && s[1] == '{' {
        seq!['\\', '$', '{'] + escape_nix_chars(s.skip(2))
    } else {
        seq![s[0]] + escape_nix_chars(s.drop_first())
    }
}

/// The first two replacements of `escape_nix`.
pub open spec fn escape_slashes_quotes(s: Seq<char>) -> Seq<char> {
    replace_all(replace_all(s, seq!['\\'], seq!['\\', '\\']), seq!['"'], seq!['\\', '"'])
}

/// What the first two replacements make of one character.
pub open spec fn slash_quote_image(c: char) -> Seq<char> {
    if c == '\\' {
        seq!['\\', '\\']
    } else if c == '"' {
        seq!['\\', '"']
    } else {
        seq![c]
    }
}

proof fn lemma_reveal_patterns()
    ensures
        "\\"@ == seq!['\\'],
        "\\\\"@ == seq!['\\', '\\'],
        "\""@ == seq!['"'],
        "\\\""@ == seq!['\\', '"'],
        "${"@ == seq!['$', '{'],
        "\\${"@ == seq!['\\', '$', '{'],
{
    reveal_strlit("\\");
    reveal_strlit("\\\\");
    reveal_strlit("\"");
    reveal_strlit("\\\"");
    reveal_strlit("${");
    reveal_strlit("\\${");
}

proof fn lemma_replace_one_prepend(c: char, t: Seq<char>, p: char, rep: Seq<char>)
    ensures
        replace_all(seq![c] + t, seq![p], rep) == (if c == p {
            rep
        } else {
            seq![c]
        }) + replace_all(t, seq![p], rep),
{
    let s = seq![c] + t;
    assert(s.len() > 0);
    assert(s.skip(1) =~= t);
    assert(s.drop_first() =~= t);
    if c == p {
        assert(s.subrange(0, 1) =~= seq![p]);
    } else {
        assert(s.subrange(0, 1)[0] != seq![p][0]);
    }
}

proof fn lemma_replace_one_concat(a: Seq<char>, b: Seq<char>, p: char, rep: Seq<char>)
    ensures
        replace_all(a + b, seq![p], rep) == replace_all(a, seq![p], rep) + replace_all(
            b,
            seq![p],
            rep,
        ),
    decreases a.len(),
{
    if a.len() == 0 {
        assert(a + b =~= b);
        assert(replace_all(a, seq![p], rep) =~= Seq::<char>::empty());
    } else {
        let c = a[0];
        let r = a.drop_first();
        assert(a =~= seq![c] + r);
        assert(a + b =~= seq![c] + (r + b));
        lemma_replace_one_prepend(c, r + b, p, rep);
        lemma_replace_one_prepend(c, r, p, rep);
        lemma_replace_one_concat(r, b, p, rep);
    }
}

proof fn lemma_slash_quote_prepend(c: char, t: Seq<char>)
    ensures
        escape_slashes_quotes(seq![c] + t) == slash_quote_image(c) + escape_slashes_quotes(t),
{
    let r1 = replace_all(t, seq!['\\'], seq!['\\', '\\']);
    lemma_replace_one_prepend(c, t, '\\', seq!['\\', '\\']);
    if c == '\\' {
        lemma_replace_one_concat(seq!['\\', '\\'], r1, '"', seq!['\\', '"']);
        assert(seq!['\\', '\\'] =~= seq!['\\'] + seq!['\\']);
        lemma_replace_one_prepend('\\', seq!['\\'], '"', seq!['\\', '"']);
        lemma_replace_one_prepend('\\', Seq::empty(), '"', seq!['\\', '"']);
        assert(seq!['\\'] =~= seq!['\\'] + Seq::<char>::empty());
    } else {
        lemma_replace_one_prepend(c, r1, '"', seq!['\\', '"']);
    }
}

proof fn lemma_slash_quote_first(t: Seq<char>)
    ensures
        escape_slashes_quotes(t).len() == 0 <==> t.len() == 0,
        t.len() > 0 ==> (escape_slashes_quotes(t)[0] == '{' <==> t[0] == '{'),
        t.len() > 0 ==> (escape_slashes_quotes(t)[0] == '$' <==> t[0] == '$'),
{
    if t.len() == 0 {
        assert(replace_all(t, seq!['\\'], seq!['\\', '\\']).len() == 0);
    } else {
        assert(t =~= seq![t[0]] + t.drop_first());
        lemma_slash_quote_prepend(t[0], t.drop_first());
    }
}

/// Replacing `${` in a text that starts with a character other than `$`.
proof fn lemma_dollar_step(c: char, y: Seq<char>)
    requires
        c != '$',
    ensures
        replace_all(seq![c] + y, seq!['$', '{'], seq!['\\', '$', '{']) == seq![c] + replace_all(
            y,
            seq!['$', '{'],
            seq!['\\', '$', '{'],
        ),
{
    let s = seq![c] + y;
    assert(s.drop_first() =~= y);
    if occurs_at(s, seq!['$', '{'], 0) {
        assert(s.subrange(0, 2)[0] == '$');
    }
}

proof fn lemma_escape_nix_chars(s: Seq<char>)
    ensures
        replace_all(escape_slashes_quotes(s), seq!['$', '{'], seq!['\\', '$', '{'])
            == escape_nix_chars(s),
    decreases s.len(),
{
    let d = seq!['$', '{'];
    let bd = seq!['\\', '$', '{'];
    if s.len() == 0 {
        assert(replace_all(s, seq!['\\'], seq!['\\', '\\']).len() == 0);
        assert(escape_slashes_quotes(s).len() == 0);
    } else {
        let c = s[0];
        let r = s.drop_first();
        assert(s =~= seq![c] + r);
        lemma_slash_quote_prepend(c, r);
        let y = escape_slashes_quotes(r);
        if c == '\\' || c == '"' {
            let img = slash_quote_image(c);
            assert(img + y =~= seq!['\\'] + (seq![img[1]] + y));
            lemma_dollar_step('\\', seq![img[1]] + y);
            lemma_dollar_step(img[1], y);
            assert(seq!['\\'] + (seq![img[1]] + replace_all(y, d, bd)) =~= img + replace_all(
                y,
                d,
                bd,
            ));
            lemma_escape_nix_chars(r);
        } else if c == '$' && s.len() >= 2 && s[1] == '{' {
            let r2 = s.skip(2);
            assert(r =~= seq!['{'] + r2);
            lemma_slash_quote_prepend('{', r2);
            let z = escape_slashes_quotes(r2);
            let x = seq!['$'] + (seq!['{'] + z);
            assert(x =~= seq!['$', '{'] + z);
            assert(occurs_at(x, d, 0)) by {
                assert(x.subrange(0, 2) =~= d);
            }
            assert(x.skip(2) =~= z);
            lemma_escape_nix_chars(r2);
        } else if c == '$' {
            let x = seq!['$'] + y;
            lemma_slash_quote_first(r);
            assert(!occurs_at(x, d, 0)) by {
                if occurs_at(x, d, 0) {
                    assert(x.subrange(0, 2)[1] == '{');
                    assert(x[1] == y[0]);
                }
            }
            assert(x.drop_first() =~= y);
            lemma_escape_nix_chars(r);
        } else {
            lemma_dollar_step(c, y);
            lemma_escape_nix_chars(r);
        }
    }
}

proof fn lemma_escape_first(s: Seq<char>)
    requires
        s.len() > 0,
    ensures
        escape_nix_chars(s).len() > 0,
        escape_nix_chars(s)[0] == '{' <==> s[0] == '{',
{
}

proof fn lemma_unescape_escape(s: Seq<char>)
    ensures
        nix_unescape(escape_nix_chars(s)) == Some(s),
    decreases s.len(),
{
    if s.len() == 0 {
    } else {
        let c = s[0];
        let r = s.drop_first();
        let t = escape_nix_chars(s);
        if c == '\\' || c == '"' {
            lemma_unescape_escape(r);
            assert(t == seq!['\\', c] + escape_nix_chars(r));
            assert(t[0] == '\\' && t[1] == c);
            assert(t.skip(2) =~= escape_nix_chars(r));
            assert(nix_escaped_char(c) == c);
            assert(seq![c] + r =~= s);
        } else if c == '$' && s.len() >= 2 && s[1] == '{' {
            let r2 = s.skip(2);
            assert(t == seq!['\\', '$', '{'] + escape_nix_chars(r2));
            let u = t.skip(2);
            assert(u =~= seq!['{'] + escape_nix_chars(r2));
            assert(u.drop_first() =~= escape_nix_chars(r2));
            lemma_unescape_escape(r2);
            assert(nix_unescape(u) == Some(seq!['{'] + r2));
            assert(t[0] == '\\' && t[1] == '$');
            assert(seq!['$'] + (seq!['{'] + r2) =~= s);
        } else {
            assert(t == seq![c] + escape_nix_chars(r));
            assert(t.drop_first() =~= escape_nix_chars(r));
            if c == '$' && r.len() > 0 {
                lemma_escape_first(r);
                assert(t[1] == escape_nix_chars(r)[0]);
                assert(r[0] == s[1]);
            }
            lemma_unescape_escape(r);
            assert(seq![c] + r =~= s);
        }
    }
}

/// The three replacements of `escape_nix` escape one character at a time.
pub proof fn lemma_escape_nix_is_char_escape(s: Seq<char>)
    ensures
        escape_nix(s) == escape_nix_chars(s),
{
    lemma_reveal_patterns();
    lemma_escape_nix_chars(s);
}

/// Reading back the Nix string written for a Pkl string gives the Pkl
/// string again.
pub proof fn lemma_nix_string_reads_back(s: Seq<char>)
    ensures
        nix_string(s) == quoted(unquoted(nix_string(s))),
        nix_unescape(unquoted(nix_string(s))) == Some(s),
{
    lemma_escape_nix_is_char_escape(s);
    lemma_unescape_escape(s);
    let q = nix_string(s);
    assert(unquoted(q) =~= escape_nix_chars(s));
    assert(q =~= quoted(unquoted(q)));
}

/// Every attribute name reads back as itself: a plain identifier is
/// written as it is, any other name as a Nix string that reads back as the
/// name.
pub proof fn lemma_nix_key_reads_back(k: Seq<char>)
    ensures
        is_nix_ident(k) ==> nix_key(k) == k,
        !is_nix_ident(k) ==> nix_key(k) == quoted(unquoted(nix_key(k))) && nix_unescape(
            unquoted(nix_key(k)),
        ) == Some(k),
{
    if !is_nix_ident(k) {
        lemma_escape_nix_is_char_escape(k);
        lemma_unescape_escape(k);
        let q = nix_key(k);
        assert(unquoted(q) =~= escape_nix_chars(k));
        assert(q =~= quoted(unquoted(q)));
    }
}

/// Class identity is kept: an object made from a class, empty or not,
/// opens with `__pkl_class = "Name"; ` when class metadata is written, and
/// carries no class line when it is not.
pub proof fn lemma_class_name_preserved(v: PklValue, indent: nat, opts: SerializeOptions)
    requires
        v is Object,
        v->Object_1 is Some,
    ensures
        opts.class_metadata ==> nix_text(v, indent, opts) == "{ "@ + "__pkl_class = "@
            + nix_string((v->Object_1->Some_0)@) + "; "@ + nix_fields(
            v->Object_0@,
            indent + 2,
            opts,
        ) + "}"@,
        !opts.class_metadata && v->Object_0@.len() > 0 ==> nix_text(v, indent, opts) == "{ "@
            + nix_fields(v->Object_0@, indent + 2, opts) + "}"@,
        !opts.class_metadata && v->Object_0@.len() == 0 ==> nix_text(v, indent, opts) == "{ }"@,
{
    if opts.class_metadata {
        let h = class_header(v->Object_1, opts);
        assert(nix_string((v->Object_1->Some_0)@).len() >= 2);
        assert(h.len() > 0);
    }
}

/// The Nix text of one property, as `key = value; `, or nothing when the
/// property is left out.
pub open spec fn nix_field(e: (String, PklValue), indent: nat, opts: SerializeOptions) -> Seq<
    char,
> {
    if field_written(e.1, opts) {
        nix_key(e.0@) + " = "@ + nix_text(e.1, indent, opts) + "; "@
    } else {
        Seq::empty()
    }
}

/// An object's text lists its properties in their order: each further
/// property adds its own `key = value; ` after those before it.
pub proof fn lemma_object_fields_in_order(
    es: Seq<(String, PklValue)>,
    i: int,
    indent: nat,
    opts: SerializeOptions,
)
    requires
        0 <= i < es.len(),
    ensures
        nix_fields(es.take(i + 1), indent, opts) == nix_fields(es.take(i), indent, opts)
            + nix_field(es[i], indent, opts),
        nix_fields(es.take(es.len() as int), indent, opts) == nix_fields(es, indent, opts),
{
    assert(es.take(i + 1).drop_last() =~= es.take(i));
    assert(es.take(i + 1).last() == es[i]);
    assert(es.take(es.len() as int) =~= es);
}

proof fn lemma_escape_nix_chars_len(s: Seq<char>)
    ensures
        escape_nix_chars(s).len() >= s.len(),
    decreases s.len(),
{
    if s.len() > 0 {
        lemma_escape_nix_chars_len(s.drop_first());
        if s.len() >= 2 {
            lemma_escape_nix_chars_len(s.skip(2));
        }
    }
}

/// Scalars are written as Nix literals that read back as the same value:
/// `null`, the boolean literal of a boolean, the decimal literal of an
/// integer, and a string literal that reads back as the string (a lambda is
/// written as the string `<lambda>`).
pub proof fn lemma_nix_scalars_read_back(v: PklValue, indent: nat, opts: SerializeOptions)
    ensures
        v is Null ==> nix_text(v, indent, opts) == seq!['n', 'u', 'l', 'l'],
        v is Bool ==> read_bool(nix_text(v, indent, opts)) == Some(v->Bool_0),
        v is Int ==> read_decimal(nix_text(v, indent, opts)) == Some(v->Int_0 as int),
        v is String ==> nix_text(v, indent, opts) == quoted(unquoted(nix_text(v, indent, opts)))
            && nix_unescape(unquoted(nix_text(v, indent, opts))) == Some(v->String_0@),
        v is Lambda ==> nix_text(v, indent, opts) == quoted(unquoted(nix_text(v, indent, opts)))
            && nix_unescape(unquoted(nix_text(v, indent, opts))) == Some(
            seq!['<', 'l', 'a', 'm', 'b', 'd', 'a', '>'],
        ),
{
    lemma_bool_literals_read_back();
    match v {
        PklValue::Null => {
            reveal_strlit("null");
            assert("null"@ =~= seq!['n', 'u', 'l', 'l']);
        },
        PklValue::Int(n) => lemma_decimal_reads_back(n as int),
        PklValue::String(s) => lemma_nix_string_reads_back(s@),
        PklValue::Lambda => {
            reveal_strlit("\"<lambda>\"");
            let l = seq!['<', 'l', 'a', 'm', 'b', 'd', 'a', '>'];
            assert(nix_text(v, indent, opts) =~= quoted(l));
            assert(unquoted(quoted(l)) =~= l);
            lemma_nix_string_reads_back(l);
            lemma_escape_nix_is_char_escape(l);
            assert(escape_nix_chars(l) =~= l) by {
                reveal_with_fuel(escape_nix_chars, 9);
            }
        },
        _ => {},
    }
}

/// An attribute name is written bare exactly when it is a Nix identifier: an
/// ASCII letter or `_`, then ASCII letters, digits, `-`, `_` or `'`. Every
/// other name is written quoted (and reads back, by
/// `lemma_nix_key_reads_back`).
pub proof fn lemma_bare_keys_are_identifiers(k: Seq<char>)
    ensures
        nix_key(k) == k <==> {
            &&& k.len() > 0
            &&& ('a' <= k[0] <= 'z' || 'A' <= k[0] <= 'Z' || k[0] == '_')
            &&& forall|i: int|
                1 <= i < k.len() ==> ('a' <= k[i] <= 'z' || 'A' <= k[i] <= 'Z' || '0' <= k[i]
                    <= '9' || k[i] == '-' || k[i] == '_' || k[i] == '\'')
        },
{
    if !is_nix_ident(k) {
        lemma_escape_nix_is_char_escape(k);
        lemma_escape_nix_chars_len(k);
        assert(nix_key(k).len() > k.len());
    }
}

/// A property whose value is not `null` is always written as
/// `key = value; `; a `null` property is left out exactly when `null`
/// properties are not written.
pub proof fn lemma_which_fields_are_written(e: (String, PklValue), indent: nat, opts: SerializeOptions)
    ensures
        !(e.1 is Null) ==> nix_field(e, indent, opts) == nix_key(e.0@) + " = "@ + nix_text(
            e.1,
            indent,
            opts,
        ) + "; "@,
        e.1 is Null ==> (nix_field(e, indent, opts).len() == 0 <==> !opts.null_fields),
{
    if e.1 is Null && opts.null_fields {
        assert((nix_key(e.0@) + " = "@ + nix_text(e.1, indent, opts) + "; "@).len() >= nix_text(
            e.1,
            indent,
            opts,
        ).len());
        reveal_strlit("null");
    }
}

/// A list's text has its elements in their order, each on a line of its
/// own indented by `indent`.
pub proof fn lemma_list_items_in_order(
    items: Seq<PklValue>,
    i: int,
    indent: nat,
    opts: SerializeOptions,
)
    requires
        0 <= i < items.len(),
    ensures
        nix_items(items.take(i + 1), indent, opts) == nix_items(items.take(i), indent, opts)
            + spaces(indent) + nix_text(items[i], indent, opts) + seq!['\n'],
        nix_items(items.take(items.len() as int), indent, opts) == nix_items(items, indent, opts),
{
    reveal_strlit("\n");
    assert("\n"@ =~= seq!['\n']);
    assert(items.take(i + 1).drop_last() =~= items.take(i));
    assert(items.take(i + 1).last() == items[i]);
    assert(items.take(items.len() as int) =~= items);
}

/// The text written for a finite float keeps the float's own text in front
/// and is a float literal: it holds a point or an exponent, with at most
/// `.0` added.
pub proof fn lemma_float_text_is_float_literal(t: Seq<char>)
    ensures
        t.is_prefix_of(with_fraction(t)),
        with_fraction(t).contains('.') || with_fraction(t).contains('e') || with_fraction(
            t,
        ).contains('E'),
        with_fraction(t) == t || with_fraction(t) == t + seq!['.', '0'],
{
    reveal_strlit(".0");
    assert(".0"@ =~= seq!['.', '0']);
    if !t.contains('.') && !t.contains('e') && !t.contains('E') {
        let w = t + seq!['.', '0'];
        assert(w[t.len() as int] == '.');
        assert(w.subrange(0, t.len() as int) =~= t);
    } else {
        assert(t.subrange(0, t.len() as int) =~= t);
    }
}

} // verus!
