//! Pkl string literals, and the decisions of the deserializer that turns an
//! evaluated Pkl value into Rust data: which visitor call answers which
//! request, which requests fail and with what message, and the order in
//! which list elements and object properties are handed out.
use vstd::prelude::*;

use crate::text::{
    chars_of, control_char, hex_char, hex_digit_of, is_control_char, push_str, string_of,
};

verus! {

broadcast use vstd::string::group_string_axioms;

// ---------------------------------------------------------------------------
// Pkl string literals
// ---------------------------------------------------------------------------

/// Four lowercase hexadecimal digits of `u` (for `u < 0x10000`).
pub open spec fn hex4(u: nat) -> Seq<char> {
    seq![hex_char((u / 4096) % 16), hex_char((u / 256) % 16), hex_char((u / 16) % 16), hex_char(u % 16)]
}

/// How one character is written inside a Pkl string literal.
pub open spec fn pkl_escape_char(c: char) -> Seq<char> {
    if c == '"' {
        seq!['\\', '"']
    } else if c == '\\' {
        seq!['\\', '\\']
    } else if c == '\n' {
        seq!['\\', 'n']
    } else if c == '\r' {
        seq!['\\', 'r']
    } else if c == '\t' {
        seq!['\\', 't']
    } else if is_control_char(c) {
        seq!['\\', 'u', '{'] + hex4((c as u32) as nat) + seq!['}']
    } else {
        seq![c]
    }
}

/// The body of the Pkl string literal of `s`.
pub open spec fn pkl_escaped(s: Seq<char>) -> Seq<char>
    decreases s.len(),
{
    if s.len() == 0 {
        Seq::empty()
    } else {
        pkl_escape_char(s[0]) + pkl_escaped(s.drop_first())
    }
}

/// The Pkl string literal of `s`.
pub open spec fn pkl_literal(s: Seq<char>) -> Seq<char> {
    seq!['"'] + pkl_escaped(s) + seq!['"']
}

fn push_pkl_escaped(out: &mut Vec<char>, c: char)
    ensures
        final(out)@ == old(out)@ + pkl_escape_char(c),
{
    if c == '"' {
        out.push('\\');
        out.push('"');
    } else if c == '\\' {
        out.push('\\');
        out.push('\\');
    } else if c == '\n' {
        out.push('\\');
        out.push('n');
    } else if c == '\r' {
        out.push('\\');
        out.push('r');
    } else if c == '\t' {
        out.push('\\');
        out.push('t');
    } else if control_char(c) {
        let u = c as u32;
        out.push('\\');
        out.push('u');
        out.push('{');
        out.push(hex_digit_of((u / 4096) % 16));
        out.push(hex_digit_of((u / 256) % 16));
        out.push(hex_digit_of((u / 16) % 16));
        out.push(hex_digit_of(u % 16));
        out.push('}');
    } else {
        out.push(c);
    }
}

/// Appends the Pkl string literal of `cs`.
pub(crate) fn push_pkl_literal(out: &mut Vec<char>, cs: &Vec<char>)
    ensures
        final(out)@ == old(out)@ + pkl_literal(cs@),
{
    let ghost start = out@;
    out.push('"');
    let mut i: usize = 0;
    assert(cs@.skip(0) =~= cs@);
    while i < cs.len()
        invariant
            i <= cs@.len(),
            start + pkl_literal(cs@) == out@ + pkl_escaped(cs@.skip(i as int)) + seq!['"'],
        decreases cs@.len() - i,
    {
        push_pkl_escaped(out, cs[i]);
        assert(cs@.skip(i as int).drop_first() =~= cs@.skip(i + 1));
        i = i + 1;
    }
    assert(cs@.skip(i as int) =~= Seq::<char>::empty());
    out.push('"');
}

/// `value` as a double-quoted Pkl string literal: `"` and `\` are escaped
/// with a backslash, line feed, carriage return and tab are written `\n`,
/// `\r` and `\t`, other control characters `\u{...}` with four hexadecimal
/// digits.
pub fn pkl_string_literal(value: &str) -> (r: String)
    ensures
        r@ == pkl_literal(value@),
{
    let cs = chars_of(value);
    let mut out: Vec<char> = Vec::new();
    push_pkl_literal(&mut out, &cs);
    string_of(&out)
}

// ---------------------------------------------------------------------------
// Errors
// ---------------------------------------------------------------------------

/// Why a value could not be deserialized.
#[derive(Debug, Clone, Copy, PartialEq, Eq, Structural)]
pub enum DeFailure {
    /// A lambda has no data form.
    Lambda,
    /// A `char` was requested from a string that is not one character long.
    SingleCharacter,
    /// Byte strings are not supported.
    Bytes,
    /// Byte buffers are not supported.
    ByteBuf,
    /// A property key was asked for as unit.
    KeyUnit,
    /// A property key was asked for as a sequence.
    KeySeq,
    /// A property key was asked for as a map.
    KeyMap,
    /// An enum variant with one field was requested.
    NewtypeVariant,
    /// An enum variant with unnamed fields was requested.
    TupleVariant,
    /// An enum variant with named fields was requested.
    StructVariant,
}

/// The message that each failure carries.
pub open spec fn failure_message(f: DeFailure) -> Seq<char> {
    match f {
        DeFailure::Lambda => "lambda expressions cannot be deserialized"@,
        DeFailure::SingleCharacter => "expected single character"@,
        DeFailure::Bytes => "bytes not supported"@,
        DeFailure::ByteBuf => "byte buffers not supported"@,
        DeFailure::KeyUnit => "expected string, found unit for map key"@,
        DeFailure::KeySeq => "expected string, found sequence for map key"@,
        DeFailure::KeyMap => "expected string, found map for map key"@,
        DeFailure::NewtypeVariant => "unit enum expected, found newtype variant"@,
        DeFailure::TupleVariant => "unit enum expected, found tuple variant"@,
        DeFailure::StructVariant => "unit enum expected, found struct variant"@,
    }
}

/// An error raised while deserializing a Pkl value; it carries a message.
#[derive(Debug)]
pub struct PklDeserializeError {
    message: String,
}

impl View for PklDeserializeError {
    type V = Seq<char>;

    closed spec fn view(&self) -> Seq<char> {
        self.message@
    }
}

impl PklDeserializeError {
    /// An error with the given message.
    pub fn custom(message: String) -> (e: Self)
        ensures
            e@ == message@,
    {
        PklDeserializeError { message }
    }

    /// The error of a failure.
    pub fn from_failure(f: DeFailure) -> (e: Self)
        ensures
            e@ == failure_message(f),
    {
        let message = match f {
            DeFailure::Lambda => "lambda expressions cannot be deserialized",
            DeFailure::SingleCharacter => "expected single character",
            DeFailure::Bytes => "bytes not supported",
            DeFailure::ByteBuf => "byte buffers not supported",
            DeFailure::KeyUnit => "expected string, found unit for map key",
            DeFailure::KeySeq => "expected string, found sequence for map key",
            DeFailure::KeyMap => "expected string, found map for map key",
            DeFailure::NewtypeVariant => "unit enum expected, found newtype variant",
            DeFailure::TupleVariant => "unit enum expected, found tuple variant",
            DeFailure::StructVariant => "unit enum expected, found struct variant",
        };
        PklDeserializeError { message: message.to_owned() }
    }

    /// The message.
    pub fn message(&self) -> (m: &str)
        ensures
            m@ == self@,
    {
        self.message.as_str()
    }

    /// The error as text: `Pkl deserialization error: ` and the message.
    pub fn to_string(&self) -> (t: String)
        ensures
            t@ == "Pkl deserialization error: "@ + self@,
    {
        let mut out: Vec<char> = Vec::new();
        push_str(&mut out, "Pkl deserialization error: ");
        push_str(&mut out, self.message.as_str());
        string_of(&out)
    }
}

// ---------------------------------------------------------------------------
// Which visitor call answers which request
// ---------------------------------------------------------------------------

/// The outer shape of a Pkl value, as far as the deserializer looks at it:
/// scalars with their contents, containers and floats by kind alone.
#[derive(Debug)]
pub enum ValueKind {
    Null,
    Bool(bool),
    Int(i64),
    Float,
    String(String),
    Object,
    List,
    Lambda,
}

/// What the caller asks the deserializer for (one request for each
/// `deserialize_*` entry point).
#[derive(Debug, Clone, Copy, PartialEq, Eq, Structural)]
pub enum Request {
    Any,
    Bool,
    I8,
    I16,
    I32,
    I64,
    U8,
    U16,
    U32,
    U64,
    F32,
    F64,
    Char,
    Str,
    String,
    Bytes,
    ByteBuf,
    Option,
    Unit,
    UnitStruct,
    NewtypeStruct,
    Sequence,
    Tuple,
    TupleStruct,
    Mapping,
    Struct,
    Enum,
    Identifier,
    IgnoredAny,
}

/// The visitor call that answers a request, or the failure that does.
#[derive(Debug, Clone, Copy, PartialEq, Eq, Structural)]
pub enum Step {
    /// `visit_unit`
    VisitUnit,
    /// `visit_bool`
    VisitBool(bool),
    /// `visit_i64`
    VisitI64(i64),
    /// `visit_f64` with the value's float
    VisitF64,
    /// `visit_borrowed_str` with the string
    VisitBorrowedStr,
    /// `visit_string` with a copy of the string
    VisitOwnedString,
    /// `visit_char`
    VisitChar(char),
    /// `visit_map` over the object's properties
    VisitMap,
    /// `visit_seq` over the list's elements
    VisitSeq,
    /// `visit_none`
    VisitNone,
    /// `visit_some` with the same value
    VisitSome,
    /// `visit_newtype_struct` with the same value
    VisitNewtypeStruct,
    /// `visit_enum` with the string as the variant's name
    VisitEnum,
    /// An error
    Fail(DeFailure),
}

pub open spec fn is_int_request(r: Request) -> bool {
    r == Request::I8 || r == Request::I16 || r == Request::I32 || r == Request::I64 || r
        == Request::U8 || r == Request::U16 || r == Request::U32 || r == Request::U64
}

/// The self-describing answer: what the value itself is.
pub open spec fn any_step(k: ValueKind) -> Step {
    match k {
        ValueKind::Null => Step::VisitUnit,
        ValueKind::Bool(b) => Step::VisitBool(b),
        ValueKind::Int(n) => Step::VisitI64(n),
        ValueKind::Float => Step::VisitF64,
        ValueKind::String(_) => Step::VisitBorrowedStr,
        ValueKind::Object => Step::VisitMap,
        ValueKind::List => Step::VisitSeq,
        ValueKind::Lambda => Step::Fail(DeFailure::Lambda),
    }
}

/// The answer to request `r` on a value of kind `k`: a typed request that
/// the value matches is answered directly, one it does not match falls back
/// to the self-describing answer.
pub open spec fn value_step(k: ValueKind, r: Request) -> Step {
    match r {
        Request::Any => any_step(k),
        Request::Bool => match k {
            ValueKind::Bool(b) => Step::VisitBool(b),
            _ => any_step(k),
        },
        Request::I8 | Request::I16 | Request::I32 | Request::I64 | Request::U8 | Request::U16
        | Request::U32 | Request::U64 => match k {
            ValueKind::Int(n) => Step::VisitI64(n),
            _ => any_step(k),
        },
        Request::F32 | Request::F64 => match k {
            ValueKind::Float => Step::VisitF64,
            _ => any_step(k),
        },
        Request::Char => match k {
            ValueKind::String(s) => if s@.len() == 1 {
                Step::VisitChar(s@[0])
            } else {
                Step::Fail(DeFailure::SingleCharacter)
            },
            _ => any_step(k),
        },
        Request::Str | Request::String | Request::Identifier => match k {
            ValueKind::String(_) => Step::VisitBorrowedStr,
            _ => any_step(k),
        },
        Request::Bytes => Step::Fail(DeFailure::Bytes),
        Request::ByteBuf => Step::Fail(DeFailure::ByteBuf),
        Request::Option => match k {
            ValueKind::Null => Step::VisitNone,
            _ => Step::VisitSome,
        },
        Request::Unit | Request::UnitStruct => match k {
            ValueKind::Null => Step::VisitUnit,
            _ => any_step(k),
        },
        Request::NewtypeStruct => Step::VisitNewtypeStruct,
        Request::Sequence | Request::Tuple | Request::TupleStruct => match k {
            ValueKind::List => Step::VisitSeq,
            _ => any_step(k),
        },
        Request::Mapping | Request::Struct => match k {
            ValueKind::Object => Step::VisitMap,
            _ => any_step(k),
        },
        Request::Enum => match k {
            ValueKind::String(_) => Step::VisitEnum,
            _ => any_step(k),
        },
        Request::IgnoredAny => Step::VisitUnit,
    }
}

/// The answer to request `r` on a property key (a string).
pub open spec fn key_step(r: Request) -> Step {
    match r {
        Request::String => Step::VisitOwnedString,
        Request::Bytes => Step::Fail(DeFailure::Bytes),
        Request::ByteBuf => Step::Fail(DeFailure::ByteBuf),
        Request::Option => Step::VisitSome,
        Request::Unit | Request::UnitStruct => Step::Fail(DeFailure::KeyUnit),
        Request::NewtypeStruct => Step::VisitNewtypeStruct,
        Request::Sequence | Request::Tuple | Request::TupleStruct => Step::Fail(DeFailure::KeySeq),
        Request::Mapping | Request::Struct => Step::Fail(DeFailure::KeyMap),
        Request::Enum => Step::VisitEnum,
        Request::IgnoredAny => Step::VisitUnit,
        _ => Step::VisitBorrowedStr,
    }
}

fn any_value_step(k: &ValueKind) -> (s: Step)
    ensures
        s == any_step(*k),
{
    match k {
        ValueKind::Null => Step::VisitUnit,
        ValueKind::Bool(b) => Step::VisitBool(*b),
        ValueKind::Int(n) => Step::VisitI64(*n),
        ValueKind::Float => Step::VisitF64,
        ValueKind::String(_) => Step::VisitBorrowedStr,
        ValueKind::Object => Step::VisitMap,
        ValueKind::List => Step::VisitSeq,
        ValueKind::Lambda => Step::Fail(DeFailure::Lambda),
    }
}

fn char_step(s: &String) -> (r: Step)
    ensures
        r == (if s@.len() == 1 {
            Step::VisitChar(s@[0])
        } else {
            Step::Fail(DeFailure::SingleCharacter)
        }),
{
    let cs = chars_of(s.as_str());
    if cs.len() == 1 {
        Step::VisitChar(cs[0])
    } else {
        Step::Fail(DeFailure::SingleCharacter)
    }
}

/// How the deserializer answers request `r` on a value of kind `k`.
pub fn value_request_step(k: &ValueKind, r: Request) -> (s: Step)
    ensures
        s == value_step(*k, r),
{
    match r {
        Request::Any => any_value_step(k),
        Request::Bool => match k {
            ValueKind::Bool(b) => Step::VisitBool(*b),
            _ => any_value_step(k),
        },
        Request::I8 | Request::I16 | Request::I32 | Request::I64 | Request::U8 | Request::U16
        | Request::U32 | Request::U64 => match k {
            ValueKind::Int(n) => Step::VisitI64(*n),
            _ => any_value_step(k),
        },
        Request::F32 | Request::F64 => match k {
            ValueKind::Float => Step::VisitF64,
            _ => any_value_step(k),
        },
        Request::Char => match k {
            ValueKind::String(s) => char_step(s),
            _ => any_value_step(k),
        },
        Request::Str | Request::String | Request::Identifier => match k {
            ValueKind::String(_) => Step::VisitBorrowedStr,
            _ => any_value_step(k),
        },
        Request::Bytes => Step::Fail(DeFailure::Bytes),
        Request::ByteBuf => Step::Fail(DeFailure::ByteBuf),
        Request::Option => match k {
            ValueKind::Null => Step::VisitNone,
            _ => Step::VisitSome,
        },
        Request::Unit | Request::UnitStruct => match k {
            ValueKind::Null => Step::VisitUnit,
            _ => any_value_step(k),
        },
        Request::NewtypeStruct => Step::VisitNewtypeStruct,
        Request::Sequence | Request::Tuple | Request::TupleStruct => match k {
            ValueKind::List => Step::VisitSeq,
            _ => any_value_step(k),
        },
        Request::Mapping | Request::Struct => match k {
            ValueKind::Object => Step::VisitMap,
            _ => any_value_step(k),
        },
        Request::Enum => match k {
            ValueKind::String(_) => Step::VisitEnum,
            _ => any_value_step(k),
        },
        Request::IgnoredAny => Step::VisitUnit,
    }
}

/// How the deserializer answers request `r` on a property key.
pub fn key_request_step(r: Request) -> (s: Step)
    ensures
        s == key_step(r),
{
    match r {
        Request::String => Step::VisitOwnedString,
        Request::Bytes => Step::Fail(DeFailure::Bytes),
        Request::ByteBuf => Step::Fail(DeFailure::ByteBuf),
        Request::Option => Step::VisitSome,
        Request::Unit | Request::UnitStruct => Step::Fail(DeFailure::KeyUnit),
        Request::NewtypeStruct => Step::VisitNewtypeStruct,
        Request::Sequence | Request::Tuple | Request::TupleStruct => Step::Fail(DeFailure::KeySeq),
        Request::Mapping | Request::Struct => Step::Fail(DeFailure::KeyMap),
        Request::Enum => Step::VisitEnum,
        Request::IgnoredAny => Step::VisitUnit,
        _ => Step::VisitBorrowedStr,
    }
}

/// The shape of the enum variant that a caller expects after reading a
/// variant name.
#[derive(Debug, Clone, Copy, PartialEq, Eq, Structural)]
pub enum VariantForm {
    Unit,
    Newtype,
    Tuple,
    Struct,
}

/// The failure for each variant shape other than unit.
pub open spec fn variant_failure(form: VariantForm) -> Option<DeFailure> {
    match form {
        VariantForm::Unit => None,
        VariantForm::Newtype => Some(DeFailure::NewtypeVariant),
        VariantForm::Tuple => Some(DeFailure::TupleVariant),
        VariantForm::Struct => Some(DeFailure::StructVariant),
    }
}

/// Only unit variants can be read from a string; any other shape fails.
pub fn variant_result(form: VariantForm) -> (r: Result<(), PklDeserializeError>)
    ensures
        match variant_failure(form) {
            None => r is Ok,
            Some(f) => r is Err && r->Err_0@ == failure_message(f),
        },
{
    match form {
        VariantForm::Unit => Ok(()),
        VariantForm::Newtype => Err(PklDeserializeError::from_failure(DeFailure::NewtypeVariant)),
        VariantForm::Tuple => Err(PklDeserializeError::from_failure(DeFailure::TupleVariant)),
        VariantForm::Struct => Err(PklDeserializeError::from_failure(DeFailure::StructVariant)),
    }
}

// ---------------------------------------------------------------------------
// Handing out list elements and object properties
// ---------------------------------------------------------------------------

/// Walks the elements of a list of `len` elements, front to back.
#[derive(Debug)]
pub struct SeqCursor {
    pub len: usize,
    pub pos: usize,
}

impl SeqCursor {
    pub fn new(len: usize) -> (c: Self)
        ensures
            c.len == len,
            c.pos == 0,
    {
        SeqCursor { len, pos: 0 }
    }

    /// The index of the next element, or `None` once all were handed out.
    pub fn next_element(&mut self) -> (r: Option<usize>)
        ensures
            old(self).pos < old(self).len ==> r == Some(old(self).pos) && final(self).pos == old(
                self,
            ).pos + 1,
            old(self).pos >= old(self).len ==> r.is_none() && final(self).pos == old(self).pos,
            final(self).len == old(self).len,
    {
        if self.pos < self.len {
            let i = self.pos;
            self.pos = self.pos + 1;
            Some(i)
        } else {
            None
        }
    }
}

/// Walks the properties of an object with `len` properties, front to back:
/// each key is handed out first, and its value after it.
#[derive(Debug)]
pub struct MapCursor {
    pub len: usize,
    pub pos: usize,
    /// The property whose key was handed out and whose value was not.
    pub pending: Option<usize>,
}

/// The cursor after a key is asked for.
pub open spec fn after_key(c: MapCursor) -> MapCursor {
    if c.pos < c.len {
        MapCursor { len: c.len, pos: (c.pos + 1) as usize, pending: Some(c.pos) }
    } else {
        c
    }
}

/// The key index handed out when a key is asked for.
pub open spec fn key_answer(c: MapCursor) -> Option<usize> {
    if c.pos < c.len {
        Some(c.pos)
    } else {
        None
    }
}

/// The cursor after a value is asked for.
pub open spec fn after_value(c: MapCursor) -> MapCursor {
    MapCursor { len: c.len, pos: c.pos, pending: None }
}

impl MapCursor {
    pub fn new(len: usize) -> (c: Self)
        ensures
            c.len == len,
            c.pos == 0,
            c.pending.is_none(),
    {
        MapCursor { len, pos: 0, pending: None }
    }

    /// The index of the next property, whose key is handed out now; `None`
    /// once all were handed out.
    pub fn next_key(&mut self) -> (r: Option<usize>)
        ensures
            r == key_answer(*old(self)),
            *final(self) == after_key(*old(self)),
    {
        if self.pos < self.len {
            let i = self.pos;
            self.pos = self.pos + 1;
            self.pending = Some(i);
            Some(i)
        } else {
            None
        }
    }

    /// The index of the property whose value is due: the one whose key was
    /// handed out last. `None` when no key is waiting for its value.
    pub fn next_value(&mut self) -> (r: Option<usize>)
        ensures
            r == old(self).pending,
            *final(self) == after_value(*old(self)),
    {
        let r = self.pending;
        self.pending = None;
        r
    }
}

// ---------------------------------------------------------------------------
// Laws
// ---------------------------------------------------------------------------

/// What a backslash followed by `c` stands for in a Pkl string literal, for
/// the escapes that stand for one character.
pub open spec fn pkl_simple_escape(c: char) -> Option<char> {
    if c == 'n' {
        Some('\n')
    } else if c == 'r' {
        Some('\r')
    } else if c == 't' {
        Some('\t')
    } else if c == '"' {
        Some('"')
    } else if c == '\\' {
        Some('\\')
    } else {
        None
    }
}

/// The value of a hexadecimal digit.
pub open spec fn hex_digit_value(c: char) -> Option<nat> {
    if '0' <= c && c <= '9' {
        Some((c as nat - '0' as nat) as nat)
    } else if 'a' <= c && c <= 'f' {
        Some((c as nat - 'a' as nat + 10) as nat)
    } else if 'A' <= c && c <= 'F' {
        Some((c as nat - 'A' as nat + 10) as nat)
    } else {
        None
    }
}

/// The number that a run of hexadecimal digits denotes.
pub open spec fn hex_number(ds: Seq<char>) -> Option<nat>
    decreases ds.len(),
{
    if ds.len() == 0 {
        Some(0)
    } else {
        match (hex_number(ds.drop_last()), hex_digit_value(ds.last())) {
            (Some(a), Some(b)) => Some(a * 16 + b),
            _ => None,
        }
    }
}

/// The position of the first `}` at or after `k` (the length if none).
pub open spec fn close_brace(t: Seq<char>, k: int) -> int
    decreases t.len() - k,
{
    if k < 0 || k >= t.len() {
        t.len() as int
    } else if t[k] == '}' {
        k
    } else {
        close_brace(t, k + 1)
    }
}

/// A Unicode scalar value.
pub open spec fn is_char_code(n: nat) -> bool {
    n <= 0x10FFFF && !(0xD800 <= n && n <= 0xDFFF)
}

/// The text that the body of a single-line Pkl string literal stands for,
/// read from left to right with Pkl's escapes (`\n`, `\r`, `\t`, `\"`, `\\`
/// and `\u{hex}`); `None` where the body holds an unescaped `"`, a raw line
/// break, or any other escape (such as an interpolation `\(`).
pub open spec fn pkl_unescape(t: Seq<char>) -> Option<Seq<char>>
    decreases t.len(),
{
    if t.len() == 0 {
        Some(Seq::empty())
    } else if t[0] == '\\' {
        if t.len() < 2 {
            None
        } else if t[1] == 'u' {
            let j = close_brace(t, 3);
            if t.len() >= 3 && t[2] == '{' && 3 < j < t.len() {
                match (hex_number(t.subrange(3, j)), pkl_unescape(t.skip(j + 1))) {
                    (Some(n), Some(rest)) => if is_char_code(n) {
                        Some(seq![(n as u32) as char] + rest)
                    } else {
                        None
                    },
                    _ => None,
                }
            } else {
                None
            }
        } else {
            match (pkl_simple_escape(t[1]), pkl_unescape(t.skip(2))) {
                (Some(c), Some(rest)) => Some(seq![c] + rest),
                _ => None,
            }
        }
    } else if t[0] == '"' || t[0] == '\n' || t[0] == '\r' {
        None
    } else {
        match pkl_unescape(t.drop_first()) {
            Some(rest) => Some(seq![t[0]] + rest),
            None => None,
        }
    }
}

proof fn lemma_hex_char_value(d: nat)
    requires
        d < 16,
    ensures
        hex_digit_value(hex_char(d)) == Some(d),
        hex_char(d) != '}',
{
    let ds = seq!['0', '1', '2', '3', '4', '5', '6', '7', '8', '9', 'a', 'b', 'c', 'd', 'e', 'f'];
    assert(hex_char(d) == ds[d as int]);
    if d < 10 {
        assert(ds[d as int] as nat == '0' as nat + d);
    } else {
        assert(ds[d as int] as nat == 'a' as nat + d - 10);
    }
}

proof fn lemma_hex4_value(u: nat)
    requires
        u < 0x10000,
    ensures
        hex_number(hex4(u)) == Some(u),
{
    let h = hex4(u);
    let a = (u / 4096) % 16;
    let b = (u / 256) % 16;
    let c = (u / 16) % 16;
    let e = u % 16;
    lemma_hex_char_value(a);
    lemma_hex_char_value(b);
    lemma_hex_char_value(c);
    lemma_hex_char_value(e);
    let h1 = seq![hex_char(a)];
    let h2 = seq![hex_char(a), hex_char(b)];
    let h3 = seq![hex_char(a), hex_char(b), hex_char(c)];
    assert(h1.drop_last() =~= Seq::<char>::empty());
    assert(hex_number(Seq::<char>::empty()) == Some(0nat));
    assert(h1.last() == hex_char(a));
    assert(hex_number(h1) == Some(a));
    assert(h2.drop_last() =~= h1);
    assert(h2.last() == hex_char(b));
    assert(hex_number(h2) == Some(a * 16 + b));
    assert(h3.drop_last() =~= h2);
    assert(h3.last() == hex_char(c));
    assert(hex_number(h3) == Some((a * 16 + b) * 16 + c));
    assert(h.drop_last() =~= h3);
    assert(h.last() == hex_char(e));
    let w = u as u32;
    assert(((w / 4096 % 16) * 16 + w / 256 % 16) * 16 * 16 + (w / 16 % 16) * 16 + w % 16 == w)
        by (bit_vector)
        requires
            w < 0x10000,
    ;
    assert(((a * 16 + b) * 16 + c) * 16 + e == u);
}

/// Reading back the Pkl string literal of any string gives the string.
pub proof fn lemma_pkl_string_literal_reads_back(s: Seq<char>)
    ensures
        pkl_literal(s) == seq!['"'] + pkl_escaped(s) + seq!['"'],
        pkl_unescape(pkl_escaped(s)) == Some(s),
    decreases s.len(),
{
    if s.len() > 0 {
        let c = s[0];
        let r = s.drop_first();
        lemma_pkl_string_literal_reads_back(r);
        let t = pkl_escaped(s);
        assert(t == pkl_escape_char(c) + pkl_escaped(r));
        if c == '"' || c == '\\' || c == '\n' || c == '\r' || c == '\t' {
            assert(t.skip(2) =~= pkl_escaped(r));
            assert(t[0] == '\\');
        } else if is_control_char(c) {
            let u = (c as u32) as nat;
            assert(u <= 0x9F);
            let h = hex4(u);
            lemma_hex4_value(u);
            lemma_hex_char_value((u / 4096) % 16);
            lemma_hex_char_value((u / 256) % 16);
            lemma_hex_char_value((u / 16) % 16);
            lemma_hex_char_value(u % 16);
            let p = seq!['\\', 'u', '{'] + h + seq!['}'];
            assert(pkl_escape_char(c) == p);
            assert(p.len() == 8);
            assert(t.subrange(0, 8) =~= p);
            assert(t[0] == '\\' && t[1] == 'u' && t[2] == '{');
            assert(t[3] == h[0] && t[4] == h[1] && t[5] == h[2] && t[6] == h[3] && t[7] == '}');
            assert(close_brace(t, 7) == 7);
            assert(close_brace(t, 6) == 7);
            assert(close_brace(t, 5) == 7);
            assert(close_brace(t, 4) == 7);
            assert(close_brace(t, 3) == 7);
            assert(t.subrange(3, 7) =~= h);
            assert(t.skip(8) =~= pkl_escaped(r));
            assert(is_char_code(u));
            vstd::utf8::char_u32_cast(c, c as u32);
            assert((u as u32) as char == c);
        } else {
            assert(pkl_escape_char(c) == seq![c]);
            assert(t.drop_first() =~= pkl_escaped(r));
        }
        assert(seq![c] + r =~= s);
    }
}

/// A typed request matches a value of kind `k` when the deserializer can
/// answer it from the value directly.
pub open spec fn request_matches(k: ValueKind, r: Request) -> bool {
    match r {
        Request::Bool => k is Bool,
        Request::I8 | Request::I16 | Request::I32 | Request::I64 | Request::U8 | Request::U16
        | Request::U32 | Request::U64 => k is Int,
        Request::F32 | Request::F64 => k is Float,
        Request::Char | Request::Str | Request::String | Request::Identifier | Request::Enum => k is String,
        Request::Unit | Request::UnitStruct => k is Null,
        Request::Sequence | Request::Tuple | Request::TupleStruct => k is List,
        Request::Mapping | Request::Struct => k is Object,
        _ => true,
    }
}

/// A typed request on a value of another kind is answered as if nothing
/// were requested: by what the value itself is.
pub proof fn lemma_mismatch_falls_back(k: ValueKind, r: Request)
    requires
        !request_matches(k, r),
    ensures
        value_step(k, r) == value_step(k, Request::Any),
{
}

/// An optional value is absent exactly when the Pkl value is `null`.
pub proof fn lemma_option_absent_iff_null(k: ValueKind)
    ensures
        value_step(k, Request::Option) == (if k is Null {
            Step::VisitNone
        } else {
            Step::VisitSome
        }),
{
}

/// Properties are handed out in order, and the value asked for after a key
/// is that key's value.
pub proof fn lemma_value_follows_key(c: MapCursor)
    requires
        c.pos < c.len,
    ensures
        key_answer(c) == Some(c.pos),
        after_key(c).pos == c.pos + 1,
        after_key(c).pending == key_answer(c),
        after_value(after_key(c)).pending.is_none(),
{
}

/// The cursor after `i` rounds of asking for a key and then its value.
pub open spec fn after_rounds(c: MapCursor, i: nat) -> MapCursor
    decreases i,
{
    if i == 0 {
        c
    } else {
        after_value(after_key(after_rounds(c, (i - 1) as nat)))
    }
}

/// Walking an object of `n` properties from a fresh cursor, asking in turn
/// for a key and its value: round `i` hands out key `i` and then value `i`
/// while `i < n`, and every round from the `n`-th on hands out no key and
/// leaves the cursor as it is.
pub proof fn lemma_map_walk(n: usize, i: nat)
    ensures
        ({
            let c = after_rounds(MapCursor { len: n, pos: 0, pending: None }, i);
            &&& c.len == n
            &&& c.pending.is_none()
            &&& c.pos == if i < n {
                i
            } else {
                n as nat
            }
            &&& i < n ==> key_answer(c) == Some(i as usize) && after_key(c).pending == Some(
                i as usize,
            )
            &&& i >= n ==> key_answer(c).is_none() && after_key(c) == c
        }),
    decreases i,
{
    if i > 0 {
        lemma_map_walk(n, (i - 1) as nat);
    }
}

/// The list cursor after `i` calls for the next element.
pub open spec fn after_elements(c: SeqCursor, i: nat) -> SeqCursor
    decreases i,
{
    if i == 0 {
        c
    } else {
        let p = after_elements(c, (i - 1) as nat);
        if p.pos < p.len {
            SeqCursor { len: p.len, pos: (p.pos + 1) as usize }
        } else {
            p
        }
    }
}

/// From a fresh cursor over `n` elements, the `i`-th call hands out element
/// `i` while `i < n`, and no element afterwards.
pub proof fn lemma_seq_walk(n: usize, i: nat)
    ensures
        ({
            let c = after_elements(SeqCursor { len: n, pos: 0 }, i);
            &&& c.len == n
            &&& c.pos == if i < n {
                i
            } else {
                n as nat
            }
        }),
    decreases i,
{
    if i > 0 {
        lemma_seq_walk(n, (i - 1) as nat);
    }
}

/// Whatever is asked for, the data the deserializer hands to the visitor is
/// the value's own: a boolean, integer or character visit carries the
/// value's boolean, integer or (only) character, a float, string, enum, map
/// or sequence visit happens only on a float, string, object or list, and
/// `None` or a unit only on `null` (a unit also when the value is ignored).
pub proof fn lemma_visits_carry_the_value(k: ValueKind, r: Request)
    ensures
        match value_step(k, r) {
            Step::VisitBool(b) => k is Bool && k->Bool_0 == b,
            Step::VisitI64(n) => k is Int && k->Int_0 == n,
            Step::VisitChar(c) => k is String && k->String_0@ == seq![c],
            Step::VisitF64 => k is Float,
            Step::VisitBorrowedStr => k is String,
            Step::VisitEnum => k is String,
            Step::VisitMap => k is Object,
            Step::VisitSeq => k is List,
            Step::VisitNone => k is Null,
            Step::VisitUnit => k is Null || r == Request::IgnoredAny,
            Step::VisitOwnedString => false,
            _ => true,
        },
{
    if let ValueKind::String(s) = k {
        if r == Request::Char && s@.len() == 1 {
            assert(s@ =~= seq![s@[0]]);
        }
    }
}

/// A request that the value answers is answered by the visit of its own
/// kind, never by a failure: a boolean request on a boolean by a boolean
/// visit, an integer request on an integer by an integer visit, a float
/// request on a float by a float visit, a string request on a string by a
/// string visit, a sequence request on a list by a sequence visit, a map or
/// struct request on an object by a map visit, a unit request on `null` by
/// a unit visit, an enum request on a string by an enum visit.
pub proof fn lemma_matching_requests_are_answered(k: ValueKind, r: Request)
    ensures
        r == Request::Bool && k is Bool ==> value_step(k, r) is VisitBool,
        (r == Request::I8 || r == Request::I16 || r == Request::I32 || r == Request::I64 || r
            == Request::U8 || r == Request::U16 || r == Request::U32 || r == Request::U64) && k is Int
            ==> value_step(k, r) is VisitI64,
        (r == Request::F32 || r == Request::F64) && k is Float ==> value_step(k, r) is VisitF64,
        (r == Request::Str || r == Request::String || r == Request::Identifier) && k is String
            ==> value_step(k, r) is VisitBorrowedStr,
        (r == Request::Sequence || r == Request::Tuple || r == Request::TupleStruct) && k is List
            ==> value_step(k, r) is VisitSeq,
        (r == Request::Mapping || r == Request::Struct) && k is Object ==> value_step(
            k,
            r,
        ) is VisitMap,
        (r == Request::Unit || r == Request::UnitStruct) && k is Null ==> value_step(
            k,
            r,
        ) is VisitUnit,
        r == Request::Enum && k is String ==> value_step(k, r) is VisitEnum,
        r == Request::Any && !(k is Lambda) ==> !(value_step(k, r) is Fail),
{
}

/// A property key is text: asked for as anything but a structure it is
/// visited as its string (borrowed, or as an owned copy when a `String` is
/// asked for), it is visited as a unit only when ignored, and only byte,
/// unit, sequence and map requests fail.
pub proof fn lemma_keys_are_text(r: Request)
    ensures
        (r == Request::Any || r == Request::Bool || r == Request::I8 || r == Request::I16 || r
            == Request::I32 || r == Request::I64 || r == Request::U8 || r == Request::U16 || r
            == Request::U32 || r == Request::U64 || r == Request::F32 || r == Request::F64 || r
            == Request::Char || r == Request::Str || r == Request::Identifier) ==> key_step(r)
            == Step::VisitBorrowedStr,
        r == Request::String ==> key_step(r) == Step::VisitOwnedString,
        key_step(r) == Step::VisitUnit ==> r == Request::IgnoredAny,
        key_step(r) is Fail ==> (r == Request::Bytes || r == Request::ByteBuf || r == Request::Unit
            || r == Request::UnitStruct || r == Request::Sequence || r == Request::Tuple || r
            == Request::TupleStruct || r == Request::Mapping || r == Request::Struct),
{
}

/// A value fails to deserialize only when it is a lambda, when a single
/// character is asked of a string that is not one, or when bytes are asked
/// for.
pub proof fn lemma_value_failures(k: ValueKind, r: Request)
    ensures
        value_step(k, r) is Fail ==> k is Lambda || (r == Request::Char && k is String
            && k->String_0@.len() != 1) || r == Request::Bytes || r == Request::ByteBuf,
        value_step(k, r) == Step::Fail(DeFailure::Lambda) ==> k is Lambda,
{
}

} // verus!
