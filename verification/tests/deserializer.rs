use pklx::deserializer::{
    pkl_string_literal, variant_result, DeFailure, MapCursor, PklDeserializeError, Request,
    SeqCursor, Step, ValueKind, VariantForm, key_request_step, value_request_step,
};

#[test]
fn pkl_string_literal_escapes_correctly() {
    assert_eq!(
        pkl_string_literal("quote: \" newline:\n slash: \\"),
        "\"quote: \\\" newline:\\n slash: \\\\\""
    );
}

#[test]
fn pkl_string_literal_roundtrip() {
    let s = "hello world";
    let literal = pkl_string_literal(s);
    assert_eq!(literal, "\"hello world\"");
}

#[test]
fn pkl_string_literal_control_characters() {
    assert_eq!(pkl_string_literal("a\tb\rc"), "\"a\\tb\\rc\"");
    assert_eq!(pkl_string_literal("\u{1}"), "\"\\u{0001}\"");
    assert_eq!(pkl_string_literal("\u{7f}\u{9f}"), "\"\\u{007f}\\u{009f}\"");
    assert_eq!(pkl_string_literal(""), "\"\"");
    assert_eq!(pkl_string_literal("ünï ${x}"), "\"ünï ${x}\"");
}

#[test]
fn error_text() {
    let e = PklDeserializeError::custom("boom".to_string());
    assert_eq!(e.message(), "boom");
    assert_eq!(e.to_string(), "Pkl deserialization error: boom");
}

#[test]
fn failure_messages() {
    let cases = [
        (DeFailure::Lambda, "lambda expressions cannot be deserialized"),
        (DeFailure::SingleCharacter, "expected single character"),
        (DeFailure::Bytes, "bytes not supported"),
        (DeFailure::ByteBuf, "byte buffers not supported"),
        (DeFailure::KeyUnit, "expected string, found unit for map key"),
        (DeFailure::KeySeq, "expected string, found sequence for map key"),
        (DeFailure::KeyMap, "expected string, found map for map key"),
        (DeFailure::NewtypeVariant, "unit enum expected, found newtype variant"),
        (DeFailure::TupleVariant, "unit enum expected, found tuple variant"),
        (DeFailure::StructVariant, "unit enum expected, found struct variant"),
    ];
    for (f, m) in cases {
        assert_eq!(PklDeserializeError::from_failure(f).message(), m);
    }
}

#[test]
fn typed_requests_on_matching_values() {
    assert_eq!(value_request_step(&ValueKind::Null, Request::Unit), Step::VisitUnit);
    assert_eq!(value_request_step(&ValueKind::Bool(true), Request::Bool), Step::VisitBool(true));
    assert_eq!(value_request_step(&ValueKind::Int(42), Request::I32), Step::VisitI64(42));
    assert_eq!(value_request_step(&ValueKind::Int(7), Request::U8), Step::VisitI64(7));
    assert_eq!(value_request_step(&ValueKind::Float, Request::F64), Step::VisitF64);
    assert_eq!(
        value_request_step(&ValueKind::String("hello".into()), Request::String),
        Step::VisitBorrowedStr
    );
    assert_eq!(value_request_step(&ValueKind::List, Request::Sequence), Step::VisitSeq);
    assert_eq!(value_request_step(&ValueKind::Object, Request::Struct), Step::VisitMap);
    assert_eq!(
        value_request_step(&ValueKind::String("admin".into()), Request::Enum),
        Step::VisitEnum
    );
}

#[test]
fn mismatched_requests_fall_back_to_the_value() {
    assert_eq!(value_request_step(&ValueKind::Int(3), Request::Bool), Step::VisitI64(3));
    assert_eq!(value_request_step(&ValueKind::Object, Request::Sequence), Step::VisitMap);
    assert_eq!(value_request_step(&ValueKind::Int(1), Request::F64), Step::VisitI64(1));
    assert_eq!(
        value_request_step(&ValueKind::Lambda, Request::Mapping),
        Step::Fail(DeFailure::Lambda)
    );
}

#[test]
fn options_and_chars() {
    assert_eq!(value_request_step(&ValueKind::Null, Request::Option), Step::VisitNone);
    assert_eq!(value_request_step(&ValueKind::Int(42), Request::Option), Step::VisitSome);
    assert_eq!(
        value_request_step(&ValueKind::String("é".into()), Request::Char),
        Step::VisitChar('é')
    );
    assert_eq!(
        value_request_step(&ValueKind::String("ab".into()), Request::Char),
        Step::Fail(DeFailure::SingleCharacter)
    );
    assert_eq!(
        value_request_step(&ValueKind::String("".into()), Request::Char),
        Step::Fail(DeFailure::SingleCharacter)
    );
    assert_eq!(value_request_step(&ValueKind::Null, Request::Bytes), Step::Fail(DeFailure::Bytes));
    assert_eq!(
        value_request_step(&ValueKind::Null, Request::ByteBuf),
        Step::Fail(DeFailure::ByteBuf)
    );
    assert_eq!(value_request_step(&ValueKind::List, Request::IgnoredAny), Step::VisitUnit);
    assert_eq!(
        value_request_step(&ValueKind::Null, Request::NewtypeStruct),
        Step::VisitNewtypeStruct
    );
}

#[test]
fn key_requests() {
    assert_eq!(key_request_step(Request::Str), Step::VisitBorrowedStr);
    assert_eq!(key_request_step(Request::I32), Step::VisitBorrowedStr);
    assert_eq!(key_request_step(Request::String), Step::VisitOwnedString);
    assert_eq!(key_request_step(Request::Unit), Step::Fail(DeFailure::KeyUnit));
    assert_eq!(key_request_step(Request::Tuple), Step::Fail(DeFailure::KeySeq));
    assert_eq!(key_request_step(Request::Struct), Step::Fail(DeFailure::KeyMap));
    assert_eq!(key_request_step(Request::Enum), Step::VisitEnum);
    assert_eq!(key_request_step(Request::Option), Step::VisitSome);
}

#[test]
fn variants() {
    assert!(variant_result(VariantForm::Unit).is_ok());
    assert_eq!(
        variant_result(VariantForm::Newtype).unwrap_err().message(),
        "unit enum expected, found newtype variant"
    );
    assert_eq!(
        variant_result(VariantForm::Tuple).unwrap_err().message(),
        "unit enum expected, found tuple variant"
    );
    assert_eq!(
        variant_result(VariantForm::Struct).unwrap_err().message(),
        "unit enum expected, found struct variant"
    );
}

#[test]
fn cursors_walk_in_order() {
    let mut s = SeqCursor::new(2);
    assert_eq!(s.next_element(), Some(0));
    assert_eq!(s.next_element(), Some(1));
    assert_eq!(s.next_element(), None);

    let mut m = MapCursor::new(2);
    assert_eq!(m.next_value(), None);
    assert_eq!(m.next_key(), Some(0));
    assert_eq!(m.next_value(), Some(0));
    assert_eq!(m.next_value(), None);
    assert_eq!(m.next_key(), Some(1));
    assert_eq!(m.next_value(), Some(1));
    assert_eq!(m.next_key(), None);
}
