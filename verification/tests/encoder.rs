use rustache::encoder::{Encoder, Error};
use rustache::node::Value;
use rustache::EmptyContext;

fn text(value: &str) -> Value {
    Value::String(value.to_string())
}

#[test]
fn numbers_become_their_decimal_form() {
    assert_eq!(Encoder::new().serialize_u8(0), Ok(text("0")));
    assert_eq!(Encoder::new().serialize_u8(255), Ok(text("255")));
    assert_eq!(Encoder::new().serialize_u16(65535), Ok(text("65535")));
    assert_eq!(Encoder::new().serialize_u32(1000), Ok(text("1000")));
    assert_eq!(Encoder::new().serialize_u64(u64::MAX), Ok(text("18446744073709551615")));
    assert_eq!(Encoder::new().serialize_i8(-128), Ok(text("-128")));
    assert_eq!(Encoder::new().serialize_i16(-7), Ok(text("-7")));
    assert_eq!(Encoder::new().serialize_i32(42), Ok(text("42")));
    assert_eq!(Encoder::new().serialize_i64(i64::MIN), Ok(text("-9223372036854775808")));
    assert_eq!(Encoder::new().serialize_i64(i64::MAX), Ok(text("9223372036854775807")));
    assert_eq!(Encoder::new().serialize_i64(-10), Ok(text("-10")));
}

#[test]
fn single_values() {
    assert_eq!(Encoder::new().serialize_bool(true), Ok(Value::Bool(true)));
    assert_eq!(Encoder::new().serialize_char('\u{e9}'), Ok(text("\u{e9}")));
    assert_eq!(Encoder::new().serialize_str("abc"), Ok(text("abc")));
    assert_eq!(Encoder::new().serialize_none(), Ok(Value::Null));
    assert_eq!(Encoder::new().serialize_unit(), Ok(Value::Null));
    assert_eq!(Encoder::new().serialize_unit_struct("Unit"), Ok(Value::Null));
    assert_eq!(Encoder::new().serialize_unit_variant("Enum", 1, "Variant"), Ok(text("Variant")));
    assert_eq!(
        Encoder::new().serialize_bytes(&[0, 9, 10, 255]),
        Ok(Value::Vec(vec![text("0"), text("9"), text("10"), text("255")]))
    );
    assert_eq!(EmptyContext.to_value(), Value::Null);
}

#[test]
fn sequence_is_built_item_by_item() {
    let mut builder = Encoder::new().serialize_seq(Some(2)).unwrap();
    assert_eq!(builder.serialize_element(text("a")), Ok(()));
    assert_eq!(builder.serialize_field(Value::Bool(false)), Ok(()));
    assert_eq!(builder.end(), Ok(Value::Vec(vec![text("a"), Value::Bool(false)])));
    let empty = Encoder::new().serialize_tuple(0).unwrap();
    assert_eq!(empty.end(), Ok(Value::Vec(vec![])));
    let unit = Encoder::new().serialize_tuple_struct("Pair", 2).unwrap();
    assert_eq!(unit.end(), Ok(Value::Vec(vec![])));
}

#[test]
fn tuple_variant_is_an_object_of_one_field() {
    let mut builder = Encoder::new().serialize_tuple_variant("Enum", 0, "Point", 2).unwrap();
    assert_eq!(builder.serialize_field(text("1")), Ok(()));
    assert_eq!(builder.serialize_field(text("2")), Ok(()));
    assert_eq!(
        builder.end(),
        Ok(Value::Object(vec![("Point".to_string(), Value::Vec(vec![text("1"), text("2")]))]))
    );
}

#[test]
fn map_is_built_key_by_key() {
    let mut builder = Encoder::new().serialize_map(None).unwrap();
    assert_eq!(builder.serialize_key(text("a")), Ok(()));
    assert_eq!(builder.serialize_value(text("1")), Ok(()));
    assert_eq!(builder.serialize_field("b", Value::Null), Ok(()));
    assert_eq!(
        builder.end(),
        Ok(Value::Object(vec![("a".to_string(), text("1")), ("b".to_string(), Value::Null)]))
    );
    let empty = Encoder::new().serialize_struct("Empty", 0).unwrap();
    assert_eq!(empty.end(), Ok(Value::Object(vec![])));
}

#[test]
fn key_that_is_no_string_is_refused() {
    let mut builder = Encoder::new().serialize_map(Some(1)).unwrap();
    assert_eq!(builder.serialize_key(Value::Bool(true)), Err(Error::KeyIsNotString));
    assert_eq!(builder.serialize_key(Value::Null), Err(Error::KeyIsNotString));
    assert_eq!(builder.end(), Ok(Value::Object(vec![])));
}

#[test]
fn value_without_key_is_refused() {
    let mut builder = Encoder::new().serialize_map(Some(1)).unwrap();
    assert_eq!(builder.serialize_value(text("1")), Err(Error::MissingElements));
    assert_eq!(builder.serialize_key(text("a")), Ok(()));
    assert_eq!(builder.serialize_value(text("1")), Ok(()));
    assert_eq!(builder.serialize_value(text("2")), Err(Error::MissingElements));
    assert_eq!(builder.end(), Ok(Value::Object(vec![("a".to_string(), text("1"))])));
}

#[test]
fn struct_variant_is_an_object_of_one_field() {
    let mut builder = Encoder::new().serialize_struct_variant("Enum", 0, "Shape", 1).unwrap();
    assert_eq!(builder.serialize_field("side", text("3")), Ok(()));
    assert_eq!(
        builder.end(),
        Ok(Value::Object(vec![(
            "Shape".to_string(),
            Value::Object(vec![("side".to_string(), text("3"))])
        )]))
    );
}

#[test]
fn messages_of_the_encoder_errors() {
    assert_eq!(Error::UnsupportedType("f128".to_string()).message(), "unsupported type: f128");
    assert_eq!(Error::KeyIsNotString.message(), "key is not string");
    assert_eq!(Error::MissingElements.message(), "missing elements");
    assert_eq!(Error::custom("boom"), Error::Message("boom".to_string()));
    assert_eq!(Error::custom("boom").message(), "boom");
}
