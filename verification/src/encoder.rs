//! The encoder: values of other kinds become values that a template can be
//! rendered against.
//!
//! A number, a character and a string become a string, a boolean stays a
//! boolean, and what is absent becomes the null value. Sequences, maps and
//! the variants of an enum are built piece by piece.
use vstd::prelude::*;
use crate::node::{Value, ValueModel, field_models, value_models, lemma_value_parts};
use crate::text::{char_string, decimal, decimal_string, signed_decimal, signed_decimal_string};

verus! {

/// Why a value cannot be encoded.
#[derive(Debug, PartialEq, Eq)]
pub enum Error {
    /// A value of a kind that has no encoding.
    UnsupportedType(String),
    /// The key of a map is no string.
    KeyIsNotString,
    /// A map was given a value before a key.
    MissingElements,
    /// Another failure, in words.
    Message(String),
}

/// The mathematical value of an [`Error`].
pub ghost enum ErrorModel {
    UnsupportedType(Seq<char>),
    KeyIsNotString,
    MissingElements,
    Message(Seq<char>),
}

impl View for Error {
    type V = ErrorModel;

    open spec fn view(&self) -> ErrorModel {
        match self {
            Error::UnsupportedType(kind) => ErrorModel::UnsupportedType(kind@),
            Error::KeyIsNotString => ErrorModel::KeyIsNotString,
            Error::MissingElements => ErrorModel::MissingElements,
            Error::Message(text) => ErrorModel::Message(text@),
        }
    }
}

impl Clone for Error {
    fn clone(&self) -> (copy: Error)
        ensures
            copy@ == self@,
    {
        match self {
            Error::UnsupportedType(kind) => Error::UnsupportedType(kind.clone()),
            Error::KeyIsNotString => Error::KeyIsNotString,
            Error::MissingElements => Error::MissingElements,
            Error::Message(text) => Error::Message(text.clone()),
        }
    }
}

/// The message of an error.
pub open spec fn error_text(error: ErrorModel) -> Seq<char> {
    match error {
        ErrorModel::UnsupportedType(kind) => "unsupported type: "@ + kind,
        ErrorModel::KeyIsNotString => "key is not string"@,
        ErrorModel::MissingElements => "missing elements"@,
        ErrorModel::Message(text) => text,
    }
}

impl Error {
    /// An error that says `message`.
    pub fn custom(message: &str) -> (error: Error)
        ensures
            error@ == ErrorModel::Message(message@),
    {
        Error::Message(String::from_str(message))
    }

    /// The message of this error.
    pub fn message(&self) -> (text: String)
        ensures
            text@ == error_text(self@),
    {
        match self {
            Error::UnsupportedType(kind) => String::from_str("unsupported type: ").concat(
                kind.as_str(),
            ),
            Error::KeyIsNotString => String::from_str("key is not string"),
            Error::MissingElements => String::from_str("missing elements"),
            Error::Message(text) => text.clone(),
        }
    }
}

/// An encoded value, or why there is none.
pub open spec fn encoded(result: Result<Value, Error>) -> Result<ValueModel, ErrorModel> {
    match result {
        Ok(value) => Ok(value@),
        Err(error) => Err(error@),
    }
}

/// The string value of the decimal form of `n`.
pub open spec fn number(n: int) -> Result<ValueModel, ErrorModel> {
    Ok(ValueModel::String(signed_decimal(n)))
}

/// The string values of the decimal forms of `bytes`.
pub open spec fn byte_values(bytes: Seq<u8>) -> Seq<ValueModel> {
    Seq::new(bytes.len(), |i: int| ValueModel::String(decimal(bytes[i] as nat)))
}

/// The object with the one field `name`.
pub open spec fn tagged(name: Seq<char>, value: ValueModel) -> ValueModel {
    ValueModel::Object(seq![(name, value)])
}

/// The encoder of single values, and the maker of the builders.
#[derive(Debug)]
pub struct Encoder;

impl Encoder {
    /// An encoder.
    pub fn new() -> Encoder {
        Encoder
    }

    /// A boolean stays a boolean.
    pub fn serialize_bool(self, v: bool) -> (result: Result<Value, Error>)
        ensures
            encoded(result) == Ok::<ValueModel, ErrorModel>(ValueModel::Bool(v)),
    {
        Ok(Value::Bool(v))
    }

    /// A number becomes its decimal form.
    pub fn serialize_i8(self, v: i8) -> (result: Result<Value, Error>)
        ensures
            encoded(result) == number(v as int),
    {
        Ok(Value::String(signed_decimal_string(v as i64)))
    }

    /// A number becomes its decimal form.
    pub fn serialize_i16(self, v: i16) -> (result: Result<Value, Error>)
        ensures
            encoded(result) == number(v as int),
    {
        Ok(Value::String(signed_decimal_string(v as i64)))
    }

    /// A number becomes its decimal form.
    pub fn serialize_i32(self, v: i32) -> (result: Result<Value, Error>)
        ensures
            encoded(result) == number(v as int),
    {
        Ok(Value::String(signed_decimal_string(v as i64)))
    }

    /// A number becomes its decimal form.
    pub fn serialize_i64(self, v: i64) -> (result: Result<Value, Error>)
        ensures
            encoded(result) == number(v as int),
    {
        Ok(Value::String(signed_decimal_string(v)))
    }

    /// A number becomes its decimal form.
    pub fn serialize_u8(self, v: u8) -> (result: Result<Value, Error>)
        ensures
            encoded(result) == number(v as int),
    {
        Ok(Value::String(decimal_string(v as u64)))
    }

    /// A number becomes its decimal form.
    pub fn serialize_u16(self, v: u16) -> (result: Result<Value, Error>)
        ensures
            encoded(result) == number(v as int),
    {
        Ok(Value::String(decimal_string(v as u64)))
    }

    /// A number becomes its decimal form.
    pub fn serialize_u32(self, v: u32) -> (result: Result<Value, Error>)
        ensures
            encoded(result) == number(v as int),
    {
        Ok(Value::String(decimal_string(v as u64)))
    }

    /// A number becomes its decimal form.
    pub fn serialize_u64(self, v: u64) -> (result: Result<Value, Error>)
        ensures
            encoded(result) == number(v as int),
    {
        Ok(Value::String(decimal_string(v)))
    }

    /// A character becomes the string that holds it.
    pub fn serialize_char(self, v: char) -> (result: Result<Value, Error>)
        ensures
            encoded(result) == Ok::<ValueModel, ErrorModel>(ValueModel::String(seq![v])),
    {
        Ok(Value::String(char_string(v)))
    }

    /// A string stays a string.
    pub fn serialize_str(self, v: &str) -> (result: Result<Value, Error>)
        ensures
            encoded(result) == Ok::<ValueModel, ErrorModel>(ValueModel::String(v@)),
    {
        Ok(Value::String(String::from_str(v)))
    }

    /// Bytes become a sequence of their decimal forms.
    pub fn serialize_bytes(self, v: &[u8]) -> (result: Result<Value, Error>)
        ensures
            encoded(result) == Ok::<ValueModel, ErrorModel>(ValueModel::Vec(byte_values(v@))),
    {
        let mut items: Vec<Value> = Vec::new();
        let mut i: usize = 0;
        while i < v.len()
            invariant
                i <= v@.len(),
                items@.len() == i,
                forall|j: int|
                    0 <= j < i ==> (#[trigger] items@[j])@ == ValueModel::String(
                        decimal(v@[j] as nat),
                    ),
            decreases v@.len() - i,
        {
            items.push(Value::String(decimal_string(v[i] as u64)));
            i = i + 1;
        }
        assert(value_models(items@) =~= byte_values(v@));
        let value = Value::Vec(items);
        proof {
            lemma_value_parts(value);
        }
        Ok(value)
    }

    /// What is absent becomes the null value.
    pub fn serialize_none(self) -> (result: Result<Value, Error>)
        ensures
            encoded(result) == Ok::<ValueModel, ErrorModel>(ValueModel::Null),
    {
        Ok(Value::Null)
    }

    /// The unit becomes the null value.
    pub fn serialize_unit(self) -> (result: Result<Value, Error>)
        ensures
            encoded(result) == Ok::<ValueModel, ErrorModel>(ValueModel::Null),
    {
        Ok(Value::Null)
    }

    /// A struct without fields becomes the null value.
    pub fn serialize_unit_struct(self, _name: &str) -> (result: Result<Value, Error>)
        ensures
            encoded(result) == Ok::<ValueModel, ErrorModel>(ValueModel::Null),
    {
        Ok(Value::Null)
    }

    /// A variant without fields becomes its name.
    pub fn serialize_unit_variant(self, _name: &str, _variant_index: u32, variant: &str) -> (result:
        Result<Value, Error>)
        ensures
            encoded(result) == Ok::<ValueModel, ErrorModel>(ValueModel::String(variant@)),
    {
        Ok(Value::String(String::from_str(variant)))
    }

    /// The builder of a sequence, empty yet.
    pub fn serialize_seq(self, len: Option<usize>) -> (result: Result<SerializeVec, Error>)
        ensures
            result is Ok,
            result->Ok_0@ == Seq::<ValueModel>::empty(),
    {
        let builder = SerializeVec { vec: Vec::new() };
        assert(builder@ =~= Seq::<ValueModel>::empty());
        Ok(builder)
    }

    /// The builder of a tuple, which becomes a sequence.
    pub fn serialize_tuple(self, len: usize) -> (result: Result<SerializeVec, Error>)
        ensures
            result is Ok,
            result->Ok_0@ == Seq::<ValueModel>::empty(),
    {
        self.serialize_seq(Some(len))
    }

    /// The builder of a struct with unnamed fields, which becomes a
    /// sequence.
    pub fn serialize_tuple_struct(self, _name: &str, len: usize) -> (result: Result<
        SerializeVec,
        Error,
    >)
        ensures
            result is Ok,
            result->Ok_0@ == Seq::<ValueModel>::empty(),
    {
        self.serialize_seq(Some(len))
    }

    /// The builder of the variant `variant` with unnamed fields.
    pub fn serialize_tuple_variant(
        self,
        _name: &str,
        _variant_index: u32,
        variant: &str,
        len: usize,
    ) -> (result: Result<SerializeTupleVariant, Error>)
        ensures
            result is Ok,
            result->Ok_0.name() == variant@,
            result->Ok_0.items() == Seq::<ValueModel>::empty(),
    {
        let builder = SerializeTupleVariant { name: String::from_str(variant), vec: Vec::new() };
        assert(builder.items() =~= Seq::<ValueModel>::empty());
        Ok(builder)
    }

    /// The builder of a map, empty yet.
    pub fn serialize_map(self, len: Option<usize>) -> (result: Result<SerializeMap, Error>)
        ensures
            result is Ok,
            result->Ok_0.fields() == Seq::<(Seq<char>, ValueModel)>::empty(),
            result->Ok_0.next_key() is None,
    {
        let builder = SerializeMap { map: Vec::new(), next_key: None };
        assert(builder.fields() =~= Seq::<(Seq<char>, ValueModel)>::empty());
        Ok(builder)
    }

    /// The builder of a struct, which becomes an object.
    pub fn serialize_struct(self, _name: &str, len: usize) -> (result: Result<SerializeMap, Error>)
        ensures
            result is Ok,
            result->Ok_0.fields() == Seq::<(Seq<char>, ValueModel)>::empty(),
            result->Ok_0.next_key() is None,
    {
        self.serialize_map(Some(len))
    }

    /// The builder of the variant `variant` with named fields.
    pub fn serialize_struct_variant(
        self,
        _name: &str,
        _variant_index: u32,
        variant: &str,
        len: usize,
    ) -> (result: Result<SerializeStructVariant, Error>)
        ensures
            result is Ok,
            result->Ok_0.name() == variant@,
            result->Ok_0.fields() == Seq::<(Seq<char>, ValueModel)>::empty(),
    {
        let builder = SerializeStructVariant { name: String::from_str(variant), map: Vec::new() };
        assert(builder.fields() =~= Seq::<(Seq<char>, ValueModel)>::empty());
        Ok(builder)
    }
}

/// The builder of a sequence.
#[derive(Debug)]
pub struct SerializeVec {
    vec: Vec<Value>,
}

impl View for SerializeVec {
    type V = Seq<ValueModel>;

    /// The items so far.
    closed spec fn view(&self) -> Seq<ValueModel> {
        value_models(self.vec@)
    }
}

impl SerializeVec {
    /// Adds an item behind the others.
    pub fn serialize_element(&mut self, value: Value) -> (result: Result<(), Error>)
        ensures
            result is Ok,
            final(self)@ == old(self)@.push(value@),
    {
        self.vec.push(value);
        assert(value_models(self.vec@) =~= value_models(old(self).vec@).push(value@));
        Ok(())
    }

    /// Adds an item behind the others.
    pub fn serialize_field(&mut self, value: Value) -> (result: Result<(), Error>)
        ensures
            result is Ok,
            final(self)@ == old(self)@.push(value@),
    {
        self.serialize_element(value)
    }

    /// The sequence of the items.
    pub fn end(self) -> (result: Result<Value, Error>)
        ensures
            encoded(result) == Ok::<ValueModel, ErrorModel>(ValueModel::Vec(self@)),
    {
        let value = Value::Vec(self.vec);
        proof {
            lemma_value_parts(value);
        }
        Ok(value)
    }
}

/// The builder of a variant with unnamed fields.
#[derive(Debug)]
pub struct SerializeTupleVariant {
    name: String,
    vec: Vec<Value>,
}

impl SerializeTupleVariant {
    /// The name of the variant.
    pub closed spec fn name(&self) -> Seq<char> {
        self.name@
    }

    /// The fields so far.
    pub closed spec fn items(&self) -> Seq<ValueModel> {
        value_models(self.vec@)
    }

    /// Adds a field behind the others.
    pub fn serialize_field(&mut self, value: Value) -> (result: Result<(), Error>)
        ensures
            result is Ok,
            final(self).name() == old(self).name(),
            final(self).items() == old(self).items().push(value@),
    {
        self.vec.push(value);
        assert(value_models(self.vec@) =~= value_models(old(self).vec@).push(value@));
        Ok(())
    }

    /// The object whose one field, named as the variant, holds the
    /// sequence of the fields.
    pub fn end(self) -> (result: Result<Value, Error>)
        ensures
            encoded(result) == Ok::<ValueModel, ErrorModel>(
                tagged(self.name(), ValueModel::Vec(self.items())),
            ),
    {
        let items = Value::Vec(self.vec);
        proof {
            lemma_value_parts(items);
        }
        let mut object: Vec<(String, Value)> = Vec::new();
        object.push((self.name, items));
        let value = Value::Object(object);
        proof {
            lemma_value_parts(value);
            assert(field_models(object@) =~= seq![(self.name(), items@)]);
        }
        Ok(value)
    }
}

/// The builder of a map and of a struct.
#[derive(Debug)]
pub struct SerializeMap {
    map: Vec<(String, Value)>,
    next_key: Option<String>,
}

impl SerializeMap {
    /// The fields so far.
    pub closed spec fn fields(&self) -> Seq<(Seq<char>, ValueModel)> {
        field_models(self.map@)
    }

    /// The key that waits for its value.
    pub closed spec fn next_key(&self) -> Option<Seq<char>> {
        match self.next_key {
            Some(key) => Some(key@),
            None => None,
        }
    }

    /// Takes the key of the next field, which has to be a string.
    pub fn serialize_key(&mut self, key: Value) -> (result: Result<(), Error>)
        ensures
            final(self).fields() == old(self).fields(),
            key@ is String ==> result is Ok && final(self).next_key() == Some(key@->String_0),
            !(key@ is String) ==> result is Err && result->Err_0@ == ErrorModel::KeyIsNotString
                && final(self).next_key() == old(self).next_key(),
    {
        match key {
            Value::String(name) => {
                self.next_key = Some(name);
                Ok(())
            },
            _ => Err(Error::KeyIsNotString),
        }
    }

    /// Takes the value of the field whose key waits.
    pub fn serialize_value(&mut self, value: Value) -> (result: Result<(), Error>)
        ensures
            final(self).next_key() is None,
            match old(self).next_key() {
                Some(key) => result is Ok && final(self).fields() == old(self).fields().push(
                    (key, value@),
                ),
                None => result is Err && result->Err_0@ == ErrorModel::MissingElements
                    && final(self).fields() == old(self).fields(),
            },
    {
        match self.next_key.take() {
            Some(key) => {
                self.map.push((key, value));
                assert(field_models(self.map@) =~= field_models(old(self).map@).push(
                    (key@, value@),
                ));
                Ok(())
            },
            None => Err(Error::MissingElements),
        }
    }

    /// Adds the field `key`.
    pub fn serialize_field(&mut self, key: &str, value: Value) -> (result: Result<(), Error>)
        ensures
            result is Ok,
            final(self).next_key() is None,
            final(self).fields() == old(self).fields().push((key@, value@)),
    {
        self.next_key = Some(String::from_str(key));
        self.serialize_value(value)
    }

    /// The object of the fields.
    pub fn end(self) -> (result: Result<Value, Error>)
        ensures
            encoded(result) == Ok::<ValueModel, ErrorModel>(ValueModel::Object(self.fields())),
    {
        let value = Value::Object(self.map);
        proof {
            lemma_value_parts(value);
        }
        Ok(value)
    }
}

/// The builder of a variant with named fields.
#[derive(Debug)]
pub struct SerializeStructVariant {
    name: String,
    map: Vec<(String, Value)>,
}

impl SerializeStructVariant {
    /// The name of the variant.
    pub closed spec fn name(&self) -> Seq<char> {
        self.name@
    }

    /// The fields so far.
    pub closed spec fn fields(&self) -> Seq<(Seq<char>, ValueModel)> {
        field_models(self.map@)
    }

    /// Adds the field `key`.
    pub fn serialize_field(&mut self, key: &str, value: Value) -> (result: Result<(), Error>)
        ensures
            result is Ok,
            final(self).name() == old(self).name(),
            final(self).fields() == old(self).fields().push((key@, value@)),
    {
        let key = String::from_str(key);
        self.map.push((key, value));
        assert(field_models(self.map@) =~= field_models(old(self).map@).push((key@, value@)));
        Ok(())
    }

    /// The object whose one field, named as the variant, holds the object
    /// of the fields.
    pub fn end(self) -> (result: Result<Value, Error>)
        ensures
            encoded(result) == Ok::<ValueModel, ErrorModel>(
                tagged(self.name(), ValueModel::Object(self.fields())),
            ),
    {
        let fields = Value::Object(self.map);
        proof {
            lemma_value_parts(fields);
        }
        let mut object: Vec<(String, Value)> = Vec::new();
        object.push((self.name, fields));
        let value = Value::Object(object);
        proof {
            lemma_value_parts(value);
            assert(field_models(object@) =~= seq![(self.name(), fields@)]);
        }
        Ok(value)
    }
}

} // verus!
