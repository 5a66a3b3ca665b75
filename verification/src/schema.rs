//! Field schemas: the ordered list of named, typed fields that a packet's
//! payload is made of, and what such a list reads from and writes to the wire.

use crate::data_types::{MCCodec, MCDecode, MCEncode, PrefixedArray, PrefixedOptional, Property};
use crate::var_int::VarInt;
use vstd::prelude::*;
use vstd::slice::slice_subrange;

verus! {

/// The model of a `Property`: name, value, optional signature.
pub type PropertyModel = (Seq<char>, Seq<char>, Option<Seq<char>>);

/// The wire types that a packet field can have.
pub enum FieldType {
    VarInt,
    Text,
    Bool,
    U8,
    I8,
    U16,
    I32,
    I64,
    U128,
    ByteArray,
    OptionalByteArray,
    OptionalU128,
    Properties,
}

/// One entry of a schema.
pub struct Field {
    pub name: Seq<char>,
    pub ty: FieldType,
}

/// The model of one field's value.
pub enum FieldValue {
    VarInt(Seq<u8>),
    Text(Seq<char>),
    Bool(bool),
    U8(u8),
    I8(i8),
    U16(u16),
    I32(i32),
    I64(i64),
    U128(u128),
    ByteArray(Seq<i8>),
    OptionalByteArray(Option<Seq<i8>>),
    OptionalU128(Option<u128>),
    Properties(Seq<PropertyModel>),
}

/// The wire type that a value belongs to.
pub open spec fn type_of(value: FieldValue) -> FieldType {
    match value {
        FieldValue::VarInt(_) => FieldType::VarInt,
        FieldValue::Text(_) => FieldType::Text,
        FieldValue::Bool(_) => FieldType::Bool,
        FieldValue::U8(_) => FieldType::U8,
        FieldValue::I8(_) => FieldType::I8,
        FieldValue::U16(_) => FieldType::U16,
        FieldValue::I32(_) => FieldType::I32,
        FieldValue::I64(_) => FieldType::I64,
        FieldValue::U128(_) => FieldType::U128,
        FieldValue::ByteArray(_) => FieldType::ByteArray,
        FieldValue::OptionalByteArray(_) => FieldType::OptionalByteArray,
        FieldValue::OptionalU128(_) => FieldType::OptionalU128,
        FieldValue::Properties(_) => FieldType::Properties,
    }
}

/// The bytes that stand for a field's value.
#[verifier::opaque]
pub open spec fn wire_field(value: FieldValue) -> Seq<u8> {
    match value {
        FieldValue::VarInt(v) => VarInt::wire(v),
        FieldValue::Text(v) => String::wire(v),
        FieldValue::Bool(v) => bool::wire(v),
        FieldValue::U8(v) => u8::wire(v),
        FieldValue::I8(v) => i8::wire(v),
        FieldValue::U16(v) => u16::wire(v),
        FieldValue::I32(v) => i32::wire(v),
        FieldValue::I64(v) => i64::wire(v),
        FieldValue::U128(v) => u128::wire(v),
        FieldValue::ByteArray(v) => PrefixedArray::<i8>::wire(v),
        FieldValue::OptionalByteArray(v) => PrefixedOptional::<PrefixedArray<i8>>::wire(v),
        FieldValue::OptionalU128(v) => PrefixedOptional::<u128>::wire(v),
        FieldValue::Properties(v) => PrefixedArray::<Property>::wire(v),
    }
}

/// Whether a field's value can be written.
#[verifier::opaque]
pub open spec fn field_encodable(value: FieldValue) -> bool {
    match value {
        FieldValue::VarInt(v) => VarInt::encodable(v),
        FieldValue::Text(v) => String::encodable(v),
        FieldValue::Bool(v) => bool::encodable(v),
        FieldValue::U8(v) => u8::encodable(v),
        FieldValue::I8(v) => i8::encodable(v),
        FieldValue::U16(v) => u16::encodable(v),
        FieldValue::I32(v) => i32::encodable(v),
        FieldValue::I64(v) => i64::encodable(v),
        FieldValue::U128(v) => u128::encodable(v),
        FieldValue::ByteArray(v) => PrefixedArray::<i8>::encodable(v),
        FieldValue::OptionalByteArray(v) => PrefixedOptional::<PrefixedArray<i8>>::encodable(v),
        FieldValue::OptionalU128(v) => PrefixedOptional::<u128>::encodable(v),
        FieldValue::Properties(v) => PrefixedArray::<Property>::encodable(v),
    }
}

/// What the front of `bytes` holds when read as a field of type `ty`.
#[verifier::opaque]
pub open spec fn parse_field(ty: FieldType, bytes: Seq<u8>) -> Option<(FieldValue, nat)> {
    match ty {
        FieldType::VarInt => match VarInt::parse(bytes) {
            Some((v, n)) => Some((FieldValue::VarInt(v), n)),
            None => None,
        },
        FieldType::Text => match String::parse(bytes) {
            Some((v, n)) => Some((FieldValue::Text(v), n)),
            None => None,
        },
        FieldType::Bool => match bool::parse(bytes) {
            Some((v, n)) => Some((FieldValue::Bool(v), n)),
            None => None,
        },
        FieldType::U8 => match u8::parse(bytes) {
            Some((v, n)) => Some((FieldValue::U8(v), n)),
            None => None,
        },
        FieldType::I8 => match i8::parse(bytes) {
            Some((v, n)) => Some((FieldValue::I8(v), n)),
            None => None,
        },
        FieldType::U16 => match u16::parse(bytes) {
            Some((v, n)) => Some((FieldValue::U16(v), n)),
            None => None,
        },
        FieldType::I32 => match i32::parse(bytes) {
            Some((v, n)) => Some((FieldValue::I32(v), n)),
            None => None,
        },
        FieldType::I64 => match i64::parse(bytes) {
            Some((v, n)) => Some((FieldValue::I64(v), n)),
            None => None,
        },
        FieldType::U128 => match u128::parse(bytes) {
            Some((v, n)) => Some((FieldValue::U128(v), n)),
            None => None,
        },
        FieldType::ByteArray => match PrefixedArray::<i8>::parse(bytes) {
            Some((v, n)) => Some((FieldValue::ByteArray(v), n)),
            None => None,
        },
        FieldType::OptionalByteArray => match PrefixedOptional::<PrefixedArray<i8>>::parse(bytes) {
            Some((v, n)) => Some((FieldValue::OptionalByteArray(v), n)),
            None => None,
        },
        FieldType::OptionalU128 => match PrefixedOptional::<u128>::parse(bytes) {
            Some((v, n)) => Some((FieldValue::OptionalU128(v), n)),
            None => None,
        },
        FieldType::Properties => match PrefixedArray::<Property>::parse(bytes) {
            Some((v, n)) => Some((FieldValue::Properties(v), n)),
            None => None,
        },
    }
}

/// The fields of `schema` from the one at index `i` on, read one after the other
/// from `data` starting at `offset`. `Err` holds the name of the first field
/// that cannot be read.
pub open spec fn parse_from(schema: Seq<Field>, i: nat, data: Seq<u8>, offset: nat) -> Result<
    Seq<FieldValue>,
    Seq<char>,
>
    decreases schema.len() - i,
{
    if i >= schema.len() {
        Ok(Seq::empty())
    } else {
        match parse_field(schema[i as int].ty, data.skip(offset as int)) {
            Some((value, n)) => match parse_from(schema, i + 1, data, offset + n) {
                Ok(values) => Ok(seq![value] + values),
                Err(name) => Err(name),
            },
            None => Err(schema[i as int].name),
        }
    }
}

/// A payload read against a schema: the values of all its fields, or the name of
/// the first field that cannot be read. Bytes after the last field are left
/// alone.
pub open spec fn parse_fields(schema: Seq<Field>, data: Seq<u8>) -> Result<
    Seq<FieldValue>,
    Seq<char>,
> {
    parse_from(schema, 0, data, 0)
}

/// The encodings of `values` from the one at index `i` on, one after the other.
pub open spec fn wire_from(values: Seq<FieldValue>, i: nat) -> Seq<u8>
    decreases values.len() - i,
{
    if i >= values.len() {
        Seq::empty()
    } else {
        wire_field(values[i as int]) + wire_from(values, i + 1)
    }
}

/// A payload: the encodings of the fields' values in schema order.
pub open spec fn wire_fields(values: Seq<FieldValue>) -> Seq<u8> {
    wire_from(values, 0)
}

/// Whether `values` are values for the fields of `schema`, one each and of the
/// field's type.
pub open spec fn fits(schema: Seq<Field>, values: Seq<FieldValue>) -> bool {
    &&& values.len() == schema.len()
    &&& forall|i: int| 0 <= i < values.len() ==> type_of(#[trigger] values[i]) == schema[i].ty
}

/// Whether every one of `values` can be written.
pub open spec fn fields_encodable(values: Seq<FieldValue>) -> bool {
    forall|i: int| 0 <= i < values.len() ==> field_encodable(#[trigger] values[i])
}

/// A field that was written is read back, whatever follows it.
pub proof fn lemma_field_round_trip(value: FieldValue, rest: Seq<u8>)
    requires
        field_encodable(value),
    ensures
        parse_field(type_of(value), wire_field(value) + rest) == Some(
            (value, wire_field(value).len()),
        ),
{
    reveal(parse_field);
    reveal(wire_field);
    reveal(field_encodable);
    match value {
        FieldValue::VarInt(v) => VarInt::lemma_round_trip(v, rest),
        FieldValue::Text(v) => String::lemma_round_trip(v, rest),
        FieldValue::Bool(v) => bool::lemma_round_trip(v, rest),
        FieldValue::U8(v) => u8::lemma_round_trip(v, rest),
        FieldValue::I8(v) => i8::lemma_round_trip(v, rest),
        FieldValue::U16(v) => u16::lemma_round_trip(v, rest),
        FieldValue::I32(v) => i32::lemma_round_trip(v, rest),
        FieldValue::I64(v) => i64::lemma_round_trip(v, rest),
        FieldValue::U128(v) => u128::lemma_round_trip(v, rest),
        FieldValue::ByteArray(v) => PrefixedArray::<i8>::lemma_round_trip(v, rest),
        FieldValue::OptionalByteArray(v) => PrefixedOptional::<
            PrefixedArray<i8>,
        >::lemma_round_trip(v, rest),
        FieldValue::OptionalU128(v) => PrefixedOptional::<u128>::lemma_round_trip(v, rest),
        FieldValue::Properties(v) => PrefixedArray::<Property>::lemma_round_trip(v, rest),
    }
}

proof fn lemma_from_round_trip(
    schema: Seq<Field>,
    values: Seq<FieldValue>,
    i: nat,
    data: Seq<u8>,
    offset: nat,
    rest: Seq<u8>,
)
    requires
        fits(schema, values),
        fields_encodable(values),
        i <= values.len(),
        offset <= data.len(),
        data.skip(offset as int) == wire_from(values, i) + rest,
    ensures
        parse_from(schema, i, data, offset) == Ok::<Seq<FieldValue>, Seq<char>>(
            values.skip(i as int),
        ),
    decreases values.len() - i,
{
    if i >= values.len() {
        assert(values.skip(i as int) =~= Seq::<FieldValue>::empty());
    } else {
        let value = values[i as int];
        let first = wire_field(value);
        let others = wire_from(values, i + 1);
        assert(first + others + rest =~= first + (others + rest));
        lemma_field_round_trip(value, others + rest);
        assert(data.skip(offset as int).len() == data.len() - offset);
        assert(data.skip(offset as int).skip(first.len() as int) =~= others + rest);
        assert(data.skip((offset + first.len()) as int) =~= data.skip(offset as int).skip(
            first.len() as int,
        ));
        lemma_from_round_trip(schema, values, i + 1, data, offset + first.len(), rest);
        assert(seq![value] + values.skip((i + 1) as int) =~= values.skip(i as int));
    }
}

/// Round trip of a payload: values that fit a schema and can be written are read
/// back from what was written, whatever follows it.
pub proof fn lemma_fields_round_trip(schema: Seq<Field>, values: Seq<FieldValue>, rest: Seq<u8>)
    requires
        fits(schema, values),
        fields_encodable(values),
    ensures
        parse_fields(schema, wire_fields(values) + rest) == Ok::<Seq<FieldValue>, Seq<char>>(
            values,
        ),
{
    let data = wire_fields(values) + rest;
    assert(data.skip(0) =~= data);
    lemma_from_round_trip(schema, values, 0, data, 0, rest);
    assert(values.skip(0) =~= values);
}

/// What reading gives in the end once the fields with the values `done` have
/// been read and `rest` is what the fields after them give.
pub open spec fn prepend(done: Seq<FieldValue>, rest: Result<Seq<FieldValue>, Seq<char>>) -> Result<
    Seq<FieldValue>,
    Seq<char>,
> {
    match rest {
        Ok(values) => Ok(done + values),
        Err(name) => Err(name),
    }
}

pub(crate) proof fn lemma_parse_start(schema: Seq<Field>, data: Seq<u8>)
    ensures
        parse_fields(schema, data) == prepend(Seq::empty(), parse_from(schema, 0, data, 0)),
{
    match parse_from(schema, 0, data, 0) {
        Ok(values) => {
            assert(Seq::<FieldValue>::empty() + values =~= values);
        },
        Err(_) => {},
    }
}

pub(crate) proof fn lemma_parse_end(
    schema: Seq<Field>,
    data: Seq<u8>,
    offset: nat,
    done: Seq<FieldValue>,
)
    requires
        done.len() == schema.len(),
        parse_fields(schema, data) == prepend(done, parse_from(schema, done.len(), data, offset)),
    ensures
        parse_fields(schema, data) == Ok::<Seq<FieldValue>, Seq<char>>(done),
{
    assert(done + Seq::<FieldValue>::empty() =~= done);
}

pub(crate) proof fn lemma_wire_start(values: Seq<FieldValue>)
    ensures
        Seq::<u8>::empty() + wire_from(values, 0) == wire_fields(values),
{
    assert(Seq::<u8>::empty() + wire_from(values, 0) =~= wire_fields(values));
}

pub(crate) proof fn lemma_wire_end(values: Seq<FieldValue>, out: Seq<u8>)
    requires
        out + wire_from(values, values.len()) == wire_fields(values),
    ensures
        out == wire_fields(values),
{
    assert(out + Seq::<u8>::empty() =~= out);
}

/// A Rust type that stands for one of the schema's field types.
pub trait SchemaField: MCEncode + MCDecode {
    /// The field type that this type stands for.
    spec fn field_type() -> FieldType;

    /// A value's model as the value of a field.
    spec fn field_value(v: Self::V) -> FieldValue;

    /// What the schema says of the field type is what the type says of itself.
    proof fn lemma_schema_agrees(v: Self::V, bytes: Seq<u8>)
        ensures
            type_of(Self::field_value(v)) == Self::field_type(),
            wire_field(Self::field_value(v)) == Self::wire(v),
            field_encodable(Self::field_value(v)) == Self::encodable(v),
            parse_field(Self::field_type(), bytes) == match Self::parse(bytes) {
                Some((m, n)) => Some((Self::field_value(m), n)),
                None => None,
            },
    ;
}

impl SchemaField for VarInt {
    open spec fn field_type() -> FieldType {
        FieldType::VarInt
    }

    open spec fn field_value(v: Seq<u8>) -> FieldValue {
        FieldValue::VarInt(v)
    }

    proof fn lemma_schema_agrees(v: Seq<u8>, bytes: Seq<u8>) {
        reveal(parse_field);
        reveal(wire_field);
        reveal(field_encodable);
    }
}

impl SchemaField for String {
    open spec fn field_type() -> FieldType {
        FieldType::Text
    }

    open spec fn field_value(v: Seq<char>) -> FieldValue {
        FieldValue::Text(v)
    }

    proof fn lemma_schema_agrees(v: Seq<char>, bytes: Seq<u8>) {
        reveal(parse_field);
        reveal(wire_field);
        reveal(field_encodable);
    }
}

impl SchemaField for bool {
    open spec fn field_type() -> FieldType {
        FieldType::Bool
    }

    open spec fn field_value(v: bool) -> FieldValue {
        FieldValue::Bool(v)
    }

    proof fn lemma_schema_agrees(v: bool, bytes: Seq<u8>) {
        reveal(parse_field);
        reveal(wire_field);
        reveal(field_encodable);
    }
}

impl SchemaField for u8 {
    open spec fn field_type() -> FieldType {
        FieldType::U8
    }

    open spec fn field_value(v: u8) -> FieldValue {
        FieldValue::U8(v)
    }

    proof fn lemma_schema_agrees(v: u8, bytes: Seq<u8>) {
        reveal(parse_field);
        reveal(wire_field);
        reveal(field_encodable);
    }
}

impl SchemaField for i8 {
    open spec fn field_type() -> FieldType {
        FieldType::I8
    }

    open spec fn field_value(v: i8) -> FieldValue {
        FieldValue::I8(v)
    }

    proof fn lemma_schema_agrees(v: i8, bytes: Seq<u8>) {
        reveal(parse_field);
        reveal(wire_field);
        reveal(field_encodable);
    }
}

impl SchemaField for u16 {
    open spec fn field_type() -> FieldType {
        FieldType::U16
    }

    open spec fn field_value(v: u16) -> FieldValue {
        FieldValue::U16(v)
    }

    proof fn lemma_schema_agrees(v: u16, bytes: Seq<u8>) {
        reveal(parse_field);
        reveal(wire_field);
        reveal(field_encodable);
    }
}

impl SchemaField for i32 {
    open spec fn field_type() -> FieldType {
        FieldType::I32
    }

    open spec fn field_value(v: i32) -> FieldValue {
        FieldValue::I32(v)
    }

    proof fn lemma_schema_agrees(v: i32, bytes: Seq<u8>) {
        reveal(parse_field);
        reveal(wire_field);
        reveal(field_encodable);
    }
}

impl SchemaField for i64 {
    open spec fn field_type() -> FieldType {
        FieldType::I64
    }

    open spec fn field_value(v: i64) -> FieldValue {
        FieldValue::I64(v)
    }

    proof fn lemma_schema_agrees(v: i64, bytes: Seq<u8>) {
        reveal(parse_field);
        reveal(wire_field);
        reveal(field_encodable);
    }
}

impl SchemaField for u128 {
    open spec fn field_type() -> FieldType {
        FieldType::U128
    }

    open spec fn field_value(v: u128) -> FieldValue {
        FieldValue::U128(v)
    }

    proof fn lemma_schema_agrees(v: u128, bytes: Seq<u8>) {
        reveal(parse_field);
        reveal(wire_field);
        reveal(field_encodable);
    }
}

impl SchemaField for Vec<i8> {
    open spec fn field_type() -> FieldType {
        FieldType::ByteArray
    }

    open spec fn field_value(v: Seq<i8>) -> FieldValue {
        FieldValue::ByteArray(v)
    }

    proof fn lemma_schema_agrees(v: Seq<i8>, bytes: Seq<u8>) {
        reveal(parse_field);
        reveal(wire_field);
        reveal(field_encodable);
    }
}

impl SchemaField for PrefixedArray<i8> {
    open spec fn field_type() -> FieldType {
        FieldType::ByteArray
    }

    open spec fn field_value(v: Seq<i8>) -> FieldValue {
        FieldValue::ByteArray(v)
    }

    proof fn lemma_schema_agrees(v: Seq<i8>, bytes: Seq<u8>) {
        reveal(parse_field);
        reveal(wire_field);
        reveal(field_encodable);
    }
}

impl SchemaField for PrefixedOptional<Vec<i8>> {
    open spec fn field_type() -> FieldType {
        FieldType::OptionalByteArray
    }

    open spec fn field_value(v: Option<Seq<i8>>) -> FieldValue {
        FieldValue::OptionalByteArray(v)
    }

    proof fn lemma_schema_agrees(v: Option<Seq<i8>>, bytes: Seq<u8>) {
        reveal(parse_field);
        reveal(wire_field);
        reveal(field_encodable);
    }
}

impl SchemaField for PrefixedOptional<PrefixedArray<i8>> {
    open spec fn field_type() -> FieldType {
        FieldType::OptionalByteArray
    }

    open spec fn field_value(v: Option<Seq<i8>>) -> FieldValue {
        FieldValue::OptionalByteArray(v)
    }

    proof fn lemma_schema_agrees(v: Option<Seq<i8>>, bytes: Seq<u8>) {
        reveal(parse_field);
        reveal(wire_field);
        reveal(field_encodable);
    }
}

impl SchemaField for PrefixedOptional<u128> {
    open spec fn field_type() -> FieldType {
        FieldType::OptionalU128
    }

    open spec fn field_value(v: Option<u128>) -> FieldValue {
        FieldValue::OptionalU128(v)
    }

    proof fn lemma_schema_agrees(v: Option<u128>, bytes: Seq<u8>) {
        reveal(parse_field);
        reveal(wire_field);
        reveal(field_encodable);
    }
}

impl SchemaField for PrefixedArray<Property> {
    open spec fn field_type() -> FieldType {
        FieldType::Properties
    }

    open spec fn field_value(v: Seq<PropertyModel>) -> FieldValue {
        FieldValue::Properties(v)
    }

    proof fn lemma_schema_agrees(v: Seq<PropertyModel>, bytes: Seq<u8>) {
        reveal(parse_field);
        reveal(wire_field);
        reveal(field_encodable);
    }
}

/// Reads the next field of `schema` from `bytes` at `offset`: the value and the
/// offset behind it. `done` holds the values of the fields before it.
pub(crate) fn read_next<T: SchemaField>(
    bytes: &Vec<u8>,
    offset: usize,
    Ghost(schema): Ghost<Seq<Field>>,
    Ghost(done): Ghost<Seq<FieldValue>>,
) -> (r: Option<(T, usize)>)
    requires
        done.len() < schema.len(),
        schema[done.len() as int].ty == T::field_type(),
        offset <= bytes@.len(),
        parse_fields(schema, bytes@) == prepend(
            done,
            parse_from(schema, done.len(), bytes@, offset as nat),
        ),
    ensures
        match r {
            Some((v, next)) => next <= bytes@.len() && parse_fields(schema, bytes@) == prepend(
                done.push(T::field_value(v@)),
                parse_from(schema, done.len() + 1, bytes@, next as nat),
            ),
            None => parse_fields(schema, bytes@) == Err::<Seq<FieldValue>, Seq<char>>(
                schema[done.len() as int].name,
            ),
        },
{
    let tail: &[u8] = slice_subrange(bytes.as_slice(), offset, bytes.len());
    assert(tail@ =~= bytes@.skip(offset as int));
    let r: Option<(T, usize)> = match T::from_mc_bytes(tail) {
        Some((value, used)) => Some((value, offset + used)),
        None => None,
    };
    proof {
        match &r {
            Some((v, next)) => {
                let value = T::field_value(v@);
                T::lemma_schema_agrees(v@, tail@);
                match parse_from(schema, done.len() + 1, bytes@, *next as nat) {
                    Ok(values) => {
                        assert(done + (seq![value] + values) =~= done.push(value) + values);
                    },
                    Err(_) => {},
                }
            },
            None => {
                T::lemma_schema_agrees(arbitrary(), tail@);
            },
        }
    }
    r
}

/// Appends the field at index `i` of `values` to `out`.
pub(crate) fn write_next<T: SchemaField>(
    out: &mut Vec<u8>,
    value: T,
    Ghost(values): Ghost<Seq<FieldValue>>,
    Ghost(i): Ghost<nat>,
)
    requires
        i < values.len(),
        values[i as int] == T::field_value(value@),
        fields_encodable(values),
        old(out)@ + wire_from(values, i) == wire_fields(values),
    ensures
        final(out)@ + wire_from(values, i + 1) == wire_fields(values),
{
    proof {
        T::lemma_schema_agrees(value@, Seq::empty());
        assert(field_encodable(values[i as int]));
    }
    let mut piece: Vec<u8> = value.into_mc_data();
    out.append(&mut piece);
    assert(out@ + wire_from(values, i + 1) =~= old(out)@ + wire_from(values, i));
}

} // verus!
