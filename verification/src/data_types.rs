//! The field codec: what every type that can stand in a packet provides, and
//! the encodings of the primitive and composite field types.

use crate::var_int::{
    lemma_scan_prefix, lemma_varint_round_trip, lemma_wf_decodes, var_int_limit, varint_decode,
    varint_encode, VarInt, VarIntParseError, VAR_INT_MAX_BYTES,
};
use vstd::prelude::*;
use vstd::slice::{slice_subrange, slice_to_vec};
use vstd::string::StrSliceExecFns;
use vstd::utf8::{decode_utf8, encode_utf8, valid_utf8};

verus! {

/// A type that can be written to the wire.
pub trait MCEncode: Sized + View {
    /// Whether a value can be written at all: every length in it fits the
    /// prefix that announces it.
    spec fn encodable(v: Self::V) -> bool;

    /// The bytes that stand for a value on the wire.
    spec fn wire(v: Self::V) -> Seq<u8>;

    /// Writes the value.
    fn into_mc_data(self) -> (out: Vec<u8>)
        requires
            Self::encodable(self@),
        ensures
            out@ == Self::wire(self@),
    ;
}

/// A type that can be read from the wire.
pub trait MCDecode: Sized + View {
    /// What the front of `bytes` holds: the value and the number of bytes it
    /// occupies, or `None` where the bytes are too few or not of this type's
    /// shape.
    spec fn parse(bytes: Seq<u8>) -> Option<(Self::V, nat)>;

    /// Reads one value from the front of `bytes`. On success, returns the value
    /// and the number of bytes used to make it.
    fn from_mc_bytes(bytes: &[u8]) -> (r: Option<(Self, usize)>)
        ensures
            match Self::parse(bytes@) {
                Some((m, n)) => r matches Some((v, used)) && v@ == m && used == n && n
                    <= bytes@.len(),
                None => r is None,
            },
    ;
}

/// A type whose two directions agree.
pub trait MCCodec: MCEncode + MCDecode {
    /// Reading what was written gives the value back, with the number of bytes
    /// that were written, whatever follows them in the input.
    proof fn lemma_round_trip(v: Self::V, rest: Seq<u8>)
        requires
            Self::encodable(v),
        ensures
            Self::parse(Self::wire(v) + rest) == Some((v, Self::wire(v).len())),
    ;
}

impl MCEncode for bool {
    open spec fn encodable(v: bool) -> bool {
        true
    }

    open spec fn wire(v: bool) -> Seq<u8> {
        seq![if v { 1u8 } else { 0u8 }]
    }

    fn into_mc_data(self) -> (out: Vec<u8>) {
        let byte: u8 = if self { 0x01 } else { 0x00 };
        let mut out: Vec<u8> = Vec::new();
        out.push(byte);
        assert(out@ =~= Self::wire(self));
        out
    }
}

impl MCDecode for bool {
    open spec fn parse(bytes: Seq<u8>) -> Option<(bool, nat)> {
        if bytes.len() == 0 {
            None
        } else {
            Some((bytes[0] == 1, 1nat))
        }
    }

    fn from_mc_bytes(bytes: &[u8]) -> (r: Option<(Self, usize)>) {
        if bytes.len() == 0 {
            return None;
        }
        Some((bytes[0] == 0x01, 1))
    }
}

impl MCCodec for bool {
    proof fn lemma_round_trip(v: bool, rest: Seq<u8>) {
    }
}

/// The models of the values of a sequence, in order.
pub open spec fn models<T: View>(items: Seq<T>) -> Seq<T::V> {
    Seq::new(items.len(), |i: int| items[i]@)
}

/// The encodings of `items`, one after the other.
pub open spec fn wire_items<T: MCEncode>(items: Seq<T::V>) -> Seq<u8>
    decreases items.len(),
{
    if items.len() == 0 {
        Seq::empty()
    } else {
        T::wire(items[0]) + wire_items::<T>(items.skip(1))
    }
}

/// An array on the wire: the number of its items as a variable-length integer,
/// then the items.
pub open spec fn wire_array<T: MCEncode>(items: Seq<T::V>) -> Seq<u8> {
    varint_encode(items.len()) + wire_items::<T>(items)
}

/// Whether an array can be written: its length fits the prefix and each item
/// can be written.
pub open spec fn array_encodable<T: MCEncode>(items: Seq<T::V>) -> bool {
    &&& items.len() < var_int_limit()
    &&& forall|i: int| 0 <= i < items.len() ==> T::encodable(#[trigger] items[i])
}

/// `count` values read one after the other from the front of `bytes`, and the
/// number of bytes they occupy together.
pub open spec fn parse_items<T: MCDecode>(bytes: Seq<u8>, count: nat) -> Option<(Seq<T::V>, nat)>
    decreases count,
{
    if count == 0 {
        Some((Seq::empty(), 0nat))
    } else {
        match T::parse(bytes) {
            Some((v, n)) => match parse_items::<T>(bytes.skip(n as int), (count - 1) as nat) {
                Some((vs, m)) => Some((seq![v] + vs, n + m)),
                None => None,
            },
            None => None,
        }
    }
}

/// An array read from the front of `bytes`: the count, then that many items.
pub open spec fn parse_array<T: MCDecode>(bytes: Seq<u8>) -> Option<(Seq<T::V>, nat)> {
    match varint_decode(bytes) {
        Ok((count, n)) => match parse_items::<T>(bytes.skip(n as int), count) {
            Some((vs, m)) => Some((vs, n + m)),
            None => None,
        },
        Err(_) => None,
    }
}

/// What reading goes on to give once `done` items, `used` bytes long, have been
/// read.
spec fn continue_items<V>(done: Seq<V>, used: nat, rest: Option<(Seq<V>, nat)>) -> Option<
    (Seq<V>, nat),
> {
    match rest {
        Some((vs, m)) => Some((done + vs, used + m)),
        None => None,
    }
}

/// Writes the items of an array after its count.
pub(crate) fn write_array<T: MCEncode>(items: Vec<T>) -> (out: Vec<u8>)
    requires
        array_encodable::<T>(models(items@)),
    ensures
        out@ == wire_array::<T>(models(items@)),
{
    let count: VarInt = VarInt::new(items.len()).unwrap();
    let mut out: Vec<u8> = count.into_mc_data();
    let ghost all: Seq<T::V> = models(items@);
    let ghost head: Seq<u8> = out@;
    proof {
        assert(all.skip(0) =~= all);
    }
    for item in it: items
        invariant
            it.seq() == items@,
            all == models(items@),
            array_encodable::<T>(all),
            head + wire_items::<T>(all) == out@ + wire_items::<T>(all.skip(it.index() as int)),
    {
        proof {
            let i = it.index() as int;
            assert(all[i] == item@);
            assert(all.skip(i)[0] == all[i]);
            assert(all.skip(i).skip(1) =~= all.skip(i + 1));
        }
        let mut piece: Vec<u8> = item.into_mc_data();
        out.append(&mut piece);
        proof {
            let i = it.index() as int;
            assert(out@ + wire_items::<T>(all.skip(i + 1)) =~= head + wire_items::<T>(all));
        }
    }
    proof {
        assert(all.skip(all.len() as int) =~= Seq::<T::V>::empty());
        assert(out@ =~= head + wire_items::<T>(all));
    }
    out
}

/// Reads an array: its count, then its items.
pub(crate) fn read_array<T: MCDecode>(bytes: &[u8]) -> (r: Option<(Vec<T>, usize)>)
    ensures
        match parse_array::<T>(bytes@) {
            Some((vs, n)) => r matches Some((items, used)) && models(items@) == vs && used == n
                && n <= bytes@.len(),
            None => r is None,
        },
{
    let (count, start): (u64, usize) = match VarInt::read(bytes) {
        Ok((prefix, used)) => (prefix.value(), used),
        Err(_) => {
            return None;
        },
    };
    proof {
        lemma_scan_prefix(bytes@, VAR_INT_MAX_BYTES as nat);
        lemma_wf_decodes(bytes@.take(start as int), bytes@.skip(start as int));
        assert(bytes@.take(start as int) + bytes@.skip(start as int) =~= bytes@);
    }
    let mut items: Vec<T> = Vec::new();
    let mut used: usize = start;
    let mut i: u64 = 0;
    let ghost body: Seq<u8> = bytes@.skip(start as int);
    proof {
        assert(body.skip(0) =~= body);
        assert(models(items@) =~= Seq::<T::V>::empty());
        assert(Seq::<T::V>::empty() + parse_items::<T>(body, count as nat)->Some_0.0
            =~= parse_items::<T>(body, count as nat)->Some_0.0);
    }
    while i < count
        invariant
            i <= count,
            start <= used <= bytes@.len(),
            body == bytes@.skip(start as int),
            varint_decode(bytes@) == Ok::<(nat, nat), VarIntParseError>(
                (count as nat, start as nat),
            ),
            parse_items::<T>(body, count as nat) == continue_items(
                models(items@),
                (used - start) as nat,
                parse_items::<T>(body.skip(used - start), (count - i) as nat),
            ),
        decreases count - i,
    {
        let tail: &[u8] = slice_subrange(bytes, used, bytes.len());
        proof {
            assert(tail@ =~= body.skip(used - start));
        }
        match T::from_mc_bytes(tail) {
            Some((item, n)) => {
                proof {
                    let done = models(items@);
                    assert(tail@.skip(n as int) =~= body.skip(used + n - start));
                    assert(models(items@.push(item)) =~= done.push(item@));
                    match parse_items::<T>(tail@.skip(n as int), (count - i - 1) as nat) {
                        Some((vs, m)) => {
                            assert(done + (seq![item@] + vs) =~= done.push(item@) + vs);
                        },
                        None => {},
                    }
                }
                items.push(item);
                used = used + n;
                i = i + 1;
            },
            None => {
                return None;
            },
        }
    }
    proof {
        assert(models(items@) + Seq::<T::V>::empty() =~= models(items@));
    }
    Some((items, used))
}

proof fn lemma_items_round_trip<T: MCCodec>(items: Seq<T::V>, rest: Seq<u8>)
    requires
        forall|i: int| 0 <= i < items.len() ==> T::encodable(#[trigger] items[i]),
    ensures
        parse_items::<T>(wire_items::<T>(items) + rest, items.len()) == Some(
            (items, wire_items::<T>(items).len()),
        ),
    decreases items.len(),
{
    if items.len() == 0 {
        assert(items =~= Seq::<T::V>::empty());
    } else {
        let first = T::wire(items[0]);
        let others = wire_items::<T>(items.skip(1));
        assert(wire_items::<T>(items) + rest =~= first + (others + rest));
        T::lemma_round_trip(items[0], others + rest);
        assert((first + (others + rest)).skip(first.len() as int) =~= others + rest);
        assert forall|i: int| 0 <= i < items.skip(1).len() implies T::encodable(
            #[trigger] items.skip(1)[i],
        ) by {
            assert(items.skip(1)[i] == items[i + 1]);
        }
        lemma_items_round_trip::<T>(items.skip(1), rest);
        assert(seq![items[0]] + items.skip(1) =~= items);
    }
}

/// An array that was written is read back, whatever follows it.
pub proof fn lemma_array_round_trip<T: MCCodec>(items: Seq<T::V>, rest: Seq<u8>)
    requires
        array_encodable::<T>(items),
    ensures
        parse_array::<T>(wire_array::<T>(items) + rest) == Some(
            (items, wire_array::<T>(items).len()),
        ),
{
    let prefix = varint_encode(items.len());
    let body = wire_items::<T>(items);
    assert(wire_array::<T>(items) + rest =~= prefix + (body + rest));
    lemma_varint_round_trip(items.len(), body + rest);
    assert((prefix + (body + rest)).skip(prefix.len() as int) =~= body + rest);
    lemma_items_round_trip::<T>(items, rest);
}

/// An ordered sequence of values that announces its own length on the wire.
#[derive(Debug, Clone, PartialEq, Eq)]
pub struct PrefixedArray<T> {
    data: Vec<T>,
}

impl<T: View> View for PrefixedArray<T> {
    type V = Seq<T::V>;

    closed spec fn view(&self) -> Seq<T::V> {
        models(self.data@)
    }
}

impl<T: View> PrefixedArray<T> {
    /// An array of the items of `data`, in their order.
    pub fn new(data: Vec<T>) -> (r: Self)
        ensures
            r@ == models(data@),
    {
        Self { data }
    }

    /// The items, in their order.
    pub fn into_inner(self) -> (data: Vec<T>)
        ensures
            models(data@) == self@,
    {
        self.data
    }
}

impl<T: MCEncode> MCEncode for PrefixedArray<T> {
    open spec fn encodable(v: Seq<T::V>) -> bool {
        array_encodable::<T>(v)
    }

    open spec fn wire(v: Seq<T::V>) -> Seq<u8> {
        wire_array::<T>(v)
    }

    fn into_mc_data(self) -> (out: Vec<u8>) {
        write_array(self.data)
    }
}

impl<T: MCDecode> MCDecode for PrefixedArray<T> {
    open spec fn parse(bytes: Seq<u8>) -> Option<(Seq<T::V>, nat)> {
        parse_array::<T>(bytes)
    }

    fn from_mc_bytes(bytes: &[u8]) -> (r: Option<(Self, usize)>) {
        match read_array::<T>(bytes) {
            Some((data, used)) => Some((Self { data }, used)),
            None => None,
        }
    }
}

impl<T: MCCodec> MCCodec for PrefixedArray<T> {
    proof fn lemma_round_trip(v: Seq<T::V>, rest: Seq<u8>) {
        lemma_array_round_trip::<T>(v, rest);
    }
}

impl MCEncode for Vec<i8> {
    open spec fn encodable(v: Seq<i8>) -> bool {
        array_encodable::<i8>(v)
    }

    open spec fn wire(v: Seq<i8>) -> Seq<u8> {
        wire_array::<i8>(v)
    }

    fn into_mc_data(self) -> (out: Vec<u8>) {
        assert(models(self@) =~= self@);
        write_array(self)
    }
}

impl MCDecode for Vec<i8> {
    open spec fn parse(bytes: Seq<u8>) -> Option<(Seq<i8>, nat)> {
        parse_array::<i8>(bytes)
    }

    fn from_mc_bytes(bytes: &[u8]) -> (r: Option<(Self, usize)>) {
        match read_array::<i8>(bytes) {
            Some((data, used)) => {
                assert(models(data@) =~= data@);
                Some((data, used))
            },
            None => None,
        }
    }
}

impl MCCodec for Vec<i8> {
    proof fn lemma_round_trip(v: Seq<i8>, rest: Seq<u8>) {
        lemma_array_round_trip::<i8>(v, rest);
    }
}

/// A value that may be absent: one byte that says whether it is there, then the
/// value if it is.
#[derive(Debug, Clone, PartialEq, Eq)]
pub struct PrefixedOptional<T>(pub Option<T>);

impl<T: View> View for PrefixedOptional<T> {
    type V = Option<T::V>;

    open spec fn view(&self) -> Option<T::V> {
        match self.0 {
            Some(v) => Some(v@),
            None => None,
        }
    }
}

impl<T: MCEncode> MCEncode for PrefixedOptional<T> {
    open spec fn encodable(v: Option<T::V>) -> bool {
        match v {
            Some(inner) => T::encodable(inner),
            None => true,
        }
    }

    open spec fn wire(v: Option<T::V>) -> Seq<u8> {
        match v {
            Some(inner) => seq![1u8] + T::wire(inner),
            None => seq![0u8],
        }
    }

    fn into_mc_data(self) -> (out: Vec<u8>) {
        match self.0 {
            Some(data) => {
                let mut out: Vec<u8> = true.into_mc_data();
                let mut inner: Vec<u8> = data.into_mc_data();
                out.append(&mut inner);
                out
            },
            None => false.into_mc_data(),
        }
    }
}

impl<T: MCDecode> MCDecode for PrefixedOptional<T> {
    open spec fn parse(bytes: Seq<u8>) -> Option<(Option<T::V>, nat)> {
        match bool::parse(bytes) {
            Some((present, offset)) => if !present {
                Some((None, 1nat))
            } else {
                match T::parse(bytes.skip(offset as int)) {
                    Some((inner, n)) => Some((Some(inner), offset + n)),
                    None => None,
                }
            },
            None => None,
        }
    }

    fn from_mc_bytes(bytes: &[u8]) -> (r: Option<(Self, usize)>) {
        let (contains_field, offset): (bool, usize) = match bool::from_mc_bytes(bytes) {
            Some(flag) => flag,
            None => {
                return None;
            },
        };
        if !contains_field {
            return Some((Self(None), 1));
        }
        let tail: &[u8] = slice_subrange(bytes, offset, bytes.len());
        assert(tail@ =~= bytes@.skip(offset as int));
        match T::from_mc_bytes(tail) {
            Some((field, used)) => Some((Self(Some(field)), offset + used)),
            None => None,
        }
    }
}

impl<T: MCCodec> MCCodec for PrefixedOptional<T> {
    proof fn lemma_round_trip(v: Option<T::V>, rest: Seq<u8>) {
        match v {
            Some(inner) => {
                let all = seq![1u8] + T::wire(inner) + rest;
                assert(all.skip(1) =~= T::wire(inner) + rest);
                T::lemma_round_trip(inner, rest);
            },
            None => {},
        }
    }
}

/// An optional value that was written is read back, whatever follows it: an
/// absent one from its one byte, a present one from one byte more than the value
/// takes by itself.
pub proof fn lemma_prefixed_optional_round_trip<T: MCCodec>(v: Option<T::V>, rest: Seq<u8>)
    requires
        v matches Some(inner) ==> T::encodable(inner),
    ensures
        match v {
            Some(inner) => PrefixedOptional::<T>::parse(
                PrefixedOptional::<T>::wire(v) + rest,
            ) == Some((v, 1 + T::wire(inner).len())),
            None => PrefixedOptional::<T>::parse(PrefixedOptional::<T>::wire(v) + rest) == Some(
                (v, 1nat),
            ),
        },
{
    PrefixedOptional::<T>::lemma_round_trip(v, rest);
}

/// `String::from_utf8`: the string whose UTF-8 bytes are `bytes`, and `None`
/// exactly where `bytes` are not valid UTF-8.
#[verifier::external_body]
fn string_from_utf8(bytes: Vec<u8>) -> (r: Option<String>)
    ensures
        r is Some <==> valid_utf8(bytes@),
        r matches Some(s) ==> encode_utf8(s@) == bytes@,
{
    String::from_utf8(bytes).ok()
}

/// The text that well-formed UTF-8 `bytes` spell; `None`
/// where they are not well-formed.
pub open spec fn parse_utf8(bytes: Seq<u8>) -> Option<Seq<char>> {
    if valid_utf8(bytes) {
        Some(decode_utf8(bytes))
    } else {
        None
    }
}

impl MCEncode for String {
    open spec fn encodable(v: Seq<char>) -> bool {
        encode_utf8(v).len() < var_int_limit()
    }

    open spec fn wire(v: Seq<char>) -> Seq<u8> {
        varint_encode(encode_utf8(v).len()) + encode_utf8(v)
    }

    fn into_mc_data(self) -> (out: Vec<u8>) {
        let mut text: Vec<u8> = self.as_str().as_bytes_vec();
        let length: VarInt = VarInt::new(text.len()).unwrap();
        let mut data: Vec<u8> = length.into_mc_data();
        data.append(&mut text);
        data
    }
}

impl MCDecode for String {
    open spec fn parse(bytes: Seq<u8>) -> Option<(Seq<char>, nat)> {
        match varint_decode(bytes) {
            Ok((length, offset)) => if bytes.len() < offset + length {
                None
            } else {
                match parse_utf8(bytes.subrange(offset as int, (offset + length) as int)) {
                    Some(text) => Some((text, offset + length)),
                    None => None,
                }
            },
            Err(_) => None,
        }
    }

    fn from_mc_bytes(bytes: &[u8]) -> (r: Option<(Self, usize)>) {
        let (length, offset): (u64, usize) = match VarInt::read(bytes) {
            Ok((prefix, used)) => (prefix.value(), used),
            Err(_) => {
                return None;
            },
        };
        proof {
            lemma_scan_prefix(bytes@, VAR_INT_MAX_BYTES as nat);
            lemma_wf_decodes(bytes@.take(offset as int), bytes@.skip(offset as int));
            assert(bytes@.take(offset as int) + bytes@.skip(offset as int) =~= bytes@);
        }
        if ((bytes.len() - offset) as u64) < length {
            return None;
        }
        let end: usize = offset + length as usize;
        let text: Vec<u8> = slice_to_vec(slice_subrange(bytes, offset, end));
        match string_from_utf8(text) {
            Some(s) => {
                proof {
                    vstd::utf8::encode_utf8_decode_utf8(s@);
                }
                Some((s, end))
            },
            None => None,
        }
    }
}

impl MCCodec for String {
    proof fn lemma_round_trip(v: Seq<char>, rest: Seq<u8>) {
        let text = encode_utf8(v);
        let prefix = varint_encode(text.len());
        let all = prefix + text + rest;
        assert(all =~= prefix + (text + rest));
        lemma_varint_round_trip(text.len(), text + rest);
        assert(all.subrange(prefix.len() as int, (prefix.len() + text.len()) as int) =~= text);
        vstd::utf8::encode_utf8_valid_utf8(v);
        vstd::utf8::encode_utf8_decode_utf8(v);
    }
}

/// A named value with an optional signature.
#[derive(Debug, Clone, PartialEq, Eq)]
pub struct Property(pub String, pub String, pub PrefixedOptional<String>);

impl View for Property {
    type V = (Seq<char>, Seq<char>, Option<Seq<char>>);

    open spec fn view(&self) -> (Seq<char>, Seq<char>, Option<Seq<char>>) {
        (self.0@, self.1@, self.2@)
    }
}

impl MCEncode for Property {
    open spec fn encodable(v: (Seq<char>, Seq<char>, Option<Seq<char>>)) -> bool {
        &&& String::encodable(v.0)
        &&& String::encodable(v.1)
        &&& PrefixedOptional::<String>::encodable(v.2)
    }

    open spec fn wire(v: (Seq<char>, Seq<char>, Option<Seq<char>>)) -> Seq<u8> {
        String::wire(v.0) + String::wire(v.1) + PrefixedOptional::<String>::wire(v.2)
    }

    fn into_mc_data(self) -> (out: Vec<u8>) {
        let mut data: Vec<u8> = self.0.into_mc_data();
        let mut value: Vec<u8> = self.1.into_mc_data();
        let mut signature: Vec<u8> = self.2.into_mc_data();
        data.append(&mut value);
        data.append(&mut signature);
        data
    }
}

impl MCDecode for Property {
    open spec fn parse(bytes: Seq<u8>) -> Option<
        ((Seq<char>, Seq<char>, Option<Seq<char>>), nat),
    > {
        match String::parse(bytes) {
            Some((name, a)) => match String::parse(bytes.skip(a as int)) {
                Some((value, b)) => match PrefixedOptional::<String>::parse(
                    bytes.skip(a as int).skip(b as int),
                ) {
                    Some((signature, c)) => Some(((name, value, signature), a + b + c)),
                    None => None,
                },
                None => None,
            },
            None => None,
        }
    }

    fn from_mc_bytes(bytes: &[u8]) -> (r: Option<(Self, usize)>) {
        let (name, a): (String, usize) = match String::from_mc_bytes(bytes) {
            Some(field) => field,
            None => {
                return None;
            },
        };
        let after_name: &[u8] = slice_subrange(bytes, a, bytes.len());
        assert(after_name@ =~= bytes@.skip(a as int));
        let (value, b): (String, usize) = match String::from_mc_bytes(after_name) {
            Some(field) => field,
            None => {
                return None;
            },
        };
        let after_value: &[u8] = slice_subrange(after_name, b, after_name.len());
        assert(after_value@ =~= bytes@.skip(a as int).skip(b as int));
        let (signature, c): (PrefixedOptional<String>, usize) = match PrefixedOptional::<
            String,
        >::from_mc_bytes(after_value) {
            Some(field) => field,
            None => {
                return None;
            },
        };
        Some((Property(name, value, signature), a + b + c))
    }
}

impl MCCodec for Property {
    proof fn lemma_round_trip(v: (Seq<char>, Seq<char>, Option<Seq<char>>), rest: Seq<u8>) {
        let name = String::wire(v.0);
        let value = String::wire(v.1);
        let signature = PrefixedOptional::<String>::wire(v.2);
        let all = name + value + signature + rest;
        assert(all =~= name + (value + signature + rest));
        String::lemma_round_trip(v.0, value + signature + rest);
        assert(all.skip(name.len() as int) =~= value + (signature + rest));
        String::lemma_round_trip(v.1, signature + rest);
        assert(all.skip(name.len() as int).skip(value.len() as int) =~= signature + rest);
        PrefixedOptional::<String>::lemma_round_trip(v.2, rest);
    }
}

} // verus!
