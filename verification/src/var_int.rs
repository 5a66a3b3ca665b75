//! Variable-length integers: seven data bits per byte, least significant group
//! first, the high bit of a byte set while more bytes follow.

use crate::data_types::{MCCodec, MCDecode, MCEncode};
use vstd::prelude::*;

verus! {

/// The most bytes a variable-length integer may occupy on the wire.
pub const VAR_INT_MAX_BYTES: usize = 5;

/// The first value that no longer fits in `VAR_INT_MAX_BYTES` bytes (2^35).
pub open spec fn var_int_limit() -> nat {
    0x8_0000_0000
}

/// 128 to the power `n`.
pub open spec fn pow128(n: nat) -> nat
    decreases n,
{
    if n == 0 {
        1
    } else {
        128 * pow128((n - 1) as nat)
    }
}

/// The canonical encoding of `v`: its 7-bit groups from the least significant
/// one, every byte but the last carrying the continuation bit.
pub open spec fn varint_encode(v: nat) -> Seq<u8>
    decreases v,
{
    if v < 128 {
        seq![v as u8]
    } else {
        seq![(v % 128 + 128) as u8] + varint_encode(v / 128)
    }
}

/// Why a byte sequence does not start with a variable-length integer.
#[derive(Debug, Clone, Copy, PartialEq, Eq)]
pub enum VarIntParseError {
    /// `VAR_INT_MAX_BYTES` bytes were read and every one of them announced
    /// another: the stream is malformed.
    WrongSize,
    /// The input ended before a byte without the continuation bit: the stream
    /// is truncated, more input may complete it.
    NonTerminated,
}

/// Reads at most `limit` bytes from the front of `bytes` and stops at the first
/// one without the continuation bit. `Ok` holds the value and the number of
/// bytes read.
pub open spec fn varint_scan(bytes: Seq<u8>, limit: nat) -> Result<(nat, nat), VarIntParseError>
    decreases limit,
{
    if limit == 0 {
        Err(VarIntParseError::WrongSize)
    } else if bytes.len() == 0 {
        Err(VarIntParseError::NonTerminated)
    } else if bytes[0] < 128 {
        Ok((bytes[0] as nat, 1nat))
    } else {
        match varint_scan(bytes.skip(1), (limit - 1) as nat) {
            Ok((v, n)) => Ok((((bytes[0] - 128) + 128 * v) as nat, n + 1)),
            Err(e) => Err(e),
        }
    }
}

/// What the front of `bytes` decodes to.
pub open spec fn varint_decode(bytes: Seq<u8>) -> Result<(nat, nat), VarIntParseError> {
    varint_scan(bytes, VAR_INT_MAX_BYTES as nat)
}

/// The outcome of a scan of the bytes from position `i` on, seen from the start
/// of the input: `acc` holds the groups of the `i` bytes before it.
spec fn resume(inner: Result<(nat, nat), VarIntParseError>, acc: nat, i: nat) -> Result<
    (nat, nat),
    VarIntParseError,
> {
    match inner {
        Ok((v, n)) => Ok((acc + pow128(i) * v, n + i)),
        Err(e) => Err(e),
    }
}

/// The powers of 128 up to the fifth.
pub proof fn lemma_pow128_values()
    ensures
        pow128(0) == 1,
        pow128(1) == 0x80,
        pow128(2) == 0x4000,
        pow128(3) == 0x20_0000,
        pow128(4) == 0x1000_0000,
        pow128(5) == 0x8_0000_0000,
{
    reveal_with_fuel(pow128, 6);
}

proof fn lemma_place_group(acc: u64, data: u64, shift: u64)
    by (bit_vector)
    requires
        shift == 0 || shift == 7 || shift == 14 || shift == 21 || shift == 28,
        data < 128,
        acc < (1u64 << shift),
    ensures
        acc | (data << shift) == acc + data * (1u64 << shift),
        acc | (data << shift) < (1u64 << ((shift + 7) as u64)),
{
}

proof fn lemma_shift_is_pow128(i: nat)
    requires
        i <= 5,
    ensures
        (1u64 << ((7 * i) as u64)) == pow128(i),
{
    lemma_pow128_values();
    assert(1u64 << 0u64 == 1) by (bit_vector);
    assert(1u64 << 7u64 == 0x80) by (bit_vector);
    assert(1u64 << 14u64 == 0x4000) by (bit_vector);
    assert(1u64 << 21u64 == 0x20_0000) by (bit_vector);
    assert(1u64 << 28u64 == 0x1000_0000) by (bit_vector);
    assert(1u64 << 35u64 == 0x8_0000_0000) by (bit_vector);
}

/// Reads a variable-length integer from the front of `buf`, never past its end.
fn scan(buf: &[u8]) -> (r: Result<(u64, usize), VarIntParseError>)
    ensures
        match varint_decode(buf@) {
            Ok((v, n)) => r == Ok::<(u64, usize), VarIntParseError>((v as u64, n as usize))
                && v < var_int_limit() && 1 <= n <= VAR_INT_MAX_BYTES && n <= buf@.len(),
            Err(e) => r == Err::<(u64, usize), VarIntParseError>(e),
        },
{
    let mut result: u64 = 0;
    let mut i: usize = 0;
    proof {
        lemma_pow128_values();
        assert(buf@.skip(0) =~= buf@);
    }
    while i < VAR_INT_MAX_BYTES
        invariant
            i <= VAR_INT_MAX_BYTES,
            i <= buf@.len(),
            result < pow128(i as nat),
            varint_decode(buf@) == resume(
                varint_scan(buf@.skip(i as int), (VAR_INT_MAX_BYTES - i) as nat),
                result as nat,
                i as nat,
            ),
        decreases VAR_INT_MAX_BYTES - i,
    {
        if i >= buf.len() {
            return Err(VarIntParseError::NonTerminated);
        }
        let byte: u8 = buf[i];
        let data: u64 = (byte & 0x7F) as u64;
        let shift: u64 = 7 * (i as u64);
        let next: u64 = result | (data << shift);
        proof {
            let tail = buf@.skip(i as int);
            assert(tail[0] == byte);
            assert(tail.skip(1) =~= buf@.skip(i + 1));
            assert(byte & 0x7F == byte % 128) by (bit_vector);
            assert((byte & 0x80 == 0) <==> byte < 128) by (bit_vector);
            lemma_shift_is_pow128(i as nat);
            lemma_shift_is_pow128((i + 1) as nat);
            lemma_place_group(result, data, shift);
            assert(next == result + data * pow128(i as nat));
            assert(next < pow128((i + 1) as nat));
            assert(pow128((i + 1) as nat) == 128 * pow128(i as nat));
            if byte >= 128 {
                match varint_scan(buf@.skip(i + 1), (VAR_INT_MAX_BYTES - i - 1) as nat) {
                    Ok((v, n)) => {
                        assert(pow128(i as nat) * ((byte - 128) + 128 * v) == data * pow128(
                            i as nat,
                        ) + pow128((i + 1) as nat) * v) by (nonlinear_arith)
                            requires
                                data == byte - 128,
                                pow128((i + 1) as nat) == 128 * pow128(i as nat),
                        ;
                    },
                    Err(_) => {},
                }
            } else {
                lemma_pow128_values();
                assert(pow128(i as nat) * data == data * pow128(i as nat)) by (nonlinear_arith);
                assert(varint_scan(tail, (VAR_INT_MAX_BYTES - i) as nat) == Ok::<
                    (nat, nat),
                    VarIntParseError,
                >((byte as nat, 1nat)));
                assert(varint_decode(buf@) == Ok::<(nat, nat), VarIntParseError>(
                    (next as nat, (i + 1) as nat),
                ));
            }
        }
        result = next;
        i = i + 1;
        if (byte & 0x80) == 0 {
            return Ok((result, i));
        }
    }
    Err(VarIntParseError::WrongSize)
}

/// Decodes a variable-length integer from the front of `buf`: the value and the
/// number of bytes it took. A value that a `usize` of this machine cannot hold
/// is refused as `WrongSize`.
pub fn decode_varint(buf: &[u8]) -> (r: Result<(usize, usize), VarIntParseError>)
    ensures
        match varint_decode(buf@) {
            Ok((v, n)) => if v <= usize::MAX {
                r == Ok::<(usize, usize), VarIntParseError>((v as usize, n as usize))
            } else {
                r == Err::<(usize, usize), VarIntParseError>(VarIntParseError::WrongSize)
            },
            Err(e) => r == Err::<(usize, usize), VarIntParseError>(e),
        },
{
    match scan(buf) {
        Ok((value, used)) => {
            if value <= usize::MAX as u64 {
                Ok((value as usize, used))
            } else {
                Err(VarIntParseError::WrongSize)
            }
        },
        Err(e) => Err(e),
    }
}

/// Encodes `num` in as many bytes as it needs, however large it is.
pub fn encode_varint(num: usize) -> (buf: Vec<u8>)
    ensures
        buf@ == varint_encode(num as nat),
{
    let mut buf: Vec<u8> = Vec::new();
    let mut rest: usize = num;
    loop
        invariant_except_break
            varint_encode(num as nat) == buf@ + varint_encode(rest as nat),
        ensures
            buf@ == varint_encode(num as nat),
        decreases rest,
    {
        let low: u8 = (rest & 0x7F) as u8;
        let next: usize = rest >> 7;
        assert(rest & 0x7F == rest % 128 && rest >> 7 == rest / 128) by (bit_vector);
        if next != 0 {
            assert(low < 128 ==> low | 0x80 == low + 128) by (bit_vector);
            buf.push(low | 0x80);
            rest = next;
        } else {
            buf.push(low);
            break ;
        }
    }
    buf
}

/// Whether `bytes` is one whole variable-length integer: one to
/// `VAR_INT_MAX_BYTES` bytes, the continuation bit set on all but the last.
pub open spec fn varint_wf(bytes: Seq<u8>) -> bool {
    &&& 1 <= bytes.len() <= VAR_INT_MAX_BYTES
    &&& forall|i: int| 0 <= i < bytes.len() - 1 ==> bytes[i] >= 128
    &&& bytes[bytes.len() - 1] < 128
}

/// The number that the variable-length integer at the front of `bytes` stands
/// for (0 where there is none).
pub open spec fn varint_value(bytes: Seq<u8>) -> nat {
    match varint_decode(bytes) {
        Ok((v, _)) => v,
        Err(_) => 0,
    }
}

/// A scan that succeeds has read one whole variable-length integer, and what
/// follows it in the input has no part in the outcome.
pub proof fn lemma_scan_prefix(bytes: Seq<u8>, limit: nat)
    requires
        varint_scan(bytes, limit) is Ok,
    ensures
        ({
            let (v, n) = varint_scan(bytes, limit)->Ok_0;
            &&& 1 <= n <= limit
            &&& n <= bytes.len()
            &&& v < pow128(n)
            &&& forall|i: int| 0 <= i < n - 1 ==> bytes[i] >= 128
            &&& bytes[n - 1] < 128
            &&& varint_scan(bytes.take(n as int), limit) == varint_scan(bytes, limit)
        }),
    decreases limit,
{
    reveal_with_fuel(pow128, 2);
    let (v, n) = varint_scan(bytes, limit)->Ok_0;
    if bytes[0] < 128 {
        assert(bytes.take(1)[0] == bytes[0]);
    } else {
        let tail = bytes.skip(1);
        lemma_scan_prefix(tail, (limit - 1) as nat);
        let (tv, tn) = varint_scan(tail, (limit - 1) as nat)->Ok_0;
        assert(bytes.take(n as int).skip(1) =~= tail.take(tn as int));
        assert(bytes.take(n as int)[0] == bytes[0]);
        assert forall|i: int| 0 <= i < n - 1 implies bytes[i] >= 128 by {
            if i > 0 {
                assert(tail[i - 1] == bytes[i]);
            }
        }
        assert(tail[tn - 1] == bytes[n - 1]);
    }
}

/// One whole variable-length integer decodes, whatever follows it, to its value
/// and its own length.
pub proof fn lemma_wf_decodes(bytes: Seq<u8>, rest: Seq<u8>)
    requires
        varint_wf(bytes),
    ensures
        varint_decode(bytes + rest) == Ok::<(nat, nat), VarIntParseError>(
            (varint_value(bytes), bytes.len()),
        ),
        varint_decode(bytes) == varint_decode(bytes + rest),
        varint_value(bytes) < var_int_limit(),
{
    lemma_wf_scans(bytes, rest, VAR_INT_MAX_BYTES as nat);
    lemma_wf_scans(bytes, Seq::empty(), VAR_INT_MAX_BYTES as nat);
    assert(bytes + Seq::<u8>::empty() =~= bytes);
    lemma_scan_prefix(bytes, VAR_INT_MAX_BYTES as nat);
    lemma_pow128_values();
    lemma_pow128_monotonic(bytes.len(), VAR_INT_MAX_BYTES as nat);
}

proof fn lemma_pow128_monotonic(a: nat, b: nat)
    requires
        a <= b,
    ensures
        1 <= pow128(a) <= pow128(b),
    decreases b,
{
    if a < b {
        lemma_pow128_monotonic(a, (b - 1) as nat);
    } else if a > 0 {
        lemma_pow128_monotonic((a - 1) as nat, (b - 1) as nat);
    }
}

proof fn lemma_wf_scans(bytes: Seq<u8>, rest: Seq<u8>, limit: nat)
    requires
        1 <= bytes.len() <= limit,
        forall|i: int| 0 <= i < bytes.len() - 1 ==> bytes[i] >= 128,
        bytes[bytes.len() - 1] < 128,
    ensures
        varint_scan(bytes + rest, limit) is Ok,
        varint_scan(bytes + rest, limit)->Ok_0.1 == bytes.len(),
        varint_scan(bytes + rest, limit) == varint_scan(bytes, limit),
    decreases limit,
{
    let all = bytes + rest;
    assert(all[0] == bytes[0]);
    if bytes.len() > 1 {
        let tail = bytes.skip(1);
        assert(all.skip(1) =~= tail + rest);
        assert forall|i: int| 0 <= i < tail.len() - 1 implies tail[i] >= 128 by {
            assert(tail[i] == bytes[i + 1]);
        }
        lemma_wf_scans(tail, rest, (limit - 1) as nat);
    }
}

/// The canonical encoding of `v` takes at most `k` bytes exactly when
/// `v < 128^k`.
pub proof fn lemma_encode_len(v: nat, k: nat)
    requires
        k >= 1,
    ensures
        varint_encode(v).len() >= 1,
        varint_encode(v).len() <= k <==> v < pow128(k),
    decreases v,
{
    reveal_with_fuel(pow128, 2);
    lemma_pow128_monotonic(1, k);
    if v >= 128 {
        let q = v / 128;
        assert(varint_encode(v).len() == 1 + varint_encode(q).len());
        if k > 1 {
            lemma_encode_len(q, (k - 1) as nat);
            let p = pow128((k - 1) as nat);
            assert(pow128(k) == 128 * p);
            assert(q < p <==> v < 128 * p);
        } else {
            lemma_encode_len(q, 1);
        }
    }
}

/// The canonical encoding is one whole variable-length integer whenever it
/// fits, and it ends in a byte without the continuation bit in any case.
pub proof fn lemma_encode_wf(v: nat)
    ensures
        varint_encode(v).len() >= 1,
        forall|i: int| 0 <= i < varint_encode(v).len() - 1 ==> varint_encode(v)[i] >= 128,
        varint_encode(v).last() < 128,
        v < var_int_limit() <==> varint_wf(varint_encode(v)),
    decreases v,
{
    lemma_pow128_values();
    lemma_encode_len(v, VAR_INT_MAX_BYTES as nat);
    if v >= 128 {
        lemma_encode_wf(v / 128);
        let e = varint_encode(v);
        let t = varint_encode(v / 128);
        assert forall|i: int| 0 <= i < e.len() - 1 implies e[i] >= 128 by {
            if i > 0 {
                assert(e[i] == t[i - 1]);
            }
        }
        assert(e.last() == t.last());
    }
}

/// Round trip: the canonical encoding of a value below 2^35, followed by
/// anything, decodes to that value and to the encoding's own length.
pub proof fn lemma_varint_round_trip(v: nat, rest: Seq<u8>)
    requires
        v < var_int_limit(),
    ensures
        varint_decode(varint_encode(v) + rest) == Ok::<(nat, nat), VarIntParseError>(
            (v, varint_encode(v).len()),
        ),
        varint_value(varint_encode(v)) == v,
{
    lemma_encode_wf(v);
    lemma_encode_scans(v, VAR_INT_MAX_BYTES as nat);
    lemma_wf_decodes(varint_encode(v), rest);
}

proof fn lemma_encode_scans(v: nat, limit: nat)
    requires
        varint_encode(v).len() <= limit,
    ensures
        varint_scan(varint_encode(v), limit) == Ok::<(nat, nat), VarIntParseError>(
            (v, varint_encode(v).len()),
        ),
    decreases v,
{
    if v >= 128 {
        let e = varint_encode(v);
        assert(e.skip(1) =~= varint_encode(v / 128));
        lemma_encode_scans(v / 128, (limit - 1) as nat);
    }
}

/// Minimality: no byte sequence that scans to `v`, under whatever limit, is
/// shorter than the canonical encoding of `v`, and that encoding never ends in a
/// continuation byte.
pub proof fn lemma_varint_minimal(v: nat, other: Seq<u8>, limit: nat)
    requires
        varint_scan(other, limit) is Ok,
        varint_scan(other, limit)->Ok_0.0 == v,
    ensures
        varint_encode(v).len() <= varint_scan(other, limit)->Ok_0.1,
        varint_encode(v).last() < 128,
{
    lemma_scan_prefix(other, limit);
    lemma_encode_len(v, varint_scan(other, limit)->Ok_0.1);
    lemma_encode_wf(v);
}

/// A value too large for `VAR_INT_MAX_BYTES` bytes was given.
#[derive(Debug)]
pub struct VarIntTooSmallError;

/// One variable-length integer, kept as the bytes that stand for it on the wire.
#[derive(Debug, PartialEq, Eq)]
pub struct VarInt {
    bytes: Vec<u8>,
}

impl Clone for VarInt {
    fn clone(&self) -> (r: Self)
        ensures
            r@ == self@,
    {
        proof {
            use_type_invariant(self);
        }
        let bytes: Vec<u8> = self.bytes.clone();
        assert(bytes@ =~= self.bytes@);
        Self { bytes }
    }
}

impl View for VarInt {
    type V = Seq<u8>;

    closed spec fn view(&self) -> Seq<u8> {
        self.bytes@
    }
}

impl VarInt {
    #[verifier::type_invariant]
    spec fn well_formed(&self) -> bool {
        varint_wf(self.bytes@)
    }

    /// The canonical encoding of `value`, or an error where it needs more than
    /// `VAR_INT_MAX_BYTES` bytes.
    pub fn new(value: usize) -> (r: Result<Self, VarIntTooSmallError>)
        ensures
            r is Ok <==> value < var_int_limit(),
            r matches Ok(v) ==> v@ == varint_encode(value as nat) && varint_wf(v@),
    {
        let bytes: Vec<u8> = encode_varint(value);
        proof {
            lemma_pow128_values();
            lemma_encode_len(value as nat, VAR_INT_MAX_BYTES as nat);
            lemma_encode_wf(value as nat);
        }
        if bytes.len() > VAR_INT_MAX_BYTES {
            Err(VarIntTooSmallError)
        } else {
            Ok(Self { bytes })
        }
    }

    /// Takes one variable-length integer from the front of `buf`: the integer
    /// and the number of bytes it occupies.
    pub fn read(buf: &[u8]) -> (r: Result<(Self, usize), VarIntParseError>)
        ensures
            match varint_decode(buf@) {
                Ok((_, n)) => r matches Ok((v, used)) && used == n && v@ == buf@.take(n as int)
                    && varint_wf(v@),
                Err(e) => r matches Err(f) && f == e,
            },
    {
        match scan(buf) {
            Ok((_, used)) => {
                proof {
                    lemma_scan_prefix(buf@, VAR_INT_MAX_BYTES as nat);
                }
                let bytes: Vec<u8> = vstd::slice::slice_to_vec(
                    vstd::slice::slice_subrange(buf, 0, used),
                );
                assert(bytes@ =~= buf@.take(used as int));
                Ok((Self { bytes }, used))
            },
            Err(e) => Err(e),
        }
    }

    /// The number of bytes on the wire.
    pub fn bytes(&self) -> (n: usize)
        ensures
            n == self@.len(),
            1 <= n <= VAR_INT_MAX_BYTES,
    {
        proof {
            use_type_invariant(self);
        }
        self.bytes.len()
    }

    /// The number that the bytes stand for.
    pub fn value(&self) -> (v: u64)
        ensures
            v == varint_value(self@),
            v < var_int_limit(),
            varint_wf(self@),
    {
        proof {
            use_type_invariant(self);
            lemma_wf_decodes(self.bytes@, Seq::empty());
        }
        match scan(self.bytes.as_slice()) {
            Ok((value, _)) => value,
            Err(_) => 0,
        }
    }

    /// The value as a `usize`; `WrongSize` where this machine's `usize` cannot
    /// hold it.
    pub fn to_usize(&self) -> (r: Result<usize, VarIntParseError>)
        ensures
            varint_value(self@) <= usize::MAX ==> r == Ok::<usize, VarIntParseError>(
                varint_value(self@) as usize,
            ),
            varint_value(self@) > usize::MAX ==> r == Err::<usize, VarIntParseError>(
                VarIntParseError::WrongSize,
            ),
    {
        let value: u64 = self.value();
        if value <= usize::MAX as u64 {
            Ok(value as usize)
        } else {
            Err(VarIntParseError::WrongSize)
        }
    }

    /// The value as an `isize`; `WrongSize` where this machine's `isize` cannot
    /// hold it.
    pub fn to_isize(&self) -> (r: Result<isize, VarIntParseError>)
        ensures
            varint_value(self@) <= isize::MAX ==> r == Ok::<isize, VarIntParseError>(
                varint_value(self@) as isize,
            ),
            varint_value(self@) > isize::MAX ==> r == Err::<isize, VarIntParseError>(
                VarIntParseError::WrongSize,
            ),
    {
        let value: u64 = self.value();
        if value <= isize::MAX as u64 {
            Ok(value as isize)
        } else {
            Err(VarIntParseError::WrongSize)
        }
    }
}

impl MCEncode for VarInt {
    open spec fn encodable(v: Seq<u8>) -> bool {
        varint_wf(v)
    }

    open spec fn wire(v: Seq<u8>) -> Seq<u8> {
        v
    }

    fn into_mc_data(self) -> (out: Vec<u8>) {
        let out: Vec<u8> = self.bytes;
        assert(out@ == self@);
        assert(Self::wire(self@) == self@);
        out
    }
}

impl MCDecode for VarInt {
    open spec fn parse(bytes: Seq<u8>) -> Option<(Seq<u8>, nat)> {
        match varint_decode(bytes) {
            Ok((_, n)) => Some((bytes.take(n as int), n)),
            Err(_) => None,
        }
    }

    fn from_mc_bytes(bytes: &[u8]) -> (r: Option<(Self, usize)>) {
        proof {
            if varint_decode(bytes@) is Ok {
                lemma_scan_prefix(bytes@, VAR_INT_MAX_BYTES as nat);
            }
        }
        match VarInt::read(bytes) {
            Ok((value, used)) => Some((value, used)),
            Err(_) => None,
        }
    }
}

impl MCCodec for VarInt {
    proof fn lemma_round_trip(v: Seq<u8>, rest: Seq<u8>) {
        lemma_wf_decodes(v, rest);
        assert((v + rest).take(v.len() as int) =~= v);
    }
}

impl TryFrom<VarInt> for usize {
    type Error = VarIntParseError;

    fn try_from(value: VarInt) -> (r: Result<usize, VarIntParseError>) {
        value.to_usize()
    }
}

impl vstd::std_specs::convert::TryFromSpecImpl<VarInt> for usize {
    open spec fn obeys_try_from_spec() -> bool {
        true
    }

    open spec fn try_from_spec(v: VarInt) -> Result<usize, VarIntParseError> {
        if varint_value(v@) <= usize::MAX {
            Ok(varint_value(v@) as usize)
        } else {
            Err(VarIntParseError::WrongSize)
        }
    }
}

impl TryFrom<VarInt> for isize {
    type Error = VarIntParseError;

    fn try_from(value: VarInt) -> (r: Result<isize, VarIntParseError>) {
        value.to_isize()
    }
}

impl vstd::std_specs::convert::TryFromSpecImpl<VarInt> for isize {
    open spec fn obeys_try_from_spec() -> bool {
        true
    }

    open spec fn try_from_spec(v: VarInt) -> Result<isize, VarIntParseError> {
        if varint_value(v@) <= isize::MAX {
            Ok(varint_value(v@) as isize)
        } else {
            Err(VarIntParseError::WrongSize)
        }
    }
}

} // verus!
