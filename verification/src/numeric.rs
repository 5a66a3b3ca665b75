//! Fixed-width integers on the wire: big-endian, signed ones in two's
//! complement.

use crate::data_types::{MCCodec, MCDecode, MCEncode};
use vstd::prelude::*;

verus! {

broadcast use vstd::layout::layout_of_primitives;

/// 256 to the power `n`.
pub open spec fn pow256(n: nat) -> nat
    decreases n,
{
    if n == 0 {
        1
    } else {
        256 * pow256((n - 1) as nat)
    }
}

/// The low `width` bytes of `v`, most significant first.
pub open spec fn be_bytes(v: nat, width: nat) -> Seq<u8>
    decreases width,
{
    if width == 0 {
        Seq::empty()
    } else {
        be_bytes(v / 256, (width - 1) as nat).push((v % 256) as u8)
    }
}

/// The number that `bytes` spell, most significant byte first.
pub open spec fn be_value(bytes: Seq<u8>) -> nat
    decreases bytes.len(),
{
    if bytes.len() == 0 {
        0
    } else {
        256 * be_value(bytes.drop_last()) + bytes.last() as nat
    }
}

/// The unsigned number whose `width` bytes are the two's complement of `x`.
pub open spec fn twos_complement(x: int, width: nat) -> nat {
    if x < 0 {
        (x + pow256(width)) as nat
    } else {
        x as nat
    }
}

/// The signed number that the `width`-byte unsigned number `u` is the two's
/// complement of.
pub open spec fn from_twos_complement(u: nat, width: nat) -> int {
    if 2 * u >= pow256(width) {
        u - pow256(width)
    } else {
        u as int
    }
}

/// The powers of 256 at the widths of the integer types.
pub proof fn lemma_pow256_values()
    ensures
        pow256(0) == 1,
        pow256(1) == 0x100,
        pow256(2) == 0x1_0000,
        pow256(4) == 0x1_0000_0000,
        pow256(8) == 0x1_0000_0000_0000_0000,
        pow256(16) == 0x1_0000_0000_0000_0000_0000_0000_0000_0000,
{
    reveal_with_fuel(pow256, 17);
}

/// A larger exponent gives no smaller power.
pub proof fn lemma_pow256_monotonic(a: nat, b: nat)
    requires
        a <= b,
    ensures
        1 <= pow256(a) <= pow256(b),
    decreases b,
{
    if a < b {
        lemma_pow256_monotonic(a, (b - 1) as nat);
    } else if a > 0 {
        lemma_pow256_monotonic((a - 1) as nat, (b - 1) as nat);
    }
}

/// A big-endian encoding has the width that was asked for.
pub proof fn lemma_be_bytes_len(v: nat, width: nat)
    ensures
        be_bytes(v, width).len() == width,
    decreases width,
{
    if width > 0 {
        lemma_be_bytes_len(v / 256, (width - 1) as nat);
    }
}

/// `n` bytes spell a number below 256^n.
pub proof fn lemma_be_value_bound(bytes: Seq<u8>)
    ensures
        be_value(bytes) < pow256(bytes.len()),
    decreases bytes.len(),
{
    if bytes.len() > 0 {
        lemma_be_value_bound(bytes.drop_last());
    }
}

/// A number below 256^width is read back from its `width` bytes.
pub proof fn lemma_be_round_trip(v: nat, width: nat)
    requires
        v < pow256(width),
    ensures
        be_value(be_bytes(v, width)) == v,
        be_bytes(v, width).len() == width,
    decreases width,
{
    lemma_be_bytes_len(v, width);
    if width > 0 {
        let high = be_bytes(v / 256, (width - 1) as nat);
        lemma_be_round_trip(v / 256, (width - 1) as nat);
        assert(be_bytes(v, width).drop_last() =~= high);
    }
}

/// Bytes are written back as they were read.
pub proof fn lemma_be_bytes_of_value(bytes: Seq<u8>)
    ensures
        be_bytes(be_value(bytes), bytes.len()) == bytes,
    decreases bytes.len(),
{
    if bytes.len() > 0 {
        lemma_be_bytes_of_value(bytes.drop_last());
        assert(be_bytes(be_value(bytes), bytes.len()) =~= bytes);
    }
}

/// Two's complement and its inverse cancel on the range of a `width`-byte
/// signed integer.
pub proof fn lemma_twos_complement_round_trip(x: int, width: nat)
    requires
        width >= 1,
        -(pow256(width) / 2) <= x < pow256(width) / 2,
    ensures
        twos_complement(x, width) < pow256(width),
        from_twos_complement(twos_complement(x, width), width) == x,
{
    assert(pow256(width) == 256 * pow256((width - 1) as nat));
}

/// Appends the low `width` bytes of `value` to `out`, most significant first.
pub(crate) fn put_be(out: &mut Vec<u8>, value: u128, width: usize)
    ensures
        final(out)@ == old(out)@ + be_bytes(value as nat, width as nat),
    decreases width,
{
    if width > 0 {
        put_be(out, value / 256, width - 1);
        out.push((value % 256) as u8);
        assert(final(out)@ =~= old(out)@ + be_bytes(value as nat, width as nat));
    } else {
        assert(final(out)@ =~= old(out)@ + be_bytes(value as nat, width as nat));
    }
}

/// The `width` bytes of `value`, most significant first.
pub(crate) fn to_be(value: u128, width: usize) -> (out: Vec<u8>)
    ensures
        out@ == be_bytes(value as nat, width as nat),
{
    let mut out: Vec<u8> = Vec::new();
    put_be(&mut out, value, width);
    assert(out@ =~= be_bytes(value as nat, width as nat));
    out
}

/// The number that the first `width` bytes of `bytes` spell, or `None` where
/// there are fewer.
pub(crate) fn from_be(bytes: &[u8], width: usize) -> (r: Option<u128>)
    requires
        width <= 16,
    ensures
        bytes@.len() < width ==> r is None,
        bytes@.len() >= width ==> r == Some(be_value(bytes@.take(width as int)) as u128)
            && be_value(bytes@.take(width as int)) < pow256(width as nat),
{
    if bytes.len() < width {
        return None;
    }
    let mut acc: u128 = 0;
    let mut i: usize = 0;
    proof {
        lemma_pow256_values();
    }
    while i < width
        invariant
            i <= width <= 16,
            width <= bytes@.len(),
            acc == be_value(bytes@.take(i as int)),
            acc < pow256(i as nat),
        decreases width - i,
    {
        proof {
            let next = bytes@.take(i + 1);
            assert(next.drop_last() =~= bytes@.take(i as int));
            assert(next.last() == bytes@[i as int]);
            lemma_pow256_values();
            lemma_pow256_monotonic(i as nat, 15);
            lemma_pow256_monotonic((i + 1) as nat, 16);
            assert(pow256(16) == 256 * pow256(15));
        }
        acc = acc * 256 + bytes[i] as u128;
        i = i + 1;
    }
    Some(acc)
}

impl MCEncode for u8 {
    open spec fn encodable(v: u8) -> bool {
        true
    }

    open spec fn wire(v: u8) -> Seq<u8> {
        be_bytes(v as nat, 1)
    }

    fn into_mc_data(self) -> (out: Vec<u8>) {
        to_be(self as u128, core::mem::size_of::<u8>())
    }
}

impl MCDecode for u8 {
    open spec fn parse(bytes: Seq<u8>) -> Option<(u8, nat)> {
        if bytes.len() < 1 {
            None
        } else {
            Some((be_value(bytes.take(1)) as u8, 1nat))
        }
    }

    fn from_mc_bytes(bytes: &[u8]) -> (r: Option<(Self, usize)>) {
        let width: usize = core::mem::size_of::<u8>();
        match from_be(bytes, width) {
            Some(raw) => {
                proof {
                    lemma_pow256_values();
                }
                Some((raw as u8, width))
            },
            None => None,
        }
    }
}

impl MCCodec for u8 {
    proof fn lemma_round_trip(v: u8, rest: Seq<u8>) {
        lemma_pow256_values();
        lemma_be_round_trip(v as nat, 1);
        assert((be_bytes(v as nat, 1) + rest).take(1) =~= be_bytes(v as nat, 1));
    }
}

impl MCEncode for u16 {
    open spec fn encodable(v: u16) -> bool {
        true
    }

    open spec fn wire(v: u16) -> Seq<u8> {
        be_bytes(v as nat, 2)
    }

    fn into_mc_data(self) -> (out: Vec<u8>) {
        to_be(self as u128, core::mem::size_of::<u16>())
    }
}

impl MCDecode for u16 {
    open spec fn parse(bytes: Seq<u8>) -> Option<(u16, nat)> {
        if bytes.len() < 2 {
            None
        } else {
            Some((be_value(bytes.take(2)) as u16, 2nat))
        }
    }

    fn from_mc_bytes(bytes: &[u8]) -> (r: Option<(Self, usize)>) {
        let width: usize = core::mem::size_of::<u16>();
        match from_be(bytes, width) {
            Some(raw) => {
                proof {
                    lemma_pow256_values();
                }
                Some((raw as u16, width))
            },
            None => None,
        }
    }
}

impl MCCodec for u16 {
    proof fn lemma_round_trip(v: u16, rest: Seq<u8>) {
        lemma_pow256_values();
        lemma_be_round_trip(v as nat, 2);
        assert((be_bytes(v as nat, 2) + rest).take(2) =~= be_bytes(v as nat, 2));
    }
}

impl MCEncode for u32 {
    open spec fn encodable(v: u32) -> bool {
        true
    }

    open spec fn wire(v: u32) -> Seq<u8> {
        be_bytes(v as nat, 4)
    }

    fn into_mc_data(self) -> (out: Vec<u8>) {
        to_be(self as u128, core::mem::size_of::<u32>())
    }
}

impl MCDecode for u32 {
    open spec fn parse(bytes: Seq<u8>) -> Option<(u32, nat)> {
        if bytes.len() < 4 {
            None
        } else {
            Some((be_value(bytes.take(4)) as u32, 4nat))
        }
    }

    fn from_mc_bytes(bytes: &[u8]) -> (r: Option<(Self, usize)>) {
        let width: usize = core::mem::size_of::<u32>();
        match from_be(bytes, width) {
            Some(raw) => {
                proof {
                    lemma_pow256_values();
                }
                Some((raw as u32, width))
            },
            None => None,
        }
    }
}

impl MCCodec for u32 {
    proof fn lemma_round_trip(v: u32, rest: Seq<u8>) {
        lemma_pow256_values();
        lemma_be_round_trip(v as nat, 4);
        assert((be_bytes(v as nat, 4) + rest).take(4) =~= be_bytes(v as nat, 4));
    }
}

impl MCEncode for u64 {
    open spec fn encodable(v: u64) -> bool {
        true
    }

    open spec fn wire(v: u64) -> Seq<u8> {
        be_bytes(v as nat, 8)
    }

    fn into_mc_data(self) -> (out: Vec<u8>) {
        to_be(self as u128, core::mem::size_of::<u64>())
    }
}

impl MCDecode for u64 {
    open spec fn parse(bytes: Seq<u8>) -> Option<(u64, nat)> {
        if bytes.len() < 8 {
            None
        } else {
            Some((be_value(bytes.take(8)) as u64, 8nat))
        }
    }

    fn from_mc_bytes(bytes: &[u8]) -> (r: Option<(Self, usize)>) {
        let width: usize = core::mem::size_of::<u64>();
        match from_be(bytes, width) {
            Some(raw) => {
                proof {
                    lemma_pow256_values();
                }
                Some((raw as u64, width))
            },
            None => None,
        }
    }
}

impl MCCodec for u64 {
    proof fn lemma_round_trip(v: u64, rest: Seq<u8>) {
        lemma_pow256_values();
        lemma_be_round_trip(v as nat, 8);
        assert((be_bytes(v as nat, 8) + rest).take(8) =~= be_bytes(v as nat, 8));
    }
}

impl MCEncode for u128 {
    open spec fn encodable(v: u128) -> bool {
        true
    }

    open spec fn wire(v: u128) -> Seq<u8> {
        be_bytes(v as nat, 16)
    }

    fn into_mc_data(self) -> (out: Vec<u8>) {
        to_be(self as u128, core::mem::size_of::<u128>())
    }
}

impl MCDecode for u128 {
    open spec fn parse(bytes: Seq<u8>) -> Option<(u128, nat)> {
        if bytes.len() < 16 {
            None
        } else {
            Some((be_value(bytes.take(16)) as u128, 16nat))
        }
    }

    fn from_mc_bytes(bytes: &[u8]) -> (r: Option<(Self, usize)>) {
        let width: usize = core::mem::size_of::<u128>();
        match from_be(bytes, width) {
            Some(raw) => {
                proof {
                    lemma_pow256_values();
                }
                Some((raw as u128, width))
            },
            None => None,
        }
    }
}

impl MCCodec for u128 {
    proof fn lemma_round_trip(v: u128, rest: Seq<u8>) {
        lemma_pow256_values();
        lemma_be_round_trip(v as nat, 16);
        assert((be_bytes(v as nat, 16) + rest).take(16) =~= be_bytes(v as nat, 16));
    }
}

impl MCEncode for i8 {
    open spec fn encodable(v: i8) -> bool {
        true
    }

    open spec fn wire(v: i8) -> Seq<u8> {
        be_bytes(twos_complement(v as int, 1), 1)
    }

    fn into_mc_data(self) -> (out: Vec<u8>) {
        proof {
            lemma_pow256_values();
        }
        let raw: u128 = if self < 0 {
            (self as i128 + 0x100) as u128
        } else {
            self as u128
        };
        to_be(raw, core::mem::size_of::<i8>())
    }
}

impl MCDecode for i8 {
    open spec fn parse(bytes: Seq<u8>) -> Option<(i8, nat)> {
        if bytes.len() < 1 {
            None
        } else {
            Some((from_twos_complement(be_value(bytes.take(1)), 1) as i8, 1nat))
        }
    }

    fn from_mc_bytes(bytes: &[u8]) -> (r: Option<(Self, usize)>) {
        let width: usize = core::mem::size_of::<i8>();
        match from_be(bytes, width) {
            Some(raw) => {
                proof {
                    lemma_pow256_values();
                }
                let value: i8 = if raw >= 0x80 {
                    (raw as i128 - 0x100) as i8
                } else {
                    raw as i8
                };
                Some((value, width))
            },
            None => None,
        }
    }
}

impl MCCodec for i8 {
    proof fn lemma_round_trip(v: i8, rest: Seq<u8>) {
        lemma_pow256_values();
        lemma_twos_complement_round_trip(v as int, 1);
        let raw = twos_complement(v as int, 1);
        lemma_be_round_trip(raw, 1);
        assert((be_bytes(raw, 1) + rest).take(1) =~= be_bytes(raw, 1));
    }
}

impl MCEncode for i16 {
    open spec fn encodable(v: i16) -> bool {
        true
    }

    open spec fn wire(v: i16) -> Seq<u8> {
        be_bytes(twos_complement(v as int, 2), 2)
    }

    fn into_mc_data(self) -> (out: Vec<u8>) {
        proof {
            lemma_pow256_values();
        }
        let raw: u128 = if self < 0 {
            (self as i128 + 0x1_0000) as u128
        } else {
            self as u128
        };
        to_be(raw, core::mem::size_of::<i16>())
    }
}

impl MCDecode for i16 {
    open spec fn parse(bytes: Seq<u8>) -> Option<(i16, nat)> {
        if bytes.len() < 2 {
            None
        } else {
            Some((from_twos_complement(be_value(bytes.take(2)), 2) as i16, 2nat))
        }
    }

    fn from_mc_bytes(bytes: &[u8]) -> (r: Option<(Self, usize)>) {
        let width: usize = core::mem::size_of::<i16>();
        match from_be(bytes, width) {
            Some(raw) => {
                proof {
                    lemma_pow256_values();
                }
                let value: i16 = if raw >= 0x8000 {
                    (raw as i128 - 0x1_0000) as i16
                } else {
                    raw as i16
                };
                Some((value, width))
            },
            None => None,
        }
    }
}

impl MCCodec for i16 {
    proof fn lemma_round_trip(v: i16, rest: Seq<u8>) {
        lemma_pow256_values();
        lemma_twos_complement_round_trip(v as int, 2);
        let raw = twos_complement(v as int, 2);
        lemma_be_round_trip(raw, 2);
        assert((be_bytes(raw, 2) + rest).take(2) =~= be_bytes(raw, 2));
    }
}

impl MCEncode for i32 {
    open spec fn encodable(v: i32) -> bool {
        true
    }

    open spec fn wire(v: i32) -> Seq<u8> {
        be_bytes(twos_complement(v as int, 4), 4)
    }

    fn into_mc_data(self) -> (out: Vec<u8>) {
        proof {
            lemma_pow256_values();
        }
        let raw: u128 = if self < 0 {
            (self as i128 + 0x1_0000_0000) as u128
        } else {
            self as u128
        };
        to_be(raw, core::mem::size_of::<i32>())
    }
}

impl MCDecode for i32 {
    open spec fn parse(bytes: Seq<u8>) -> Option<(i32, nat)> {
        if bytes.len() < 4 {
            None
        } else {
            Some((from_twos_complement(be_value(bytes.take(4)), 4) as i32, 4nat))
        }
    }

    fn from_mc_bytes(bytes: &[u8]) -> (r: Option<(Self, usize)>) {
        let width: usize = core::mem::size_of::<i32>();
        match from_be(bytes, width) {
            Some(raw) => {
                proof {
                    lemma_pow256_values();
                }
                let value: i32 = if raw >= 0x8000_0000 {
                    (raw as i128 - 0x1_0000_0000) as i32
                } else {
                    raw as i32
                };
                Some((value, width))
            },
            None => None,
        }
    }
}

impl MCCodec for i32 {
    proof fn lemma_round_trip(v: i32, rest: Seq<u8>) {
        lemma_pow256_values();
        lemma_twos_complement_round_trip(v as int, 4);
        let raw = twos_complement(v as int, 4);
        lemma_be_round_trip(raw, 4);
        assert((be_bytes(raw, 4) + rest).take(4) =~= be_bytes(raw, 4));
    }
}

impl MCEncode for i64 {
    open spec fn encodable(v: i64) -> bool {
        true
    }

    open spec fn wire(v: i64) -> Seq<u8> {
        be_bytes(twos_complement(v as int, 8), 8)
    }

    fn into_mc_data(self) -> (out: Vec<u8>) {
        proof {
            lemma_pow256_values();
        }
        let raw: u128 = if self < 0 {
            (self as i128 + 0x1_0000_0000_0000_0000) as u128
        } else {
            self as u128
        };
        to_be(raw, core::mem::size_of::<i64>())
    }
}

impl MCDecode for i64 {
    open spec fn parse(bytes: Seq<u8>) -> Option<(i64, nat)> {
        if bytes.len() < 8 {
            None
        } else {
            Some((from_twos_complement(be_value(bytes.take(8)), 8) as i64, 8nat))
        }
    }

    fn from_mc_bytes(bytes: &[u8]) -> (r: Option<(Self, usize)>) {
        let width: usize = core::mem::size_of::<i64>();
        match from_be(bytes, width) {
            Some(raw) => {
                proof {
                    lemma_pow256_values();
                }
                let value: i64 = if raw >= 0x8000_0000_0000_0000 {
                    (raw as i128 - 0x1_0000_0000_0000_0000) as i64
                } else {
                    raw as i64
                };
                Some((value, width))
            },
            None => None,
        }
    }
}

impl MCCodec for i64 {
    proof fn lemma_round_trip(v: i64, rest: Seq<u8>) {
        lemma_pow256_values();
        lemma_twos_complement_round_trip(v as int, 8);
        let raw = twos_complement(v as int, 8);
        lemma_be_round_trip(raw, 8);
        assert((be_bytes(raw, 8) + rest).take(8) =~= be_bytes(raw, 8));
    }
}

impl MCEncode for i128 {
    open spec fn encodable(v: i128) -> bool {
        true
    }

    open spec fn wire(v: i128) -> Seq<u8> {
        be_bytes(twos_complement(v as int, 16), 16)
    }

    fn into_mc_data(self) -> (out: Vec<u8>) {
        proof {
            lemma_pow256_values();
        }
        let raw: u128 = if self < 0 {
            (self - i128::MIN) as u128 + 0x8000_0000_0000_0000_0000_0000_0000_0000
        } else {
            self as u128
        };
        to_be(raw, core::mem::size_of::<i128>())
    }
}

impl MCDecode for i128 {
    open spec fn parse(bytes: Seq<u8>) -> Option<(i128, nat)> {
        if bytes.len() < 16 {
            None
        } else {
            Some((from_twos_complement(be_value(bytes.take(16)), 16) as i128, 16nat))
        }
    }

    fn from_mc_bytes(bytes: &[u8]) -> (r: Option<(Self, usize)>) {
        let width: usize = core::mem::size_of::<i128>();
        match from_be(bytes, width) {
            Some(raw) => {
                proof {
                    lemma_pow256_values();
                }
                let value: i128 = if raw >= 0x8000_0000_0000_0000_0000_0000_0000_0000 {
                    (raw - 0x8000_0000_0000_0000_0000_0000_0000_0000) as i128 + i128::MIN
                } else {
                    raw as i128
                };
                Some((value, width))
            },
            None => None,
        }
    }
}

impl MCCodec for i128 {
    proof fn lemma_round_trip(v: i128, rest: Seq<u8>) {
        lemma_pow256_values();
        lemma_twos_complement_round_trip(v as int, 16);
        let raw = twos_complement(v as int, 16);
        lemma_be_round_trip(raw, 16);
        assert((be_bytes(raw, 16) + rest).take(16) =~= be_bytes(raw, 16));
    }
}

/// The number of bytes of a `usize`, and of an `isize`, on this machine.
pub open spec fn word_bytes() -> nat {
    (usize::BITS / 8) as nat
}

/// A machine word has four or eight bytes, and `usize` fills them.
pub proof fn lemma_word_bytes()
    ensures
        word_bytes() == 4 || word_bytes() == 8,
        word_bytes() == vstd::layout::size_of::<usize>(),
        pow256(word_bytes()) == usize::MAX + 1,
        pow256(word_bytes()) == 2 * (isize::MAX + 1),
        isize::MIN == -(isize::MAX + 1),
{
    lemma_pow256_values();
}

impl MCEncode for usize {
    open spec fn encodable(v: usize) -> bool {
        true
    }

    open spec fn wire(v: usize) -> Seq<u8> {
        be_bytes(v as nat, word_bytes())
    }

    fn into_mc_data(self) -> (out: Vec<u8>) {
        proof {
            lemma_word_bytes();
        }
        to_be(self as u128, core::mem::size_of::<usize>())
    }
}

impl MCDecode for usize {
    open spec fn parse(bytes: Seq<u8>) -> Option<(usize, nat)> {
        if bytes.len() < word_bytes() {
            None
        } else {
            Some((be_value(bytes.take(word_bytes() as int)) as usize, word_bytes()))
        }
    }

    fn from_mc_bytes(bytes: &[u8]) -> (r: Option<(Self, usize)>) {
        proof {
            lemma_word_bytes();
        }
        let width: usize = core::mem::size_of::<usize>();
        match from_be(bytes, width) {
            Some(raw) => Some((raw as usize, width)),
            None => None,
        }
    }
}

impl MCCodec for usize {
    proof fn lemma_round_trip(v: usize, rest: Seq<u8>) {
        lemma_word_bytes();
        let w = word_bytes();
        lemma_be_round_trip(v as nat, w);
        assert((be_bytes(v as nat, w) + rest).take(w as int) =~= be_bytes(v as nat, w));
    }
}

impl MCEncode for isize {
    open spec fn encodable(v: isize) -> bool {
        true
    }

    open spec fn wire(v: isize) -> Seq<u8> {
        be_bytes(twos_complement(v as int, word_bytes()), word_bytes())
    }

    fn into_mc_data(self) -> (out: Vec<u8>) {
        proof {
            lemma_word_bytes();
        }
        let raw: u128 = if self < 0 {
            (self as i128 + usize::MAX as i128 + 1) as u128
        } else {
            self as u128
        };
        to_be(raw, core::mem::size_of::<isize>())
    }
}

impl MCDecode for isize {
    open spec fn parse(bytes: Seq<u8>) -> Option<(isize, nat)> {
        if bytes.len() < word_bytes() {
            None
        } else {
            Some(
                (
                    from_twos_complement(
                        be_value(bytes.take(word_bytes() as int)),
                        word_bytes(),
                    ) as isize,
                    word_bytes(),
                ),
            )
        }
    }

    fn from_mc_bytes(bytes: &[u8]) -> (r: Option<(Self, usize)>) {
        proof {
            lemma_word_bytes();
        }
        let width: usize = core::mem::size_of::<isize>();
        match from_be(bytes, width) {
            Some(raw) => {
                let value: isize = if raw > isize::MAX as u128 {
                    (raw as i128 - usize::MAX as i128 - 1) as isize
                } else {
                    raw as isize
                };
                Some((value, width))
            },
            None => None,
        }
    }
}

impl MCCodec for isize {
    proof fn lemma_round_trip(v: isize, rest: Seq<u8>) {
        lemma_word_bytes();
        let w = word_bytes();
        lemma_twos_complement_round_trip(v as int, w);
        let raw = twos_complement(v as int, w);
        lemma_be_round_trip(raw, w);
        assert((be_bytes(raw, w) + rest).take(w as int) =~= be_bytes(raw, w));
    }
}

/// Two bytes, the high one first, as one number.
pub fn decode_u16_bytes(bytes: (u8, u8)) -> (r: u16)
    ensures
        r == bytes.0 * 256 + bytes.1,
        r == be_value(seq![bytes.0, bytes.1]),
{
    let high: u16 = bytes.0 as u16;
    let low: u16 = bytes.1 as u16;
    assert(high < 256 && low < 256 ==> (high << 8 | low) == high * 256 + low) by (bit_vector);
    proof {
        reveal_with_fuel(be_value, 3);
        let s = seq![bytes.0, bytes.1];
        assert(s.drop_last() =~= seq![bytes.0]);
        assert(s.drop_last().drop_last() =~= Seq::<u8>::empty());
    }
    high << 8 | low
}

} // verus!
