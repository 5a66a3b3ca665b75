//! The answer to the probe of very old clients: a text in UTF-16, big-endian,
//! behind a marker byte and the number of its code units.

use crate::numeric::{be_bytes, put_be};
use vstd::prelude::*;

verus! {

/// The marker byte that opens the answer.
pub const LEGACY_STATUS_MARKER: u8 = 0xFF;

/// The UTF-16 code units of one character.
pub open spec fn utf16_char(c: char) -> Seq<u16> {
    let v = c as u32;
    if v < 0x1_0000 {
        seq![v as u16]
    } else {
        seq![(0xD800 + (v - 0x1_0000) / 0x400) as u16, (0xDC00 + (v - 0x1_0000) % 0x400) as u16]
    }
}

/// The UTF-16 code units of a text.
pub open spec fn utf16(text: Seq<char>) -> Seq<u16>
    decreases text.len(),
{
    if text.len() == 0 {
        Seq::empty()
    } else {
        utf16(text.drop_last()) + utf16_char(text.last())
    }
}

/// The code units of the decimal digits of `n`.
pub open spec fn digit_units(n: nat) -> Seq<u16>
    decreases n,
{
    if n < 10 {
        seq![(0x30 + n) as u16]
    } else {
        digit_units(n / 10).push((0x30 + n % 10) as u16)
    }
}

/// The code units of `v` written in decimal, with a minus sign where it is
/// negative.
pub open spec fn decimal_units(v: int) -> Seq<u16> {
    if v < 0 {
        seq![0x2Du16] + digit_units((-v) as nat)
    } else {
        digit_units(v as nat)
    }
}

/// The code units of the answer's text: the section sign, `1`, then the
/// protocol version, the game version, the server's name, the number of players
/// online and the most allowed, each behind a NUL.
pub open spec fn legacy_status_units(
    protocol_version: int,
    minecraft_version: Seq<char>,
    server_name: Seq<char>,
    online_players: int,
    max_players: int,
) -> Seq<u16> {
    seq![0xA7u16, 0x31u16, 0u16] + decimal_units(protocol_version) + seq![0u16] + utf16(
        minecraft_version,
    ) + seq![0u16] + utf16(server_name) + seq![0u16] + decimal_units(online_players) + seq![0u16]
        + decimal_units(max_players)
}

/// Code units as bytes, the high byte of each first.
pub open spec fn be_units(units: Seq<u16>) -> Seq<u8>
    decreases units.len(),
{
    if units.len() == 0 {
        Seq::empty()
    } else {
        be_units(units.drop_last()) + be_bytes(units.last() as nat, 2)
    }
}

/// The answer: the marker, the number of code units in two bytes (its low
/// sixteen bits where it is larger), then the code units.
pub open spec fn legacy_status_packet(units: Seq<u16>) -> Seq<u8> {
    seq![LEGACY_STATUS_MARKER] + be_bytes(units.len() % 0x1_0000, 2) + be_units(units)
}

/// Appends the decimal digits of `n`.
fn push_digits(out: &mut Vec<u16>, n: u64)
    ensures
        final(out)@ == old(out)@ + digit_units(n as nat),
    decreases n,
{
    if n >= 10 {
        push_digits(out, n / 10);
    }
    out.push((0x30 + n % 10) as u16);
    assert(out@ =~= old(out)@ + digit_units(n as nat));
}

/// Appends `v` in decimal.
fn push_decimal(out: &mut Vec<u16>, v: i32)
    ensures
        final(out)@ == old(out)@ + decimal_units(v as int),
{
    if v < 0 {
        out.push(0x2D);
        push_digits(out, (-(v as i64)) as u64);
    } else {
        push_digits(out, v as u64);
    }
    assert(out@ =~= old(out)@ + decimal_units(v as int));
}

/// Appends the UTF-16 code units of `text`.
fn push_utf16(out: &mut Vec<u16>, text: &str)
    ensures
        final(out)@ == old(out)@ + utf16(text@),
{
    let ghost before: Seq<u16> = out@;
    assert(text@.take(0) =~= Seq::<char>::empty());
    assert(out@ =~= before + utf16(text@.take(0)));
    for c in it: text.chars()
        invariant
            it.seq() == text@,
            out@ == before + utf16(text@.take(it.index() as int)),
    {
        proof {
            let i = it.index() as int;
            assert(text@.take(i + 1).drop_last() =~= text@.take(i));
            assert(text@.take(i + 1).last() == c);
        }
        let v: u32 = c as u32;
        if v < 0x1_0000 {
            out.push(v as u16);
        } else {
            let rest: u32 = v - 0x1_0000;
            out.push((0xD800 + rest / 0x400) as u16);
            out.push((0xDC00 + rest % 0x400) as u16);
        }
        proof {
            let i = it.index() as int;
            assert(out@ =~= before + utf16(text@.take(i + 1)));
        }
    }
    assert(text@.take(text@.len() as int) =~= text@);
}

/// The answer to a legacy probe, ready to be sent.
pub fn legacy_server_status(
    protocol_version: i32,
    minecraft_version: &str,
    server_name: &str,
    online_players: i32,
    max_players: i32,
) -> (packet: Vec<u8>)
    ensures
        packet@ == legacy_status_packet(
            legacy_status_units(
                protocol_version as int,
                minecraft_version@,
                server_name@,
                online_players as int,
                max_players as int,
            ),
        ),
{
    let mut units: Vec<u16> = Vec::new();
    units.push(0xA7);
    units.push(0x31);
    units.push(0);
    assert(units@ =~= seq![0xA7u16, 0x31u16, 0u16]);
    push_decimal(&mut units, protocol_version);
    units.push(0);
    push_utf16(&mut units, minecraft_version);
    units.push(0);
    push_utf16(&mut units, server_name);
    units.push(0);
    push_decimal(&mut units, online_players);
    units.push(0);
    push_decimal(&mut units, max_players);
    assert(units@ =~= legacy_status_units(
        protocol_version as int,
        minecraft_version@,
        server_name@,
        online_players as int,
        max_players as int,
    ));
    let mut packet: Vec<u8> = Vec::new();
    packet.push(LEGACY_STATUS_MARKER);
    put_be(&mut packet, (units.len() % 0x1_0000) as u128, 2);
    let ghost head: Seq<u8> = packet@;
    let mut i: usize = 0;
    assert(units@.take(0) =~= Seq::<u16>::empty());
    while i < units.len()
        invariant
            i <= units.len(),
            packet@ == head + be_units(units@.take(i as int)),
        decreases units.len() - i,
    {
        proof {
            assert(units@.take(i + 1).drop_last() =~= units@.take(i as int));
            assert(units@.take(i + 1).last() == units@[i as int]);
        }
        put_be(&mut packet, units[i] as u128, 2);
        i = i + 1;
        assert(packet@ =~= head + be_units(units@.take(i as int)));
    }
    assert(units@.take(units@.len() as int) =~= units@);
    assert(packet@ =~= legacy_status_packet(units@));
    packet
}

} // verus!
