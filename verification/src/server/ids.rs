//! Clock readings and UUID-shaped identifiers.
use std::hash::{Hash, Hasher};

use vstd::prelude::*;

use crate::text::string_of;

verus! {

/// Reads the system clock. Trusted: calls `SystemTime::now` and
/// `duration_since(UNIX_EPOCH)`, and returns the whole seconds and the
/// sub-second nanoseconds of that duration, or zeros when the clock is before
/// the epoch. The nanoseconds are below one billion, as `Duration` keeps
/// them; nothing else is stated, the reading depends on the time.
#[verifier::external_body]
fn unix_time() -> (r: (u64, u32))
    ensures
        r.1 < 1_000_000_000,
{
    match std::time::SystemTime::now().duration_since(std::time::UNIX_EPOCH) {
        Ok(d) => (d.as_secs(), d.subsec_nanos()),
        Err(_) => (0, 0),
    }
}

/// Return the current UNIX timestamp in seconds.
pub fn now_unix_timestamp() -> i64 {
    let (secs, _) = unix_time();
    secs as i64
}

/// The nanoseconds of a reading of `secs` seconds and `nanos` nanoseconds.
pub open spec fn epoch_nanos(secs: u64, nanos: u32) -> int {
    secs as int * 1_000_000_000 + nanos as int
}

/// Nanoseconds since the UNIX epoch: the seconds of a clock reading times
/// one billion, plus its sub-second nanoseconds.
fn now_unix_nanos() -> (r: u128)
    ensures
        exists|secs: u64, nanos: u32| nanos < 1_000_000_000 && r == #[trigger] epoch_nanos(secs, nanos),
{
    let (secs, nanos) = unix_time();
    assert((secs as u128) * 1_000_000_000 <= u64::MAX as int * 1_000_000_000) by (nonlinear_arith)
        requires
            secs <= u64::MAX,
    ;
    let r = (secs as u128) * 1_000_000_000 + (nanos as u128);
    assert(nanos < 1_000_000_000 && r == epoch_nanos(secs, nanos));
    r
}

/// What `DefaultHasher::new`, `Hash::hash` of a string, a `u128` and a
/// `u64`, then `finish` give. The algorithm is not specified, so the result
/// is only named; `DefaultHasher::new` starts from fixed keys, so the same
/// inputs give the same hash.
pub uninterp spec fn seed_hash(seed: Seq<char>, nanos: u128, sequence: u64) -> u64;

/// What `DefaultHasher::new`, `Hash::hash` of a `u64`, a `u128` and a `u64`,
/// then `finish` give; named as `seed_hash` is.
pub uninterp spec fn mix_hash(first: u64, nanos: u128, sequence: u64) -> u64;

/// Hashes a seed string, a clock reading and a sequence number with the
/// standard library's `DefaultHasher` (`Hash::hash` of each, then `finish`).
/// Trusted: the result is the hash named `seed_hash` of the three.
#[verifier::external_body]
fn hash_seed(seed: &str, nanos: u128, sequence: u64) -> (r: u64)
    ensures
        r == seed_hash(seed@, nanos, sequence),
{
    let mut h = std::collections::hash_map::DefaultHasher::new();
    seed.hash(&mut h);
    nanos.hash(&mut h);
    sequence.hash(&mut h);
    h.finish()
}

/// Hashes a first hash and two more numbers with `DefaultHasher`, as
/// `hash_seed` does. Trusted: the result is the hash named `mix_hash`.
#[verifier::external_body]
fn hash_mix(first: u64, nanos: u128, sequence: u64) -> (r: u64)
    ensures
        r == mix_hash(first, nanos, sequence),
{
    let mut h = std::collections::hash_map::DefaultHasher::new();
    first.hash(&mut h);
    nanos.hash(&mut h);
    sequence.hash(&mut h);
    h.finish()
}

/// Byte `i` of the big-endian encoding of `p` (`u64::to_be_bytes`).
pub open spec fn be_byte(p: u64, i: int) -> u8 {
    ((p >> ((8 * (7 - i)) as u64)) & 0xff) as u8
}

/// The sixteen bytes of an identifier made from two hashes, with the version
/// nibble set to 4 and the RFC 4122 variant bits set.
pub open spec fn uuid_bytes(p1: u64, p2: u64) -> Seq<u8> {
    Seq::new(
        16,
        |i: int|
            if i == 6 {
                ((be_byte(p1, 6) & 0x0f) | 0x40) as u8
            } else if i == 8 {
                ((be_byte(p2, 0) & 0x3f) | 0x80) as u8
            } else if i < 8 {
                be_byte(p1, i)
            } else {
                be_byte(p2, i - 8)
            },
    )
}

/// Lower-case hexadecimal digit.
pub open spec fn hex_char(d: int) -> char {
    if d < 10 {
        (48 + d) as char
    } else {
        (87 + d) as char
    }
}

/// Two lower-case hex digits of a byte (`{:02x}`).
pub open spec fn hex_byte(b: u8) -> Seq<char> {
    seq![hex_char((b / 16) as int), hex_char((b % 16) as int)]
}

/// Hex digits of bytes `from` up to `to`.
pub open spec fn hex_bytes(b: Seq<u8>, from: int, to: int) -> Seq<char>
    decreases to - from,
{
    if to <= from {
        Seq::empty()
    } else {
        hex_bytes(b, from, to - 1) + hex_byte(b[to - 1])
    }
}

/// The text `xxxxxxxx-xxxx-xxxx-xxxx-xxxxxxxxxxxx` of sixteen bytes.
pub open spec fn uuid_text(b: Seq<u8>) -> Seq<char> {
    hex_bytes(b, 0, 4) + seq!['-'] + hex_bytes(b, 4, 6) + seq!['-'] + hex_bytes(b, 6, 8) + seq![
        '-',
    ] + hex_bytes(b, 8, 10) + seq!['-'] + hex_bytes(b, 10, 16)
}

/// The hex digit of a nibble.
fn hex_digit(d: u8) -> (c: char)
    requires
        d < 16,
    ensures
        c == hex_char(d as int),
{
    if d < 10 {
        ((48 + d) as u8) as char
    } else {
        ((87 + d) as u8) as char
    }
}

/// Appends the hex digits of bytes `from` up to `to` of `b`.
fn push_hex_bytes(out: &mut Vec<char>, b: &[u8], from: usize, to: usize)
    requires
        from <= to <= b@.len(),
    ensures
        final(out)@ == old(out)@ + hex_bytes(b@, from as int, to as int),
{
    let mut i = from;
    assert(hex_bytes(b@, from as int, from as int) =~= Seq::<char>::empty());
    assert(out@ =~= old(out)@ + hex_bytes(b@, from as int, from as int));
    while i < to
        invariant
            from <= i <= to <= b@.len(),
            out@ == old(out)@ + hex_bytes(b@, from as int, i as int),
        decreases to - i,
    {
        let x = b[i];
        out.push(hex_digit(x / 16));
        out.push(hex_digit(x % 16));
        i = i + 1;
        assert(out@ =~= old(out)@ + hex_bytes(b@, from as int, i as int));
    }
}

/// Byte `i` of the big-endian encoding of `p`.
fn be_byte_of(p: u64, i: u64) -> (r: u8)
    requires
        i < 8,
    ensures
        r == be_byte(p, i as int),
{
    ((p >> (8 * (7 - i))) & 0xff) as u8
}

/// Formats the identifier made from two hashes: their big-endian bytes with
/// the version and variant bits set, written as lower-case hex in the
/// 8-4-4-4-12 layout.
pub fn format_uuid_v4(p1: u64, p2: u64) -> (r: String)
    ensures
        r@ == uuid_text(uuid_bytes(p1, p2)),
{
    let mut bytes: Vec<u8> = Vec::new();
    let mut i: u64 = 0;
    while i < 16
        invariant
            i <= 16,
            bytes@.len() == i,
            forall|j: int| 0 <= j < i ==> bytes@[j] == #[trigger] uuid_bytes(p1, p2)[j],
        decreases 16 - i,
    {
        let b = if i == 6 {
            (be_byte_of(p1, 6) & 0x0f) | 0x40
        } else if i == 8 {
            (be_byte_of(p2, 0) & 0x3f) | 0x80
        } else if i < 8 {
            be_byte_of(p1, i)
        } else {
            be_byte_of(p2, i - 8)
        };
        bytes.push(b);
        i = i + 1;
    }
    assert(bytes@ =~= uuid_bytes(p1, p2));
    let mut out: Vec<char> = Vec::new();
    push_hex_bytes(&mut out, bytes.as_slice(), 0, 4);
    out.push('-');
    push_hex_bytes(&mut out, bytes.as_slice(), 4, 6);
    out.push('-');
    push_hex_bytes(&mut out, bytes.as_slice(), 6, 8);
    out.push('-');
    push_hex_bytes(&mut out, bytes.as_slice(), 8, 10);
    out.push('-');
    push_hex_bytes(&mut out, bytes.as_slice(), 10, 16);
    assert(out@ =~= uuid_text(uuid_bytes(p1, p2)));
    string_of(out.as_slice())
}

/// A lower-case hexadecimal digit: `0`..`9` or `a`..`f`.
pub open spec fn is_lower_hex(c: char) -> bool {
    ('0' <= c && c <= '9') || ('a' <= c && c <= 'f')
}

/// The digit of a nibble is a lower-case hexadecimal digit.
proof fn lemma_hex_char(d: int)
    requires
        0 <= d < 16,
    ensures
        is_lower_hex(hex_char(d)),
        hex_char(d) as int == if d < 10 { 48 + d } else { 87 + d },
{
}

/// The digit at position `j` of the digits of bytes `from` onward.
pub open spec fn hex_digit_at(b: Seq<u8>, from: int, j: int) -> char {
    if j % 2 == 0 {
        hex_char((b[from + j / 2] / 16) as int)
    } else {
        hex_char((b[from + j / 2] % 16) as int)
    }
}

/// The digits of bytes `from` up to `to`: two per byte, high nibble first.
proof fn lemma_hex_bytes(b: Seq<u8>, from: int, to: int)
    requires
        0 <= from <= to <= b.len(),
    ensures
        hex_bytes(b, from, to).len() == 2 * (to - from),
        forall|j: int|
            0 <= j < 2 * (to - from) ==> #[trigger] hex_bytes(b, from, to)[j] == hex_digit_at(b, from, j)
                && is_lower_hex(hex_bytes(b, from, to)[j]),
    decreases to - from,
{
    if from < to {
        lemma_hex_bytes(b, from, to - 1);
        let x = b[to - 1];
        lemma_hex_char((x / 16) as int);
        lemma_hex_char((x % 16) as int);
        let h = hex_bytes(b, from, to);
        let prev = hex_bytes(b, from, to - 1);
        assert(h == prev + hex_byte(x));
        assert forall|j: int| 0 <= j < 2 * (to - from) implies #[trigger] h[j] == hex_digit_at(b, from, j)
            && is_lower_hex(h[j]) by {
            if j < 2 * (to - 1 - from) {
                assert(h[j] == prev[j]);
            } else if j == 2 * (to - 1 - from) {
                assert(j / 2 == to - 1 - from);
                assert(j % 2 == 0);
            } else {
                assert(j / 2 == to - 1 - from);
                assert(j % 2 == 1);
            }
        }
    }
}

/// An identifier made from two hashes is 36 characters long, with a dash at
/// positions 8, 13, 18 and 23 and a lower-case hexadecimal digit everywhere
/// else; the version digit at position 14 is `4` and the variant digit at
/// position 19 is one of `8`, `9`, `a`, `b`.
pub proof fn lemma_uuid_layout(p1: u64, p2: u64)
    ensures
        ({
            let t = uuid_text(uuid_bytes(p1, p2));
            &&& t.len() == 36
            &&& t[8] == '-' && t[13] == '-' && t[18] == '-' && t[23] == '-'
            &&& forall|i: int|
                0 <= i < 36 && i != 8 && i != 13 && i != 18 && i != 23 ==> is_lower_hex(
                    #[trigger] t[i],
                )
            &&& t[14] == '4'
            &&& t[19] == '8' || t[19] == '9' || t[19] == 'a' || t[19] == 'b'
        }),
{
    let b = uuid_bytes(p1, p2);
    lemma_hex_bytes(b, 0, 4);
    lemma_hex_bytes(b, 4, 6);
    lemma_hex_bytes(b, 6, 8);
    lemma_hex_bytes(b, 8, 10);
    lemma_hex_bytes(b, 10, 16);
    let g1 = hex_bytes(b, 0, 4);
    let g2 = hex_bytes(b, 4, 6);
    let g3 = hex_bytes(b, 6, 8);
    let g4 = hex_bytes(b, 8, 10);
    let g5 = hex_bytes(b, 10, 16);
    let t = uuid_text(b);
    let d = seq!['-'];
    assert(t == g1 + d + g2 + d + g3 + d + g4 + d + g5);
    assert(t.len() == 36);
    assert forall|i: int|
        0 <= i < 36 && i != 8 && i != 13 && i != 18 && i != 23 implies is_lower_hex(#[trigger] t[i]) by {
        if i < 8 {
            assert(t[i] == g1[i]);
        } else if i < 13 {
            assert(t[i] == g2[i - 9]);
        } else if i < 18 {
            assert(t[i] == g3[i - 14]);
        } else if i < 23 {
            assert(t[i] == g4[i - 19]);
        } else {
            assert(t[i] == g5[i - 24]);
        }
    }
    assert(t[8] == '-');
    assert(t[13] == '-');
    assert(t[18] == '-');
    assert(t[23] == '-');
    let x6 = be_byte(p1, 6);
    let x8 = be_byte(p2, 0);
    assert(((x6 & 0x0f) | 0x40) as u8 / 16 == 4) by (bit_vector);
    let v = ((x8 & 0x3f) | 0x80) as u8 / 16;
    assert(8 <= ((x8 & 0x3f) | 0x80) as u8 / 16 <= 11) by (bit_vector);
    assert(t[14] == g3[0]);
    assert(g3[0] == hex_digit_at(b, 6, 0));
    lemma_hex_char(4);
    assert(t[19] == g4[0]);
    assert(g4[0] == hex_digit_at(b, 8, 0));
    lemma_hex_char((b[8] / 16) as int);
}

/// A clock reading rotated left by 17 bits.
pub open spec fn rotate_nanos(n: u128) -> u128 {
    (n << 17u32) | (n >> 111u32)
}

/// A sequence number rotated left by 9 bits.
pub open spec fn rotate_sequence(q: u64) -> u64 {
    (q << 9u32) | (q >> 55u32)
}

/// The identifier made from a seed, a clock reading in nanoseconds and a
/// sequence number: a first hash of the three, a second of the first with
/// the rotated reading and sequence, laid out as a version-4 UUID.
pub open spec fn uuid_for(seed: Seq<char>, nanos: u128, sequence: u64) -> Seq<char> {
    let p1 = seed_hash(seed, nanos, sequence);
    uuid_text(uuid_bytes(p1, mix_hash(p1, rotate_nanos(nanos), rotate_sequence(sequence))))
}

/// Generate a UUID-like identifier derived from a seed and sequence number:
/// two hashes of the seed, the clock and the sequence, formatted as a
/// version-4 UUID.
pub fn make_uuid_v4_like(seed: &str, sequence: u64) -> (r: String)
    ensures
        exists|p1: u64, p2: u64| r@ == uuid_text(uuid_bytes(p1, p2)),
        exists|nanos: u128| r@ == #[trigger] uuid_for(seed@, nanos, sequence),
{
    let nanos = now_unix_nanos();
    let p1 = hash_seed(seed, nanos, sequence);
    let nanos_rot = (nanos << 17u32) | (nanos >> 111u32);
    let seq_rot = (sequence << 9u32) | (sequence >> 55u32);
    let p2 = hash_mix(p1, nanos_rot, seq_rot);
    let r = format_uuid_v4(p1, p2);
    assert(nanos_rot == rotate_nanos(nanos));
    assert(seq_rot == rotate_sequence(sequence));
    assert(r@ == uuid_for(seed@, nanos, sequence));
    r
}

} // verus!
