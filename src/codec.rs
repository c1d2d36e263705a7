//! The framing of values on the tapes: the decimal ASCII length of the encoded
//! value, a newline, then the encoded bytes. Integers are encoded as their
//! fixed-width little-endian bytes.

use crate::tape::{
    first_stop, lemma_first_stop, newline_from, write_vec, InputTape, OutputTape, TapeError,
    NEWLINE,
};
use vstd::bytes::{
    lemma_auto_spec_u32_to_from_le_bytes, lemma_auto_spec_u64_to_from_le_bytes,
    spec_u32_from_le_bytes, spec_u32_to_le_bytes, spec_u64_from_le_bytes, spec_u64_to_le_bytes,
    u32_from_le_bytes, u32_to_le_bytes, u64_from_le_bytes, u64_to_le_bytes,
};
use vstd::prelude::*;

verus! {

broadcast use vstd::seq_lib::group_seq_properties;

/// The ASCII code of the digit `0`.
pub const ZERO: u8 = 48;

pub open spec fn is_digit(b: u8) -> bool {
    ZERO <= b && b <= ZERO + 9
}

pub open spec fn all_digits(s: Seq<u8>) -> bool {
    forall|i: int| 0 <= i < s.len() ==> is_digit(#[trigger] s[i])
}

/// The decimal ASCII digits of `n`, without leading zeros.
pub open spec fn decimal(n: nat) -> Seq<u8>
    decreases n,
{
    if n < 10 {
        seq![(ZERO + n) as u8]
    } else {
        decimal(n / 10).push((ZERO + n % 10) as u8)
    }
}

/// The number that the decimal digits `s` write.
pub open spec fn digits_value(s: Seq<u8>) -> nat
    decreases s.len(),
{
    if s.len() == 0 {
        0
    } else {
        digits_value(s.drop_last()) * 10 + (s.last() - ZERO) as nat
    }
}

/// The frame of `payload`.
pub open spec fn framed(payload: Seq<u8>) -> Seq<u8> {
    decimal(payload.len()).push(NEWLINE) + payload
}

/// The frame at the start of `bytes`: its payload and its whole length, where
/// its length line is well formed and its payload is all there.
pub open spec fn frame_of(bytes: Seq<u8>) -> Option<(Seq<u8>, nat)> {
    let k = first_stop(bytes, NEWLINE);
    let n = digits_value(bytes.take(k as int));
    if k < bytes.len() && k > 0 && all_digits(bytes.take(k as int)) && k + 1 + n <= bytes.len() {
        Some((bytes.subrange((k + 1) as int, (k + 1 + n) as int), k + 1 + n))
    } else {
        None
    }
}

/// Whether the length line at the start of `bytes` is complete and not a
/// decimal number.
pub open spec fn bad_header(bytes: Seq<u8>) -> bool {
    let k = first_stop(bytes, NEWLINE);
    k < bytes.len() && !(k > 0 && all_digits(bytes.take(k as int)))
}

proof fn lemma_decimal(n: nat)
    ensures
        decimal(n).len() > 0,
        all_digits(decimal(n)),
        digits_value(decimal(n)) == n,
    decreases n,
{
    if n >= 10 {
        lemma_decimal(n / 10);
        let d = decimal(n);
        assert(d.drop_last() == decimal(n / 10));
        assert(d.last() == (ZERO + n % 10) as u8);
        assert(n % 10 < 10);
        assert((d.last() - ZERO) as nat == n % 10);
        assert(n == (n / 10) * 10 + n % 10);
        assert(digits_value(d) == digits_value(d.drop_last()) * 10 + (d.last() - ZERO) as nat);
    } else {
        let d = decimal(n);
        assert(digits_value(d) == digits_value(d.drop_last()) * 10 + (d.last() - ZERO) as nat);
        assert(digits_value(d.drop_last()) == 0);
        assert(decimal(n).drop_last() == Seq::<u8>::empty());
        assert(decimal(n).last() == (ZERO + n) as u8);
    }
}

proof fn lemma_digits_grow(s: Seq<u8>, j: int)
    requires
        0 <= j <= s.len(),
        all_digits(s),
    ensures
        digits_value(s.take(j)) <= digits_value(s),
    decreases s.len() - j,
{
    if j < s.len() {
        lemma_digits_grow(s, j + 1);
        assert(s.take(j + 1).drop_last() == s.take(j));
    } else {
        assert(s.take(j) == s);
    }
}

/// Reading a frame gives back its payload: a frame holds the payload's exact
/// length in decimal, and nothing more before the payload.
proof fn lemma_frame_round_trip(payload: Seq<u8>)
    ensures
        frame_of(framed(payload)) == Some((payload, framed(payload).len())),
{
    let d = decimal(payload.len());
    let f = framed(payload);
    lemma_decimal(payload.len());
    assert forall|i: int| 0 <= i < d.len() implies f[i] != NEWLINE by {
        assert(f[i] == d[i]);
        assert(is_digit(d[i]));
    }
    assert(f[d.len() as int] == NEWLINE);
    lemma_first_stop(f, NEWLINE, d.len() as int);
    assert(f.take(d.len() as int) == d);
    assert(f.subrange((d.len() + 1) as int, (d.len() + 1 + payload.len()) as int) == payload);
}

/// The decimal digits of `n`.
pub fn encode_decimal(n: usize) -> (r: Vec<u8>)
    ensures
        r@ == decimal(n as nat),
    decreases n,
{
    if n < 10 {
        let mut v: Vec<u8> = Vec::new();
        v.push(ZERO + n as u8);
        assert(v@ == seq![(ZERO + n) as u8]);
        v
    } else {
        let mut v = encode_decimal(n / 10);
        v.push(ZERO + (n % 10) as u8);
        v
    }
}

/// The frame of `payload`.
pub fn encode_frame(payload: &[u8]) -> (r: Vec<u8>)
    ensures
        r@ == framed(payload@),
{
    let mut r = encode_decimal(payload.len());
    r.push(NEWLINE);
    let mut i: usize = 0;
    let ghost head = r@;
    while i < payload.len()
        invariant
            i <= payload@.len(),
            r@ == head + payload@.take(i as int),
        decreases payload@.len() - i,
    {
        r.push(payload[i]);
        i = i + 1;
        assert(head + payload@.take(i as int) == (head + payload@.take(i - 1)).push(
            payload@[i - 1],
        ));
    }
    assert(payload@.take(i as int) == payload@);
    r
}

/// The frame at the start of `bytes`: its payload, and how many bytes it takes.
pub fn decode_frame(bytes: &[u8]) -> (r: Option<(Vec<u8>, usize)>)
    ensures
        match r {
            Some((p, n)) => frame_of(bytes@) == Some((p@, n as nat)),
            None => frame_of(bytes@) is None,
        },
{
    let len = bytes.len();
    let k = newline_from(bytes, 0);
    assert(bytes@.skip(0) == bytes@);
    if k == len || k == 0 {
        return None;
    }
    let ghost head = bytes@.take(k as int);
    let mut j: usize = 0;
    let mut value: u128 = 0;
    let mut ok = true;
    while j < k && ok
        invariant
            0 < k < len == bytes@.len(),
            j <= k,
            head == bytes@.take(k as int),
            ok ==> all_digits(head.take(j as int)) && value == digits_value(head.take(j as int))
                && value <= len,
            !ok ==> !all_digits(head) || digits_value(head) > len,
        decreases k - j + (if ok {
            1int
        } else {
            0int
        }),
    {
        let b = bytes[j];
        assert(head.take(j + 1).drop_last() == head.take(j as int));
        if ZERO <= b && b <= ZERO + 9 {
            let next = value * 10 + (b - ZERO) as u128;
            if next > len as u128 {
                proof {
                    if all_digits(head) {
                        lemma_digits_grow(head, j + 1);
                    }
                }
                ok = false;
            } else {
                value = next;
                j = j + 1;
            }
        } else {
            assert(head[j as int] == b);
            ok = false;
        }
    }
    if !ok {
        return None;
    }
    assert(head.take(j as int) == head);
    if (k as u128) + 1 + value > len as u128 {
        return None;
    }
    let n = value as usize;
    let mut p: Vec<u8> = Vec::new();
    let mut i: usize = k + 1;
    while i < k + 1 + n
        invariant
            k + 1 + n <= len == bytes@.len(),
            k + 1 <= i <= k + 1 + n,
            p@ == bytes@.subrange(k + 1, i as int),
        decreases k + 1 + n - i,
    {
        p.push(bytes[i]);
        i = i + 1;
    }
    Some((p, k + 1 + n))
}

/// The encoding of `v`.
pub open spec fn encoded_u64(v: u64) -> Seq<u8> {
    framed(spec_u64_to_le_bytes(v))
}

/// The value that `bytes` encode, where they start with a frame of eight bytes.
pub open spec fn decoded_u64(bytes: Seq<u8>) -> Option<u64> {
    match frame_of(bytes) {
        Some((p, _)) => if p.len() == 8 {
            Some(spec_u64_from_le_bytes(p))
        } else {
            None
        },
        None => None,
    }
}

/// The encoding of `v`.
pub open spec fn encoded_u32(v: u32) -> Seq<u8> {
    framed(spec_u32_to_le_bytes(v))
}

/// The value that `bytes` encode, where they start with a frame of four bytes.
pub open spec fn decoded_u32(bytes: Seq<u8>) -> Option<u32> {
    match frame_of(bytes) {
        Some((p, _)) => if p.len() == 4 {
            Some(spec_u32_from_le_bytes(p))
        } else {
            None
        },
        None => None,
    }
}

pub fn encode_u64(v: u64) -> (r: Vec<u8>)
    ensures
        r@ == encoded_u64(v),
{
    let b = u64_to_le_bytes(v);
    encode_frame(b.as_slice())
}

pub fn decode_u64(bytes: &[u8]) -> (r: Option<u64>)
    ensures
        r == decoded_u64(bytes@),
{
    match decode_frame(bytes) {
        Some((p, _)) => if p.len() == 8 {
            Some(u64_from_le_bytes(p.as_slice()))
        } else {
            None
        },
        None => None,
    }
}

pub fn encode_u32(v: u32) -> (r: Vec<u8>)
    ensures
        r@ == encoded_u32(v),
{
    let b = u32_to_le_bytes(v);
    encode_frame(b.as_slice())
}

pub fn decode_u32(bytes: &[u8]) -> (r: Option<u32>)
    ensures
        r == decoded_u32(bytes@),
{
    match decode_frame(bytes) {
        Some((p, _)) => if p.len() == 4 {
            Some(u32_from_le_bytes(p.as_slice()))
        } else {
            None
        },
        None => None,
    }
}

/// Decoding an encoded value gives the value back, for every supported type:
/// byte strings, `u32` and `u64`.
pub proof fn lemma_value_round_trip(payload: Seq<u8>, a: u32, b: u64)
    ensures
        frame_of(framed(payload)) == Some((payload, framed(payload).len())),
        decoded_u32(encoded_u32(a)) == Some(a),
        decoded_u64(encoded_u64(b)) == Some(b),
{
    lemma_frame_round_trip(payload);
    lemma_frame_round_trip(spec_u32_to_le_bytes(a));
    lemma_frame_round_trip(spec_u64_to_le_bytes(b));
    lemma_auto_spec_u32_to_from_le_bytes();
    lemma_auto_spec_u64_to_from_le_bytes();
}

/// Writes the frame of `payload`.
pub fn write_frame(out: &mut OutputTape, payload: &[u8])
    ensures
        final(out)@ == old(out)@ + framed(payload@),
{
    let f = encode_frame(payload);
    write_vec(out, f.as_slice());
}

/// Reads one frame and returns its payload. Where the frame has not fully
/// arrived, nothing is consumed; where its length line is complete and not a
/// decimal number, nothing is consumed either.
pub fn read_frame(tape: &mut InputTape) -> (r: Result<Vec<u8>, TapeError>)
    ensures
        final(tape).ended() == old(tape).ended(),
        match frame_of(old(tape).rest()) {
            Some((p, n)) => r == Ok::<Vec<u8>, TapeError>(r->Ok_0) && r->Ok_0@ == p
                && final(tape).rest() == old(tape).rest().skip(n as int),
            None => *final(tape) == *old(tape) && r is Err && (r->Err_0 == TapeError::Malformed
                <==> bad_header(old(tape).rest())) && (r->Err_0 == TapeError::Exhausted <==> (
            !bad_header(old(tape).rest()) && old(tape).ended())) && (r->Err_0
                == TapeError::Incomplete <==> (!bad_header(old(tape).rest()) && !old(
            tape,
            ).ended())),
        },
{
    let snapshot = tape.pending_bytes();
    match decode_frame(snapshot.as_slice()) {
        Some((p, n)) => {
            tape.skip_front(n);
            Ok(p)
        },
        None => {
            let k = newline_from(snapshot.as_slice(), 0);
            assert(snapshot@.skip(0) == snapshot@);
            let mut header_ok = k > 0;
            let mut j: usize = 0;
            while j < k && header_ok
                invariant
                    k <= snapshot@.len(),
                    j <= k,
                    header_ok ==> k > 0 && all_digits(snapshot@.take(k as int).take(j as int)),
                    !header_ok ==> !(k > 0 && all_digits(snapshot@.take(k as int))),
                decreases k - j + (if header_ok {
                    1int
                } else {
                    0int
                }),
            {
                let b = snapshot[j];
                if ZERO <= b && b <= ZERO + 9 {
                    j = j + 1;
                } else {
                    assert(snapshot@.take(k as int)[j as int] == b);
                    header_ok = false;
                }
            }
            if header_ok {
                assert(snapshot@.take(k as int).take(j as int) == snapshot@.take(k as int));
            }
            if k < snapshot.len() && !header_ok {
                Err(TapeError::Malformed)
            } else if tape.is_ended() {
                Err(TapeError::Exhausted)
            } else {
                Err(TapeError::Incomplete)
            }
        },
    }
}

} // verus!
