//! Fixed-size frames: a UTF-8 payload, zero-padded to the agreed frame size.
//!
//! The payload ends at the first zero byte of a frame (or at its end). One
//! byte of every frame is kept for that terminator, so a payload holds at
//! most `frame_size - 1` bytes; longer text is cut at the last character
//! boundary that fits.

use vstd::prelude::*;
use vstd::utf8::*;
use vstd::string::*;

verus! {

broadcast use encode_utf8_valid_utf8, encode_utf8_decode_utf8;

/// Bytes of text that a frame of `frame_size` bytes can carry.
pub open spec fn payload_capacity(frame_size: nat) -> nat {
    if frame_size == 0 {
        0
    } else {
        (frame_size - 1) as nat
    }
}

/// The largest character boundary of `bytes` that is not above `k`.
pub open spec fn boundary_at_or_below(bytes: Seq<u8>, k: int) -> int
    decreases k,
{
    if k <= 0 {
        0
    } else if is_char_boundary(bytes, k) {
        k
    } else {
        boundary_at_or_below(bytes, k - 1)
    }
}

/// How many bytes of the UTF-8 encoding of `text` a frame keeps.
pub open spec fn kept_len(text: Seq<char>, frame_size: nat) -> int {
    let bytes = encode_utf8(text);
    let limit = if bytes.len() < payload_capacity(frame_size) {
        bytes.len() as int
    } else {
        payload_capacity(frame_size) as int
    };
    boundary_at_or_below(bytes, limit)
}

/// The frame that carries `text`: its kept bytes, then zeros up to `frame_size`.
pub open spec fn frame_of(text: Seq<char>, frame_size: nat) -> Seq<u8> {
    let k = kept_len(text, frame_size);
    encode_utf8(text).take(k) + Seq::new((frame_size - k) as nat, |_i: int| 0u8)
}

proof fn lemma_boundary_at_or_below(bytes: Seq<u8>, k: int)
    requires
        valid_utf8(bytes),
        0 <= k <= bytes.len(),
    ensures
        0 <= boundary_at_or_below(bytes, k) <= k,
        is_char_boundary(bytes, boundary_at_or_below(bytes, k)),
        forall|j: int|
            boundary_at_or_below(bytes, k) < j <= k ==> !is_char_boundary(bytes, j),
    decreases k,
{
    if k > 0 && !is_char_boundary(bytes, k) {
        lemma_boundary_at_or_below(bytes, k - 1);
    }
}

/// Encodes `text` into a frame of exactly `frame_size` bytes.
pub fn encode(text: &str, frame_size: usize) -> (frame: Vec<u8>)
    ensures
        frame@ == frame_of(text@, frame_size as nat),
        frame@.len() == frame_size,
{
    let bytes = text.as_bytes();
    let ghost b = bytes@;
    assert(b == encode_utf8(text@));
    let cap: usize = if frame_size == 0 {
        0
    } else {
        frame_size - 1
    };
    let limit: usize = if bytes.len() < cap {
        bytes.len()
    } else {
        cap
    };
    let mut k: usize = limit;
    proof {
        is_char_boundary_start_end_of_seq(b);
    }
    while !text.is_char_boundary(k)
        invariant
            b == text.spec_bytes(),
            valid_utf8(b),
            is_char_boundary(b, 0),
            k <= limit <= b.len(),
            boundary_at_or_below(b, k as int) == boundary_at_or_below(b, limit as int),
        decreases k,
    {
        k = k - 1;
    }
    proof {
        lemma_boundary_at_or_below(b, limit as int);
    }
    let mut frame: Vec<u8> = Vec::new();
    let mut i: usize = 0;
    while i < k
        invariant
            k <= b.len(),
            b == bytes@,
            i <= k,
            frame@ == b.take(i as int),
        decreases k - i,
    {
        frame.push(bytes[i]);
        i = i + 1;
        assert(frame@ =~= b.take(i as int));
    }
    while frame.len() < frame_size
        invariant
            k <= frame_size,
            k <= frame@.len() <= frame_size,
            frame@ == b.take(k as int) + Seq::new((frame@.len() - k) as nat, |_i: int| 0u8),
        decreases frame_size - frame.len(),
    {
        frame.push(0u8);
        assert(frame@ =~= b.take(k as int) + Seq::new((frame@.len() - k) as nat, |_i: int| 0u8));
    }
    frame
}

/// Where the text of a frame ends: at its first zero byte, or at its end.
pub open spec fn text_end(frame: Seq<u8>) -> int
    decreases frame.len(),
{
    if frame.len() == 0 || frame[0] == 0 {
        0
    } else {
        1 + text_end(frame.drop_first())
    }
}

/// The bytes of a frame that carry its text.
pub open spec fn payload(frame: Seq<u8>) -> Seq<u8> {
    frame.take(text_end(frame))
}

/// `text_end` is the first zero byte, or the length when there is none.
pub proof fn lemma_text_end(frame: Seq<u8>, k: int)
    requires
        0 <= k <= frame.len(),
        forall|j: int| 0 <= j < k ==> frame[j] != 0,
        k == frame.len() || frame[k] == 0,
    ensures
        text_end(frame) == k,
    decreases k,
{
    if k > 0 {
        lemma_text_end(frame.drop_first(), k - 1);
    }
}

proof fn lemma_text_end_bounds(frame: Seq<u8>)
    ensures
        0 <= text_end(frame) <= frame.len(),
        forall|j: int| 0 <= j < text_end(frame) ==> frame[j] != 0,
        text_end(frame) == frame.len() || frame[text_end(frame)] == 0,
    decreases frame.len(),
{
    if frame.len() > 0 && frame[0] != 0 {
        let rest = frame.drop_first();
        lemma_text_end_bounds(rest);
        assert forall|j: int| 0 <= j < text_end(frame) implies frame[j] != 0 by {
            if j > 0 {
                assert(frame[j] == rest[j - 1]);
            }
        }
    }
}

/// A frame of text that fits and holds no zero byte decodes to that text.
pub proof fn lemma_round_trip(text: Seq<char>, frame_size: nat)
    requires
        encode_utf8(text).len() <= payload_capacity(frame_size),
        forall|i: int| 0 <= i < encode_utf8(text).len() ==> encode_utf8(text)[i] != 0,
    ensures
        valid_utf8(payload(frame_of(text, frame_size))),
        decode_utf8(payload(frame_of(text, frame_size))) == text,
{
    let b = encode_utf8(text);
    is_char_boundary_start_end_of_seq(b);
    assert(kept_len(text, frame_size) == b.len());
    let f = frame_of(text, frame_size);
    assert(b.take(b.len() as int) =~= b);
    lemma_text_end(f, b.len() as int);
    assert(payload(f) =~= b);
}

/// Every frame has exactly `frame_size` bytes, and its text is a prefix of
/// the text it was made from. When the encoded text holds no zero byte, that
/// prefix is exactly the first `kept_len` bytes: the last character boundary
/// at or below `frame_size - 1`.
pub proof fn lemma_truncation(text: Seq<char>, frame_size: nat)
    ensures
        frame_of(text, frame_size).len() == frame_size,
        valid_utf8(payload(frame_of(text, frame_size))),
        decode_utf8(payload(frame_of(text, frame_size))).is_prefix_of(text),
        kept_len(text, frame_size) <= payload_capacity(frame_size),
        is_char_boundary(encode_utf8(text), kept_len(text, frame_size)),
        forall|j: int|
            kept_len(text, frame_size) < j <= payload_capacity(frame_size) && j
                <= encode_utf8(text).len() ==> !is_char_boundary(encode_utf8(text), j),
        (forall|i: int| 0 <= i < encode_utf8(text).len() ==> encode_utf8(text)[i] != 0)
            ==> payload(frame_of(text, frame_size)) == encode_utf8(text).take(
            kept_len(text, frame_size),
        ),
{
    let b = encode_utf8(text);
    let k = kept_len(text, frame_size);
    let limit = if b.len() < payload_capacity(frame_size) {
        b.len() as int
    } else {
        payload_capacity(frame_size) as int
    };
    lemma_boundary_at_or_below(b, limit);
    let s = b.take(k);
    let f = frame_of(text, frame_size);
    valid_utf8_split(b, k);
    decode_utf8_split(b, k);
    assert(b.subrange(0, k) == s);
    lemma_text_end_bounds(f);
    let e = text_end(f);
    if k < frame_size {
        assert(f[k] == 0);
    }
    assert(e <= k);
    assert(payload(f) =~= s.take(e));
    assert forall|j: int| 0 <= j < e implies s[j] != 0 by {
        assert(f[j] == s[j]);
    }
    if e < k {
        assert(s[e] == f[e]);
        is_char_boundary_iff_not_is_continuation_byte(s, e);
    } else {
        is_char_boundary_start_end_of_seq(s);
    }
    valid_utf8_split(s, e);
    decode_utf8_split(s, e);
    assert(s.subrange(0, e) == s.take(e));
    assert(decode_utf8(payload(f)).is_prefix_of(decode_utf8(s)));
    if forall|i: int| 0 <= i < b.len() ==> b[i] != 0 {
        if e < k {
            assert(s[e] == b[e]);
        }
        assert(payload(f) =~= s);
    }
}

/// Relies on `String::from_utf8`: it succeeds exactly on valid UTF-8, and the
/// string it returns holds those bytes.
#[verifier::external_body]
fn string_from_utf8(bytes: Vec<u8>) -> (r: Option<String>)
    ensures
        r.is_some() <==> valid_utf8(bytes@),
        r matches Some(s) ==> encode_utf8(s@) == bytes@,
{
    String::from_utf8(bytes).ok()
}

/// Decodes the text of a frame; `None` when its payload is not valid UTF-8.
pub fn decode(frame: &[u8]) -> (r: Option<String>)
    ensures
        r.is_some() <==> valid_utf8(payload(frame@)),
        r matches Some(s) ==> s@ == decode_utf8(payload(frame@)),
{
    let mut bytes: Vec<u8> = Vec::new();
    let mut i: usize = 0;
    while i < frame.len() && frame[i] != 0
        invariant
            i <= frame@.len(),
            forall|j: int| 0 <= j < i ==> frame@[j] != 0,
            bytes@ == frame@.take(i as int),
        decreases frame@.len() - i,
    {
        bytes.push(frame[i]);
        i = i + 1;
        assert(bytes@ =~= frame@.take(i as int));
    }
    proof {
        lemma_text_end(frame@, i as int);
    }
    let r = string_from_utf8(bytes);
    proof {
        if r.is_some() {
            encode_utf8_decode_utf8(r.unwrap()@);
        }
    }
    r
}

} // verus!
