//! Lossy text decoding.
//!
//! A byte sequence is decoded front to back: every well-formed scalar
//! encoding decodes as UTF-8 prescribes, and every maximal run of bytes that
//! begins no well-formed scalar encoding but is still the longest prefix of
//! one — at least the single offending byte — becomes one replacement
//! character.  This is substitution of maximal subparts, and decoding
//! therefore never fails and never drops input.

use vstd::prelude::*;
use vstd::utf8::decode_first_scalar;
use vstd::utf8::decode_utf8;
use vstd::utf8::encode_utf8;
use vstd::utf8::is_continuation_byte;
use vstd::utf8::length_of_first_scalar;
use vstd::utf8::pop_first_scalar;
use vstd::utf8::valid_first_scalar;
use vstd::utf8::valid_utf8;

verus! {

/// The character substituted for each maximal subpart of an ill-formed
/// sequence.
pub open spec fn replacement() -> char {
    '\u{FFFD}'
}

/// True when `b1` may follow the lead byte `b0` in some well-formed scalar
/// encoding of three or four bytes: the pair is a proper prefix of a valid
/// encoding that still needs continuation bytes.  The range of the first
/// continuation byte is restricted by the lead, which rules out prefixes
/// that could only grow into overlong, surrogate or out-of-range encodings.
pub open spec fn can_follow_lead(b0: u8, b1: u8) -> bool {
    ||| (0xe0 <= b0 <= 0xef && is_continuation_byte(b1) && (b0 != 0xe0 || b1 >= 0xa0) && (b0
        != 0xed || b1 <= 0x9f))
    ||| (0xf0 <= b0 <= 0xf4 && is_continuation_byte(b1) && (b0 != 0xf0 || b1 >= 0x90) && (b0
        != 0xf4 || b1 <= 0x8f))
}

/// How many bytes one replacement character stands for when no well-formed
/// scalar encoding starts here: the maximal prefix that is still a prefix
/// of some well-formed encoding, and at least the one offending byte.
pub open spec fn invalid_run_len(bytes: Seq<u8>) -> int {
    if bytes.len() >= 2 && can_follow_lead(bytes[0], bytes[1]) {
        if bytes.len() >= 3 && 0xf0 <= bytes[0] <= 0xf4 && is_continuation_byte(bytes[2]) {
            3
        } else {
            2
        }
    } else {
        1
    }
}

/// The decoding of `bytes`: well-formed scalar encodings decode as UTF-8
/// does, and each maximal subpart of an ill-formed sequence becomes the
/// replacement character.
pub open spec fn lossy_decode(bytes: Seq<u8>) -> Seq<char>
    decreases bytes.len(),
{
    if bytes.len() == 0 {
        Seq::<char>::empty()
    } else if valid_first_scalar(bytes) {
        seq![decode_first_scalar(bytes) as char] + lossy_decode(pop_first_scalar(bytes))
    } else {
        seq![replacement()] + lossy_decode(bytes.skip(invalid_run_len(bytes)))
    }
}

/// Length in bytes of the well-formed scalar encoding that starts at `i`, or
/// `None` when no well-formed scalar encoding starts there.
fn scalar_len_at(bytes: &Vec<u8>, i: usize) -> (r: Option<usize>)
    requires
        i < bytes@.len(),
    ensures
        match r {
            Some(k) => {
                &&& valid_first_scalar(bytes@.skip(i as int))
                &&& k == length_of_first_scalar(bytes@.skip(i as int))
                &&& 1 <= k <= 4
                &&& i + k <= bytes@.len()
            },
            None => !valid_first_scalar(bytes@.skip(i as int)),
        },
{
    let ghost tail = bytes@.skip(i as int);
    let n = bytes.len();
    let b0 = bytes[i];
    assert(tail[0] == bytes@[i as int]);
    if b0 <= 0x7f {
        assert((b0 & 0x7f) <= 0x7f) by (bit_vector);
        Some(1)
    } else if 0xc0 <= b0 && b0 <= 0xdf {
        if n - i >= 2 && 0x80 <= bytes[i + 1] && bytes[i + 1] <= 0xbf {
            assert(tail[1] == bytes@[i + 1]);
            let b1 = bytes[i + 1];
            assert(((((b0 & 0x1f) as u32) << 6) | ((b1 & 0x3f) as u32)) <= 0x7ff) by (bit_vector);
            let cp: u32 = (((b0 & 0x1f) as u32) << 6) | ((b1 & 0x3f) as u32);
            if cp >= 0x80 {
                Some(2)
            } else {
                None
            }
        } else {
            None
        }
    } else if 0xe0 <= b0 && b0 <= 0xef {
        if n - i >= 3 && 0x80 <= bytes[i + 1]
            && bytes[i + 1] <= 0xbf && 0x80 <= bytes[i + 2] && bytes[i + 2] <= 0xbf {
            assert(tail[1] == bytes@[i + 1]);
            assert(tail[2] == bytes@[i + 2]);
            let cp: u32 = (((b0 & 0x0f) as u32) << 12) | (((bytes[i + 1] & 0x3f) as u32) << 6) | ((
            bytes[i + 2] & 0x3f) as u32);
            if cp >= 0x800 && !(0xd800 <= cp && cp <= 0xdfff) {
                Some(3)
            } else {
                None
            }
        } else {
            None
        }
    } else if 0xf0 <= b0 && b0 <= 0xf7 {
        if n - i >= 4 && 0x80 <= bytes[i + 1] && bytes[i + 1] <= 0xbf && 0x80 <= bytes[i + 2]
            && bytes[i + 2] <= 0xbf && 0x80 <= bytes[i + 3] && bytes[i + 3] <= 0xbf {
            assert(tail[1] == bytes@[i + 1]);
            assert(tail[2] == bytes@[i + 2]);
            assert(tail[3] == bytes@[i + 3]);
            let cp: u32 = (((b0 & 0x07) as u32) << 18) | (((bytes[i + 1] & 0x3f) as u32) << 12) | ((
            (bytes[i + 2] & 0x3f) as u32) << 6) | ((bytes[i + 3] & 0x3f) as u32);
            if 0x10000 <= cp && cp <= 0x10ffff {
                Some(4)
            } else {
                None
            }
        } else {
            None
        }
    } else {
        None
    }
}

/// Length of the maximal ill-formed subpart that starts at `i`, for one
/// replacement character to stand in for.
fn invalid_run_at(bytes: &Vec<u8>, i: usize) -> (r: usize)
    requires
        i < bytes@.len(),
        !valid_first_scalar(bytes@.skip(i as int)),
    ensures
        r == invalid_run_len(bytes@.skip(i as int)),
        1 <= r <= 3,
        i + r <= bytes@.len(),
{
    let ghost tail = bytes@.skip(i as int);
    let n = bytes.len();
    let b0 = bytes[i];
    assert(tail[0] == bytes@[i as int]);
    if n - i >= 2 {
        let b1 = bytes[i + 1];
        assert(tail[1] == bytes@[i + 1]);
        let follow = ((0xe0 <= b0 && b0 <= 0xef) && (0x80 <= b1 && b1 <= 0xbf) && (b0 != 0xe0
            || b1 >= 0xa0) && (b0 != 0xed || b1 <= 0x9f)) || ((0xf0 <= b0 && b0 <= 0xf4) && (0x80
            <= b1 && b1 <= 0xbf) && (b0 != 0xf0 || b1 >= 0x90) && (b0 != 0xf4 || b1 <= 0x8f));
        if follow {
            if n - i >= 3 {
                assert(tail[2] == bytes@[i + 2]);
                if 0xf0 <= b0 && b0 <= 0xf4 && 0x80 <= bytes[i + 2] && bytes[i + 2] <= 0xbf {
                    3
                } else {
                    2
                }
            } else {
                2
            }
        } else {
            1
        }
    } else {
        1
    }
}

/// The bytes of a single well-formed scalar encoding, taken on their own,
/// form a valid one-scalar UTF-8 sequence with the same decoding.
proof fn lemma_first_scalar_alone(a: Seq<u8>)
    requires
        valid_first_scalar(a),
    ensures
        valid_first_scalar(vstd::utf8::take_first_scalar(a)),
        valid_utf8(vstd::utf8::take_first_scalar(a)),
        decode_utf8(vstd::utf8::take_first_scalar(a)) =~= seq![decode_first_scalar(a) as char],
{
    let k = length_of_first_scalar(a);
    let b = vstd::utf8::take_first_scalar(a);
    assert(b.len() == k);
    assert(forall|j: int| 0 <= j < k ==> b[j] == a[j]);
    assert(valid_first_scalar(b));
    assert(length_of_first_scalar(b) == k);
    assert(decode_first_scalar(b) == decode_first_scalar(a));
    assert(pop_first_scalar(b) =~= Seq::<u8>::empty());
    reveal_with_fuel(valid_utf8, 2);
    reveal_with_fuel(decode_utf8, 2);
    assert(valid_utf8(b));
    assert(decode_utf8(b) =~= seq![decode_first_scalar(a) as char]);
}

/// The three-byte encoding of the replacement character.
proof fn lemma_replacement_bytes()
    ensures
        valid_utf8(seq![0xefu8, 0xbfu8, 0xbdu8]),
        decode_utf8(seq![0xefu8, 0xbfu8, 0xbdu8]) =~= seq![replacement()],
{
    let b = seq![0xefu8, 0xbfu8, 0xbdu8];
    assert(((((0xefu8 & 0x0f) as u32) << 12) | (((0xbfu8 & 0x3f) as u32) << 6) | ((0xbdu8
        & 0x3f) as u32)) == 0xfffdu32) by (bit_vector);
    assert(vstd::utf8::decode_first_codepoint(b) == 0xfffdu32);
    assert(valid_first_scalar(b));
    assert(pop_first_scalar(b) =~= Seq::<u8>::empty());
    reveal_with_fuel(valid_utf8, 2);
    reveal_with_fuel(decode_utf8, 2);
    assert((0xfffdu32 as char) == replacement()) by {
        vstd::utf8::char_u32_cast(replacement(), 0xfffdu32);
    };
}

/// Relies on `String::from_utf8`: a string built from valid UTF-8 bytes is
/// backed by exactly those bytes.
#[verifier::external_body]
fn vec_into_string(bytes: Vec<u8>) -> (s: String)
    requires
        valid_utf8(bytes@),
    ensures
        encode_utf8(s@) == bytes@,
{
    match String::from_utf8(bytes) {
        Ok(s) => s,
        Err(_) => String::new(),
    }
}

/// Decode `bytes` into an owned string, never failing: each maximal
/// ill-formed subpart is replaced.
pub fn lossy_string(bytes: &Vec<u8>) -> (s: String)
    ensures
        s@ == lossy_decode(bytes@),
{
    let mut out: Vec<u8> = Vec::new();
    let mut i: usize = 0;
    let n = bytes.len();
    proof {
        assert(bytes@.skip(0) =~= bytes@);
        assert(decode_utf8(out@) =~= Seq::<char>::empty());
    }
    while i < n
        invariant
            i <= n,
            n == bytes@.len(),
            valid_utf8(out@),
            decode_utf8(out@) + lossy_decode(bytes@.skip(i as int)) =~= lossy_decode(bytes@),
        decreases n - i,
    {
        let ghost pre_out = out@;
        let ghost tail = bytes@.skip(i as int);
        match scalar_len_at(bytes, i) {
            Some(k) => {
                let mut j: usize = 0;
                while j < k
                    invariant
                        j <= k,
                        n == bytes@.len(),
                        i + k <= bytes@.len(),
                        out@ =~= pre_out + bytes@.subrange(i as int, i + j),
                    decreases k - j,
                {
                    out.push(bytes[i + j]);
                    proof {
                        assert(out@ =~= pre_out + bytes@.subrange(i as int, i + j + 1));
                    }
                    j = j + 1;
                }
                proof {
                    let chunk = bytes@.subrange(i as int, i + k);
                    assert(chunk =~= vstd::utf8::take_first_scalar(tail));
                    lemma_first_scalar_alone(tail);
                    vstd::utf8::valid_utf8_concat(pre_out, chunk);
                    assert(out@ =~= pre_out + chunk);
                    vstd::utf8::is_char_boundary_iff_not_is_continuation_byte(
                        out@,
                        pre_out.len() as int,
                    );
                    vstd::utf8::decode_utf8_split(out@, pre_out.len() as int);
                    assert(out@.subrange(0, pre_out.len() as int) =~= pre_out);
                    assert(out@.subrange(pre_out.len() as int, out@.len() as int) =~= chunk);
                    assert(pop_first_scalar(tail) =~= bytes@.skip(i + k));
                    assert(decode_utf8(out@) + lossy_decode(bytes@.skip(i + k)) =~= lossy_decode(
                        bytes@,
                    ));
                }
                i = i + k;
            },
            None => {
                let k = invalid_run_at(bytes, i);
                out.push(0xef);
                out.push(0xbf);
                out.push(0xbd);
                proof {
                    let chunk = seq![0xefu8, 0xbfu8, 0xbdu8];
                    lemma_replacement_bytes();
                    vstd::utf8::valid_utf8_concat(pre_out, chunk);
                    assert(out@ =~= pre_out + chunk);
                    vstd::utf8::is_char_boundary_iff_not_is_continuation_byte(
                        out@,
                        pre_out.len() as int,
                    );
                    assert(!is_continuation_byte(0xefu8));
                    vstd::utf8::decode_utf8_split(out@, pre_out.len() as int);
                    assert(out@.subrange(0, pre_out.len() as int) =~= pre_out);
                    assert(out@.subrange(pre_out.len() as int, out@.len() as int) =~= chunk);
                    assert(tail.skip(k as int) =~= bytes@.skip(i + k));
                    assert(decode_utf8(out@) + lossy_decode(bytes@.skip(i + k)) =~= lossy_decode(
                        bytes@,
                    ));
                }
                i = i + k;
            },
        }
    }
    proof {
        assert(bytes@.skip(n as int) =~= Seq::<u8>::empty());
        assert(decode_utf8(out@) =~= lossy_decode(bytes@));
    }
    let s = vec_into_string(out);
    proof {
        vstd::utf8::encode_utf8_decode_utf8(s@);
    }
    s
}

/// Decoding never shortens input to nothing: any nonempty byte sequence
/// yields at least one character.
pub proof fn lemma_lossy_decode_nonempty(bytes: Seq<u8>)
    requires
        bytes.len() > 0,
    ensures
        lossy_decode(bytes).len() > 0,
{
}

/// On valid UTF-8 input, lossy decoding and strict UTF-8 decoding agree.
pub proof fn lemma_lossy_decode_of_valid(bytes: Seq<u8>)
    requires
        valid_utf8(bytes),
    ensures
        lossy_decode(bytes) =~= decode_utf8(bytes),
    decreases bytes.len(),
{
    if bytes.len() > 0 {
        assert(pop_first_scalar(bytes).len() < bytes.len());
        lemma_lossy_decode_of_valid(pop_first_scalar(bytes));
    }
}

/// An ASCII byte value that occurs nowhere in the input yields no character
/// with that scalar value in the output: the decoder invents no ASCII
/// characters.
pub proof fn lemma_lossy_decode_ascii_absent(bytes: Seq<u8>, a: u8)
    requires
        a <= 0x7f,
        forall|i: int| 0 <= i < bytes.len() ==> bytes[i] != a,
    ensures
        forall|j: int|
            0 <= j < lossy_decode(bytes).len() ==> (#[trigger] lossy_decode(bytes)[j]) as u32
                != a as u32,
    decreases bytes.len(),
{
    if bytes.len() == 0 {
    } else if valid_first_scalar(bytes) {
        let c = decode_first_scalar(bytes) as char;
        let cp = decode_first_scalar(bytes);
        let b0 = bytes[0];
        if vstd::utf8::is_leading_byte_width_1(b0) {
            assert(b0 <= 0x7f ==> (b0 & 0x7f) == b0) by (bit_vector);
            assert(cp == b0);
        } else if vstd::utf8::is_leading_byte_width_2(b0) {
            let b1 = bytes[1];
            assert(((((b0 & 0x1f) as u32) << 6) | ((b1 & 0x3f) as u32)) <= 0x7ff) by (bit_vector);
        } else if vstd::utf8::is_leading_byte_width_3(b0) {
            let b1 = bytes[1];
            let b2 = bytes[2];
            assert(((((b0 & 0x0f) as u32) << 12) | (((b1 & 0x3f) as u32) << 6) | ((b2
                & 0x3f) as u32)) <= 0xffff) by (bit_vector);
        }
        assert(vstd::utf8::is_scalar(cp));
        assert(cp != a as u32);
        assert(c as u32 == cp);
        lemma_lossy_decode_ascii_absent(pop_first_scalar(bytes), a);
        assert(forall|j: int|
            1 <= j < lossy_decode(bytes).len() ==> lossy_decode(bytes)[j] == lossy_decode(
                pop_first_scalar(bytes),
            )[j - 1]);
    } else {
        assert(replacement() as u32 == 0xfffd);
        let k = invalid_run_len(bytes);
        assert(forall|i: int| 0 <= i < bytes.skip(k).len() ==> bytes.skip(k)[i] != a);
        lemma_lossy_decode_ascii_absent(bytes.skip(k), a);
        assert(forall|j: int|
            1 <= j < lossy_decode(bytes).len() ==> lossy_decode(bytes)[j] == lossy_decode(
                bytes.skip(k),
            )[j - 1]);
    }
}

/// A valid UTF-8 prefix decodes independently of whatever follows it.
pub proof fn lemma_lossy_decode_concat_valid(a: Seq<u8>, b: Seq<u8>)
    requires
        valid_utf8(a),
    ensures
        lossy_decode(a + b) =~= decode_utf8(a) + lossy_decode(b),
    decreases a.len(),
{
    if a.len() == 0 {
        assert(a + b =~= b);
    } else {
        let k = length_of_first_scalar(a);
        assert(forall|i: int| 0 <= i < a.len() ==> (a + b)[i] == a[i]);
        assert(valid_first_scalar(a + b));
        assert(length_of_first_scalar(a + b) == k);
        assert(decode_first_scalar(a + b) == decode_first_scalar(a));
        assert(pop_first_scalar(a + b) =~= pop_first_scalar(a) + b);
        lemma_lossy_decode_concat_valid(pop_first_scalar(a), b);
    }
}

/// The replacement character appears exactly where the malformed byte
/// stood: input made of a valid part, one impossible byte and a rest
/// decodes to the valid part, one replacement character, and the decoded
/// rest.
pub proof fn lemma_replacement_at_position(a: Seq<u8>, bad: u8, b: Seq<u8>)
    requires
        valid_utf8(a),
        bad >= 0xf8,
    ensures
        lossy_decode(a + seq![bad] + b) =~= decode_utf8(a) + seq![replacement()] + lossy_decode(
            b,
        ),
{
    assert(a + seq![bad] + b =~= a + (seq![bad] + b));
    lemma_lossy_decode_concat_valid(a, seq![bad] + b);
    assert(!valid_first_scalar(seq![bad] + b));
    assert(invalid_run_len(seq![bad] + b) == 1);
    assert((seq![bad] + b).skip(1) =~= b);
    assert(lossy_decode(seq![bad] + b) =~= seq![replacement()] + lossy_decode(b));
}

/// Malformed input anywhere leaves a visible mark: whenever the bytes are
/// not valid UTF-8, the output contains the replacement character.
pub proof fn lemma_invalid_input_leaves_mark(bytes: Seq<u8>)
    requires
        !valid_utf8(bytes),
    ensures
        lossy_decode(bytes).contains(replacement()),
    decreases bytes.len(),
{
    if valid_first_scalar(bytes) {
        lemma_invalid_input_leaves_mark(pop_first_scalar(bytes));
        let rest = lossy_decode(pop_first_scalar(bytes));
        let w = choose|w: int| 0 <= w < rest.len() && rest[w] == replacement();
        assert(lossy_decode(bytes)[w + 1] == replacement());
    } else {
        assert(lossy_decode(bytes)[0] == replacement());
    }
}

/// A byte that can stand in no scalar encoding at all leaves a visible mark:
/// the output contains the replacement character.
pub proof fn lemma_lossy_decode_replaces(bytes: Seq<u8>, j: int)
    requires
        0 <= j < bytes.len(),
        bytes[j] >= 0xf8,
    ensures
        lossy_decode(bytes).contains(replacement()),
    decreases bytes.len(),
{
    if valid_first_scalar(bytes) {
        let k = length_of_first_scalar(bytes);
        assert(forall|i: int| 0 <= i < k ==> bytes[i] < 0xf8);
        lemma_lossy_decode_replaces(pop_first_scalar(bytes), j - k);
        let rest = lossy_decode(pop_first_scalar(bytes));
        let w = choose|w: int| 0 <= w < rest.len() && rest[w] == replacement();
        assert(lossy_decode(bytes)[w + 1] == replacement());
    } else {
        assert(lossy_decode(bytes)[0] == replacement());
    }
}

} // verus!
