//! Comparing strings and scanning the bytes of slash-separated paths.

use vstd::prelude::*;
use vstd::string::StringSliceAdditionalSpecFns;
use vstd::utf8::{encode_utf8, decode_utf8, encode_utf8_decode_utf8};

verus! {

/// The byte of `/`.
pub open spec fn slash() -> u8 {
    47u8
}

/// The byte of `.`.
pub open spec fn dot() -> u8 {
    46u8
}

/// Whether byte `i` of `b` is a slash.
pub open spec fn slash_at(b: Seq<u8>, i: int) -> bool {
    0 <= i < b.len() && b[i] == slash()
}

/// Whether `./` starts at byte `i` of `b`.
pub open spec fn dot_slash_at(b: Seq<u8>, i: int) -> bool {
    0 <= i && i + 2 <= b.len() && b[i] == dot() && b[i + 1] == slash()
}

/// Whether `../` starts at byte `i` of `b`.
pub open spec fn dot_dot_slash_at(b: Seq<u8>, i: int) -> bool {
    0 <= i && i + 3 <= b.len() && b[i] == dot() && b[i + 1] == dot() && b[i + 2] == slash()
}

/// The first byte at or after `i` that is not a slash (or the length).
pub open spec fn skip_slashes(b: Seq<u8>, i: int) -> int
    decreases b.len() - i,
{
    if 0 <= i < b.len() && b[i] == slash() {
        skip_slashes(b, i + 1)
    } else {
        i
    }
}

/// The first slash at or after `i` (or the length): where the segment at `i` ends.
pub open spec fn segment_end(b: Seq<u8>, i: int) -> int
    decreases b.len() - i,
{
    if i < 0 || i >= b.len() {
        b.len() as int
    } else if b[i] == slash() {
        i
    } else {
        segment_end(b, i + 1)
    }
}

pub proof fn lemma_skip_slashes_bounds(b: Seq<u8>, i: int)
    requires
        0 <= i <= b.len(),
    ensures
        i <= skip_slashes(b, i) <= b.len(),
        skip_slashes(b, i) < b.len() ==> b[skip_slashes(b, i)] != slash(),
        forall|j: int| i <= j < skip_slashes(b, i) ==> b[j] == slash(),
    decreases b.len() - i,
{
    if i < b.len() && b[i] == slash() {
        lemma_skip_slashes_bounds(b, i + 1);
    }
}

pub proof fn lemma_segment_end_bounds(b: Seq<u8>, i: int)
    requires
        0 <= i <= b.len(),
    ensures
        i <= segment_end(b, i) <= b.len(),
        segment_end(b, i) < b.len() ==> b[segment_end(b, i)] == slash(),
        forall|j: int| i <= j < segment_end(b, i) ==> b[j] != slash(),
    decreases b.len() - i,
{
    if i < b.len() && b[i] != slash() {
        lemma_segment_end_bounds(b, i + 1);
    }
}

/// Slashes from `o` up to a byte `s` that is none: `skip_slashes` stops at `s`.
pub proof fn lemma_skip_slashes_at(b: Seq<u8>, o: int, s: int)
    requires
        0 <= o <= s < b.len(),
        forall|j: int| o <= j < s ==> b[j] == slash(),
        b[s] != slash(),
    ensures
        skip_slashes(b, o) == s,
    decreases s - o,
{
    if o < s {
        lemma_skip_slashes_at(b, o + 1, s);
    }
}

/// No slash from `s` up to `e`, which is a slash or the end: the segment at `s`
/// ends at `e`.
pub proof fn lemma_segment_end_at(b: Seq<u8>, s: int, e: int)
    requires
        0 <= s <= e <= b.len(),
        forall|j: int| s <= j < e ==> b[j] != slash(),
        e == b.len() || b[e] == slash(),
    ensures
        segment_end(b, s) == e,
    decreases e - s,
{
    if s < e {
        lemma_segment_end_at(b, s + 1, e);
    }
}

/// Whether byte `i` of `b` is a slash.
pub fn is_slash_at(b: &[u8], i: usize) -> (r: bool)
    ensures
        r == slash_at(b@, i as int),
{
    i < b.len() && b[i] == 47u8
}

/// Whether `./` starts at byte `i` of `b`.
pub fn is_dot_slash_at(b: &[u8], i: usize) -> (r: bool)
    ensures
        r == dot_slash_at(b@, i as int),
{
    i < b.len() && b.len() - i >= 2 && b[i] == 46u8 && b[i + 1] == 47u8
}

/// Whether `../` starts at byte `i` of `b`.
pub fn is_dot_dot_slash_at(b: &[u8], i: usize) -> (r: bool)
    ensures
        r == dot_dot_slash_at(b@, i as int),
{
    i < b.len() && b.len() - i >= 3 && b[i] == 46u8 && b[i + 1] == 46u8 && b[i + 2] == 47u8
}

/// The first byte at or after `i` that is not a slash.
pub fn skip_slashes_from(b: &[u8], i: usize) -> (r: usize)
    requires
        i <= b@.len(),
    ensures
        r == skip_slashes(b@, i as int),
{
    let mut j = i;
    while j < b.len() && b[j] == 47u8
        invariant
            i <= j <= b@.len(),
            skip_slashes(b@, i as int) == skip_slashes(b@, j as int),
        decreases b@.len() - j,
    {
        j = j + 1;
    }
    j
}

/// Where the segment starting at byte `i` ends: the next slash, or the length.
pub fn segment_end_from(b: &[u8], i: usize) -> (r: usize)
    requires
        i <= b@.len(),
    ensures
        r == segment_end(b@, i as int),
{
    let mut j = i;
    while j < b.len() && b[j] != 47u8
        invariant
            i <= j <= b@.len(),
            segment_end(b@, i as int) == segment_end(b@, j as int),
        decreases b@.len() - j,
    {
        j = j + 1;
    }
    j
}

/// Whether two byte slices hold the same bytes.
pub fn bytes_eq(a: &[u8], b: &[u8]) -> (r: bool)
    ensures
        r == (a@ == b@),
{
    if a.len() != b.len() {
        return false;
    }
    let mut i: usize = 0;
    while i < a.len()
        invariant
            a@.len() == b@.len(),
            i <= a@.len(),
            forall|j: int| 0 <= j < i ==> a@[j] == b@[j],
        decreases a@.len() - i,
    {
        if a[i] != b[i] {
            return false;
        }
        i = i + 1;
    }
    assert(a@ =~= b@);
    true
}

/// Whether the bytes `b[start..end]` are the UTF-8 encoding of `s`.
pub fn str_eq_bytes(s: &str, b: &[u8], start: usize, end: usize) -> (r: bool)
    requires
        start <= end <= b@.len(),
    ensures
        r == (encode_utf8(s@) == b@.subrange(start as int, end as int)),
{
    let sb = s.as_bytes();
    if sb.len() != end - start {
        return false;
    }
    let mut i: usize = 0;
    while i < sb.len()
        invariant
            sb@ == encode_utf8(s@),
            sb@.len() == end - start,
            start <= end <= b@.len(),
            i <= sb@.len(),
            forall|j: int| 0 <= j < i ==> sb@[j] == b@[start + j],
        decreases sb@.len() - i,
    {
        if sb[i] != b[start + i] {
            assert(sb@[i as int] != b@.subrange(start as int, end as int)[i as int]);
            return false;
        }
        i = i + 1;
    }
    assert(sb@ =~= b@.subrange(start as int, end as int));
    true
}

/// Two strings hold the same characters exactly when their UTF-8 encodings agree.
pub proof fn lemma_encode_injective(a: Seq<char>, b: Seq<char>)
    ensures
        (encode_utf8(a) == encode_utf8(b)) <==> (a == b),
{
    encode_utf8_decode_utf8(a);
    encode_utf8_decode_utf8(b);
}

/// Whether two strings hold the same characters.
pub fn str_eq(a: &str, b: &str) -> (r: bool)
    ensures
        r == (a@ == b@),
{
    let ab = a.as_bytes();
    let bb = b.as_bytes();
    let r = bytes_eq(ab, bb);
    proof {
        lemma_encode_injective(a@, b@);
    }
    r
}

} // verus!
