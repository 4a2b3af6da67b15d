//! Reading characters one at a time from a source of bytes, keeping track of the
//! position in the file, with one character of push-back.

use vstd::prelude::*;
use vstd::utf8::*;

verus! {

#[verifier::external_type_specification]
#[verifier::external_body]
pub struct ExIoError(std::io::Error);

/// A source of bytes, read one at a time: `Ok(Some(b))` for the next byte,
/// `Ok(None)` at the end, `Err` when reading failed.
pub trait ReadByte {
    fn read_byte(&mut self) -> Result<Option<u8>, std::io::Error>;
}

/// Bytes held in memory, read from the front.
pub struct BytesInput {
    bytes: Vec<u8>,
    pos: usize,
}

impl BytesInput {
    pub closed spec fn spec_rest(&self) -> Seq<u8> {
        if self.pos <= self.bytes@.len() {
            self.bytes@.skip(self.pos as int)
        } else {
            Seq::empty()
        }
    }

    pub fn new(bytes: Vec<u8>) -> (r: Self)
        ensures
            r.spec_rest() == bytes@,
    {
        let r = BytesInput { bytes, pos: 0 };
        assert(r.bytes@.skip(0) =~= r.bytes@);
        r
    }
}

impl ReadByte for BytesInput {
    fn read_byte(&mut self) -> (r: Result<Option<u8>, std::io::Error>)
        ensures
            old(self).spec_rest().len() == 0 ==> (r matches Ok(None) && final(self).spec_rest() == old(self).spec_rest()),
            old(self).spec_rest().len() > 0 ==> (r matches Ok(Some(b)) && b == old(self).spec_rest()[0]
                && final(self).spec_rest() == old(self).spec_rest().drop_first()),
    {
        if self.pos < self.bytes.len() {
            let b = self.bytes[self.pos];
            self.pos = self.pos + 1;
            assert(self.bytes@.skip(self.pos as int) =~= old(self).bytes@.skip(old(self).pos as int).drop_first());
            Ok(Some(b))
        } else {
            Ok(None)
        }
    }
}

/// A position in a file: row, column and index of the character.
#[derive(PartialEq, Eq, Structural, Debug, Copy, Clone)]
pub struct FilePosition {
    row: usize,
    col: usize,
    idx: usize,
}

impl FilePosition {
    pub closed spec fn spec_row(&self) -> usize {
        self.row
    }

    pub closed spec fn spec_col(&self) -> usize {
        self.col
    }

    pub closed spec fn spec_idx(&self) -> usize {
        self.idx
    }

    /// Whether the position can move on by one character.
    pub open spec fn can_advance(&self) -> bool {
        self.spec_row() < usize::MAX && self.spec_col() < usize::MAX && self.spec_idx() < usize::MAX
    }

    /// The position after the character `c`: the index moves on, and a newline
    /// starts a new row at column 1, any other character moves the column on.
    pub closed spec fn after(&self, c: char) -> FilePosition {
        if c == '\n' {
            FilePosition { row: (self.row + 1) as usize, col: 1, idx: (self.idx + 1) as usize }
        } else {
            FilePosition { row: self.row, col: (self.col + 1) as usize, idx: (self.idx + 1) as usize }
        }
    }
}

/// Why no character could be read.
pub enum UTF8ReadError {
    Io(std::io::Error),
    Invalid(FilePosition),
    EOF(FilePosition),
    DblUnread,
}

/// The number of leading one bits of `b` from bit `7 - j` down, counted from `j`:
/// the first `j` at or after the given one whose bit is clear (8 if none is).
pub open spec fn first_clear_from(b: u8, j: nat) -> nat
    decreases 8 - j,
{
    if j >= 8 {
        j
    } else if b & (0x80u8 >> (j as u8)) == 0 {
        j
    } else {
        first_clear_from(b, j + 1)
    }
}

/// How many bytes the sequence that byte `b` starts holds, if `b` can start one:
/// 1 for a byte of one-byte form, and for a lead byte the number of its leading
/// one bits (2 to 4). A continuation byte, `0xFE`, `0xFF` and a byte with more
/// than four leading one bits start none.
pub open spec fn sequence_length(b: u8) -> Option<nat> {
    if b < 0x80 {
        Some(1)
    } else if b & 0xC0 == 0x80 || b & 0xFE == 0xFE {
        None
    } else {
        let n = first_clear_from(b, 1);
        if n > 4 {
            None
        } else {
            Some(n)
        }
    }
}

/// The bits of the lead byte of a sequence of `n` bytes that carry the value.
pub open spec fn lead_mask(n: nat) -> u8 {
    if n == 1 {
        0x7f
    } else if n == 2 {
        0x1f
    } else if n == 3 {
        0x0f
    } else {
        0x07
    }
}

/// The value that the bytes `bs` of a sequence of `n` bytes carry: the payload
/// bits of the lead byte, followed by the low six bits of each byte after it.
pub open spec fn sequence_value(bs: Seq<u8>, n: nat) -> int
    decreases bs.len(),
{
    if bs.len() == 0 {
        0
    } else if bs.len() == 1 {
        (bs[0] & lead_mask(n)) as int
    } else {
        sequence_value(bs.drop_last(), n) * 64 + (bs.last() & 0x3fu8) as int
    }
}

/// What decoding the bytes `bs` of one character gives the reader standing at
/// `pos`: the character whose scalar value they carry, when the first byte starts
/// a sequence of exactly that many bytes and the value is a Unicode scalar;
/// otherwise `Invalid` at `pos`.
pub open spec fn sequence_result(bs: Seq<u8>, pos: FilePosition) -> Result<char, UTF8ReadError> {
    if bs.len() == 0 {
        Err(UTF8ReadError::Invalid(pos))
    } else {
        match sequence_length(bs[0]) {
            None => Err(UTF8ReadError::Invalid(pos)),
            Some(n) => if bs.len() != n {
                Err(UTF8ReadError::Invalid(pos))
            } else {
                let v = sequence_value(bs, n);
                if 0 <= v <= u32::MAX && is_scalar(v as u32) {
                    Ok((v as u32) as char)
                } else {
                    Err(UTF8ReadError::Invalid(pos))
                }
            },
        }
    }
}

/// How decoding into `r` moves the reader from the character `now0` at `pos0` to
/// the character `now1` at `pos1`: a character read becomes the character read
/// last and moves the position on; an error leaves both.
pub open spec fn decode_effect(
    r: Result<char, UTF8ReadError>,
    now0: char,
    pos0: FilePosition,
    now1: char,
    pos1: FilePosition,
) -> bool {
    match r {
        Ok(c) => now1 == c && pos1 == pos0.after(c),
        Err(_) => now1 == now0 && pos1 == pos0,
    }
}

/// Whether reading failed in the source: it failed, or it had no byte left.
pub open spec fn source_failed(r: Result<char, UTF8ReadError>) -> bool {
    r is Err && (r->Err_0 is Io || r->Err_0 is EOF)
}

/// The leading one bits of the lead bytes of longer forms: a byte with its top
/// `n` bits set and the next one clear starts a sequence of `n` bytes.
proof fn lemma_first_clear(b: u8)
    ensures
        (b & 0xE0 == 0xC0) ==> first_clear_from(b, 1) == 2,
        (b & 0xF0 == 0xE0) ==> first_clear_from(b, 1) == 3,
        (b & 0xF8 == 0xF0) ==> first_clear_from(b, 1) == 4,
{
    assert(0x80u8 >> 1u8 == 0x40u8 && 0x80u8 >> 2u8 == 0x20u8 && 0x80u8 >> 3u8 == 0x10u8 && 0x80u8 >> 4u8 == 0x08u8)
        by (bit_vector);
    assert((b & 0xE0 == 0xC0) ==> (b & 0x40 != 0 && b & 0x20 == 0)) by (bit_vector);
    assert((b & 0xF0 == 0xE0) ==> (b & 0x40 != 0 && b & 0x20 != 0 && b & 0x10 == 0)) by (bit_vector);
    assert((b & 0xF8 == 0xF0) ==> (b & 0x40 != 0 && b & 0x20 != 0 && b & 0x10 != 0 && b & 0x08 == 0)) by (bit_vector);
    assert(first_clear_from(b, 1) == if b & (0x80u8 >> 1u8) == 0 { 1 } else { first_clear_from(b, 2) });
    assert(first_clear_from(b, 2) == if b & (0x80u8 >> 2u8) == 0 { 2 } else { first_clear_from(b, 3) });
    assert(first_clear_from(b, 3) == if b & (0x80u8 >> 3u8) == 0 { 3 } else { first_clear_from(b, 4) });
    assert(first_clear_from(b, 4) == if b & (0x80u8 >> 4u8) == 0 { 4 } else { first_clear_from(b, 5) });
}

/// Every character's UTF-8 encoding, of one to four bytes, decodes to the
/// character itself.
pub proof fn law_sequence_decodes_encoding(c: char, pos: FilePosition)
    ensures
        sequence_result(encode_scalar(c as u32), pos) == Ok::<char, UTF8ReadError>(c),
{
    let s = c as u32;
    char_is_scalar(c);
    char_u32_cast(c, s);
    let bs = encode_scalar(s);
    if has_width_1_encoding(s) {
        let b0 = leading_byte_width_1(s);
        assert(b0 < 0x80 && (b0 & 0x7f) as u32 == s) by (bit_vector)
            requires
                s <= 0x7f,
                b0 == (s & 0x7F) as u8,
        ;
        assert(sequence_value(bs, 1) == s as int);
    } else if has_width_2_encoding(s) {
        let b0 = leading_byte_width_2(s);
        let b1 = last_continuation_byte(s);
        assert(b0 >= 0x80 && b0 & 0xC0 != 0x80 && b0 & 0xFE != 0xFE && b0 & 0xE0 == 0xC0) by (bit_vector)
            requires
                0x80 <= s <= 0x7FF,
                b0 == 0xC0 | ((s >> 6) & 0x1F) as u8,
        ;
        assert(((b0 & 0x1f) as u32) * 64 + ((b1 & 0x3f) as u32) == s) by (bit_vector)
            requires
                0x80 <= s <= 0x7FF,
                b0 == 0xC0 | ((s >> 6) & 0x1F) as u8,
                b1 == 0x80 | (s & 0x3F) as u8,
        ;
        lemma_first_clear(b0);
        assert(bs =~= seq![b0, b1]);
        assert(bs.drop_last() =~= seq![b0]);
        assert(sequence_value(bs.drop_last(), 2) == (b0 & 0x1f) as int);
        assert(sequence_value(bs, 2) == (b0 & 0x1f) as int * 64 + (b1 & 0x3f) as int);
        assert(sequence_value(bs, 2) == s as int);
    } else if has_width_3_encoding(s) {
        let b0 = leading_byte_width_3(s);
        let b1 = second_last_continuation_byte(s);
        let b2 = last_continuation_byte(s);
        assert(b0 >= 0x80 && b0 & 0xC0 != 0x80 && b0 & 0xFE != 0xFE && b0 & 0xF0 == 0xE0) by (bit_vector)
            requires
                0x800 <= s <= 0xFFFF,
                b0 == 0xE0 | ((s >> 12) & 0x0F) as u8,
        ;
        assert((((b0 & 0x0f) as u32) * 64 + ((b1 & 0x3f) as u32)) * 64 + ((b2 & 0x3f) as u32) == s) by (bit_vector)
            requires
                0x800 <= s <= 0xFFFF,
                b0 == 0xE0 | ((s >> 12) & 0x0F) as u8,
                b1 == 0x80 | ((s >> 6) & 0x3F) as u8,
                b2 == 0x80 | (s & 0x3F) as u8,
        ;
        lemma_first_clear(b0);
        assert(bs =~= seq![b0, b1, b2]);
        assert(bs.drop_last() =~= seq![b0, b1]);
        assert(bs.drop_last().drop_last() =~= seq![b0]);
        assert(sequence_value(bs.drop_last().drop_last(), 3) == (b0 & 0x0f) as int);
        assert(sequence_value(bs.drop_last(), 3) == (b0 & 0x0f) as int * 64 + (b1 & 0x3f) as int);
        assert(sequence_value(bs, 3) == ((b0 & 0x0f) as int * 64 + (b1 & 0x3f) as int) * 64 + (b2 & 0x3f) as int);
        assert(sequence_value(bs, 3) == s as int);
    } else {
        let b0 = leading_byte_width_4(s);
        let b1 = third_last_continuation_byte(s);
        let b2 = second_last_continuation_byte(s);
        let b3 = last_continuation_byte(s);
        assert(b0 >= 0x80 && b0 & 0xC0 != 0x80 && b0 & 0xFE != 0xFE && b0 & 0xF8 == 0xF0) by (bit_vector)
            requires
                0x10000 <= s <= 0x10FFFF,
                b0 == 0xF0 | ((s >> 18) & 0x7) as u8,
        ;
        assert(((((b0 & 0x07) as u32) * 64 + ((b1 & 0x3f) as u32)) * 64 + ((b2 & 0x3f) as u32)) * 64 + ((b3 & 0x3f) as u32) == s)
            by (bit_vector)
            requires
                0x10000 <= s <= 0x10FFFF,
                b0 == 0xF0 | ((s >> 18) & 0x7) as u8,
                b1 == 0x80 | ((s >> 12) & 0x3F) as u8,
                b2 == 0x80 | ((s >> 6) & 0x3F) as u8,
                b3 == 0x80 | (s & 0x3F) as u8,
        ;
        lemma_first_clear(b0);
        assert(bs =~= seq![b0, b1, b2, b3]);
        assert(bs.drop_last() =~= seq![b0, b1, b2]);
        assert(bs.drop_last().drop_last() =~= seq![b0, b1]);
        assert(bs.drop_last().drop_last().drop_last() =~= seq![b0]);
        assert(sequence_value(bs.drop_last().drop_last().drop_last(), 4) == (b0 & 0x07) as int);
        assert(sequence_value(bs.drop_last().drop_last(), 4) == (b0 & 0x07) as int * 64 + (b1 & 0x3f) as int);
        assert(sequence_value(bs.drop_last(), 4) == ((b0 & 0x07) as int * 64 + (b1 & 0x3f) as int) * 64 + (b2 & 0x3f) as int);
        assert(sequence_value(bs, 4) == (((b0 & 0x07) as int * 64 + (b1 & 0x3f) as int) * 64 + (b2 & 0x3f) as int) * 64
            + (b3 & 0x3f) as int);
        assert(sequence_value(bs, 4) == s as int);
    }
}

/// `char::from_u32`: the character whose scalar value is `v`, or `None` where `v`
/// is no Unicode scalar value (a surrogate, or past `0x10FFFF`).
#[verifier::external_body]
fn char_from_u32(v: u32) -> (r: Option<char>)
    ensures
        match r {
            Some(c) => is_scalar(v) && c == v as char,
            None => !is_scalar(v),
        },
{
    char::from_u32(v)
}

/// How many bytes the sequence that `b` starts holds, as `sequence_length` says.
pub fn sequence_length_of(b: u8) -> (r: Option<usize>)
    ensures
        match sequence_length(b) {
            Some(n) => r == Some(n as usize),
            None => r is None,
        },
        r matches Some(n) ==> 1 <= n <= 4,
{
    if b < 0x80 {
        return Some(1);
    }
    if (b & 0xC0) == 0x80 {
        return None;
    }
    if (b & 0xFE) == 0xFE {
        return None;
    }
    let mut n: u8 = 1;
    proof {
        assert(b & 0x80 != 0) by (bit_vector)
            requires
                b >= 0x80,
        ;
        assert((b & 0x80 != 0 && (b & 0xFE) != 0xFE) ==> (b & 0x40 == 0 || b & 0x20 == 0 || b & 0x10 == 0 || b & 0x08 == 0
            || b & 0x04 == 0 || b & 0x02 == 0)) by (bit_vector);
        assert(0x80u8 >> 1u8 == 0x40u8 && 0x80u8 >> 2u8 == 0x20u8 && 0x80u8 >> 3u8 == 0x10u8 && 0x80u8 >> 4u8
            == 0x08u8 && 0x80u8 >> 5u8 == 0x04u8 && 0x80u8 >> 6u8 == 0x02u8) by (bit_vector);
    }
    loop
        invariant
            1 <= n <= 6,
            (b & 0xFE) != 0xFE,
            b & 0x40 == 0 || b & 0x20 == 0 || b & 0x10 == 0 || b & 0x08 == 0 || b & 0x04 == 0 || b & 0x02 == 0,
            0x80u8 >> 1u8 == 0x40u8 && 0x80u8 >> 2u8 == 0x20u8 && 0x80u8 >> 3u8 == 0x10u8 && 0x80u8 >> 4u8 == 0x08u8
                && 0x80u8 >> 5u8 == 0x04u8 && 0x80u8 >> 6u8 == 0x02u8,
            forall|j: u8| 1 <= j < n ==> #[trigger] (b & (0x80u8 >> j)) != 0,
            first_clear_from(b, 1) == first_clear_from(b, n as nat),
        ensures
            1 <= n <= 6,
            b & (0x80u8 >> n) == 0,
            first_clear_from(b, 1) == first_clear_from(b, n as nat),
        decreases 7 - n,
    {
        if (b & (0x80u8 >> n)) == 0 {
            break;
        }
        proof {
            if n == 6 {
                assert(b & (0x80u8 >> 1u8) != 0);
                assert(b & (0x80u8 >> 2u8) != 0);
                assert(b & (0x80u8 >> 3u8) != 0);
                assert(b & (0x80u8 >> 4u8) != 0);
                assert(b & (0x80u8 >> 5u8) != 0);
            }
        }
        n = n + 1;
    }
    assert(first_clear_from(b, n as nat) == n as nat);
    if n > 4 {
        return None;
    }
    Some(n as usize)
}

/// The bits of a lead byte's value for a sequence of `n` bytes, as `lead_mask` says.
fn lead_mask_of(n: usize) -> (r: u8)
    ensures
        r == lead_mask(n as nat),
{
    if n == 1 {
        0x7f
    } else if n == 2 {
        0x1f
    } else if n == 3 {
        0x0f
    } else {
        0x07
    }
}

/// What reading one byte of the input gives the reader standing at `pos`: the
/// byte; `EOF` at `pos` where the input had none left; `Io` with the source's
/// error where reading failed.
fn byte_result(got: Result<Option<u8>, std::io::Error>, pos: FilePosition) -> (r: Result<u8, UTF8ReadError>)
    ensures
        match got {
            Ok(Some(b)) => r == Ok::<u8, UTF8ReadError>(b),
            Ok(None) => r == Err::<u8, UTF8ReadError>(UTF8ReadError::EOF(pos)),
            Err(e) => r == Err::<u8, UTF8ReadError>(UTF8ReadError::Io(e)),
        },
{
    match got {
        Ok(Some(b)) => Ok(b),
        Ok(None) => Err(UTF8ReadError::EOF(pos)),
        Err(e) => Err(UTF8ReadError::Io(e)),
    }
}

/// How `read` ties what it gives to the bytes it takes from the input, from the
/// reader `a` to the reader `b`, giving `r`: after `unread` it takes none; else it
/// takes the bytes `bs` of one character (at most four) and gives what they decode
/// to, as `sequence_result` says, moving on as `decode_effect` says; where the
/// input failed or ended, it took only the start of a character's bytes.
pub open spec fn read_step<R>(a: UTF8Read<R>, b: UTF8Read<R>, r: Result<char, UTF8ReadError>) -> bool {
    let bs = b.spec_consumed().skip(a.spec_consumed().len() as int);
    if a.spec_unread() {
        b.spec_consumed() == a.spec_consumed()
    } else {
        &&& b.spec_consumed() == a.spec_consumed() + bs
        &&& bs.len() <= 4
        &&& !source_failed(r) ==> r == sequence_result(bs, a.spec_nowpos()) && decode_effect(
            r,
            a.spec_now(),
            a.spec_nowpos(),
            b.spec_now(),
            b.spec_nowpos(),
        )
        &&& source_failed(r) ==> (bs.len() == 0 || (sequence_length(bs[0]) matches Some(n) && bs.len() < n))
    }
}

/// A read that takes the UTF-8 bytes of a character from the input gives that
/// character, which becomes the character read last, and moves the position on
/// past it.
pub proof fn law_read_gives_encoded_char<R>(a: UTF8Read<R>, b: UTF8Read<R>, r: Result<char, UTF8ReadError>, c: char)
    requires
        read_step(a, b, r),
        !a.spec_unread(),
        a.spec_nowpos().can_advance(),
        b.spec_consumed() == a.spec_consumed() + encode_scalar(c as u32),
    ensures
        r == Ok::<char, UTF8ReadError>(c),
        b.spec_now() == c,
        b.spec_nowpos() == a.spec_nowpos().after(c),
        b.spec_nowpos().spec_idx() == a.spec_nowpos().spec_idx() + 1,
        c == '\n' ==> b.spec_nowpos().spec_row() == a.spec_nowpos().spec_row() + 1 && b.spec_nowpos().spec_col() == 1,
        c != '\n' ==> b.spec_nowpos().spec_row() == a.spec_nowpos().spec_row() && b.spec_nowpos().spec_col()
            == a.spec_nowpos().spec_col() + 1,
{
    let bs = b.spec_consumed().skip(a.spec_consumed().len() as int);
    assert(bs =~= encode_scalar(c as u32));
    law_sequence_decodes_encoding(c, a.spec_nowpos());
    lemma_encoding_length(c);
}

/// The first byte of a character's UTF-8 encoding says how long the encoding is.
pub proof fn lemma_encoding_length(c: char)
    ensures
        encode_scalar(c as u32).len() >= 1,
        sequence_length(encode_scalar(c as u32)[0]) == Some(encode_scalar(c as u32).len()),
{
    law_sequence_decodes_encoding(c, FilePosition { row: 0, col: 0, idx: 0 });
}

/// Reads characters from a source of bytes, tracking the position in the file.
pub struct UTF8Read<R> {
    input: R,
    now: char,
    last: char,
    nowpos: FilePosition,
    lastpos: FilePosition,
    unread: bool,
    /// Every byte taken from the input so far, in order.
    consumed: Ghost<Seq<u8>>,
}

impl<R> UTF8Read<R> {
    /// Every byte taken from the input so far, in order.
    pub closed spec fn spec_consumed(&self) -> Seq<u8> {
        self.consumed@
    }

    pub closed spec fn spec_input(&self) -> R {
        self.input
    }

    /// The character read last (what `unread` gives back).
    pub closed spec fn spec_now(&self) -> char {
        self.now
    }

    pub closed spec fn spec_last(&self) -> char {
        self.last
    }

    pub closed spec fn spec_nowpos(&self) -> FilePosition {
        self.nowpos
    }

    pub closed spec fn spec_lastpos(&self) -> FilePosition {
        self.lastpos
    }

    /// Whether the character read last is to be read again.
    pub closed spec fn spec_unread(&self) -> bool {
        self.unread
    }
}

impl<R: ReadByte> UTF8Read<R> {
    /// A reader at the start of `input`: no character read yet, at row 0, column
    /// 0, index 0.
    pub fn new(input: R) -> (r: UTF8Read<R>)
        ensures
            r.spec_input() == input,
            r.spec_now() == '\0',
            r.spec_last() == '\0',
            r.spec_nowpos() == r.spec_lastpos(),
            r.spec_nowpos().spec_row() == 0,
            r.spec_nowpos().spec_col() == 0,
            r.spec_nowpos().spec_idx() == 0,
            !r.spec_unread(),
    {
        UTF8Read {
            input,
            last: '\0',
            lastpos: FilePosition { row: 0, col: 0, idx: 0 },
            now: '\0',
            nowpos: FilePosition { row: 0, col: 0, idx: 0 },
            unread: false,
            consumed: Ghost(Seq::empty()),
        }
    }

    /// The next byte of the input.
    fn onebyte(&mut self) -> (r: Result<u8, UTF8ReadError>)
        ensures
            final(self).now == old(self).now,
            final(self).last == old(self).last,
            final(self).nowpos == old(self).nowpos,
            final(self).lastpos == old(self).lastpos,
            final(self).unread == old(self).unread,
            r matches Err(e) ==> (e is Io || e == UTF8ReadError::EOF(old(self).nowpos)),
            r matches Ok(b) ==> final(self).consumed@ == old(self).consumed@.push(b),
            r is Err ==> final(self).consumed@ == old(self).consumed@,
    {
        let got = self.input.read_byte();
        let r = byte_result(got, self.nowpos);
        if let Ok(b) = r {
            proof {
                self.consumed@ = self.consumed@.push(b);
            }
        }
        r
    }

    /// Decodes the bytes of one character, as `sequence_result` says. A character
    /// decoded becomes the character read last and moves the position on; an
    /// error leaves the reader as it is.
    pub fn decode_sequence(&mut self, bytes: &[u8]) -> (r: Result<char, UTF8ReadError>)
        requires
            old(self).spec_nowpos().can_advance(),
        ensures
            r == sequence_result(bytes@, old(self).spec_nowpos()),
            final(self).spec_input() == old(self).spec_input(),
            final(self).spec_consumed() == old(self).spec_consumed(),
            final(self).spec_last() == old(self).spec_last(),
            final(self).spec_lastpos() == old(self).spec_lastpos(),
            final(self).spec_unread() == old(self).spec_unread(),
            decode_effect(r, old(self).spec_now(), old(self).spec_nowpos(), final(self).spec_now(), final(self).spec_nowpos()),
    {
        if bytes.len() == 0 {
            return Err(UTF8ReadError::Invalid(self.nowpos));
        }
        let n = match sequence_length_of(bytes[0]) {
            Some(n) => n,
            None => {
                return Err(UTF8ReadError::Invalid(self.nowpos));
            },
        };
        if bytes.len() != n {
            return Err(UTF8ReadError::Invalid(self.nowpos));
        }
        let b0 = bytes[0];
        let m = lead_mask_of(n);
        let mut v: u32 = (b0 & m) as u32;
        proof {
            assert(bytes@.take(1) =~= seq![b0]);
            assert((b0 & m) <= m) by (bit_vector);
            assert(m <= 0x7f);
        }
        let mut i: usize = 1;
        while i < n
            invariant
                1 <= i <= n <= 4,
                n == bytes@.len(),
                v as int == sequence_value(bytes@.take(i as int), n as nat),
                i == 1 ==> v < 0x80,
                i == 2 ==> v < 0x2000,
                i == 3 ==> v < 0x80000,
                i == 4 ==> v < 0x2000000,
            decreases n - i,
        {
            let bi = bytes[i];
            let x = bi & 0x3f;
            proof {
                assert(x <= 0x3f) by (bit_vector)
                    requires
                        x == bi & 0x3f,
                ;
                assert(v < 0x2000000);
                assert((v << 6u32) | (x as u32) == v * 64 + (x as u32)) by (bit_vector)
                    requires
                        v < 0x2000000,
                        x <= 0x3f,
                ;
                assert(bytes@.take(i + 1).drop_last() =~= bytes@.take(i as int));
                assert(bytes@.take(i + 1).last() == bytes@[i as int]);
            }
            v = (v << 6u32) | (x as u32);
            i = i + 1;
        }
        proof {
            assert(bytes@.take(n as int) =~= bytes@);
        }
        match char_from_u32(v) {
            Some(c) => {
                self.now = c;
                self.nowpos.idx = self.nowpos.idx + 1;
                if c == '\n' {
                    self.nowpos.row = self.nowpos.row + 1;
                    self.nowpos.col = 1;
                } else {
                    self.nowpos.col = self.nowpos.col + 1;
                }
                Ok(c)
            },
            None => Err(UTF8ReadError::Invalid(self.nowpos)),
        }
    }

    /// Reads the next character. After `unread` this is the character read last,
    /// again. Otherwise the character read last becomes the one before it, and the
    /// bytes of one character are read from the input (the first, and as many
    /// more as it says the sequence holds) and decoded by `decode_sequence`; an
    /// input that ends before the sequence does gives `EOF` at the current position,
    /// and a first byte that starts no sequence gives `Invalid` without reading on.
    pub fn read(&mut self) -> (r: Result<char, UTF8ReadError>)
        requires
            old(self).spec_nowpos().can_advance(),
        ensures
            old(self).spec_unread() ==> {
                &&& r == Ok::<char, UTF8ReadError>(old(self).spec_now())
                &&& !final(self).spec_unread()
                &&& final(self).spec_now() == old(self).spec_now()
                &&& final(self).spec_last() == old(self).spec_last()
                &&& final(self).spec_nowpos() == old(self).spec_nowpos()
                &&& final(self).spec_lastpos() == old(self).spec_lastpos()
            },
            !old(self).spec_unread() ==> {
                &&& !final(self).spec_unread()
                &&& final(self).spec_last() == old(self).spec_now()
                &&& final(self).spec_lastpos() == old(self).spec_nowpos()
                &&& source_failed(r) ==> {
                    &&& (r->Err_0 is EOF ==> r->Err_0 == UTF8ReadError::EOF(old(self).spec_nowpos()))
                    &&& final(self).spec_now() == old(self).spec_now()
                    &&& final(self).spec_nowpos() == old(self).spec_nowpos()
                }
                &&& !source_failed(r) ==> exists|bs: Seq<u8>|
                    1 <= bs.len() <= 4 && #[trigger] sequence_result(bs, old(self).spec_nowpos()) == r
                    && decode_effect(r, old(self).spec_now(), old(self).spec_nowpos(), final(self).spec_now(), final(self).spec_nowpos())
            },
            read_step(*old(self), *final(self), r),
    {
        if self.unread {
            self.unread = false;
            return Ok(self.now);
        }
        self.last = self.now;
        self.lastpos = self.nowpos;
        let ghost c0 = old(self).consumed@;
        let b0 = match self.onebyte() {
            Ok(b) => b,
            Err(e) => {
                proof {
                    assert(self.consumed@.skip(c0.len() as int) =~= Seq::<u8>::empty());
                    assert(self.consumed@ =~= c0 + Seq::<u8>::empty());
                }
                return Err(e);
            },
        };
        let n = match sequence_length_of(b0) {
            Some(n) => n,
            None => {
                proof {
                    assert(self.consumed@.skip(c0.len() as int) =~= seq![b0]);
                    assert(self.consumed@ =~= c0 + seq![b0]);
                    assert(sequence_result(seq![b0], old(self).spec_nowpos()) == Err::<char, UTF8ReadError>(
                        UTF8ReadError::Invalid(old(self).spec_nowpos()),
                    ));
                }
                return Err(UTF8ReadError::Invalid(self.nowpos));
            },
        };
        let mut bytes: Vec<u8> = Vec::new();
        bytes.push(b0);
        proof {
            assert(self.consumed@ =~= c0 + bytes@);
        }
        while bytes.len() < n
            invariant
                1 <= bytes@.len() <= n <= 4,
                bytes@[0] == b0,
                sequence_length(b0) == Some(n as nat),
                self.consumed@ == c0 + bytes@,
                c0 == old(self).consumed@,
                self.now == old(self).now,
                self.nowpos == old(self).nowpos,
                self.last == old(self).now,
                self.lastpos == old(self).nowpos,
                !self.unread,
                !old(self).unread,
                self.nowpos.can_advance(),
            decreases n - bytes@.len(),
        {
            let b = match self.onebyte() {
                Ok(b) => b,
                Err(e) => {
                    proof {
                        assert(self.consumed@.skip(c0.len() as int) =~= bytes@);
                    }
                    return Err(e);
                },
            };
            bytes.push(b);
            proof {
                assert(self.consumed@ =~= c0 + bytes@);
            }
        }
        let r = self.decode_sequence(bytes.as_slice());
        proof {
            assert(self.consumed@.skip(c0.len() as int) =~= bytes@);
            if !source_failed(r) {
                assert(sequence_result(bytes@, old(self).spec_nowpos()) == r);
            }
        }
        r
    }

    /// Makes the next `read` give the character read last again. Fails if that
    /// was already asked for.
    pub fn unread(&mut self) -> (r: Result<(), UTF8ReadError>)
        ensures
            old(self).spec_unread() ==> (r matches Err(e) && e is DblUnread && final(self).spec_unread()),
            !old(self).spec_unread() ==> r is Ok && final(self).spec_unread(),
            final(self).spec_now() == old(self).spec_now(),
            final(self).spec_last() == old(self).spec_last(),
            final(self).spec_nowpos() == old(self).spec_nowpos(),
            final(self).spec_lastpos() == old(self).spec_lastpos(),
            final(self).spec_consumed() == old(self).spec_consumed(),
    {
        if self.unread {
            return Err(UTF8ReadError::DblUnread);
        }
        self.unread = true;
        Ok(())
    }
}

} // verus!
