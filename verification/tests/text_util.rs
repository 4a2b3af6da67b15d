use tcge::text::bytes_eq;
use tcge::text::is_dot_dot_slash_at;
use tcge::text::is_dot_slash_at;
use tcge::text::is_slash_at;
use tcge::text::segment_end_from;
use tcge::text::skip_slashes_from;
use tcge::text::str_eq;
use tcge::text::str_eq_bytes;
use tcge::util::tiny_profiler::TinyProfiler;
use tcge::util::utf8::BytesInput;
use tcge::util::utf8::UTF8Read;
use tcge::util::utf8::UTF8ReadError;

#[test]
fn path_byte_helpers() {
    let b = b"//a/../b/./c";
    assert!(is_slash_at(b, 0));
    assert!(!is_slash_at(b, 2));
    assert!(!is_slash_at(b, 100));
    assert!(is_dot_dot_slash_at(b, 4));
    assert!(!is_dot_dot_slash_at(b, 3));
    assert!(is_dot_slash_at(b, 9));
    assert!(!is_dot_slash_at(b, 10));
    assert_eq!(skip_slashes_from(b, 0), 2);
    assert_eq!(skip_slashes_from(b, 2), 2);
    assert_eq!(segment_end_from(b, 2), 3);
    assert_eq!(segment_end_from(b, 11), 12);
}

#[test]
fn string_comparisons() {
    assert!(bytes_eq(b"abc", b"abc"));
    assert!(!bytes_eq(b"abc", b"abd"));
    assert!(!bytes_eq(b"abc", b"ab"));
    assert!(str_eq("caf\u{e9}", "caf\u{e9}"));
    assert!(!str_eq("cafe", "caf\u{e9}"));
    assert!(str_eq_bytes("bc", b"abcd", 1, 3));
    assert!(!str_eq_bytes("bc", b"abcd", 1, 4));
    assert!(str_eq_bytes("", b"abcd", 2, 2));
}

#[test]
fn utf8_reads_ascii_byte() {
    let mut r = UTF8Read::new(BytesInput::new(vec![b'A', b'\n']));
    assert_eq!(r.read().ok(), Some('A'));
    assert_eq!(r.read().ok(), Some('\n'));
    match r.read() {
        Err(UTF8ReadError::EOF(pos)) => assert_eq!(format!("{:?}", pos), "FilePosition { row: 1, col: 1, idx: 2 }"),
        _ => panic!("expected the end of the input"),
    }
}

#[test]
fn utf8_reads_two_byte_sequence() {
    let mut r = UTF8Read::new(BytesInput::new(vec![0xC3, 0xA9]));
    assert_eq!(r.read().ok(), Some('\u{e9}'));
    assert!(matches!(r.read(), Err(UTF8ReadError::EOF(_))));
}

#[test]
fn utf8_truncated_sequence_is_eof() {
    let mut r = UTF8Read::new(BytesInput::new(vec![0xC3]));
    match r.read() {
        Err(UTF8ReadError::EOF(pos)) => assert_eq!(format!("{:?}", pos), "FilePosition { row: 0, col: 0, idx: 0 }"),
        _ => panic!("expected the end of the input"),
    }
}

#[test]
fn utf8_rejects_invalid_bytes() {
    for b in [0x80u8, 0xBF, 0xFE, 0xFF, 0xF8, 0xFC] {
        let mut r = UTF8Read::new(BytesInput::new(vec![b]));
        match r.read() {
            Err(UTF8ReadError::Invalid(pos)) => assert_eq!(format!("{:?}", pos), "FilePosition { row: 0, col: 0, idx: 0 }"),
            _ => panic!("expected an invalid byte: {}", b),
        }
    }
}

#[test]
fn utf8_decode_sequences() {
    let mut r = UTF8Read::new(BytesInput::new(vec![]));
    assert_eq!(r.decode_sequence(&[0xC3, 0xA9]).ok(), Some('\u{e9}'));
    assert_eq!(r.decode_sequence(&[0xE2, 0x82, 0xAC]).ok(), Some('\u{20ac}'));
    assert_eq!(r.decode_sequence(&[0xF0, 0x9F, 0x98, 0x80]).ok(), Some('\u{1f600}'));
    assert_eq!(r.decode_sequence(&[0x7F]).ok(), Some('\u{7f}'));
    assert!(matches!(r.decode_sequence(&[0xC3]), Err(UTF8ReadError::Invalid(_))));
    assert!(matches!(r.decode_sequence(&[0xED, 0xA0, 0x80]), Err(UTF8ReadError::Invalid(_))));
    assert!(matches!(r.decode_sequence(&[]), Err(UTF8ReadError::Invalid(_))));
    assert_eq!(tcge::util::utf8::sequence_length_of(0xE2), Some(3));
    assert_eq!(tcge::util::utf8::sequence_length_of(0x80), None);
}

#[test]
fn utf8_unread_gives_character_again() {
    let mut r = UTF8Read::new(BytesInput::new(vec![b'a', b'b', 0xC3, 0xA9]));
    assert_eq!(r.read().ok(), Some('a'));
    assert!(r.unread().is_ok());
    assert!(matches!(r.unread(), Err(UTF8ReadError::DblUnread)));
    assert_eq!(r.read().ok(), Some('a'));
    assert_eq!(r.read().ok(), Some('b'));
    assert_eq!(r.read().ok(), Some('\u{e9}'));
    assert!(r.unread().is_ok());
    assert_eq!(r.read().ok(), Some('\u{e9}'));
}

#[test]
fn utf8_empty_input_is_eof() {
    let mut r = UTF8Read::new(BytesInput::new(vec![]));
    assert!(matches!(r.read(), Err(UTF8ReadError::EOF(_))));
}

#[test]
fn tiny_profiler_counts_measurements() {
    let mut p = TinyProfiler::new();
    assert_eq!(p.average(), 0);
    assert_eq!(p.total(), 0);
    p.start();
    p.end_at(1_000_000_000_000_000_000_000);
    p.start();
    p.end();
    assert!(p.total() >= 1);
}

#[test]
fn tiny_profiler_exact_average() {
    let mut p = TinyProfiler::new();
    p.end_at(10);
    p.end_at(30);
    assert_eq!(p.total(), 40);
    assert_eq!(p.average(), 20);
}

struct Broken;

impl tcge::util::utf8::ReadByte for Broken {
    fn read_byte(&mut self) -> Result<Option<u8>, std::io::Error> {
        Err(std::io::Error::new(std::io::ErrorKind::Other, "unplugged"))
    }
}

#[test]
fn utf8_source_error_is_io() {
    let mut r = UTF8Read::new(Broken);
    assert!(matches!(r.read(), Err(UTF8ReadError::Io(_))));
}
