use xcursor::{Comment, CommentKind, Delay, Image, ParseError, Parser, SkippedEntry, Type, Xcursor};

fn push32(out: &mut Vec<u8>, v: u32) {
    out.extend_from_slice(&v.to_le_bytes());
}

fn header(count: u32) -> Vec<u8> {
    let mut b = b"Xcur".to_vec();
    push32(&mut b, 16);
    push32(&mut b, 0x0001_0000);
    push32(&mut b, count);
    b
}

fn image_chunk(w: u32, h: u32, hx: u32, hy: u32, delay: u32, pixels: &[u32]) -> Vec<u8> {
    let mut b = Vec::new();
    for v in [36, 0xFFFD_0002, w.max(h), 1, w, h, hx, hy, delay] {
        push32(&mut b, v);
    }
    for &p in pixels {
        push32(&mut b, p);
    }
    b
}

fn comment_chunk(kind: u32, text: &[u8]) -> Vec<u8> {
    let mut b = Vec::new();
    for v in [20, 0xFFFE_0001, kind, 1, text.len() as u32] {
        push32(&mut b, v);
    }
    b.extend_from_slice(text);
    b
}

/// A file with one 2x1 image and one comment, laid out as `write` lays it out.
fn sample_file() -> Vec<u8> {
    let image = image_chunk(2, 1, 1, 0, 50, &[0xFF00_00FF, 0x8012_3456]);
    let comment = comment_chunk(2, b"MIT");
    let mut b = header(2);
    let chunks_start = 16 + 24;
    for v in [0xFFFD_0002, 2, chunks_start] {
        push32(&mut b, v);
    }
    for v in [0xFFFE_0001, 2, chunks_start + image.len() as u32] {
        push32(&mut b, v);
    }
    b.extend_from_slice(&image);
    b.extend_from_slice(&comment);
    b
}

#[test]
fn no_images() {
    let buffer = &[
        b'X', b'c', b'u', b'r', // File signature
        16, 0, 0, 0, // Header size
        0, 0, 1, 0, // Version
        0, 0, 0, 0, // Entry count for the Table of Contents
    ];

    let cursor = Xcursor::from_bytes(buffer).expect("failed to construct cursor");
    assert_eq!(cursor.images().len(), 0);
    assert_eq!(cursor.comments().len(), 0);
}

#[test]
fn try_from_matches_from_bytes() {
    let file = sample_file();
    let cursor = Xcursor::try_from(file.as_slice()).expect("valid file");
    assert_eq!(cursor.images().len(), 1);
    assert_eq!(cursor.comments().len(), 1);
}

#[test]
fn empty_input_needs_four_bytes() {
    let r = Xcursor::from_bytes(&[]);
    assert!(matches!(r, Err(ParseError::NotEnoughBytes { needed: 4 })));
}

#[test]
fn short_header_reports_missing_bytes() {
    let b = b"Xcur\x10\x00";
    assert!(matches!(Xcursor::from_bytes(b), Err(ParseError::NotEnoughBytes { needed: 2 })));
    let b = b"Xcur\x10\x00\x00\x00\x00\x00\x01";
    assert!(matches!(Xcursor::from_bytes(b), Err(ParseError::NotEnoughBytes { needed: 1 })));
    let b = header(0);
    assert!(matches!(
        Xcursor::from_bytes(&b[..13]),
        Err(ParseError::NotEnoughBytes { needed: 3 })
    ));
}

#[test]
fn invalid_signature() {
    let mut b = header(0);
    b[0] = b'x';
    assert!(matches!(Xcursor::from_bytes(&b), Err(ParseError::InvalidSignature)));
    assert!(matches!(Xcursor::from_bytes(b"Xcu"), Err(ParseError::NotEnoughBytes { needed: 1 })));
}

#[test]
fn truncated_table_of_contents() {
    let mut b = header(2);
    b.extend_from_slice(&[0; 5]);
    assert!(matches!(Xcursor::from_bytes(&b), Err(ParseError::NotEnoughBytes { needed: 19 })));
}

#[test]
fn unknown_entries_are_skipped() {
    let mut b = header(2);
    for v in [0x1234_5678, 1, 0] {
        push32(&mut b, v);
    }
    // A comment entry with an unknown subtype.
    for v in [0xFFFE_0001, 9, 0] {
        push32(&mut b, v);
    }
    let cursor = Xcursor::from_bytes(&b).expect("unknown entries are ignored");
    assert_eq!(cursor.images().len(), 0);
    assert_eq!(cursor.comments().len(), 0);
    assert_eq!(
        Xcursor::skipped_entries(&b),
        vec![SkippedEntry::UnknownType(0x1234_5678), SkippedEntry::UnknownCommentSubtype(9)]
    );
}

#[test]
fn skipped_entries_need_a_readable_table() {
    assert_eq!(Xcursor::skipped_entries(&sample_file()), vec![]);
    let mut b = header(2);
    for v in [7, 1, 0] {
        push32(&mut b, v);
    }
    assert_eq!(Xcursor::skipped_entries(&b), vec![]);
    b[0] = b'x';
    assert_eq!(Xcursor::skipped_entries(&b), vec![]);
}

#[test]
fn error_texts() {
    let io = ParseError::Io { source: std::io::Error::other("disk") };
    assert_eq!(io.to_string(), "I/O error");
    assert_eq!(
        ParseError::InvalidSignature.to_string(),
        "invalid file signature (A.K.A. magic number)"
    );
    assert_eq!(
        ParseError::NotEnoughBytes { needed: 1204 }.to_string(),
        "not enough bytes (needed 1204 more bytes)"
    );
    assert_eq!(ParseError::ImageSize.to_string(), "image larger than 32_767x32_767");
    assert_eq!(
        ParseError::InvalidHotspot { image_size: 30, hotspot: 65535 }.to_string(),
        "hotspot must be less than or equal to image width (65535 > 30)"
    );
    assert_eq!(
        ParseError::CommentLength.to_string(),
        "comment exceeds 4_294_967_295 characters"
    );
}

#[test]
fn reads_image_and_comment() {
    let file = sample_file();
    let cursor = Xcursor::from_bytes(&file).expect("valid file");
    let image = &cursor.images()[0];
    assert_eq!(image.width(), 2);
    assert_eq!(image.height(), 1);
    assert_eq!(image.hotspot_x(), 1);
    assert_eq!(image.hotspot_y(), 0);
    assert_eq!(image.delay(), &Delay::from_millis(50));
    assert_eq!(image.delay().as_millis(), 50);
    assert_eq!(image.argb(), &[0xFF00_00FF, 0x8012_3456]);
    let comment = &cursor.comments()[0];
    assert_eq!(comment.kind(), CommentKind::License);
    assert_eq!(comment.buffer(), "MIT");
}

#[test]
fn write_reproduces_canonical_file() {
    let file = sample_file();
    let cursor = Xcursor::from_bytes(&file).expect("valid file");
    let mut out = Vec::new();
    cursor.write(&mut out);
    assert_eq!(out, file);
    assert_eq!(cursor.encoded_len(), Some(file.len() as u32));
}

#[test]
fn write_then_read_gives_cursor_back() {
    // The table of contents lists the comment first; writing puts images first.
    let image = image_chunk(1, 1, 0, 1, 7, &[0xDEAD_BEEF]);
    let comment = comment_chunk(3, "héllo".as_bytes());
    let mut b = header(2);
    let start = 16 + 24;
    for v in [0xFFFE_0001, 3, start] {
        push32(&mut b, v);
    }
    for v in [0xFFFD_0002, 1, start + comment.len() as u32] {
        push32(&mut b, v);
    }
    b.extend_from_slice(&comment);
    b.extend_from_slice(&image);
    let first = Xcursor::from_bytes(&b).expect("valid file");
    let mut out = Vec::new();
    first.write(&mut out);
    assert_ne!(out, b);
    let second = Xcursor::from_bytes(&out).expect("written file reads back");
    assert_eq!(second.images().len(), 1);
    assert_eq!(second.images()[0].argb(), &[0xDEAD_BEEF]);
    assert_eq!(second.images()[0].hotspot_y(), 1);
    assert_eq!(second.images()[0].delay(), &Delay::from_millis(7));
    assert_eq!(second.comments()[0].kind(), CommentKind::Other);
    assert_eq!(second.comments()[0].buffer(), "héllo");
}

#[test]
fn image_too_large() {
    let image = image_chunk(0x8000, 1, 0, 0, 0, &[]);
    let mut b = header(1);
    for v in [0xFFFD_0002, 1, 28] {
        push32(&mut b, v);
    }
    b.extend_from_slice(&image);
    assert!(matches!(Xcursor::from_bytes(&b), Err(ParseError::ImageSize)));
}

#[test]
fn hotspot_outside_image() {
    let image = image_chunk(4, 4, 5, 0, 0, &[0; 16]);
    let mut b = header(1);
    for v in [0xFFFD_0002, 4, 28] {
        push32(&mut b, v);
    }
    b.extend_from_slice(&image);
    assert!(matches!(
        Xcursor::from_bytes(&b),
        Err(ParseError::InvalidHotspot { image_size: 4, hotspot: 5 })
    ));

    let image = image_chunk(4, 4, 0, 0x1_0000, 0, &[0; 16]);
    let mut b = header(1);
    for v in [0xFFFD_0002, 4, 28] {
        push32(&mut b, v);
    }
    b.extend_from_slice(&image);
    assert!(matches!(
        Xcursor::from_bytes(&b),
        Err(ParseError::InvalidHotspot { image_size: 4, hotspot: 0xFFFF })
    ));
}

#[test]
fn truncated_image_chunk() {
    let mut b = header(1);
    for v in [0xFFFD_0002, 2, 28] {
        push32(&mut b, v);
    }
    let image = image_chunk(2, 2, 0, 0, 0, &[1, 2, 3]);
    b.extend_from_slice(&image);
    assert!(matches!(Xcursor::from_bytes(&b), Err(ParseError::NotEnoughBytes { needed: 4 })));
    let mut b = header(1);
    for v in [0xFFFD_0002, 2, 100] {
        push32(&mut b, v);
    }
    assert!(matches!(Xcursor::from_bytes(&b), Err(ParseError::NotEnoughBytes { needed: 108 })));
}

#[test]
fn truncated_comment_chunk() {
    let mut b = header(1);
    for v in [0xFFFE_0001, 1, 28] {
        push32(&mut b, v);
    }
    let comment = comment_chunk(1, b"abcdef");
    b.extend_from_slice(&comment[..comment.len() - 2]);
    assert!(matches!(Xcursor::from_bytes(&b), Err(ParseError::NotEnoughBytes { needed: 2 })));
}

#[test]
fn invalid_utf8_comment_is_decoded_lossily() {
    let mut b = header(1);
    for v in [0xFFFE_0001, 1, 28] {
        push32(&mut b, v);
    }
    b.extend_from_slice(&comment_chunk(1, &[b'f', 0xFF, b'g']));
    let cursor = Xcursor::from_bytes(&b).expect("valid file");
    assert_eq!(cursor.comments()[0].buffer(), "f\u{FFFD}g");
    assert_eq!(cursor.comments()[0].kind(), CommentKind::Copyright);
}

#[test]
fn image_new_checks_size_and_hotspot() {
    let zero = Delay::from_millis(0);
    assert!(matches!(Image::new(0x8000, 1, 0, 0, zero, vec![]), Err(ParseError::ImageSize)));
    assert!(matches!(
        Image::new(3, 2, 4, 0, zero, vec![]),
        Err(ParseError::InvalidHotspot { image_size: 3, hotspot: 4 })
    ));
    assert!(matches!(
        Image::new(3, 2, 1, 3, zero, vec![]),
        Err(ParseError::InvalidHotspot { image_size: 2, hotspot: 3 })
    ));
    let delay = Delay::new(1, 2_500_123);
    let image = Image::new(2, 2, 2, 2, delay, vec![1, 2, 3, 4]).expect("valid image");
    assert_eq!(image.width(), 2);
    assert_eq!(image.height(), 2);
    assert_eq!(image.hotspot_x(), 2);
    assert_eq!(image.hotspot_y(), 2);
    // The delay is kept whole, sub-millisecond part included.
    assert_eq!(image.delay(), &delay);
    assert_eq!(image.delay().as_secs(), 1);
    assert_eq!(image.delay().subsec_nanos(), 2_500_123);
    assert_eq!(image.delay().as_millis(), 1_002);
    assert_eq!(image.argb(), &[1, 2, 3, 4]);
}

#[test]
fn image_write_bytes() {
    let delay = Delay::new(5_000_000, 0);
    let image = Image::new(1, 2, 0, 1, delay, vec![5, 6]).expect("valid image");
    let mut out = vec![0xAA];
    image.write(&mut out);
    let mut expected = vec![0xAA];
    // The delay saturates at u32::MAX milliseconds; the subtype is the larger side.
    expected.extend_from_slice(&image_chunk(1, 2, 0, 1, u32::MAX, &[5, 6]));
    assert_eq!(out, expected);
}

#[test]
fn comment_new_and_write() {
    let comment = Comment::new(CommentKind::Copyright, "(c) me".to_string()).expect("short");
    assert_eq!(comment.kind(), CommentKind::Copyright);
    assert_eq!(comment.buffer(), "(c) me");
    let mut out = Vec::new();
    comment.write(&mut out);
    assert_eq!(out, comment_chunk(1, b"(c) me"));
}

#[test]
fn comment_kind_numbers_and_names() {
    for (kind, n, name) in [
        (CommentKind::Copyright, 1, "Copyright"),
        (CommentKind::License, 2, "License"),
        (CommentKind::Other, 3, "Other"),
    ] {
        assert_eq!(kind.to_u32(), n);
        assert_eq!(CommentKind::try_from(n), Ok(kind));
        assert_eq!(kind.to_string(), name);
    }
    assert_eq!(CommentKind::try_from(0), Err(0));
    assert_eq!(CommentKind::try_from(4), Err(4));
}

#[test]
fn type_numbers() {
    assert_eq!(Type::Image.to_u32(), 0xFFFD_0002);
    assert_eq!(Type::Comment.to_u32(), 0xFFFE_0001);
    assert_eq!(Type::try_from(0xFFFD_0002), Ok(Type::Image));
    assert_eq!(Type::try_from(0xFFFE_0001), Ok(Type::Comment));
    assert_eq!(Type::try_from(7), Err(7));
}

#[test]
fn parser_reads_forward() {
    let data = [1u8, 2, 3, 4, 5, 6, 7];
    let mut parser = Parser::new(&data);
    assert_eq!(parser.read_bytes(2).expect("two bytes"), &[1, 2]);
    assert_eq!(parser.read_card32().expect("four bytes"), 0x0605_0403);
    assert!(matches!(parser.read_bytes(3), Err(ParseError::NotEnoughBytes { needed: 2 })));
    assert!(matches!(parser.read_card32(), Err(ParseError::NotEnoughBytes { needed: 3 })));
    assert_eq!(parser.read_bytes(1).expect("last byte"), &[7]);
    assert_eq!(parser.read_bytes(0).expect("nothing"), &[] as &[u8]);
}

#[test]
fn encoded_len_counts_header_entries_and_chunks() {
    let cursor = Xcursor::from_bytes(&header(0)).expect("valid file");
    assert_eq!(cursor.encoded_len(), Some(16));
    let mut out = Vec::new();
    cursor.write(&mut out);
    assert_eq!(out, header(0));
}

#[test]
fn clone_keeps_contents() {
    let file = sample_file();
    let cursor = Xcursor::from_bytes(&file).expect("valid file");
    let copy = cursor.clone();
    let mut out = Vec::new();
    copy.write(&mut out);
    assert_eq!(out, file);
}

#[test]
fn delay_carries_nanoseconds_and_counts_milliseconds() {
    let d = Delay::new(3, 2_000_000_007);
    assert_eq!(d.as_secs(), 5);
    assert_eq!(d.subsec_nanos(), 7);
    assert_eq!(d.as_millis(), 5_000);
    let m = Delay::from_millis(12_345);
    assert_eq!(m.as_secs(), 12);
    assert_eq!(m.subsec_nanos(), 345_000_000);
    assert_eq!(m.as_millis(), 12_345);
}

#[test]
fn header_fields_do_not_change_the_result() {
    let mut file = sample_file();
    let first = Xcursor::from_bytes(&file).expect("valid file");
    file[4..12].copy_from_slice(&[9, 9, 9, 9, 0xFF, 0xFF, 0xFF, 0xFF]);
    let second = Xcursor::from_bytes(&file).expect("still valid");
    let mut a = Vec::new();
    let mut b = Vec::new();
    first.write(&mut a);
    second.write(&mut b);
    assert_eq!(a, b);
}

#[test]
fn images_and_comments_keep_table_order() {
    let first = image_chunk(1, 1, 0, 0, 1, &[11]);
    let second = image_chunk(1, 1, 0, 0, 2, &[22]);
    let note = comment_chunk(3, b"note");
    let mut b = header(3);
    let start = 16 + 36;
    let second_at = start;
    let note_at = second_at + second.len() as u32;
    let first_at = note_at + note.len() as u32;
    for v in [0xFFFD_0002, 1, first_at, 0xFFFE_0001, 3, note_at, 0xFFFD_0002, 1, second_at] {
        push32(&mut b, v);
    }
    b.extend_from_slice(&second);
    b.extend_from_slice(&note);
    b.extend_from_slice(&first);
    let cursor = Xcursor::from_bytes(&b).expect("valid file");
    assert_eq!(cursor.images()[0].argb(), &[11]);
    assert_eq!(cursor.images()[1].argb(), &[22]);
    assert_eq!(cursor.comments()[0].buffer(), "note");
}
