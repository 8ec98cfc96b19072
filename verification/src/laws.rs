//! What holds of the library as a whole.
use vstd::prelude::*;
use vstd::utf8::{encode_utf8, encode_utf8_decode_utf8, encode_utf8_valid_utf8};

use crate::card32::{card32_at, le32, lemma_card32_at_le32, lemma_card32_at_within};
use crate::comment::{
    comment_chunk, text_fits, CommentKind, CommentView, COMMENT_HEADER_SIZE, COMMENT_VERSION,
};
use crate::delay::millis_of;
use crate::error::ParseError;
use crate::format::{
    comment_at, comment_chunks, comment_toc, comments_of, cursor_of, cursor_wf, entry_at,
    file_bytes, file_header, file_signature, image_chunks, image_toc, image_wf, images_of,
    lemma_comment_chunks_prefix_len, lemma_comment_toc_len, lemma_file_bytes_len,
    lemma_image_chunks_prefix_len, lemma_image_toc_len, parse_file, toc_entries, toc_entry,
    skipped_at, skipped_entries_of, XcursorView, ENTRY_SIZE, FILE_HEADER_SIZE, FILE_VERSION,
};
use crate::{EntryKind, Type};
use crate::image::{
    delay_field, image_at, image_chunk, nominal_size, pixel_bytes, pixels_at, ImageView,
    IMAGE_HEADER_SIZE, IMAGE_VERSION,
};

verus! {

/// The number of every chunk type reads back as that type, and a number that reads as a
/// type is that type's number; every other number is refused as itself.
pub proof fn lemma_type_numbers(t: Type, n: u32)
    ensures
        Type::spec_from_u32(t.spec_to_u32()) == Ok::<Type, u32>(t),
        Type::spec_from_u32(n) matches Ok(u) ==> u.spec_to_u32() == n,
        Type::spec_from_u32(n) matches Err(m) ==> m == n,
{
}

/// The number of every comment kind reads back as that kind, and a number that reads as a
/// kind is that kind's number; every other number is refused as itself.
pub proof fn lemma_comment_kind_numbers(k: CommentKind, n: u32)
    ensures
        CommentKind::spec_from_u32(k.spec_to_u32()) == Ok::<CommentKind, u32>(k),
        CommentKind::spec_from_u32(n) matches Ok(u) ==> u.spec_to_u32() == n,
        CommentKind::spec_from_u32(n) matches Err(m) ==> m == n,
{
}

/// Whether `b1` and `b2` differ at most in the header-size and version fields (bytes 4 to 12).
pub open spec fn same_but_header_fields(b1: Seq<u8>, b2: Seq<u8>) -> bool {
    &&& b1.len() == b2.len()
    &&& forall|i: int| 0 <= i < b1.len() && !(4 <= i < 12) ==> b1[i] == b2[i]
}

proof fn lemma_card32_same(b1: Seq<u8>, b2: Seq<u8>, off: int)
    requires
        same_but_header_fields(b1, b2),
        12 <= off,
        off + 4 <= b1.len(),
    ensures
        card32_at(b1, off) == card32_at(b2, off),
{
    assert(b1[off] == b2[off]);
    assert(b1[off + 1] == b2[off + 1]);
    assert(b1[off + 2] == b2[off + 2]);
    assert(b1[off + 3] == b2[off + 3]);
}

proof fn lemma_toc_entries_same(b1: Seq<u8>, b2: Seq<u8>, k: nat)
    requires
        same_but_header_fields(b1, b2),
        FILE_HEADER_SIZE + ENTRY_SIZE * k <= b1.len(),
    ensures
        toc_entries(b1, k) == toc_entries(b2, k),
    decreases k,
{
    if k > 0 {
        lemma_toc_entries_same(b1, b2, (k - 1) as nat);
        let off = FILE_HEADER_SIZE + ENTRY_SIZE * (k - 1);
        lemma_card32_same(b1, b2, off);
        lemma_card32_same(b1, b2, off + 4);
        lemma_card32_same(b1, b2, off + 8);
    }
}

proof fn lemma_image_at_same(b1: Seq<u8>, b2: Seq<u8>, pos: int)
    requires
        same_but_header_fields(b1, b2),
        0 <= pos,
    ensures
        image_at(b1, pos) == image_at(b2, pos),
{
    if pos + 36 <= b1.len() {
        lemma_card32_same(b1, b2, pos + 16);
        lemma_card32_same(b1, b2, pos + 20);
        lemma_card32_same(b1, b2, pos + 24);
        lemma_card32_same(b1, b2, pos + 28);
        lemma_card32_same(b1, b2, pos + 32);
        let count = (card32_at(b1, pos + 16) * card32_at(b1, pos + 20)) as nat;
        if pos + 36 + 4 * count <= b1.len() {
            assert forall|i: int| 0 <= i < count implies #[trigger] pixels_at(b1, pos, count)[i]
                == pixels_at(b2, pos, count)[i] by {
                lemma_card32_same(b1, b2, pos + 36 + 4 * i);
            }
            assert(pixels_at(b1, pos, count) =~= pixels_at(b2, pos, count));
        }
    }
}

proof fn lemma_comment_at_same(b1: Seq<u8>, b2: Seq<u8>, pos: int, kind: CommentKind)
    requires
        same_but_header_fields(b1, b2),
        0 <= pos,
    ensures
        comment_at(b1, pos, kind) == comment_at(b2, pos, kind),
{
    if pos + 20 <= b1.len() {
        lemma_card32_same(b1, b2, pos + 16);
        let end = pos + 20 + card32_at(b1, pos + 16);
        if end <= b1.len() {
            assert(b1.subrange(pos + 20, end) =~= b2.subrange(pos + 20, end));
        }
    }
}

proof fn lemma_images_of_same(b1: Seq<u8>, b2: Seq<u8>, es: Seq<(EntryKind, u32)>)
    requires
        same_but_header_fields(b1, b2),
    ensures
        images_of(b1, es) == images_of(b2, es),
    decreases es.len(),
{
    if es.len() > 0 {
        lemma_images_of_same(b1, b2, es.drop_last());
        lemma_image_at_same(b1, b2, es.last().1 as int);
    }
}

proof fn lemma_comments_of_same(b1: Seq<u8>, b2: Seq<u8>, es: Seq<(EntryKind, u32)>)
    requires
        same_but_header_fields(b1, b2),
    ensures
        comments_of(b1, es) == comments_of(b2, es),
    decreases es.len(),
{
    if es.len() > 0 {
        lemma_comments_of_same(b1, b2, es.drop_last());
        if let EntryKind::Comment(kind) = es.last().0 {
            lemma_comment_at_same(b1, b2, es.last().1 as int, kind);
        }
    }
}

/// The header-size and version fields of a file (bytes 4 to 12) do not change what reading
/// it gives.
pub proof fn lemma_header_fields_ignored(b1: Seq<u8>, b2: Seq<u8>)
    requires
        same_but_header_fields(b1, b2),
    ensures
        parse_file(b1) == parse_file(b2),
{
    if b1.len() >= 4 {
        assert(b1.take(4) =~= b2.take(4));
    }
    if b1.len() >= 16 {
        lemma_card32_same(b1, b2, 12);
        let count = card32_at(b1, 12);
        if FILE_HEADER_SIZE + ENTRY_SIZE * count <= b1.len() {
            lemma_toc_entries_same(b1, b2, count as nat);
            let es = toc_entries(b1, count as nat);
            lemma_images_of_same(b1, b2, es);
            lemma_comments_of_same(b1, b2, es);
        }
    }
}

/// Every table-of-contents entry is either read or reported as skipped, never both: the
/// first `k` entries split into the known ones and the skipped ones.
pub proof fn lemma_entries_known_or_skipped(b: Seq<u8>, k: nat)
    ensures
        toc_entries(b, k).len() + skipped_entries_of(b, k).len() == k,
    decreases k,
{
    if k > 0 {
        lemma_entries_known_or_skipped(b, (k - 1) as nat);
        let off = FILE_HEADER_SIZE + ENTRY_SIZE * (k - 1);
        assert(entry_at(b, off) is Some <==> skipped_at(b, off) is None);
    }
}

/// Whether an entry points at an image chunk.
pub open spec fn is_image_entry(e: (EntryKind, u32)) -> bool {
    e.0 is Image
}

/// Whether an entry points at a comment chunk.
pub open spec fn is_comment_entry(e: (EntryKind, u32)) -> bool {
    e.0 is Comment
}

/// The images read for the entries `es` are those the image entries point at, one for each,
/// in table order.
pub proof fn lemma_images_in_table_order(b: Seq<u8>, es: Seq<(EntryKind, u32)>)
    ensures
        images_of(b, es) matches Ok(images) ==> {
            let ie = es.filter(|e: (EntryKind, u32)| is_image_entry(e));
            &&& images.len() == ie.len()
            &&& forall|i: int|
                0 <= i < ie.len() ==> image_at(b, #[trigger] ie[i].1 as int) == Ok::<
                    ImageView,
                    ParseError,
                >(images[i])
        },
    decreases es.len(),
{
    if es.len() > 0 {
        lemma_images_in_table_order(b, es.drop_last());
        reveal_with_fuel(Seq::filter, 1);
    }
}

/// The comments read for the entries `es` are those the comment entries point at, one for
/// each and of its kind, in table order.
pub proof fn lemma_comments_in_table_order(b: Seq<u8>, es: Seq<(EntryKind, u32)>)
    ensures
        comments_of(b, es) matches Ok(comments) ==> {
            let ce = es.filter(|e: (EntryKind, u32)| is_comment_entry(e));
            &&& comments.len() == ce.len()
            &&& forall|j: int|
                0 <= j < ce.len() ==> (#[trigger] ce[j]).0 == EntryKind::Comment(comments[j].kind)
                    && comment_at(b, ce[j].1 as int, comments[j].kind) == Ok::<
                    CommentView,
                    ParseError,
                >(comments[j])
        },
    decreases es.len(),
{
    if es.len() > 0 {
        lemma_comments_in_table_order(b, es.drop_last());
        reveal_with_fuel(Seq::filter, 1);
    }
}

/// Reading a file gives the images and comments that its table of contents points at, in
/// table order.
pub proof fn lemma_read_in_table_order(b: Seq<u8>)
    ensures
        parse_file(b) matches Ok(x) ==> {
            &&& images_of(b, toc_entries(b, card32_at(b, 12) as nat)) == Ok::<
                Seq<ImageView>,
                ParseError,
            >(x.images)
            &&& comments_of(b, toc_entries(b, card32_at(b, 12) as nat)) == Ok::<
                Seq<CommentView>,
                ParseError,
            >(x.comments)
        },
{
    let es = toc_entries(b, card32_at(b, 12) as nat);
    lemma_images_in_table_order(b, es);
    lemma_comments_in_table_order(b, es);
}

/// A stretch inside the left part of a concatenation.
proof fn lemma_subrange_left(a: Seq<u8>, b: Seq<u8>, i: int, j: int)
    requires
        0 <= i <= j <= a.len(),
    ensures
        (a + b).subrange(i, j) == a.subrange(i, j),
{
    assert((a + b).subrange(i, j) =~= a.subrange(i, j));
}

/// A stretch inside the right part of a concatenation.
proof fn lemma_subrange_right(a: Seq<u8>, b: Seq<u8>, i: int, j: int)
    requires
        a.len() <= i <= j <= a.len() + b.len(),
    ensures
        (a + b).subrange(i, j) == b.subrange(i - a.len(), j - a.len()),
{
    assert((a + b).subrange(i, j) =~= b.subrange(i - a.len(), j - a.len()));
}

/// The four bytes of pixel `i` in the pixel bytes of `argb`.
proof fn lemma_pixel_bytes_at(argb: Seq<u32>, i: int)
    requires
        0 <= i < argb.len(),
    ensures
        pixel_bytes(argb).len() == 4 * argb.len(),
        pixel_bytes(argb).subrange(4 * i, 4 * i + 4) == le32(argb[i]),
    decreases argb.len(),
{
    crate::format::lemma_pixel_bytes_len(argb);
    crate::format::lemma_pixel_bytes_len(argb.drop_last());
    let prefix = pixel_bytes(argb.drop_last());
    if i == argb.len() - 1 {
        assert(pixel_bytes(argb).subrange(4 * i, 4 * i + 4) =~= le32(argb.last()));
    } else {
        lemma_pixel_bytes_at(argb.drop_last(), i);
        assert(pixel_bytes(argb).subrange(4 * i, 4 * i + 4) =~= prefix.subrange(4 * i, 4 * i + 4));
    }
}

/// An image chunk written at `p` of a file reads back as the image.
#[verifier::spinoff_prover]
pub proof fn lemma_image_at_chunk(b: Seq<u8>, p: int, im: ImageView)
    requires
        image_wf(im),
        0 <= p,
        p + image_chunk(im).len() <= b.len(),
        b.subrange(p, p + image_chunk(im).len()) == image_chunk(im),
    ensures
        image_at(b, p) == Ok::<ImageView, ParseError>(im),
{
    let c = image_chunk(im);
    let n = im.argb.len() as int;
    crate::format::lemma_pixel_bytes_len(im.argb);
    assert(c.len() == 36 + 4 * n);
    assert(c.subrange(16, 20) =~= le32(im.width as u32));
    assert(c.subrange(20, 24) =~= le32(im.height as u32));
    assert(c.subrange(24, 28) =~= le32(im.hotspot_x as u32));
    assert(c.subrange(28, 32) =~= le32(im.hotspot_y as u32));
    assert(c.subrange(32, 36) =~= le32(delay_field(im.delay)));
    lemma_card32_at_le32(c, 16, im.width as u32);
    lemma_card32_at_le32(c, 20, im.height as u32);
    lemma_card32_at_le32(c, 24, im.hotspot_x as u32);
    lemma_card32_at_le32(c, 28, im.hotspot_y as u32);
    lemma_card32_at_le32(c, 32, delay_field(im.delay));
    lemma_card32_at_within(b, p, c, 16);
    lemma_card32_at_within(b, p, c, 20);
    lemma_card32_at_within(b, p, c, 24);
    lemma_card32_at_within(b, p, c, 28);
    lemma_card32_at_within(b, p, c, 32);
    assert(card32_at(b, p + 16) == im.width as u32);
    assert(card32_at(b, p + 20) == im.height as u32);
    assert(card32_at(b, p + 32) == millis_of(im.delay));
    let pixels = pixel_bytes(im.argb);
    assert(c.subrange(36, 36 + 4 * n) =~= pixels);
    assert forall|i: int| 0 <= i < n implies #[trigger] pixels_at(b, p, n as nat)[i] == im.argb[i] by {
        lemma_pixel_bytes_at(im.argb, i);
        lemma_card32_at_le32(pixels, 4 * i, im.argb[i]);
        lemma_card32_at_within(c, 36, pixels, 4 * i);
        lemma_card32_at_within(b, p, c, 36 + 4 * i);
    }
    assert(pixels_at(b, p, n as nat) =~= im.argb);
}

/// A comment chunk written at `p` of a file reads back as the comment.
pub proof fn lemma_comment_at_chunk(b: Seq<u8>, p: int, c: CommentView)
    requires
        text_fits(c.text),
        0 <= p,
        p + comment_chunk(c).len() <= b.len(),
        b.subrange(p, p + comment_chunk(c).len()) == comment_chunk(c),
    ensures
        comment_at(b, p, c.kind) == Ok::<CommentView, ParseError>(c),
{
    let k = comment_chunk(c);
    let bytes = encode_utf8(c.text);
    assert(k.len() == 20 + bytes.len());
    assert(k.subrange(16, 20) =~= le32(bytes.len() as u32));
    lemma_card32_at_le32(k, 16, bytes.len() as u32);
    lemma_card32_at_within(b, p, k, 16);
    assert(k.subrange(20, 20 + bytes.len() as int) =~= bytes);
    assert forall|i: int| 0 <= i < bytes.len() implies b.subrange(p + 20, p + 20 + bytes.len())[i]
        == bytes[i] by {
        assert(b.subrange(p, p + k.len())[20 + i] == k[20 + i]);
    }
    assert(b.subrange(p + 20, p + 20 + bytes.len()) =~= bytes);
    encode_utf8_valid_utf8(c.text);
    encode_utf8_decode_utf8(c.text);
}

/// The table-of-contents entry of image `k`.
proof fn lemma_image_toc_entry(images: Seq<ImageView>, base: int, k: int)
    requires
        0 <= k < images.len(),
    ensures
        image_toc(images, base).len() == ENTRY_SIZE * images.len(),
        image_toc(images, base).subrange(ENTRY_SIZE * k, ENTRY_SIZE * k + 12) == toc_entry(
            Type::Image,
            images[k].width as u32,
            base + image_chunks(images.take(k)).len(),
        ),
    decreases images.len(),
{
    let rest = images.drop_last();
    lemma_image_toc_len(images, base);
    lemma_image_toc_len(rest, base);
    let t = image_toc(images, base);
    if k == images.len() - 1 {
        assert(images.take(k) =~= rest);
        assert(t.subrange(ENTRY_SIZE * k, ENTRY_SIZE * k + 12) =~= toc_entry(
            Type::Image,
            images.last().width as u32,
            base + image_chunks(rest).len(),
        ));
    } else {
        lemma_image_toc_entry(rest, base, k);
        assert(rest.take(k) =~= images.take(k));
        assert(t.subrange(ENTRY_SIZE * k, ENTRY_SIZE * k + 12) =~= image_toc(rest, base).subrange(
            ENTRY_SIZE * k,
            ENTRY_SIZE * k + 12,
        ));
    }
}

/// The table-of-contents entry of comment `k`.
proof fn lemma_comment_toc_entry(comments: Seq<CommentView>, base: int, k: int)
    requires
        0 <= k < comments.len(),
    ensures
        comment_toc(comments, base).len() == ENTRY_SIZE * comments.len(),
        comment_toc(comments, base).subrange(ENTRY_SIZE * k, ENTRY_SIZE * k + 12) == toc_entry(
            Type::Comment,
            comments[k].kind.spec_to_u32(),
            base + comment_chunks(comments.take(k)).len(),
        ),
    decreases comments.len(),
{
    let rest = comments.drop_last();
    lemma_comment_toc_len(comments, base);
    lemma_comment_toc_len(rest, base);
    let t = comment_toc(comments, base);
    if k == comments.len() - 1 {
        assert(comments.take(k) =~= rest);
        assert(t.subrange(ENTRY_SIZE * k, ENTRY_SIZE * k + 12) =~= toc_entry(
            Type::Comment,
            comments.last().kind.spec_to_u32(),
            base + comment_chunks(rest).len(),
        ));
    } else {
        lemma_comment_toc_entry(rest, base, k);
        assert(rest.take(k) =~= comments.take(k));
        assert(t.subrange(ENTRY_SIZE * k, ENTRY_SIZE * k + 12) =~= comment_toc(rest, base).subrange(
            ENTRY_SIZE * k,
            ENTRY_SIZE * k + 12,
        ));
    }
}

/// Where image `k`'s chunk lies among the image chunks.
proof fn lemma_image_chunks_piece(images: Seq<ImageView>, k: int)
    requires
        0 <= k < images.len(),
    ensures
        image_chunks(images.take(k + 1)).len() == image_chunks(images.take(k)).len()
            + image_chunk(images[k]).len(),
        image_chunks(images.take(k + 1)).len() <= image_chunks(images).len(),
        image_chunks(images).subrange(
            image_chunks(images.take(k)).len() as int,
            (image_chunks(images.take(k)).len() + image_chunk(images[k]).len()) as int,
        ) == image_chunk(images[k]),
    decreases images.len(),
{
    let rest = images.drop_last();
    assert(images.take(k + 1).drop_last() =~= images.take(k));
    lemma_image_chunks_prefix_len(images, k + 1);
    if k == images.len() - 1 {
        assert(images.take(k) =~= rest);
        assert(image_chunks(images).subrange(
            image_chunks(rest).len() as int,
            (image_chunks(rest).len() + image_chunk(images[k]).len()) as int,
        ) =~= image_chunk(images[k]));
    } else {
        lemma_image_chunks_piece(rest, k);
        assert(rest.take(k) =~= images.take(k));
        assert(rest.take(k + 1) =~= images.take(k + 1));
        let lo = image_chunks(images.take(k)).len() as int;
        let hi = lo + image_chunk(images[k]).len();
        assert(image_chunks(images).subrange(lo, hi) =~= image_chunks(rest).subrange(lo, hi));
    }
}

/// Where comment `k`'s chunk lies among the comment chunks.
proof fn lemma_comment_chunks_piece(comments: Seq<CommentView>, k: int)
    requires
        0 <= k < comments.len(),
    ensures
        comment_chunks(comments.take(k + 1)).len() == comment_chunks(comments.take(k)).len()
            + comment_chunk(comments[k]).len(),
        comment_chunks(comments.take(k + 1)).len() <= comment_chunks(comments).len(),
        comment_chunks(comments).subrange(
            comment_chunks(comments.take(k)).len() as int,
            (comment_chunks(comments.take(k)).len() + comment_chunk(comments[k]).len()) as int,
        ) == comment_chunk(comments[k]),
    decreases comments.len(),
{
    let rest = comments.drop_last();
    assert(comments.take(k + 1).drop_last() =~= comments.take(k));
    lemma_comment_chunks_prefix_len(comments, k + 1);
    if k == comments.len() - 1 {
        assert(comments.take(k) =~= rest);
        assert(comment_chunks(comments).subrange(
            comment_chunks(rest).len() as int,
            (comment_chunks(rest).len() + comment_chunk(comments[k]).len()) as int,
        ) =~= comment_chunk(comments[k]));
    } else {
        lemma_comment_chunks_piece(rest, k);
        assert(rest.take(k) =~= comments.take(k));
        assert(rest.take(k + 1) =~= comments.take(k + 1));
        let lo = comment_chunks(comments.take(k)).len() as int;
        let hi = lo + comment_chunk(comments[k]).len();
        assert(comment_chunks(comments).subrange(lo, hi) =~= comment_chunks(rest).subrange(lo, hi));
    }
}

/// A table-of-contents entry stored at `off` reads back as its type, subtype and position.
proof fn lemma_toc_entry_read(b: Seq<u8>, off: int, t: Type, subtype: u32, position: int)
    requires
        0 <= off,
        off + 12 <= b.len(),
        b.subrange(off, off + 12) == toc_entry(t, subtype, position),
    ensures
        card32_at(b, off) == t.spec_to_u32(),
        card32_at(b, off + 4) == subtype,
        card32_at(b, off + 8) == position as u32,
{
    let e = toc_entry(t, subtype, position);
    assert(e.subrange(0, 4) =~= le32(t.spec_to_u32()));
    assert(e.subrange(4, 8) =~= le32(subtype));
    assert(e.subrange(8, 12) =~= le32(position as u32));
    lemma_card32_at_le32(e, 0, t.spec_to_u32());
    lemma_card32_at_le32(e, 4, subtype);
    lemma_card32_at_le32(e, 8, position as u32);
    lemma_card32_at_within(b, off, e, 0);
    lemma_card32_at_within(b, off, e, 4);
    lemma_card32_at_within(b, off, e, 8);
}

/// Position of the first chunk in the file of `x`: right after the table of contents.
spec fn chunks_start(x: XcursorView) -> int {
    FILE_HEADER_SIZE + ENTRY_SIZE * (x.images.len() + x.comments.len())
}

/// The entries that writing puts in the table of contents of `x`: the images', then the
/// comments', each with the position of its chunk.
spec fn written_entries(x: XcursorView) -> Seq<(EntryKind, u32)> {
    let cs = chunks_start(x);
    Seq::new(
        x.images.len(),
        |k: int|
            (
                EntryKind::Image(x.images[k].width as u32),
                (cs + image_chunks(x.images.take(k)).len()) as u32,
            ),
    ) + Seq::new(
        x.comments.len(),
        |j: int|
            (
                EntryKind::Comment(x.comments[j].kind),
                (cs + image_chunks(x.images).len() + comment_chunks(x.comments.take(j)).len()) as u32,
            ),
    )
}

/// The parts the file of `x` is made of, and their lengths.
proof fn lemma_file_layout(x: XcursorView)
    ensures
        file_bytes(x) == file_header((x.images.len() + x.comments.len()) as nat) + image_toc(
            x.images,
            chunks_start(x),
        ) + comment_toc(x.comments, chunks_start(x) + image_chunks(x.images).len())
            + image_chunks(x.images) + comment_chunks(x.comments),
        file_header((x.images.len() + x.comments.len()) as nat).len() == FILE_HEADER_SIZE,
        image_toc(x.images, chunks_start(x)).len() == ENTRY_SIZE * x.images.len(),
        comment_toc(x.comments, chunks_start(x) + image_chunks(x.images).len()).len() == ENTRY_SIZE
            * x.comments.len(),
        file_bytes(x).len() == chunks_start(x) + image_chunks(x.images).len() + comment_chunks(
            x.comments,
        ).len(),
{
    reveal(file_bytes);
    lemma_image_toc_len(x.images, chunks_start(x));
    lemma_comment_toc_len(x.comments, chunks_start(x) + image_chunks(x.images).len());
    lemma_file_bytes_len(x);
}

/// The bytes writing puts in entry `m` of the table of contents of `x`.
spec fn written_toc_entry(x: XcursorView, m: int) -> Seq<u8> {
    let cs = chunks_start(x);
    let ni = x.images.len() as int;
    if m < ni {
        toc_entry(Type::Image, x.images[m].width as u32, cs + image_chunks(x.images.take(m)).len())
    } else {
        toc_entry(
            Type::Comment,
            x.comments[m - ni].kind.spec_to_u32(),
            cs + image_chunks(x.images).len() + comment_chunks(x.comments.take(m - ni)).len(),
        )
    }
}

/// Where entry `m` stands in the file of `x`.
#[verifier::spinoff_prover]
proof fn lemma_written_entry_bytes(x: XcursorView, m: int)
    requires
        0 <= m < x.images.len() + x.comments.len(),
    ensures
        FILE_HEADER_SIZE + ENTRY_SIZE * m + 12 <= file_bytes(x).len(),
        file_bytes(x).subrange(FILE_HEADER_SIZE + ENTRY_SIZE * m, FILE_HEADER_SIZE + ENTRY_SIZE * m + 12)
            == written_toc_entry(x, m),
{
    lemma_file_layout(x);
    let cs = chunks_start(x);
    let ni = x.images.len() as int;
    let h = file_header((x.images.len() + x.comments.len()) as nat);
    let t1 = image_toc(x.images, cs);
    let t2 = comment_toc(x.comments, cs + image_chunks(x.images).len());
    let ic = image_chunks(x.images);
    let cc = comment_chunks(x.comments);
    let off = FILE_HEADER_SIZE + ENTRY_SIZE * m;
    lemma_subrange_left(h + t1 + t2 + ic, cc, off, off + 12);
    lemma_subrange_left(h + t1 + t2, ic, off, off + 12);
    if m < ni {
        lemma_image_toc_entry(x.images, cs, m);
        lemma_subrange_left(h + t1, t2, off, off + 12);
        lemma_subrange_right(h, t1, off, off + 12);
    } else {
        lemma_comment_toc_entry(x.comments, cs + image_chunks(x.images).len(), m - ni);
        lemma_subrange_right(h + t1, t2, off, off + 12);
    }
}

/// Entry `m` of the written table of contents reads back as the written entry.
#[verifier::spinoff_prover]
proof fn lemma_written_entry(x: XcursorView, m: int)
    requires
        file_bytes(x).len() <= u32::MAX,
        0 <= m < x.images.len() + x.comments.len(),
    ensures
        entry_at(file_bytes(x), FILE_HEADER_SIZE + ENTRY_SIZE * m) == Some(written_entries(x)[m]),
{
    lemma_written_entry_bytes(x, m);
    let b = file_bytes(x);
    let cs = chunks_start(x);
    let ni = x.images.len() as int;
    let off = FILE_HEADER_SIZE + ENTRY_SIZE * m;
    if m < ni {
        lemma_toc_entry_read(
            b,
            off,
            Type::Image,
            x.images[m].width as u32,
            cs + image_chunks(x.images.take(m)).len(),
        );
    } else {
        let j = m - ni;
        lemma_toc_entry_read(
            b,
            off,
            Type::Comment,
            x.comments[j].kind.spec_to_u32(),
            cs + image_chunks(x.images).len() + comment_chunks(x.comments.take(j)).len(),
        );
    }
}

/// The first `k` entries of the written table of contents read back as the written ones.
proof fn lemma_written_toc(x: XcursorView, k: int)
    requires
        file_bytes(x).len() <= u32::MAX,
        0 <= k <= x.images.len() + x.comments.len(),
    ensures
        toc_entries(file_bytes(x), k as nat) == written_entries(x).take(k),
    decreases k,
{
    if k == 0 {
        assert(written_entries(x).take(0) =~= Seq::<(EntryKind, u32)>::empty());
    } else {
        lemma_written_toc(x, k - 1);
        lemma_written_entry(x, k - 1);
        assert(written_entries(x).take(k) =~= written_entries(x).take(k - 1).push(
            written_entries(x)[k - 1],
        ));
    }
}

/// Where the chunk of image `m` stands in the file of `x`.
proof fn lemma_written_image_bytes(x: XcursorView, m: int)
    requires
        0 <= m < x.images.len(),
    ensures
        ({
            let lo = chunks_start(x) + image_chunks(x.images.take(m)).len();
            let hi = lo + image_chunk(x.images[m]).len();
            &&& hi <= file_bytes(x).len()
            &&& file_bytes(x).subrange(lo, hi) == image_chunk(x.images[m])
        }),
{
    lemma_file_layout(x);
    let cs = chunks_start(x);
    let ic = image_chunks(x.images);
    let lo = image_chunks(x.images.take(m)).len() as int;
    let len = image_chunk(x.images[m]).len() as int;
    lemma_image_chunks_piece(x.images, m);
    let h = file_header((x.images.len() + x.comments.len()) as nat);
    let t1 = image_toc(x.images, cs);
    let t2 = comment_toc(x.comments, cs + ic.len());
    let cc = comment_chunks(x.comments);
    lemma_subrange_left(h + t1 + t2 + ic, cc, cs + lo, cs + lo + len);
    lemma_subrange_right(h + t1 + t2, ic, cs + lo, cs + lo + len);
}

/// Where the chunk of comment `j` stands in the file of `x`.
proof fn lemma_written_comment_bytes(x: XcursorView, j: int)
    requires
        0 <= j < x.comments.len(),
    ensures
        ({
            let lo = chunks_start(x) + image_chunks(x.images).len() + comment_chunks(
                x.comments.take(j),
            ).len();
            let hi = lo + comment_chunk(x.comments[j]).len();
            &&& hi <= file_bytes(x).len()
            &&& file_bytes(x).subrange(lo, hi) == comment_chunk(x.comments[j])
        }),
{
    lemma_file_layout(x);
    let start = chunks_start(x) + image_chunks(x.images).len();
    let cc = comment_chunks(x.comments);
    let lo = comment_chunks(x.comments.take(j)).len() as int;
    let len = comment_chunk(x.comments[j]).len() as int;
    lemma_comment_chunks_piece(x.comments, j);
    let h = file_header((x.images.len() + x.comments.len()) as nat);
    let t1 = image_toc(x.images, chunks_start(x));
    let t2 = comment_toc(x.comments, start);
    let ic = image_chunks(x.images);
    lemma_subrange_right(h + t1 + t2 + ic, cc, start + lo, start + lo + len);
}

/// Reading the images of the written entries gives the images back.
#[verifier::spinoff_prover]
proof fn lemma_written_images(x: XcursorView, k: int)
    requires
        cursor_wf(x),
        file_bytes(x).len() <= u32::MAX,
        0 <= k <= x.images.len() + x.comments.len(),
    ensures
        images_of(file_bytes(x), written_entries(x).take(k)) == Ok::<Seq<ImageView>, ParseError>(
            x.images.take(if k <= x.images.len() { k } else { x.images.len() as int }),
        ),
    decreases k,
{
    let es = written_entries(x);
    let ni = x.images.len() as int;
    if k == 0 {
        assert(es.take(0) =~= Seq::<(EntryKind, u32)>::empty());
        assert(x.images.take(0) =~= Seq::<ImageView>::empty());
    } else {
        lemma_written_images(x, k - 1);
        assert(es.take(k).drop_last() =~= es.take(k - 1));
        assert(es.take(k).last() == es[k - 1]);
        if k - 1 < ni {
            let m = k - 1;
            let b = file_bytes(x);
            let lo = image_chunks(x.images.take(m)).len() as int;
            lemma_written_image_bytes(x, m);
            assert(image_wf(x.images[m]));
            lemma_image_at_chunk(b, chunks_start(x) + lo, x.images[m]);
            assert(x.images.take(k) =~= x.images.take(m).push(x.images[m]));
        } else {
            assert(x.images.take(ni) =~= x.images);
        }
    }
}

/// Reading the comments of the written entries gives the comments back.
#[verifier::spinoff_prover]
proof fn lemma_written_comments(x: XcursorView, k: int)
    requires
        cursor_wf(x),
        file_bytes(x).len() <= u32::MAX,
        0 <= k <= x.images.len() + x.comments.len(),
    ensures
        comments_of(file_bytes(x), written_entries(x).take(k)) == Ok::<
            Seq<CommentView>,
            ParseError,
        >(x.comments.take(if k <= x.images.len() { 0 } else { k - x.images.len() })),
    decreases k,
{
    let es = written_entries(x);
    let ni = x.images.len() as int;
    if k == 0 {
        assert(es.take(0) =~= Seq::<(EntryKind, u32)>::empty());
        assert(x.comments.take(0) =~= Seq::<CommentView>::empty());
    } else {
        lemma_written_comments(x, k - 1);
        assert(es.take(k).drop_last() =~= es.take(k - 1));
        assert(es.take(k).last() == es[k - 1]);
        if k - 1 >= ni {
            let j = k - 1 - ni;
            let b = file_bytes(x);
            let start = chunks_start(x) + image_chunks(x.images).len();
            let lo = comment_chunks(x.comments.take(j)).len() as int;
            lemma_written_comment_bytes(x, j);
            assert(text_fits(x.comments[j].text));
            lemma_comment_at_chunk(b, start + lo, x.comments[j]);
            assert(x.comments.take(j + 1) =~= x.comments.take(j).push(x.comments[j]));
        }
    }
}

/// The header of the written file: signature, and the number of entries.
proof fn lemma_written_header(x: XcursorView)
    requires
        file_bytes(x).len() <= u32::MAX,
    ensures
        file_bytes(x).len() >= 16,
        file_bytes(x).take(4) == file_signature(),
        card32_at(file_bytes(x), 12) == x.images.len() + x.comments.len(),
        FILE_HEADER_SIZE + ENTRY_SIZE * (x.images.len() + x.comments.len()) <= file_bytes(x).len(),
{
    lemma_file_layout(x);
    let b = file_bytes(x);
    let count = x.images.len() + x.comments.len();
    let h = file_header(count as nat);
    let rest = image_toc(x.images, chunks_start(x)) + comment_toc(
        x.comments,
        chunks_start(x) + image_chunks(x.images).len(),
    ) + image_chunks(x.images) + comment_chunks(x.comments);
    assert(b =~= h + rest);
    assert(b.take(4) =~= file_signature());
    assert(h.subrange(12, 16) =~= le32(count as u32));
    lemma_subrange_left(h, rest, 12, 16);
    lemma_card32_at_le32(b, 12, count as u32);
}

/// Reading the bytes that writing a cursor produces gives the cursor back.
#[verifier::spinoff_prover]
pub proof fn lemma_write_then_read(x: XcursorView)
    requires
        cursor_wf(x),
        file_bytes(x).len() <= u32::MAX,
    ensures
        parse_file(file_bytes(x)) == Ok::<XcursorView, ParseError>(x),
{
    let b = file_bytes(x);
    let count = x.images.len() + x.comments.len();
    lemma_written_header(x);
    lemma_written_toc(x, count as int);
    lemma_written_images(x, count as int);
    lemma_written_comments(x, count as int);
    let es = written_entries(x);
    assert(es.take(count as int) =~= es);
    assert(x.images.take(x.images.len() as int) =~= x.images);
    assert(x.comments.take(x.comments.len() as int) =~= x.comments);
    assert(toc_entries(b, count as nat) == es);
    assert(cursor_of(b, es) == Ok::<XcursorView, ParseError>(x));
}

/// The header of a written comment chunk describes the chunk: its size field counts the
/// bytes before the text, its type field reads as a comment, its subtype field reads as the
/// comment's own kind, its version is the comment version, and its length field counts the
/// text bytes, which fill the rest of the chunk.
pub proof fn lemma_comment_chunk_header(c: CommentView)
    requires
        text_fits(c.text),
    ensures
        ({
            let k = comment_chunk(c);
            let text = encode_utf8(c.text);
            &&& k.len() == card32_at(k, 0) + text.len()
            &&& Type::spec_from_u32(card32_at(k, 4)) == Ok::<Type, u32>(Type::Comment)
            &&& CommentKind::spec_from_u32(card32_at(k, 8)) == Ok::<CommentKind, u32>(c.kind)
            &&& card32_at(k, 12) == COMMENT_VERSION
            &&& card32_at(k, 16) == text.len()
            &&& k.subrange(card32_at(k, 0) as int, k.len() as int) == text
        }),
{
    let k = comment_chunk(c);
    let text = encode_utf8(c.text);
    assert(k.subrange(0, 4) =~= le32(COMMENT_HEADER_SIZE));
    assert(k.subrange(4, 8) =~= le32(Type::Comment.spec_to_u32()));
    assert(k.subrange(8, 12) =~= le32(c.kind.spec_to_u32()));
    assert(k.subrange(12, 16) =~= le32(COMMENT_VERSION));
    assert(k.subrange(16, 20) =~= le32(text.len() as u32));
    lemma_card32_at_le32(k, 0, COMMENT_HEADER_SIZE);
    lemma_card32_at_le32(k, 4, Type::Comment.spec_to_u32());
    lemma_card32_at_le32(k, 8, c.kind.spec_to_u32());
    lemma_card32_at_le32(k, 12, COMMENT_VERSION);
    lemma_card32_at_le32(k, 16, text.len() as u32);
    assert(k.subrange(20, k.len() as int) =~= text);
}

/// The header of a written image chunk describes the chunk: its size field counts the bytes
/// before the pixels, its type field reads as an image, its subtype field is the nominal
/// size (the larger of width and height), its version is the image version, the dimension
/// and hotspot fields are the image's, and the delay field is the delay in whole
/// milliseconds, `u32::MAX` where they do not fit.
pub proof fn lemma_image_chunk_header(im: ImageView)
    ensures
        ({
            let k = image_chunk(im);
            &&& k.len() == card32_at(k, 0) + 4 * im.argb.len()
            &&& Type::spec_from_u32(card32_at(k, 4)) == Ok::<Type, u32>(Type::Image)
            &&& card32_at(k, 8) >= im.width && card32_at(k, 8) >= im.height
            &&& (card32_at(k, 8) == im.width || card32_at(k, 8) == im.height)
            &&& card32_at(k, 12) == IMAGE_VERSION
            &&& card32_at(k, 16) == im.width
            &&& card32_at(k, 20) == im.height
            &&& card32_at(k, 24) == im.hotspot_x
            &&& card32_at(k, 28) == im.hotspot_y
            &&& (millis_of(im.delay) <= u32::MAX ==> card32_at(k, 32) == millis_of(im.delay))
            &&& (millis_of(im.delay) > u32::MAX ==> card32_at(k, 32) == u32::MAX)
        }),
{
    assert(image_chunk(im).subrange(16, 20) =~= le32(im.width as u32));
    assert(image_chunk(im).subrange(20, 24) =~= le32(im.height as u32));
    assert(image_chunk(im).subrange(24, 28) =~= le32(im.hotspot_x as u32));
    assert(image_chunk(im).subrange(28, 32) =~= le32(im.hotspot_y as u32));
    assert(image_chunk(im).subrange(32, 36) =~= le32(delay_field(im.delay)));
    lemma_card32_at_le32(image_chunk(im), 16, im.width as u32);
    lemma_card32_at_le32(image_chunk(im), 20, im.height as u32);
    lemma_card32_at_le32(image_chunk(im), 24, im.hotspot_x as u32);
    lemma_card32_at_le32(image_chunk(im), 28, im.hotspot_y as u32);
    lemma_card32_at_le32(image_chunk(im), 32, delay_field(im.delay));
    let k = image_chunk(im);
    crate::format::lemma_pixel_bytes_len(im.argb);
    assert(k.subrange(0, 4) =~= le32(IMAGE_HEADER_SIZE));
    assert(k.subrange(4, 8) =~= le32(Type::Image.spec_to_u32()));
    assert(k.subrange(8, 12) =~= le32(nominal_size(im.width, im.height)));
    assert(k.subrange(12, 16) =~= le32(IMAGE_VERSION));
    lemma_card32_at_le32(k, 0, IMAGE_HEADER_SIZE);
    lemma_card32_at_le32(k, 4, Type::Image.spec_to_u32());
    lemma_card32_at_le32(k, 8, nominal_size(im.width, im.height));
    lemma_card32_at_le32(k, 12, IMAGE_VERSION);
}

/// The header of a written file: its size field is where the table of contents starts, and
/// its version is the file version.
pub proof fn lemma_written_file_header(x: XcursorView)
    requires
        file_bytes(x).len() <= u32::MAX,
    ensures
        card32_at(file_bytes(x), 4) == FILE_HEADER_SIZE,
        card32_at(file_bytes(x), 8) == FILE_VERSION,
{
    lemma_file_layout(x);
    let b = file_bytes(x);
    let count = x.images.len() + x.comments.len();
    let h = file_header(count as nat);
    let rest = image_toc(x.images, chunks_start(x)) + comment_toc(
        x.comments,
        chunks_start(x) + image_chunks(x.images).len(),
    ) + image_chunks(x.images) + comment_chunks(x.comments);
    assert(b =~= h + rest);
    assert(h.subrange(4, 8) =~= le32(FILE_HEADER_SIZE));
    assert(h.subrange(8, 12) =~= le32(FILE_VERSION));
    lemma_subrange_left(h, rest, 4, 8);
    lemma_subrange_left(h, rest, 8, 12);
    lemma_card32_at_le32(b, 4, FILE_HEADER_SIZE);
    lemma_card32_at_le32(b, 8, FILE_VERSION);
}

/// In a written file, the entry of comment `j` agrees with the chunk it points at: the chunk
/// starts at the entry's position, and its type and subtype fields are the entry's, the
/// subtype being the comment's kind.
pub proof fn lemma_written_comment_matches_entry(x: XcursorView, j: int)
    requires
        cursor_wf(x),
        file_bytes(x).len() <= u32::MAX,
        0 <= j < x.comments.len(),
    ensures
        ({
            let b = file_bytes(x);
            let off = FILE_HEADER_SIZE + ENTRY_SIZE * (x.images.len() + j);
            let pos = card32_at(b, off + 8);
            &&& pos + comment_chunk(x.comments[j]).len() <= b.len()
            &&& b.subrange(pos as int, pos + comment_chunk(x.comments[j]).len()) == comment_chunk(
                x.comments[j],
            )
            &&& card32_at(b, pos + 4) == card32_at(b, off)
            &&& card32_at(b, pos + 8) == card32_at(b, off + 4)
            &&& CommentKind::spec_from_u32(card32_at(b, pos + 8)) == Ok::<CommentKind, u32>(
                x.comments[j].kind,
            )
        }),
{
    let b = file_bytes(x);
    let ni = x.images.len() as int;
    let m = ni + j;
    let off = FILE_HEADER_SIZE + ENTRY_SIZE * m;
    let c = x.comments[j];
    let lo = chunks_start(x) + image_chunks(x.images).len() + comment_chunks(
        x.comments.take(j),
    ).len();
    lemma_written_entry_bytes(x, m);
    lemma_toc_entry_read(b, off, Type::Comment, c.kind.spec_to_u32(), lo);
    lemma_written_comment_bytes(x, j);
    assert(text_fits(c.text));
    lemma_comment_chunk_header(c);
    let k = comment_chunk(c);
    lemma_card32_at_within(b, lo, k, 4);
    lemma_card32_at_within(b, lo, k, 8);
}

/// In a written file, the entry of image `m` agrees with the chunk it points at: the chunk
/// starts at the entry's position, its type field is the entry's, and the entry's subtype is
/// the image's width.
pub proof fn lemma_written_image_matches_entry(x: XcursorView, m: int)
    requires
        file_bytes(x).len() <= u32::MAX,
        0 <= m < x.images.len(),
    ensures
        ({
            let b = file_bytes(x);
            let off = FILE_HEADER_SIZE + ENTRY_SIZE * m;
            let pos = card32_at(b, off + 8);
            &&& pos + image_chunk(x.images[m]).len() <= b.len()
            &&& b.subrange(pos as int, pos + image_chunk(x.images[m]).len()) == image_chunk(
                x.images[m],
            )
            &&& card32_at(b, pos + 4) == card32_at(b, off)
            &&& card32_at(b, off + 4) == x.images[m].width
        }),
{
    let b = file_bytes(x);
    let off = FILE_HEADER_SIZE + ENTRY_SIZE * m;
    let im = x.images[m];
    let lo = chunks_start(x) + image_chunks(x.images.take(m)).len();
    lemma_written_entry_bytes(x, m);
    lemma_toc_entry_read(b, off, Type::Image, im.width as u32, lo);
    lemma_written_image_bytes(x, m);
    lemma_image_chunk_header(im);
    let k = image_chunk(im);
    lemma_card32_at_within(b, lo, k, 4);
}

} // verus!
