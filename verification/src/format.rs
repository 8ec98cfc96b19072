//! The Xcursor file format as mathematical functions: what reading a file gives, and
//! which bytes writing a cursor produces.
use vstd::prelude::*;
use vstd::utf8::{decode_utf8, valid_utf8};

use crate::card32::{card32_at, le32};
use crate::comment::{comment_chunk, lossy_utf8, text_fits, CommentKind, CommentView, COMMENT_HEADER_SIZE};
use crate::delay::{delay_of_millis, lemma_millis_of_delay_of_millis, millis_of};
use crate::error::{saturate_usize, ParseError};
use crate::image::{
    image_at, image_chunk, image_fields_valid, pixel_bytes, ImageView, IMAGE_HEADER_SIZE,
};
use crate::{EntryKind, SkippedEntry, Type};

verus! {

/// Size in bytes of the file header.
pub const FILE_HEADER_SIZE: u32 = 16;

/// Version written into the file header.
pub const FILE_VERSION: u32 = 0x0001_0000;

/// Size in bytes of one entry of the table of contents.
pub const ENTRY_SIZE: usize = 12;

/// The four bytes every Xcursor file starts with: "Xcur".
pub open spec fn file_signature() -> Seq<u8> {
    seq![0x58u8, 0x63u8, 0x75u8, 0x72u8]
}

/// What a cursor file holds: its images and its comments, each in file order.
#[verifier::ext_equal]
pub struct XcursorView {
    pub images: Seq<ImageView>,
    pub comments: Seq<CommentView>,
}

/// The table-of-contents entry stored at `off`: its kind and position, or nothing where its
/// type or comment subtype is unknown.
pub open spec fn entry_at(b: Seq<u8>, off: int) -> Option<(EntryKind, u32)> {
    let raw_type = card32_at(b, off);
    let raw_subtype = card32_at(b, off + 4);
    let position = card32_at(b, off + 8);
    if raw_type == Type::Image.spec_to_u32() {
        Some((EntryKind::Image(raw_subtype), position))
    } else if raw_type == Type::Comment.spec_to_u32() {
        match CommentKind::spec_from_u32(raw_subtype) {
            Ok(kind) => Some((EntryKind::Comment(kind), position)),
            Err(_) => None,
        }
    } else {
        None
    }
}

/// The entry stored at `off` where reading skips it: its unknown type, or the unknown
/// subtype of a comment entry; nothing where the entry is known.
pub open spec fn skipped_at(b: Seq<u8>, off: int) -> Option<SkippedEntry> {
    let raw_type = card32_at(b, off);
    let raw_subtype = card32_at(b, off + 4);
    if raw_type == Type::Image.spec_to_u32() {
        None
    } else if raw_type == Type::Comment.spec_to_u32() {
        match CommentKind::spec_from_u32(raw_subtype) {
            Ok(_) => None,
            Err(n) => Some(SkippedEntry::UnknownCommentSubtype(n)),
        }
    } else {
        Some(SkippedEntry::UnknownType(raw_type))
    }
}

/// The skipped entries among the first `count` entries of the table of contents, in order.
pub open spec fn skipped_entries_of(b: Seq<u8>, count: nat) -> Seq<SkippedEntry>
    decreases count,
{
    if count == 0 {
        Seq::empty()
    } else {
        let before = skipped_entries_of(b, (count - 1) as nat);
        match skipped_at(b, FILE_HEADER_SIZE + ENTRY_SIZE * (count - 1)) {
            Some(s) => before.push(s),
            None => before,
        }
    }
}

/// Whether the header and the whole table of contents of `b` can be read.
pub open spec fn table_readable(b: Seq<u8>) -> bool {
    &&& b.len() >= 16
    &&& b.take(4) == file_signature()
    &&& FILE_HEADER_SIZE + ENTRY_SIZE * card32_at(b, 12) <= b.len()
}

/// The known entries among the first `count` entries of the table of contents.
pub open spec fn toc_entries(b: Seq<u8>, count: nat) -> Seq<(EntryKind, u32)>
    decreases count,
{
    if count == 0 {
        Seq::empty()
    } else {
        let before = toc_entries(b, (count - 1) as nat);
        match entry_at(b, FILE_HEADER_SIZE + ENTRY_SIZE * (count - 1)) {
            Some(e) => before.push(e),
            None => before,
        }
    }
}

/// The images that the image entries of `es` point at, in order; the first error where one
/// of them cannot be read.
pub open spec fn images_of(b: Seq<u8>, es: Seq<(EntryKind, u32)>) -> Result<Seq<ImageView>, ParseError>
    decreases es.len(),
{
    if es.len() == 0 {
        Ok(Seq::empty())
    } else {
        match images_of(b, es.drop_last()) {
            Err(e) => Err(e),
            Ok(images) => match es.last().0 {
                EntryKind::Image(_) => match image_at(b, es.last().1 as int) {
                    Ok(im) => Ok(images.push(im)),
                    Err(e) => Err(e),
                },
                EntryKind::Comment(_) => Ok(images),
            },
        }
    }
}

/// The text a comment's bytes stand for: their UTF-8 decoding where they are valid UTF-8,
/// else what `String::from_utf8_lossy` makes of them.
pub open spec fn decoded_text(bytes: Seq<u8>) -> Seq<char> {
    if valid_utf8(bytes) {
        decode_utf8(bytes)
    } else {
        lossy_utf8(bytes)
    }
}

/// What reading the comment chunk of the given kind that starts at `pos` of `b` gives.
pub open spec fn comment_at(b: Seq<u8>, pos: int, kind: CommentKind) -> Result<CommentView, ParseError> {
    if pos + COMMENT_HEADER_SIZE > b.len() {
        Err(ParseError::NotEnoughBytes { needed: saturate_usize(pos + COMMENT_HEADER_SIZE - b.len()) })
    } else {
        let end = pos + COMMENT_HEADER_SIZE + card32_at(b, pos + 16);
        if end > b.len() {
            Err(ParseError::NotEnoughBytes { needed: saturate_usize(end - b.len()) })
        } else {
            let text = decoded_text(b.subrange(pos + COMMENT_HEADER_SIZE, end));
            if text_fits(text) {
                Ok(CommentView { kind, text })
            } else {
                Err(ParseError::CommentLength)
            }
        }
    }
}

/// The comments that the comment entries of `es` point at, in order; the first error where
/// one of them cannot be read.
pub open spec fn comments_of(b: Seq<u8>, es: Seq<(EntryKind, u32)>) -> Result<Seq<CommentView>, ParseError>
    decreases es.len(),
{
    if es.len() == 0 {
        Ok(Seq::empty())
    } else {
        match comments_of(b, es.drop_last()) {
            Err(e) => Err(e),
            Ok(comments) => match es.last().0 {
                EntryKind::Image(_) => Ok(comments),
                EntryKind::Comment(kind) => match comment_at(b, es.last().1 as int, kind) {
                    Ok(c) => Ok(comments.push(c)),
                    Err(e) => Err(e),
                },
            },
        }
    }
}

/// What reading the file `b` gives: the header is read field by field, the first read that
/// runs out of bytes says how many more it needed; then the table of contents, then every
/// image, then every comment.
pub open spec fn parse_file(b: Seq<u8>) -> Result<XcursorView, ParseError> {
    if b.len() < 4 {
        Err(ParseError::NotEnoughBytes { needed: (4 - b.len()) as usize })
    } else if b.take(4) != file_signature() {
        Err(ParseError::InvalidSignature)
    } else if b.len() < 8 {
        Err(ParseError::NotEnoughBytes { needed: (8 - b.len()) as usize })
    } else if b.len() < 12 {
        Err(ParseError::NotEnoughBytes { needed: (12 - b.len()) as usize })
    } else if b.len() < 16 {
        Err(ParseError::NotEnoughBytes { needed: (16 - b.len()) as usize })
    } else {
        let count = card32_at(b, 12);
        let toc_end = FILE_HEADER_SIZE + ENTRY_SIZE * count;
        if toc_end > b.len() {
            Err(ParseError::NotEnoughBytes { needed: saturate_usize(toc_end - b.len()) })
        } else {
            cursor_of(b, toc_entries(b, count as nat))
        }
    }
}

/// The cursor made of the images and then the comments that the entries `es` point at in `b`.
pub open spec fn cursor_of(b: Seq<u8>, es: Seq<(EntryKind, u32)>) -> Result<XcursorView, ParseError> {
    match images_of(b, es) {
        Err(e) => Err(e),
        Ok(images) => match comments_of(b, es) {
            Err(e) => Err(e),
            Ok(comments) => Ok(XcursorView { images, comments }),
        },
    }
}

/// An image that a file can hold and give back: dimensions and hotspot within the limits,
/// one pixel per point, and a delay of whole milliseconds that fit in a CARD32.
pub open spec fn image_wf(im: ImageView) -> bool {
    &&& image_fields_valid(im.width, im.height, im.hotspot_x, im.hotspot_y)
    &&& im.argb.len() == im.width * im.height
    &&& millis_of(im.delay) <= u32::MAX
    &&& im.delay == delay_of_millis(millis_of(im.delay) as u64)
}

/// A cursor whose images and comments a file can hold and give back.
pub open spec fn cursor_wf(x: XcursorView) -> bool {
    &&& forall|i: int| 0 <= i < x.images.len() ==> image_wf(#[trigger] x.images[i])
    &&& forall|j: int| 0 <= j < x.comments.len() ==> text_fits(#[trigger] x.comments[j].text)
}

/// Every image that reading gives is one a file can hold.
pub proof fn lemma_image_at_wf(b: Seq<u8>, pos: int)
    ensures
        image_at(b, pos) matches Ok(im) ==> image_wf(im),
{
    if let Ok(im) = image_at(b, pos) {
        let width = card32_at(b, pos + 16);
        let height = card32_at(b, pos + 20);
        assert(im.width as int == width as int);
        assert(im.height as int == height as int);
        lemma_millis_of_delay_of_millis(card32_at(b, pos + 32) as u64);
    }
}

/// The image chunks of `images`, one after the other.
pub open spec fn image_chunks(images: Seq<ImageView>) -> Seq<u8>
    decreases images.len(),
{
    if images.len() == 0 {
        Seq::empty()
    } else {
        image_chunks(images.drop_last()) + image_chunk(images.last())
    }
}

/// The comment chunks of `comments`, one after the other.
pub open spec fn comment_chunks(comments: Seq<CommentView>) -> Seq<u8>
    decreases comments.len(),
{
    if comments.len() == 0 {
        Seq::empty()
    } else {
        comment_chunks(comments.drop_last()) + comment_chunk(comments.last())
    }
}

/// One table-of-contents entry: type, subtype and position of a chunk.
pub open spec fn toc_entry(t: Type, subtype: u32, position: int) -> Seq<u8> {
    le32(t.spec_to_u32()) + le32(subtype) + le32(position as u32)
}

/// The entries for `images`, whose chunks follow one another from `base` on.
pub open spec fn image_toc(images: Seq<ImageView>, base: int) -> Seq<u8>
    decreases images.len(),
{
    if images.len() == 0 {
        Seq::empty()
    } else {
        image_toc(images.drop_last(), base) + toc_entry(
            Type::Image,
            images.last().width as u32,
            base + image_chunks(images.drop_last()).len(),
        )
    }
}

/// The entries for `comments`, whose chunks follow one another from `base` on.
pub open spec fn comment_toc(comments: Seq<CommentView>, base: int) -> Seq<u8>
    decreases comments.len(),
{
    if comments.len() == 0 {
        Seq::empty()
    } else {
        comment_toc(comments.drop_last(), base) + toc_entry(
            Type::Comment,
            comments.last().kind.spec_to_u32(),
            base + comment_chunks(comments.drop_last()).len(),
        )
    }
}

/// The file header of a cursor with `count` chunks.
pub open spec fn file_header(count: nat) -> Seq<u8> {
    file_signature() + le32(FILE_HEADER_SIZE) + le32(FILE_VERSION) + le32(count as u32)
}

/// The bytes of the file that holds `x`: header, table of contents with the images first,
/// then the image chunks and the comment chunks in the same order.
#[verifier::opaque]
pub open spec fn file_bytes(x: XcursorView) -> Seq<u8> {
    let count = x.images.len() + x.comments.len();
    let chunks_start = FILE_HEADER_SIZE + ENTRY_SIZE * count;
    file_header(count) + image_toc(x.images, chunks_start) + comment_toc(
        x.comments,
        chunks_start + image_chunks(x.images).len(),
    ) + image_chunks(x.images) + comment_chunks(x.comments)
}

/// Bytes made of the parts of a file, appended to `start`, are `start` followed by the file.
pub proof fn lemma_file_bytes_parts(x: XcursorView, start: Seq<u8>, out: Seq<u8>)
    requires
        ({
            let count = x.images.len() + x.comments.len();
            let chunks_start = FILE_HEADER_SIZE + ENTRY_SIZE * count;
            out == start + file_header(count) + image_toc(x.images, chunks_start) + comment_toc(
                x.comments,
                chunks_start + image_chunks(x.images).len(),
            ) + image_chunks(x.images) + comment_chunks(x.comments)
        }),
    ensures
        out == start + file_bytes(x),
{
    reveal(file_bytes);
    let count = x.images.len() + x.comments.len();
    let chunks_start = FILE_HEADER_SIZE + ENTRY_SIZE * count;
    let h = file_header(count);
    let t1 = image_toc(x.images, chunks_start);
    let t2 = comment_toc(x.comments, chunks_start + image_chunks(x.images).len());
    let c1 = image_chunks(x.images);
    let c2 = comment_chunks(x.comments);
    assert(start + h + t1 + t2 + c1 + c2 =~= start + (h + t1 + t2 + c1 + c2));
}

pub proof fn lemma_pixel_bytes_len(argb: Seq<u32>)
    ensures
        pixel_bytes(argb).len() == 4 * argb.len(),
    decreases argb.len(),
{
    if argb.len() > 0 {
        lemma_pixel_bytes_len(argb.drop_last());
    }
}

pub proof fn lemma_image_chunk_len(im: ImageView)
    ensures
        image_chunk(im).len() == IMAGE_HEADER_SIZE + 4 * im.argb.len(),
{
    lemma_pixel_bytes_len(im.argb);
}

/// Each chunk adds to the length: a prefix of the images takes no more bytes than all.
pub proof fn lemma_image_chunks_prefix_len(images: Seq<ImageView>, i: int)
    requires
        0 <= i <= images.len(),
    ensures
        image_chunks(images.take(i)).len() <= image_chunks(images).len(),
    decreases images.len(),
{
    if i < images.len() {
        assert(images.drop_last().take(i) =~= images.take(i));
        lemma_image_chunks_prefix_len(images.drop_last(), i);
    } else {
        assert(images.take(i) =~= images);
    }
}

/// Each chunk adds to the length: a prefix of the comments takes no more bytes than all.
pub proof fn lemma_comment_chunks_prefix_len(comments: Seq<CommentView>, i: int)
    requires
        0 <= i <= comments.len(),
    ensures
        comment_chunks(comments.take(i)).len() <= comment_chunks(comments).len(),
    decreases comments.len(),
{
    if i < comments.len() {
        assert(comments.drop_last().take(i) =~= comments.take(i));
        lemma_comment_chunks_prefix_len(comments.drop_last(), i);
    } else {
        assert(comments.take(i) =~= comments);
    }
}

pub proof fn lemma_image_toc_len(images: Seq<ImageView>, base: int)
    ensures
        image_toc(images, base).len() == ENTRY_SIZE * images.len(),
    decreases images.len(),
{
    if images.len() > 0 {
        lemma_image_toc_len(images.drop_last(), base);
    }
}

pub proof fn lemma_comment_toc_len(comments: Seq<CommentView>, base: int)
    ensures
        comment_toc(comments, base).len() == ENTRY_SIZE * comments.len(),
    decreases comments.len(),
{
    if comments.len() > 0 {
        lemma_comment_toc_len(comments.drop_last(), base);
    }
}

/// The length of a file: header, one entry per chunk, and the chunks.
pub proof fn lemma_file_bytes_len(x: XcursorView)
    ensures
        file_bytes(x).len() == FILE_HEADER_SIZE + ENTRY_SIZE * (x.images.len() + x.comments.len())
            + image_chunks(x.images).len() + comment_chunks(x.comments).len(),
{
    reveal(file_bytes);
    let count = x.images.len() + x.comments.len();
    let chunks_start = FILE_HEADER_SIZE + ENTRY_SIZE * count;
    lemma_image_toc_len(x.images, chunks_start);
    lemma_comment_toc_len(x.comments, chunks_start + image_chunks(x.images).len());
}

} // verus!
