//! Parser and writer for the Xcursor file format.
use vstd::prelude::*;

use vstd::slice::slice_subrange;

use crate::card32::{card32_at, read_u32_le, write_u32_le};
use crate::comment::{text_fits, utf8_lossy, CommentView};
use crate::error::saturating_usize;
use crate::format::{
    comment_at, comment_chunks, skipped_at, skipped_entries_of, table_readable, comment_toc, comments_of, cursor_of, cursor_wf, entry_at, file_bytes,
    file_header, file_signature, image_chunks, image_toc, image_wf, images_of,
    lemma_comment_chunks_prefix_len, lemma_file_bytes_len, lemma_file_bytes_parts, lemma_image_at_wf,
    lemma_image_chunk_len, lemma_image_chunks_prefix_len, parse_file, toc_entries, XcursorView,
    FILE_HEADER_SIZE, FILE_VERSION,
};
use crate::image::ImageView;
use crate::laws::lemma_write_then_read;

pub mod card32;
pub mod comment;
pub mod delay;
pub mod error;
pub mod format;
pub mod image;
pub mod laws;
pub mod parser;

pub use crate::comment::{Comment, CommentKind};
pub use crate::delay::Delay;
pub use crate::error::ParseError;
pub use crate::image::Image;
pub use crate::parser::Parser;

verus! {

/// Represents the available chunk types.
#[derive(Debug, Clone, Copy, PartialEq, Eq, Structural)]
pub enum Type {
    Image,
    Comment,
}

impl Type {
    /// The number that stands for the chunk type in a file.
    pub open spec fn spec_to_u32(self) -> u32 {
        match self {
            Type::Image => 0xFFFD_0002,
            Type::Comment => 0xFFFE_0001,
        }
    }

    /// The chunk type that a number stands for; the number itself where it stands for none.
    pub open spec fn spec_from_u32(value: u32) -> Result<Type, u32> {
        if value == 0xFFFD_0002 {
            Ok(Type::Image)
        } else if value == 0xFFFE_0001 {
            Ok(Type::Comment)
        } else {
            Err(value)
        }
    }

    /// The number that stands for the chunk type in a file.
    #[verifier::when_used_as_spec(spec_to_u32)]
    pub fn to_u32(self) -> (n: u32)
        ensures
            n == self.spec_to_u32(),
    {
        match self {
            Type::Image => 0xFFFD_0002,
            Type::Comment => 0xFFFE_0001,
        }
    }
}

impl TryFrom<u32> for Type {
    type Error = u32;

    fn try_from(value: u32) -> (r: Result<Self, Self::Error>) {
        match value {
            0xFFFD_0002 => Ok(Self::Image),
            0xFFFE_0001 => Ok(Self::Comment),
            n => Err(n),
        }
    }
}

impl vstd::std_specs::convert::TryFromSpecImpl<u32> for Type {
    open spec fn obeys_try_from_spec() -> bool {
        true
    }

    open spec fn try_from_spec(v: u32) -> Result<Self, Self::Error> {
        Type::spec_from_u32(v)
    }
}

/// The kind of a chunk that a table-of-contents entry points at.
#[derive(Debug, Clone, Copy, PartialEq, Eq, Structural)]
pub enum EntryKind {
    /// An image chunk, with the subtype (nominal size) of the entry.
    Image(u32),
    Comment(CommentKind),
}

/// A table-of-contents entry that reading skips, with the number that made it unknown.
#[derive(Debug, Clone, Copy, PartialEq, Eq, Structural)]
pub enum SkippedEntry {
    /// The entry's type is neither an image's nor a comment's.
    UnknownType(u32),
    /// The entry is a comment's, with a subtype that stands for no comment kind.
    UnknownCommentSubtype(u32),
}

/// Represents an entry in the Table of Contents.
#[derive(Debug, Clone, Copy)]
pub struct Entry {
    pub(crate) kind: EntryKind,
    pub(crate) position: u32,
}

impl View for Entry {
    type V = (EntryKind, u32);

    closed spec fn view(&self) -> (EntryKind, u32) {
        (self.kind, self.position)
    }
}

impl Entry {
    /// The byte offset of the chunk in the file.
    pub open spec fn spec_position(self) -> u32 {
        self@.1
    }
}

/// Reads one table-of-contents entry; the skipped entry where its type or comment subtype is
/// unknown.
fn parse_entry(entry: &[u8]) -> (r: Result<Entry, SkippedEntry>)
    requires
        entry@.len() == 12,
    ensures
        match r {
            Ok(e) => entry_at(entry@, 0) == Some(e@) && skipped_at(entry@, 0) is None,
            Err(s) => entry_at(entry@, 0) is None && skipped_at(entry@, 0) == Some(s),
        },
{
    let raw_type = read_u32_le(entry, 0);
    let raw_subtype = read_u32_le(entry, 4);
    let position = read_u32_le(entry, 8);

    let kind = match Type::try_from(raw_type) {
        Ok(Type::Image) => EntryKind::Image(raw_subtype),
        Ok(Type::Comment) => match CommentKind::try_from(raw_subtype) {
            Ok(kind) => EntryKind::Comment(kind),
            Err(n) => return Err(SkippedEntry::UnknownCommentSubtype(n)),
        },
        Err(n) => return Err(SkippedEntry::UnknownType(n)),
    };
    Ok(Entry { kind, position })
}

/// Reads the comment chunk of the given kind at `position` in the whole file `buffer`.
fn parse_comment(buffer: &[u8], position: u32, kind: CommentKind) -> (r: Result<Comment, ParseError>)
    ensures
        match r {
            Ok(c) => comment_at(buffer@, position as int, kind) == Ok::<CommentView, ParseError>(c@),
            Err(e) => comment_at(buffer@, position as int, kind) == Err::<CommentView, ParseError>(e),
        },
        ({
            let length = card32_at(buffer@, position + 16);
            position + 20 <= buffer@.len() && position + 20 + length <= buffer@.len() && 3 * length
                <= u32::MAX
        }) ==> r is Ok,
{
    let pos = position as u64;
    let len = buffer.len() as u64;
    if pos + 20 > len {
        return Err(ParseError::NotEnoughBytes { needed: saturating_usize(pos + 20 - len) });
    }
    let start = position as usize;
    let comment_length = read_u32_le(buffer, start + 16);
    let end = pos + 20 + comment_length as u64;
    if end > len {
        return Err(ParseError::NotEnoughBytes { needed: saturating_usize(end - len) });
    }
    let bytes = slice_subrange(buffer, start + 20, end as usize);
    let text = utf8_lossy(bytes);
    Comment::new(kind, text)
}

/// Reads the file header of `buffer` through `parser`, which stands at its start: checks
/// the signature and gives the number of table-of-contents entries.
fn read_header(buffer: &[u8], parser: &mut Parser) -> (r: Result<u32, ParseError>)
    requires
        old(parser)@ == buffer@,
    ensures
        match r {
            Ok(entry_count) => {
                &&& buffer@.len() >= 16
                &&& buffer@.take(4) == file_signature()
                &&& entry_count == card32_at(buffer@, 12)
                &&& final(parser)@ == buffer@.skip(16)
            },
            Err(e) => {
                &&& parse_file(buffer@) == Err::<XcursorView, ParseError>(e)
                &&& !(buffer@.len() >= 16 && buffer@.take(4) == file_signature())
            },
        },
{
    let signature = parser.read_bytes(4)?;
    assert(signature@ =~= buffer@.take(4));
    if !(signature[0] == 0x58 && signature[1] == 0x63 && signature[2] == 0x75 && signature[3]
        == 0x72) {
        assert(buffer@.take(4) != file_signature()) by {
            if buffer@.take(4) == file_signature() {
                assert(signature@[0] == file_signature()[0]);
                assert(signature@[1] == file_signature()[1]);
                assert(signature@[2] == file_signature()[2]);
                assert(signature@[3] == file_signature()[3]);
            }
        }
        return Err(ParseError::InvalidSignature);
    }
    assert(buffer@.take(4) =~= file_signature());

    assert(parser@ =~= buffer@.skip(4));
    let _header_size = parser.read_card32()?;
    assert(parser@ =~= buffer@.skip(8));
    let _version = parser.read_card32()?;
    assert(parser@ =~= buffer@.skip(12));
    let entry_count = parser.read_card32()?;
    assert(parser@ =~= buffer@.skip(16));
    Ok(entry_count)
}

/// Reads the `entry_count` entries of the table of contents, which stands at byte 16 of the
/// whole file `buffer`: the known ones, and the skipped ones.
#[verifier::spinoff_prover]
fn parse_table_of_contents(buffer: &[u8], table_of_contents: &[u8], entry_count: u32) -> (r: (
    Vec<Entry>,
    Vec<SkippedEntry>,
))
    requires
        16 + 12 * entry_count <= buffer@.len(),
        table_of_contents@ == buffer@.subrange(16, 16 + 12 * entry_count),
    ensures
        r.0@.map_values(|e: Entry| e@) == toc_entries(buffer@, entry_count as nat),
        r.1@ == skipped_entries_of(buffer@, entry_count as nat),
{
    let mut entries: Vec<Entry> = Vec::new();
    let mut skipped: Vec<SkippedEntry> = Vec::new();
    let mut k: u32 = 0;
    while k < entry_count
        invariant
            k <= entry_count,
            table_of_contents@ == buffer@.subrange(16, 16 + 12 * entry_count),
            table_of_contents@.len() == table_of_contents.len(),
            16 + 12 * entry_count <= buffer@.len(),
            entries@.map_values(|e: Entry| e@) == toc_entries(buffer@, k as nat),
            skipped@ == skipped_entries_of(buffer@, k as nat),
        decreases entry_count - k,
    {
        let offset = 12 * (k as usize);
        let entry = slice_subrange(table_of_contents, offset, offset + 12);
        proof {
            assert forall|j: int| 0 <= j < 12 implies entry@[j] == buffer@[16 + 12 * k + j] by {}
            assert(entry_at(entry@, 0) == entry_at(buffer@, 16 + 12 * k));
            assert(skipped_at(entry@, 0) == skipped_at(buffer@, 16 + 12 * k));
        }
        let ghost before = entries@;
        match parse_entry(entry) {
            Ok(e) => {
                entries.push(e);
                assert(entries@.map_values(|e: Entry| e@) =~= before.map_values(|e: Entry| e@).push(
                    e@,
                ));
            },
            Err(s) => skipped.push(s),
        }
        k = k + 1;
    }
    (entries, skipped)
}

/// Reads the images that the image entries point at in the whole file `buffer`, in order.
#[verifier::spinoff_prover]
fn parse_images(buffer: &[u8], entries: &Vec<Entry>) -> (r: Result<Vec<Image>, ParseError>)
    ensures
        match r {
            Ok(images) => {
                &&& images_of(buffer@, entries@.map_values(|e: Entry| e@)) == Ok::<
                    Seq<ImageView>,
                    ParseError,
                >(image_views(images@))
                &&& forall|j: int| 0 <= j < images@.len() ==> image_wf((#[trigger] images@[j])@)
            },
            Err(e) => images_of(buffer@, entries@.map_values(|e: Entry| e@)) == Err::<
                Seq<ImageView>,
                ParseError,
            >(e),
        },
{
    let ghost es = entries@.map_values(|e: Entry| e@);
    let mut images: Vec<Image> = Vec::new();
    assert(image_views(images@) =~= Seq::<ImageView>::empty());
    assert(es.take(0) =~= Seq::<(EntryKind, u32)>::empty());
    let mut i: usize = 0;
    while i < entries.len()
        invariant
            i <= entries@.len(),
            es == entries@.map_values(|e: Entry| e@),
            images_of(buffer@, es.take(i as int)) == Ok::<Seq<ImageView>, ParseError>(
                image_views(images@),
            ),
            forall|j: int| 0 <= j < images@.len() ==> image_wf((#[trigger] images@[j])@),
        decreases entries@.len() - i,
    {
        let entry = entries[i];
        assert(es.take(i + 1).drop_last() =~= es.take(i as int));
        assert(es.take(i + 1).last() == entry@);
        match entry.kind {
            EntryKind::Image(_) => match Image::from_chunk(buffer, &entry) {
                Ok(image) => {
                    proof {
                        lemma_image_at_wf(buffer@, entry@.1 as int);
                    }
                    let ghost before = images@;
                    images.push(image);
                    assert(image_views(images@) =~= image_views(before).push(image@));
                },
                Err(e) => {
                    proof {
                        lemma_images_err_persists(buffer@, es, i + 1);
                    }
                    return Err(e);
                },
            },
            EntryKind::Comment(_) => {},
        }
        i = i + 1;
    }
    assert(es.take(i as int) =~= es);
    Ok(images)
}

/// Reads the comments that the comment entries point at in the whole file `buffer`, in order.
#[verifier::spinoff_prover]
fn parse_comments(buffer: &[u8], entries: &Vec<Entry>) -> (r: Result<Vec<Comment>, ParseError>)
    ensures
        match r {
            Ok(comments) => {
                &&& comments_of(buffer@, entries@.map_values(|e: Entry| e@)) == Ok::<
                    Seq<CommentView>,
                    ParseError,
                >(comment_views(comments@))
                &&& forall|j: int|
                    0 <= j < comments@.len() ==> text_fits((#[trigger] comments@[j])@.text)
            },
            Err(e) => comments_of(buffer@, entries@.map_values(|e: Entry| e@)) == Err::<
                Seq<CommentView>,
                ParseError,
            >(e),
        },
{
    let ghost es = entries@.map_values(|e: Entry| e@);
    let mut comments: Vec<Comment> = Vec::new();
    assert(comment_views(comments@) =~= Seq::<CommentView>::empty());
    assert(es.take(0) =~= Seq::<(EntryKind, u32)>::empty());
    let mut i: usize = 0;
    while i < entries.len()
        invariant
            i <= entries@.len(),
            es == entries@.map_values(|e: Entry| e@),
            comments_of(buffer@, es.take(i as int)) == Ok::<Seq<CommentView>, ParseError>(
                comment_views(comments@),
            ),
            forall|j: int| 0 <= j < comments@.len() ==> text_fits((#[trigger] comments@[j])@.text),
        decreases entries@.len() - i,
    {
        let entry = entries[i];
        assert(es.take(i + 1).drop_last() =~= es.take(i as int));
        assert(es.take(i + 1).last() == entry@);
        match entry.kind {
            EntryKind::Image(_) => {},
            EntryKind::Comment(kind) => match parse_comment(buffer, entry.position, kind) {
                Ok(comment) => {
                    proof {
                        use_type_invariant(&comment);
                    }
                    let ghost before = comments@;
                    comments.push(comment);
                    assert(comment_views(comments@) =~= comment_views(before).push(comment@));
                },
                Err(e) => {
                    proof {
                        lemma_comments_err_persists(buffer@, es, i + 1);
                    }
                    return Err(e);
                },
            },
        }
        i = i + 1;
    }
    assert(es.take(i as int) =~= es);
    Ok(comments)
}

/// Reading an error out of a prefix of the entries leaves it the answer for all of them.
proof fn lemma_images_err_persists(b: Seq<u8>, es: Seq<(EntryKind, u32)>, i: int)
    requires
        0 <= i <= es.len(),
        images_of(b, es.take(i)) is Err,
    ensures
        images_of(b, es) == images_of(b, es.take(i)),
    decreases es.len(),
{
    if i == es.len() {
        assert(es.take(i) =~= es);
    } else {
        assert(es.drop_last().take(i) =~= es.take(i));
        lemma_images_err_persists(b, es.drop_last(), i);
    }
}

/// Reading an error out of a prefix of the entries leaves it the answer for all of them.
proof fn lemma_comments_err_persists(b: Seq<u8>, es: Seq<(EntryKind, u32)>, i: int)
    requires
        0 <= i <= es.len(),
        comments_of(b, es.take(i)) is Err,
    ensures
        comments_of(b, es) == comments_of(b, es.take(i)),
    decreases es.len(),
{
    if i == es.len() {
        assert(es.take(i) =~= es);
    } else {
        assert(es.drop_last().take(i) =~= es.take(i));
        lemma_comments_err_persists(b, es.drop_last(), i);
    }
}

/// What a sequence of images holds.
pub open spec fn image_views(images: Seq<Image>) -> Seq<ImageView> {
    images.map_values(|im: Image| im@)
}

/// What a sequence of comments holds.
pub open spec fn comment_views(comments: Seq<Comment>) -> Seq<CommentView> {
    comments.map_values(|c: Comment| c@)
}

/// Appends the file header of a cursor with `count` chunks.
fn write_header(count: u32, out: &mut Vec<u8>)
    ensures
        final(out)@ == old(out)@ + file_header(count as nat),
{
    let ghost start = out@;
    out.push(0x58);
    out.push(0x63);
    out.push(0x75);
    out.push(0x72);
    write_u32_le(out, FILE_HEADER_SIZE);
    write_u32_le(out, FILE_VERSION);
    write_u32_le(out, count);
    assert(out@ =~= start + file_header(count as nat));
}

/// Number of bytes the chunks of `images` take.
fn image_chunks_len(images: &[Image]) -> (n: u64)
    requires
        images@.len() < 0x2000_0000,
        forall|i: int| 0 <= i < images@.len() ==> image_wf((#[trigger] images@[i])@),
    ensures
        n == image_chunks(image_views(images@)).len(),
        n <= images@.len() * 0x1_0000_0000,
{
    let ghost views = image_views(images@);
    let mut total: u64 = 0;
    let mut i: usize = 0;
    assert(image_chunks(views.take(0)) =~= Seq::<u8>::empty());
    while i < images.len()
        invariant
            views == image_views(images@),
            images@.len() < 0x2000_0000,
            forall|i: int| 0 <= i < images@.len() ==> image_wf((#[trigger] images@[i])@),
            i <= images@.len(),
            total == image_chunks(views.take(i as int)).len(),
            total <= i * 0x1_0000_0000,
        decreases images@.len() - i,
    {
        let image = &images[i];
        proof {
            assert(views[i as int] == image@);
            lemma_image_chunk_len(image@);
            assert(views.take(i + 1).drop_last() =~= views.take(i as int));
            assert(views.take(i + 1).last() == image@);
            let w = image@.width;
            let h = image@.height;
            assert(w * h <= 0x3FFF_0001) by (nonlinear_arith)
                requires
                    w <= 0x7FFF,
                    h <= 0x7FFF,
            ;
        }
        total = total + 36 + 4 * (image.argb().len() as u64);
        i = i + 1;
    }
    assert(views.take(i as int) =~= views);
    total
}

/// Number of bytes the chunks of `comments` take.
fn comment_chunks_len(comments: &[Comment]) -> (n: u64)
    requires
        comments@.len() < 0x2000_0000,
    ensures
        n == comment_chunks(comment_views(comments@)).len(),
        n <= comments@.len() * 0x2_0000_0000,
{
    let ghost views = comment_views(comments@);
    let mut total: u64 = 0;
    let mut j: usize = 0;
    assert(comment_chunks(views.take(0)) =~= Seq::<u8>::empty());
    while j < comments.len()
        invariant
            views == comment_views(comments@),
            comments@.len() < 0x2000_0000,
            j <= comments@.len(),
            total == comment_chunks(views.take(j as int)).len(),
            total <= j * 0x2_0000_0000,
        decreases comments@.len() - j,
    {
        let comment = &comments[j];
        proof {
            use_type_invariant(comment);
            assert(views[j as int] == comment@);
            assert(views.take(j + 1).drop_last() =~= views.take(j as int));
            assert(views.take(j + 1).last() == comment@);
        }
        total = total + 20 + comment.buffer().as_bytes().len() as u64;
        j = j + 1;
    }
    assert(views.take(j as int) =~= views);
    total
}

/// Appends the table-of-contents entries of `images`, whose chunks follow one another from
/// `base` on; returns the position right after the last of those chunks.
fn write_image_toc(images: &[Image], base: u32, out: &mut Vec<u8>) -> (end: u32)
    requires
        base + image_chunks(image_views(images@)).len() <= u32::MAX,
    ensures
        final(out)@ == old(out)@ + image_toc(image_views(images@), base as int),
        end == base + image_chunks(image_views(images@)).len(),
{
    let ghost views = image_views(images@);
    let ghost head = out@;
    let mut offset = base;
    let mut i: usize = 0;
    assert(image_toc(views.take(0), base as int) =~= Seq::<u8>::empty());
    assert(image_chunks(views.take(0)) =~= Seq::<u8>::empty());
    while i < images.len()
        invariant
            views == image_views(images@),
            i <= images@.len(),
            base + image_chunks(views).len() <= u32::MAX,
            offset == base + image_chunks(views.take(i as int)).len(),
            out@ == head + image_toc(views.take(i as int), base as int),
        decreases images@.len() - i,
    {
        let image = &images[i];
        proof {
            assert(views[i as int] == image@);
            lemma_image_chunk_len(image@);
            assert(views.take(i + 1).drop_last() =~= views.take(i as int));
            assert(views.take(i + 1).last() == image@);
            lemma_image_chunks_prefix_len(views, i + 1);
        }
        write_u32_le(out, Type::Image.to_u32());
        write_u32_le(out, image.width() as u32);
        write_u32_le(out, offset);
        assert(out@ =~= head + image_toc(views.take(i + 1), base as int));
        let image_size = 36 + 4 * (image.argb().len() as u32);
        offset = offset + image_size;
        i = i + 1;
    }
    assert(views.take(i as int) =~= views);
    offset
}

/// Appends the table-of-contents entries of `comments`, whose chunks follow one another from
/// `base` on.
fn write_comment_toc(comments: &[Comment], base: u32, out: &mut Vec<u8>)
    requires
        base + comment_chunks(comment_views(comments@)).len() <= u32::MAX,
    ensures
        final(out)@ == old(out)@ + comment_toc(comment_views(comments@), base as int),
{
    let ghost views = comment_views(comments@);
    let ghost head = out@;
    let mut offset = base;
    let mut j: usize = 0;
    assert(comment_toc(views.take(0), base as int) =~= Seq::<u8>::empty());
    assert(comment_chunks(views.take(0)) =~= Seq::<u8>::empty());
    while j < comments.len()
        invariant
            views == comment_views(comments@),
            j <= comments@.len(),
            base + comment_chunks(views).len() <= u32::MAX,
            offset == base + comment_chunks(views.take(j as int)).len(),
            out@ == head + comment_toc(views.take(j as int), base as int),
        decreases comments@.len() - j,
    {
        let comment = &comments[j];
        proof {
            assert(views[j as int] == comment@);
            assert(views.take(j + 1).drop_last() =~= views.take(j as int));
            assert(views.take(j + 1).last() == comment@);
            lemma_comment_chunks_prefix_len(views, j + 1);
        }
        write_u32_le(out, Type::Comment.to_u32());
        write_u32_le(out, comment.kind().to_u32());
        write_u32_le(out, offset);
        assert(out@ =~= head + comment_toc(views.take(j + 1), base as int));
        let comment_size = 20 + comment.buffer().as_bytes().len() as u32;
        offset = offset + comment_size;
        j = j + 1;
    }
    assert(views.take(j as int) =~= views);
}

/// Appends the chunks of `images`, one after the other.
fn write_image_chunks(images: &[Image], out: &mut Vec<u8>)
    requires
        forall|i: int| 0 <= i < images@.len() ==> image_wf((#[trigger] images@[i])@),
    ensures
        final(out)@ == old(out)@ + image_chunks(image_views(images@)),
{
    let ghost views = image_views(images@);
    let ghost head = out@;
    let mut i: usize = 0;
    assert(image_chunks(views.take(0)) =~= Seq::<u8>::empty());
    while i < images.len()
        invariant
            views == image_views(images@),
            forall|i: int| 0 <= i < images@.len() ==> image_wf((#[trigger] images@[i])@),
            i <= images@.len(),
            out@ == head + image_chunks(views.take(i as int)),
        decreases images@.len() - i,
    {
        let image = &images[i];
        proof {
            assert(views[i as int] == image@);
            assert(views.take(i + 1).drop_last() =~= views.take(i as int));
            assert(views.take(i + 1).last() == image@);
        }
        image.write(out);
        i = i + 1;
    }
    assert(views.take(i as int) =~= views);
}

/// Appends the chunks of `comments`, one after the other.
fn write_comment_chunks(comments: &[Comment], out: &mut Vec<u8>)
    ensures
        final(out)@ == old(out)@ + comment_chunks(comment_views(comments@)),
{
    let ghost views = comment_views(comments@);
    let ghost head = out@;
    let mut j: usize = 0;
    assert(comment_chunks(views.take(0)) =~= Seq::<u8>::empty());
    while j < comments.len()
        invariant
            views == comment_views(comments@),
            j <= comments@.len(),
            out@ == head + comment_chunks(views.take(j as int)),
        decreases comments@.len() - j,
    {
        let comment = &comments[j];
        proof {
            assert(views[j as int] == comment@);
            assert(views.take(j + 1).drop_last() =~= views.take(j as int));
            assert(views.take(j + 1).last() == comment@);
        }
        comment.write(out);
        j = j + 1;
    }
    assert(views.take(j as int) =~= views);
}

/// A cursor read from an Xcursor file: its images and its comments.
#[derive(Debug)]
pub struct Xcursor {
    images: Vec<Image>,
    comments: Vec<Comment>,
}

impl View for Xcursor {
    type V = XcursorView;

    closed spec fn view(&self) -> XcursorView {
        XcursorView {
            images: image_views(self.images@),
            comments: comment_views(self.comments@),
        }
    }
}

impl Xcursor {
    /// Every cursor holds only images and comments that a file can hold and give back.
    #[verifier::type_invariant]
    pub open spec fn well_formed(self) -> bool {
        cursor_wf(self@)
    }

    /// Every image of the cursor can be held by a file.
    proof fn lemma_images_wf(&self)
        requires
            cursor_wf(self@),
        ensures
            forall|i: int| 0 <= i < self.images@.len() ==> image_wf((#[trigger] self.images@[i])@),
    {
        assert forall|i: int| 0 <= i < self.images@.len() implies image_wf(
            (#[trigger] self.images@[i])@,
        ) by {
            assert(self@.images[i] == self.images@[i]@);
        }
    }

    /// Decode the data provided.
    ///
    /// # Errors
    ///
    /// This function returns an error if:
    ///
    /// - Data is malformed
    #[verifier::spinoff_prover]
    pub fn from_bytes(buffer: &[u8]) -> (r: Result<Self, ParseError>)
        ensures
            match r {
                Ok(x) => parse_file(buffer@) == Ok::<XcursorView, ParseError>(x@),
                Err(e) => parse_file(buffer@) == Err::<XcursorView, ParseError>(e),
            },
    {
        let mut parser = Parser::new(buffer);
        let entry_count = read_header(buffer, &mut parser)?;

        let remaining = buffer.len() - 16;
        let table_of_contents_size = 12 * (entry_count as u64);
        if table_of_contents_size > remaining as u64 {
            return Err(
                ParseError::NotEnoughBytes {
                    needed: saturating_usize(table_of_contents_size - remaining as u64),
                },
            );
        }
        let table_of_contents = parser.read_bytes(table_of_contents_size as usize)?;
        assert(table_of_contents@ =~= buffer@.subrange(16, 16 + table_of_contents_size));

        let (entries, _) = parse_table_of_contents(buffer, table_of_contents, entry_count);
        let ghost es = entries@.map_values(|e: Entry| e@);
        assert(parse_file(buffer@) == cursor_of(buffer@, es));
        let images = parse_images(buffer, &entries)?;
        let comments = parse_comments(buffer, &entries)?;
        Ok(Xcursor { images, comments })
    }

    /// The table-of-contents entries that reading `buffer` skips because their type, or the
    /// subtype of a comment entry, is unknown, in table order; none where the header or the
    /// table of contents cannot be read.
    pub fn skipped_entries(buffer: &[u8]) -> (skipped: Vec<SkippedEntry>)
        ensures
            skipped@ == if table_readable(buffer@) {
                skipped_entries_of(buffer@, card32_at(buffer@, 12) as nat)
            } else {
                Seq::empty()
            },
    {
        let mut parser = Parser::new(buffer);
        let entry_count = match read_header(buffer, &mut parser) {
            Ok(n) => n,
            Err(_) => return Vec::new(),
        };
        let remaining = buffer.len() - 16;
        let table_of_contents_size = 12 * (entry_count as u64);
        if table_of_contents_size > remaining as u64 {
            return Vec::new();
        }
        let table_of_contents = match parser.read_bytes(table_of_contents_size as usize) {
            Ok(bytes) => bytes,
            Err(_) => return Vec::new(),
        };
        assert(table_of_contents@ =~= buffer@.subrange(16, 16 + table_of_contents_size));
        let (_, skipped) = parse_table_of_contents(buffer, table_of_contents, entry_count);
        skipped
    }

    /// Number of bytes `write` produces, where it fits in a CARD32 (every chunk position
    /// must); `None` where it does not.
    #[verifier::spinoff_prover]
    pub fn encoded_len(&self) -> (n: Option<u32>)
        ensures
            match n {
                Some(n) => n == file_bytes(self@).len(),
                None => file_bytes(self@).len() > u32::MAX,
            },
    {
        proof {
            use_type_invariant(self);
            lemma_file_bytes_len(self@);
        }
        if self.images.len() >= 0x2000_0000 || self.comments.len() >= 0x2000_0000 {
            return None;
        }
        proof {
            self.lemma_images_wf();
        }
        let count = (self.images.len() + self.comments.len()) as u64;
        let total = 16 + 12 * count + image_chunks_len(self.images.as_slice()) + comment_chunks_len(
            self.comments.as_slice(),
        );
        if total > u32::MAX as u64 {
            None
        } else {
            Some(total as u32)
        }
    }

    /// Appends the whole file to `out`: header, table of contents, the image chunks, then the
    /// comment chunks.  Reading those bytes gives the cursor back.
    #[verifier::spinoff_prover]
    pub fn write(&self, out: &mut Vec<u8>)
        requires
            file_bytes(self@).len() <= u32::MAX,
        ensures
            final(out)@ == old(out)@ + file_bytes(self@),
            parse_file(file_bytes(self@)) == Ok::<XcursorView, ParseError>(self@),
    {
        proof {
            use_type_invariant(self);
            lemma_file_bytes_len(self@);
            lemma_write_then_read(self@);
            self.lemma_images_wf();
        }
        let ghost x = self@;
        let ghost start = out@;
        let count = self.images.len() + self.comments.len();
        let entry_count = count as u32;

        write_header(entry_count, out);

        // Start from the end of the Table of Contents.
        let chunks_start = 16 + 12 * entry_count;
        let comments_start = write_image_toc(self.images.as_slice(), chunks_start, out);
        write_comment_toc(self.comments.as_slice(), comments_start, out);

        // Write chunks in same order as Table of Contents (i.e., images first, then comments).
        write_image_chunks(self.images.as_slice(), out);
        write_comment_chunks(self.comments.as_slice(), out);
        proof {
            lemma_file_bytes_parts(x, start, out@);
        }
    }

    #[must_use]
    pub fn images(&self) -> (images: &[Image])
        ensures
            images@.map_values(|im: Image| im@) == self@.images,
    {
        self.images.as_slice()
    }

    #[must_use]
    pub fn comments(&self) -> (comments: &[Comment])
        ensures
            comments@.map_values(|c: Comment| c@) == self@.comments,
    {
        self.comments.as_slice()
    }
}

impl Clone for Xcursor {
    fn clone(&self) -> (c: Self)
        ensures
            c@ == self@,
    {
        proof {
            use_type_invariant(self);
            self.lemma_images_wf();
        }
        let ghost x = self@;
        let mut images: Vec<Image> = Vec::new();
        let mut i: usize = 0;
        while i < self.images.len()
            invariant
                x == self@,
                cursor_wf(x),
                i <= self.images@.len(),
                image_views(images@) == x.images.take(i as int),
            decreases self.images@.len() - i,
        {
            let ghost before = images@;
            images.push(self.images[i].clone());
            assert(image_views(images@) =~= image_views(before).push(self.images@[i as int]@));
            assert(x.images.take(i + 1) =~= x.images.take(i as int).push(x.images[i as int]));
            i = i + 1;
        }
        assert(x.images.take(i as int) =~= x.images);
        let mut comments: Vec<Comment> = Vec::new();
        let mut j: usize = 0;
        while j < self.comments.len()
            invariant
                x == self@,
                j <= self.comments@.len(),
                comment_views(comments@) == x.comments.take(j as int),
            decreases self.comments@.len() - j,
        {
            let ghost before = comments@;
            comments.push(self.comments[j].clone());
            assert(comment_views(comments@) =~= comment_views(before).push(self.comments@[j as int]@));
            assert(x.comments.take(j + 1) =~= x.comments.take(j as int).push(x.comments[j as int]));
            j = j + 1;
        }
        assert(x.comments.take(j as int) =~= x.comments);
        Xcursor { images, comments }
    }
}

impl<'a> TryFrom<&'a [u8]> for Xcursor {
    type Error = ParseError;

    /// Decodes the data provided, as `from_bytes` does.
    fn try_from(value: &'a [u8]) -> (r: Result<Self, Self::Error>)
        ensures
            match r {
                Ok(x) => parse_file(value@) == Ok::<XcursorView, ParseError>(x@),
                Err(e) => parse_file(value@) == Err::<XcursorView, ParseError>(e),
            },
    {
        Self::from_bytes(value)
    }
}

impl<'a> vstd::std_specs::convert::TryFromSpecImpl<&'a [u8]> for Xcursor {
    /// Calls through the trait make no claim; `try_from` itself states its result.
    open spec fn obeys_try_from_spec() -> bool {
        false
    }

    open spec fn try_from_spec(v: &'a [u8]) -> Result<Self, Self::Error> {
        arbitrary()
    }
}

} // verus!
