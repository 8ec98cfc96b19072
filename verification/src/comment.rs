//! Comment chunks: a kind and a text.
use vstd::prelude::*;
use vstd::utf8::{decode_utf8, encode_utf8, valid_utf8};

use crate::card32::{le32, write_u32_le};
use crate::error::ParseError;
use crate::Type;

verus! {

/// Size in bytes of the header of a comment chunk.
pub const COMMENT_HEADER_SIZE: u32 = 20;

/// Version written into the header of a comment chunk.
pub const COMMENT_VERSION: u32 = 1;

/// Represents the different subtypes of a comment chunk.
#[derive(Debug, Clone, Copy, PartialEq, Eq, Structural)]
pub enum CommentKind {
    Copyright,
    License,
    Other,
}

impl CommentKind {
    /// The subtype number that stands for the kind in a file.
    pub open spec fn spec_to_u32(self) -> u32 {
        match self {
            CommentKind::Copyright => 1,
            CommentKind::License => 2,
            CommentKind::Other => 3,
        }
    }

    /// The kind that a subtype number stands for; the number itself where it stands for none.
    pub open spec fn spec_from_u32(value: u32) -> Result<CommentKind, u32> {
        if value == 1 {
            Ok(CommentKind::Copyright)
        } else if value == 2 {
            Ok(CommentKind::License)
        } else if value == 3 {
            Ok(CommentKind::Other)
        } else {
            Err(value)
        }
    }

    /// The subtype number that stands for the kind in a file.
    #[verifier::when_used_as_spec(spec_to_u32)]
    pub fn to_u32(self) -> (n: u32)
        ensures
            n == self.spec_to_u32(),
    {
        match self {
            CommentKind::Copyright => 1,
            CommentKind::License => 2,
            CommentKind::Other => 3,
        }
    }

    /// The name of the kind, as it is displayed.
    pub fn to_string(&self) -> (s: String)
        ensures
            s@ == match *self {
                CommentKind::Copyright => "Copyright"@,
                CommentKind::License => "License"@,
                CommentKind::Other => "Other"@,
            },
    {
        match *self {
            CommentKind::Copyright => "Copyright".to_owned(),
            CommentKind::License => "License".to_owned(),
            CommentKind::Other => "Other".to_owned(),
        }
    }
}

impl TryFrom<u32> for CommentKind {
    type Error = u32;

    fn try_from(value: u32) -> (r: Result<Self, Self::Error>) {
        match value {
            1 => Ok(Self::Copyright),
            2 => Ok(Self::License),
            3 => Ok(Self::Other),
            n => Err(n),
        }
    }
}

impl vstd::std_specs::convert::TryFromSpecImpl<u32> for CommentKind {
    open spec fn obeys_try_from_spec() -> bool {
        true
    }

    open spec fn try_from_spec(v: u32) -> Result<Self, Self::Error> {
        CommentKind::spec_from_u32(v)
    }
}

/// What a comment holds: its kind and its text.
#[verifier::ext_equal]
pub struct CommentView {
    pub kind: CommentKind,
    pub text: Seq<char>,
}

/// Whether a text fits in a comment chunk: its UTF-8 encoding has at most `u32::MAX` bytes.
pub open spec fn text_fits(text: Seq<char>) -> bool {
    encode_utf8(text).len() <= u32::MAX
}

/// The bytes of the comment chunk that holds `c`.
pub open spec fn comment_chunk(c: CommentView) -> Seq<u8> {
    let bytes = encode_utf8(c.text);
    le32(COMMENT_HEADER_SIZE) + le32(Type::Comment.spec_to_u32()) + le32(c.kind.spec_to_u32())
        + le32(COMMENT_VERSION) + le32(bytes.len() as u32) + bytes
}

/// A comment: a kind and a text whose UTF-8 encoding fits in a chunk.
#[derive(Debug)]
pub struct Comment {
    kind: CommentKind,
    buffer: String,
}

impl View for Comment {
    type V = CommentView;

    closed spec fn view(&self) -> CommentView {
        CommentView { kind: self.kind, text: self.buffer@ }
    }
}

impl Comment {
    /// Every comment's text fits in a chunk.
    #[verifier::type_invariant]
    pub open spec fn text_fits_chunk(self) -> bool {
        text_fits(self@.text)
    }

    /// Builds a comment of the given kind and text.
    ///
    /// # Errors
    ///
    /// Returns `CommentLength` exactly where the UTF-8 encoding of the text is longer than
    /// `u32::MAX` bytes.
    pub fn new(kind: CommentKind, buffer: String) -> (r: Result<Self, ParseError>)
        ensures
            text_fits(buffer@) ==> (r matches Ok(c) && c@ == CommentView {
                kind,
                text: buffer@,
            }),
            !text_fits(buffer@) ==> r matches Err(ParseError::CommentLength),
    {
        let max_buffer_length = u32::MAX as usize;
        if buffer.as_str().as_bytes().len() > max_buffer_length {
            return Err(ParseError::CommentLength);
        }
        Ok(Self { kind, buffer })
    }

    /// Appends the comment chunk to `out`.
    pub fn write(&self, out: &mut Vec<u8>)
        ensures
            final(out)@ == old(out)@ + comment_chunk(self@),
    {
        proof {
            use_type_invariant(self);
        }
        let bytes = self.buffer.as_str().as_bytes();
        let buffer_length = bytes.len() as u32;
        let ghost start = out@;
        write_u32_le(out, COMMENT_HEADER_SIZE);
        write_u32_le(out, Type::Comment.to_u32());
        write_u32_le(out, self.kind.to_u32());
        write_u32_le(out, COMMENT_VERSION);
        write_u32_le(out, buffer_length);
        let ghost head = out@;
        let mut i: usize = 0;
        while i < bytes.len()
            invariant
                i <= bytes@.len(),
                out@ == head + bytes@.take(i as int),
            decreases bytes@.len() - i,
        {
            out.push(bytes[i]);
            i = i + 1;
            assert(out@ =~= head + bytes@.take(i as int));
        }
        assert(bytes@.take(i as int) =~= bytes@);
        assert(out@ =~= start + comment_chunk(self@));
    }

    #[must_use]
    pub fn kind(&self) -> (k: CommentKind)
        ensures
            k == self@.kind,
    {
        self.kind
    }

    #[must_use]
    pub fn buffer(&self) -> (s: &str)
        ensures
            s@ == self@.text,
    {
        self.buffer.as_str()
    }
}

impl Clone for Comment {
    fn clone(&self) -> (c: Self)
        ensures
            c@ == self@,
    {
        proof {
            use_type_invariant(self);
        }
        Comment { kind: self.kind, buffer: self.buffer.clone() }
    }
}

/// The text that `String::from_utf8_lossy` makes of `bytes`.
pub uninterp spec fn lossy_utf8(bytes: Seq<u8>) -> Seq<char>;

/// Decodes `bytes` as UTF-8 with `String::from_utf8_lossy`, which puts U+FFFD in place of
/// each invalid sequence.  Trusted: the result is `lossy_utf8` of the bytes, and where the
/// bytes are valid UTF-8 it is their decoding, as the function's documentation says.  Each
/// invalid sequence (at least one byte) becomes one U+FFFD (three bytes) and valid text is
/// kept, so the result's UTF-8 encoding is at most three times as long as the bytes.
#[verifier::external_body]
pub(crate) fn utf8_lossy(bytes: &[u8]) -> (s: String)
    ensures
        s@ == lossy_utf8(bytes@),
        valid_utf8(bytes@) ==> s@ == decode_utf8(bytes@),
        encode_utf8(s@).len() <= 3 * bytes@.len(),
{
    String::from_utf8_lossy(bytes).into_owned()
}

} // verus!
