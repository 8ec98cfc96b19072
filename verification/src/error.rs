//! The errors that reading an Xcursor file can end in.
use vstd::prelude::*;
use vstd::string::StringExecFns;

verus! {

#[verifier::external_type_specification]
#[verifier::external_body]
pub struct ExIoError(std::io::Error);

/// An error occurred while parsing the data.
#[derive(Debug)]
pub enum ParseError {
    /// An I/O-related error, such as failure to read bytes from a file
    Io {
        /// The underlying failure that caused the error
        source: std::io::Error,
    },
    /// Data is not in the expected format
    InvalidSignature,
    /// Expected to read more bytes than were available
    NotEnoughBytes {
        /// Number of additional bytes expected
        needed: usize,
    },
    /// An image is larger than 32_767x32_767
    ImageSize,
    /// A hotspot lies outside of its image
    InvalidHotspot { image_size: u16, hotspot: u16 },
    /// A comment is longer than 4_294_967_295 bytes
    CommentLength,
}

/// The character of decimal digit `d`.
pub open spec fn digit(d: nat) -> char {
    (48 + d) as char
}

/// The decimal digits of `n`, most significant first, without leading zeros.
pub open spec fn decimal(n: nat) -> Seq<char>
    decreases n,
{
    if n < 10 {
        seq![digit(n)]
    } else {
        decimal(n / 10) + seq![digit(n % 10)]
    }
}

/// The number that decimal digits stand for.
pub open spec fn digits_value(s: Seq<char>) -> int
    decreases s.len(),
{
    if s.len() == 0 {
        0
    } else {
        digits_value(s.drop_last()) * 10 + (s.last() as int - 48)
    }
}

/// The decimal text of `n` is made of digits, starts with a non-zero digit unless `n` is
/// zero, and stands for `n`.
pub proof fn lemma_decimal_stands_for(n: nat)
    ensures
        forall|i: int| 0 <= i < decimal(n).len() ==> '0' <= #[trigger] decimal(n)[i] <= '9',
        decimal(n).len() > 0,
        n > 0 ==> decimal(n)[0] != '0',
        digits_value(decimal(n)) == n,
    decreases n,
{
    if n >= 10 {
        lemma_decimal_stands_for(n / 10);
        let s = decimal(n);
        assert(s.drop_last() =~= decimal(n / 10));
        assert((n / 10) * 10 + n % 10 == n) by (nonlinear_arith);
    } else {
        assert(digits_value(decimal(n).drop_last()) == 0);
    }
}

/// The text of a parse error.
pub open spec fn message(e: ParseError) -> Seq<char> {
    match e {
        ParseError::Io { .. } => "I/O error"@,
        ParseError::InvalidSignature => "invalid file signature (A.K.A. magic number)"@,
        ParseError::NotEnoughBytes { needed } => "not enough bytes (needed "@ + decimal(
            needed as nat,
        ) + " more bytes)"@,
        ParseError::ImageSize => "image larger than 32_767x32_767"@,
        ParseError::InvalidHotspot { image_size, hotspot } =>
            "hotspot must be less than or equal to image width ("@ + decimal(hotspot as nat)
                + " > "@ + decimal(image_size as nat) + ")"@,
        ParseError::CommentLength => "comment exceeds 4_294_967_295 characters"@,
    }
}

/// Formats `n` with `u64`'s `to_string`.  Trusted: the text is the decimal digits of `n`,
/// without sign, padding or leading zeros, as the documentation of integer `Display` says.
#[verifier::external_body]
fn decimal_string(n: u64) -> (s: String)
    ensures
        s@ == decimal(n as nat),
{
    n.to_string()
}

impl ParseError {
    /// The text of the error, as it is displayed.
    pub fn to_string(&self) -> (s: String)
        ensures
            s@ == message(*self),
    {
        match self {
            ParseError::Io { .. } => "I/O error".to_owned(),
            ParseError::InvalidSignature => "invalid file signature (A.K.A. magic number)".to_owned(),
            ParseError::NotEnoughBytes { needed } => {
                let mut s = "not enough bytes (needed ".to_owned();
                s.append(decimal_string(*needed as u64).as_str());
                s.append(" more bytes)");
                s
            },
            ParseError::ImageSize => "image larger than 32_767x32_767".to_owned(),
            ParseError::InvalidHotspot { image_size, hotspot } => {
                let mut s = "hotspot must be less than or equal to image width (".to_owned();
                s.append(decimal_string(*hotspot as u64).as_str());
                s.append(" > ");
                s.append(decimal_string(*image_size as u64).as_str());
                s.append(")");
                s
            },
            ParseError::CommentLength => "comment exceeds 4_294_967_295 characters".to_owned(),
        }
    }
}

/// `n` as a `usize`, or `usize::MAX` where it does not fit.
pub open spec fn saturate_usize(n: int) -> usize {
    if n <= usize::MAX {
        n as usize
    } else {
        usize::MAX
    }
}

/// `n` as a `usize`, or `usize::MAX` where it does not fit.
pub(crate) fn saturating_usize(n: u64) -> (r: usize)
    ensures
        r == saturate_usize(n as int),
{
    if n <= usize::MAX as u64 {
        n as usize
    } else {
        usize::MAX
    }
}

} // verus!
