//! Image chunks: a cursor image of ARGB pixels with its hotspot and delay.
use vstd::prelude::*;

use crate::card32::{card32_at, le32, read_u32_le, write_u32_le};
use crate::delay::{delay_of_millis, millis_of, Delay};
use crate::error::{saturate_usize, saturating_usize, ParseError};
use crate::{Entry, Type};

verus! {

/// Size in bytes of the header of an image chunk.
pub const IMAGE_HEADER_SIZE: u32 = 36;

/// Version written into the header of an image chunk.
pub const IMAGE_VERSION: u32 = 1;

/// Largest width and height of an image.
pub const MAX_IMAGE_SIDE: u32 = 0x7FFF;

/// What an image holds.
#[verifier::ext_equal]
pub struct ImageView {
    pub width: u16,
    pub height: u16,
    pub hotspot_x: u16,
    pub hotspot_y: u16,
    /// Delay before the next frame of an animated cursor: seconds and nanoseconds.
    pub delay: (u64, u32),
    pub argb: Seq<u32>,
}

/// The limits on an image's dimensions and hotspot.
pub open spec fn image_fields_valid(width: u16, height: u16, hotspot_x: u16, hotspot_y: u16) -> bool {
    &&& width <= MAX_IMAGE_SIDE
    &&& height <= MAX_IMAGE_SIDE
    &&& hotspot_x <= width
    &&& hotspot_y <= height
}

/// The delay as it is stored in a chunk: whole milliseconds, `u32::MAX` where they do not fit.
pub open spec fn delay_field(delay: (u64, u32)) -> u32 {
    if millis_of(delay) <= u32::MAX {
        millis_of(delay) as u32
    } else {
        u32::MAX
    }
}

/// `n` as a `u16`, or `u16::MAX` where it does not fit.
pub open spec fn saturate_u16(n: u32) -> u16 {
    if n <= u16::MAX {
        n as u16
    } else {
        u16::MAX
    }
}

/// The little-endian bytes of a sequence of pixels.
pub open spec fn pixel_bytes(argb: Seq<u32>) -> Seq<u8>
    decreases argb.len(),
{
    if argb.len() == 0 {
        Seq::empty()
    } else {
        pixel_bytes(argb.drop_last()) + le32(argb.last())
    }
}

/// The nominal size written as subtype: the larger of width and height.
pub open spec fn nominal_size(width: u16, height: u16) -> u32 {
    if width >= height {
        width as u32
    } else {
        height as u32
    }
}

/// The bytes of the image chunk that holds `im`.
pub open spec fn image_chunk(im: ImageView) -> Seq<u8> {
    le32(IMAGE_HEADER_SIZE) + le32(Type::Image.spec_to_u32()) + le32(
        nominal_size(im.width, im.height),
    ) + le32(IMAGE_VERSION) + le32(im.width as u32) + le32(im.height as u32) + le32(
        im.hotspot_x as u32,
    ) + le32(im.hotspot_y as u32) + le32(delay_field(im.delay)) + pixel_bytes(im.argb)
}

/// The pixels stored after an image header at `pos`: `count` CARD32s.
pub open spec fn pixels_at(b: Seq<u8>, pos: int, count: nat) -> Seq<u32> {
    Seq::new(count, |i: int| card32_at(b, pos + IMAGE_HEADER_SIZE + 4 * i))
}

/// What reading the image chunk that starts at `pos` of the file `b` gives.
pub open spec fn image_at(b: Seq<u8>, pos: int) -> Result<ImageView, ParseError> {
    if pos + IMAGE_HEADER_SIZE > b.len() {
        Err(ParseError::NotEnoughBytes { needed: saturate_usize(pos + IMAGE_HEADER_SIZE - b.len()) })
    } else {
        let width = card32_at(b, pos + 16);
        let height = card32_at(b, pos + 20);
        let hotspot_x = card32_at(b, pos + 24);
        let hotspot_y = card32_at(b, pos + 28);
        let delay = card32_at(b, pos + 32);
        if width > MAX_IMAGE_SIDE || height > MAX_IMAGE_SIDE {
            Err(ParseError::ImageSize)
        } else if hotspot_x > width {
            Err(ParseError::InvalidHotspot { image_size: width as u16, hotspot: saturate_u16(hotspot_x) })
        } else if hotspot_y > height {
            Err(ParseError::InvalidHotspot { image_size: height as u16, hotspot: saturate_u16(hotspot_y) })
        } else {
            let count = width * height;
            let end = pos + IMAGE_HEADER_SIZE + 4 * count;
            if end > b.len() {
                Err(ParseError::NotEnoughBytes { needed: saturate_usize(end - b.len()) })
            } else {
                Ok(
                    ImageView {
                        width: width as u16,
                        height: height as u16,
                        hotspot_x: hotspot_x as u16,
                        hotspot_y: hotspot_y as u16,
                        delay: delay_of_millis(delay as u64),
                        argb: pixels_at(b, pos, count as nat),
                    },
                )
            }
        }
    }
}

/// A cursor image.
#[derive(Debug)]
pub struct Image {
    width: u16,
    height: u16,
    hotspot_x: u16,
    hotspot_y: u16,
    delay: Delay,
    argb: Vec<u32>,
}

impl View for Image {
    type V = ImageView;

    closed spec fn view(&self) -> ImageView {
        ImageView {
            width: self.width,
            height: self.height,
            hotspot_x: self.hotspot_x,
            hotspot_y: self.hotspot_y,
            delay: self.delay@,
            argb: self.argb@,
        }
    }
}

impl Clone for Image {
    fn clone(&self) -> (im: Self)
        ensures
            im@ == self@,
    {
        proof {
            use_type_invariant(self);
        }
        Image {
            width: self.width,
            height: self.height,
            hotspot_x: self.hotspot_x,
            hotspot_y: self.hotspot_y,
            delay: self.delay,
            argb: self.argb.clone(),
        }
    }
}

impl Image {
    /// Every image's dimensions and hotspot lie within the limits.
    #[verifier::type_invariant]
    pub open spec fn fields_valid(self) -> bool {
        image_fields_valid(self@.width, self@.height, self@.hotspot_x, self@.hotspot_y)
    }

    /// Builds an image.
    ///
    /// # Errors
    ///
    /// `ImageSize` where a side is larger than 32_767, else `InvalidHotspot` where the hotspot
    /// lies to the right of the width or below the height.
    pub fn new(
        width: u16,
        height: u16,
        hotspot_x: u16,
        hotspot_y: u16,
        delay: Delay,
        argb: Vec<u32>,
    ) -> (r: Result<Self, ParseError>)
        ensures
            image_fields_valid(width, height, hotspot_x, hotspot_y) ==> (r matches Ok(im) && im@
                == ImageView { width, height, hotspot_x, hotspot_y, delay: delay@, argb: argb@ }),
            (width > MAX_IMAGE_SIDE || height > MAX_IMAGE_SIDE) ==> r matches Err(
                ParseError::ImageSize,
            ),
            (width <= MAX_IMAGE_SIDE && height <= MAX_IMAGE_SIDE && hotspot_x > width) ==> (r matches Err(
                ParseError::InvalidHotspot { image_size, hotspot },
            ) && image_size == width && hotspot == hotspot_x),
            (width <= MAX_IMAGE_SIDE && height <= MAX_IMAGE_SIDE && hotspot_x <= width && hotspot_y
                > height) ==> (r matches Err(ParseError::InvalidHotspot { image_size, hotspot })
                && image_size == height && hotspot == hotspot_y),
    {
        if width > 0x7FFF || height > 0x7FFF {
            return Err(ParseError::ImageSize);
        }
        if hotspot_x > width {
            return Err(ParseError::InvalidHotspot { image_size: width, hotspot: hotspot_x });
        }
        if hotspot_y > height {
            return Err(ParseError::InvalidHotspot { image_size: height, hotspot: hotspot_y });
        }
        Ok(Self { width, height, hotspot_x, hotspot_y, delay, argb })
    }

    /// Reads the image chunk that `entry` points at in the whole file `buffer`.
    #[verifier::spinoff_prover]
    pub(crate) fn from_chunk(buffer: &[u8], entry: &Entry) -> (r: Result<Self, ParseError>)
        ensures
            match r {
                Ok(im) => image_at(buffer@, entry.spec_position() as int) == Ok::<
                    ImageView,
                    ParseError,
                >(im@),
                Err(e) => image_at(buffer@, entry.spec_position() as int) == Err::<
                    ImageView,
                    ParseError,
                >(e),
            },
    {
        let position = entry.position as u64;
        let len = buffer.len() as u64;
        if position + 36 > len {
            return Err(ParseError::NotEnoughBytes { needed: saturating_usize(position + 36 - len) });
        }
        let start = entry.position as usize;
        let width = read_u32_le(buffer, start + 16);
        let height = read_u32_le(buffer, start + 20);
        let hotspot_x = read_u32_le(buffer, start + 24);
        let hotspot_y = read_u32_le(buffer, start + 28);
        let delay = read_u32_le(buffer, start + 32);

        if width > 0x7FFF || height > 0x7FFF {
            return Err(ParseError::ImageSize);
        }
        if hotspot_x > width {
            return Err(
                ParseError::InvalidHotspot { image_size: width as u16, hotspot: saturating_u16(hotspot_x) },
            );
        }
        if hotspot_y > height {
            return Err(
                ParseError::InvalidHotspot {
                    image_size: height as u16,
                    hotspot: saturating_u16(hotspot_y),
                },
            );
        }

        assert(width * height <= 0x3FFF_0001) by (nonlinear_arith)
            requires
                width <= 0x7FFF,
                height <= 0x7FFF,
        ;
        let count = width * height;
        let end = position + 36 + 4 * (count as u64);
        if end > len {
            return Err(ParseError::NotEnoughBytes { needed: saturating_usize(end - len) });
        }
        let pixels_start = start + 36;
        let mut argb: Vec<u32> = Vec::new();
        let mut i: usize = 0;
        while i < count as usize
            invariant
                pixels_start == entry.spec_position() + 36,
                pixels_start + 4 * count <= buffer.len(),
                buffer.len() == buffer@.len(),
                i <= count,
                argb@ == pixels_at(buffer@, entry.spec_position() as int, i as nat),
            decreases count - i,
        {
            argb.push(read_u32_le(buffer, pixels_start + 4 * i));
            i = i + 1;
            assert(argb@ =~= pixels_at(buffer@, entry.spec_position() as int, i as nat));
        }

        Ok(
            Self {
                width: width as u16,
                height: height as u16,
                hotspot_x: hotspot_x as u16,
                hotspot_y: hotspot_y as u16,
                delay: Delay::from_millis(delay as u64),
                argb,
            },
        )
    }

    /// Appends the image chunk to `out`.
    #[verifier::spinoff_prover]
    pub fn write(&self, out: &mut Vec<u8>)
        requires
            self@.argb.len() == self@.width * self@.height,
        ensures
            final(out)@ == old(out)@ + image_chunk(self@),
    {
        proof {
            use_type_invariant(self);
        }
        let width = self.width as u32;
        let height = self.height as u32;
        let hotspot_x = self.hotspot_x as u32;
        let hotspot_y = self.hotspot_y as u32;

        // Nominal size subtype -- usually width/height for square cursors.
        let subtype = if width >= height {
            width
        } else {
            height
        };

        let millis = self.delay.as_millis();
        let delay = if millis <= u32::MAX as u128 {
            millis as u32
        } else {
            u32::MAX
        };

        let ghost start = out@;
        write_u32_le(out, IMAGE_HEADER_SIZE);
        write_u32_le(out, Type::Image.to_u32());
        write_u32_le(out, subtype);
        write_u32_le(out, IMAGE_VERSION);
        write_u32_le(out, width);
        write_u32_le(out, height);
        write_u32_le(out, hotspot_x);
        write_u32_le(out, hotspot_y);
        write_u32_le(out, delay);
        let ghost head = out@;
        let mut i: usize = 0;
        while i < self.argb.len()
            invariant
                i <= self.argb@.len(),
                out@ == head + pixel_bytes(self.argb@.take(i as int)),
            decreases self.argb@.len() - i,
        {
            let ghost before = out@;
            write_u32_le(out, self.argb[i]);
            assert(self.argb@.take(i + 1).drop_last() =~= self.argb@.take(i as int));
            i = i + 1;
            assert(out@ =~= head + pixel_bytes(self.argb@.take(i as int)));
        }
        assert(self.argb@.take(i as int) =~= self.argb@);
        assert(out@ =~= start + image_chunk(self@));
    }

    #[must_use]
    pub fn width(&self) -> (w: u16)
        ensures
            w == self@.width,
    {
        self.width
    }

    #[must_use]
    pub fn height(&self) -> (h: u16)
        ensures
            h == self@.height,
    {
        self.height
    }

    #[must_use]
    pub fn hotspot_x(&self) -> (x: u16)
        ensures
            x == self@.hotspot_x,
    {
        self.hotspot_x
    }

    #[must_use]
    pub fn hotspot_y(&self) -> (y: u16)
        ensures
            y == self@.hotspot_y,
    {
        self.hotspot_y
    }

    #[must_use]
    pub fn delay(&self) -> (d: &Delay)
        ensures
            d@ == self@.delay,
    {
        &self.delay
    }

    #[must_use]
    pub fn argb(&self) -> (p: &[u32])
        ensures
            p@ == self@.argb,
    {
        self.argb.as_slice()
    }
}

/// `n` as a `u16`, or `u16::MAX` where it does not fit.
fn saturating_u16(n: u32) -> (r: u16)
    ensures
        r == saturate_u16(n),
{
    if n <= u16::MAX as u32 {
        n as u16
    } else {
        u16::MAX
    }
}

} // verus!
