//! Pixel encodings of source images and the narrowing of one stored element
//! to an 8-bit channel value.
use vstd::prelude::*;

verus! {

/// How one channel element of a source pixel is stored.
#[derive(Clone, Copy, Debug, PartialEq, Eq, Structural)]
pub enum ElementType {
    Uint8,
    Uint16,
    Float32,
}

/// Size in bytes of one element.
pub open spec fn element_size(e: ElementType) -> nat {
    match e {
        ElementType::Uint8 => 1,
        ElementType::Uint16 => 2,
        ElementType::Float32 => 4,
    }
}

/// Narrowing of a 32-bit float, given by its bit pattern, to a byte: the
/// value is truncated toward zero and saturated into 0..=255; NaN gives 0.
/// This is the numeric `as u8` conversion of a float.
pub open spec fn f32_bits_to_u8(bits: u32) -> u8 {
    let negative = (bits >> 31u32) == 1u32;
    let exponent = (bits >> 23u32) & 0xffu32;
    let mantissa = bits & 0x7fffffu32;
    if exponent == 0xffu32 {
        if mantissa == 0u32 && !negative { 255u8 } else { 0u8 }
    } else if negative || exponent < 127u32 {
        0u8
    } else if exponent >= 135u32 {
        255u8
    } else {
        ((mantissa | 0x800000u32) >> ((150u32 - exponent) as u32)) as u8
    }
}

/// Little-endian 32-bit word of `data` at byte offset `off`.
pub open spec fn le_u32(data: Seq<u8>, off: int) -> u32 {
    (data[off] as int + data[off + 1] as int * 0x100 + data[off + 2] as int * 0x10000
        + data[off + 3] as int * 0x1000000) as u32
}

/// Narrows a float element, given by its bit pattern, to a byte: truncation
/// toward zero, saturated into 0..=255, NaN to 0.
pub fn narrow_f32_bits(bits: u32) -> (r: u8)
    ensures
        r == f32_bits_to_u8(bits),
{
    let negative = (bits >> 31u32) == 1u32;
    let exponent = (bits >> 23u32) & 0xffu32;
    let mantissa = bits & 0x7fffffu32;
    if exponent == 0xffu32 {
        if mantissa == 0u32 && !negative { 255u8 } else { 0u8 }
    } else if negative || exponent < 127u32 {
        0u8
    } else if exponent >= 135u32 {
        255u8
    } else {
        ((mantissa | 0x800000u32) >> (150u32 - exponent)) as u8
    }
}


/// The native encoding that a decoder reports for an image.
#[derive(Clone, Copy, Debug, PartialEq, Eq, Structural)]
pub enum NativeEncoding {
    L8,
    La8,
    Rgb8,
    Rgba8,
    L16,
    La16,
    Rgb16,
    Rgba16,
    Rgb32F,
    Rgba32F,
    /// Any other encoding, read as 8-bit elements with the sizes the decoder reports.
    Other { bytes_per_pixel: u8, channel_count: u8 },
}

/// Layout of one source pixel.
#[derive(Clone, Copy, Debug, PartialEq, Eq, Structural)]
pub struct PixelFormat {
    pub element: ElementType,
    pub bytes_per_pixel: usize,
    pub channel_count: usize,
}

impl PixelFormat {
    /// One to four channels, all of which fit inside a pixel.
    pub open spec fn wf(self) -> bool {
        &&& 1 <= self.channel_count <= 4
        &&& self.channel_count * element_size(self.element) <= self.bytes_per_pixel
        &&& self.bytes_per_pixel <= 255
    }

    /// Byte offset of element `ch` of pixel `p`.
    pub open spec fn offset(self, p: nat, ch: nat) -> nat {
        (p * self.bytes_per_pixel + ch * element_size(self.element)) as nat
    }

    /// Channel actually read when channel `ch` is asked for: out-of-range
    /// channels are clamped to the last one.
    pub open spec fn clamp_channel(self, ch: nat) -> nat {
        if ch < self.channel_count { ch } else { (self.channel_count - 1) as nat }
    }

    pub open spec fn mk(el: ElementType, bpp: usize, cc: usize) -> Option<PixelFormat> {
        Some(PixelFormat { element: el, bytes_per_pixel: bpp, channel_count: cc })
    }

    /// The format that a native encoding maps to, if its sizes are usable.
    pub open spec fn of_encoding(e: NativeEncoding) -> Option<PixelFormat> {
        match e {
            NativeEncoding::L8 => PixelFormat::mk(ElementType::Uint8, 1, 1),
            NativeEncoding::La8 => PixelFormat::mk(ElementType::Uint8, 2, 2),
            NativeEncoding::Rgb8 => PixelFormat::mk(ElementType::Uint8, 3, 3),
            NativeEncoding::Rgba8 => PixelFormat::mk(ElementType::Uint8, 4, 4),
            NativeEncoding::L16 => PixelFormat::mk(ElementType::Uint16, 2, 1),
            NativeEncoding::La16 => PixelFormat::mk(ElementType::Uint16, 4, 2),
            NativeEncoding::Rgb16 => PixelFormat::mk(ElementType::Uint16, 6, 3),
            NativeEncoding::Rgba16 => PixelFormat::mk(ElementType::Uint16, 8, 4),
            NativeEncoding::Rgb32F => PixelFormat::mk(ElementType::Float32, 12, 3),
            NativeEncoding::Rgba32F => PixelFormat::mk(ElementType::Float32, 16, 4),
            NativeEncoding::Other { bytes_per_pixel, channel_count } => {
                if 1 <= channel_count <= 4 && channel_count <= bytes_per_pixel {
                    PixelFormat::mk(ElementType::Uint8, bytes_per_pixel as usize, channel_count as usize)
                } else {
                    None
                }
            },
        }
    }

    /// Derives the pixel layout from a decoder's native encoding; `None` for
    /// an unknown encoding whose reported sizes cannot be read.
    pub fn from_encoding(e: NativeEncoding) -> (r: Option<PixelFormat>)
        ensures
            r == PixelFormat::of_encoding(e),
            r matches Some(f) ==> f.wf(),
    {
        let (el, bpp, cc): (ElementType, usize, usize) = match e {
            NativeEncoding::L8 => (ElementType::Uint8, 1, 1),
            NativeEncoding::La8 => (ElementType::Uint8, 2, 2),
            NativeEncoding::Rgb8 => (ElementType::Uint8, 3, 3),
            NativeEncoding::Rgba8 => (ElementType::Uint8, 4, 4),
            NativeEncoding::L16 => (ElementType::Uint16, 2, 1),
            NativeEncoding::La16 => (ElementType::Uint16, 4, 2),
            NativeEncoding::Rgb16 => (ElementType::Uint16, 6, 3),
            NativeEncoding::Rgba16 => (ElementType::Uint16, 8, 4),
            NativeEncoding::Rgb32F => (ElementType::Float32, 12, 3),
            NativeEncoding::Rgba32F => (ElementType::Float32, 16, 4),
            NativeEncoding::Other { bytes_per_pixel, channel_count } => {
                if 1 <= channel_count && channel_count <= 4 && channel_count <= bytes_per_pixel {
                    assert(channel_count as usize * element_size(ElementType::Uint8)
                        <= bytes_per_pixel as usize);
                    (ElementType::Uint8, bytes_per_pixel as usize, channel_count as usize)
                } else {
                    return None;
                }
            },
        };
        Some(PixelFormat { element: el, bytes_per_pixel: bpp, channel_count: cc })
    }
}

/// The byte that channel `ch` of pixel `p` narrows to. 8-bit elements are
/// taken as they are; 16-bit elements keep their low byte; float elements are
/// truncated toward zero and saturated. Multi-byte elements are little-endian.
pub open spec fn element_value(data: Seq<u8>, f: PixelFormat, p: nat, ch: nat) -> u8 {
    let off = f.offset(p, ch) as int;
    match f.element {
        ElementType::Float32 => f32_bits_to_u8(le_u32(data, off)),
        _ => data[off],
    }
}

/// Every element of channel `ch` of pixel `p` lies inside a pixel.
pub proof fn lemma_offset_in_pixel(f: PixelFormat, p: nat, ch: nat)
    requires
        f.wf(),
        ch < f.channel_count,
    ensures
        p * f.bytes_per_pixel <= f.offset(p, ch),
        f.offset(p, ch) + element_size(f.element) <= (p + 1) * f.bytes_per_pixel,
{
    let es = element_size(f.element);
    assert((ch + 1) * es <= f.channel_count * es) by (nonlinear_arith)
        requires ch + 1 <= f.channel_count;
    assert((p + 1) * f.bytes_per_pixel == p * f.bytes_per_pixel + f.bytes_per_pixel)
        by (nonlinear_arith);
    assert((ch + 1) * es == ch * es + es) by (nonlinear_arith);
}

/// Reads channel `ch` of pixel `p` from raw source bytes and narrows it to a
/// byte, as `element_value` states.
pub fn read_element(data: &[u8], f: PixelFormat, p: usize, ch: usize) -> (r: u8)
    requires
        f.wf(),
        ch < f.channel_count,
        (p + 1) * f.bytes_per_pixel <= data@.len(),
    ensures
        r == element_value(data@, f, p as nat, ch as nat),
{
    let len: usize = data.len();
    proof {
        lemma_offset_in_pixel(f, p as nat, ch as nat);
    }
    let es: usize = match f.element {
        ElementType::Uint8 => 1,
        ElementType::Uint16 => 2,
        ElementType::Float32 => 4,
    };
    assert(es == element_size(f.element));
    assert(p * f.bytes_per_pixel + ch * es == f.offset(p as nat, ch as nat));
    let off: usize = p * f.bytes_per_pixel + ch * es;
    match f.element {
        ElementType::Float32 => {
            let bits: u32 = data[off] as u32 + data[off + 1] as u32 * 0x100u32
                + data[off + 2] as u32 * 0x10000u32 + data[off + 3] as u32 * 0x1000000u32;
            narrow_f32_bits(bits)
        },
        _ => data[off],
    }
}

} // verus!
