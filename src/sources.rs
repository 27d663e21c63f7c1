//! Decoded source images, the four source slots, and the check that all
//! populated slots share one size.
use vstd::prelude::*;
use crate::format::{NativeEncoding, PixelFormat};
use crate::mask::SLOT_COUNT;

verus! {

/// A decoded source image: its size, its pixel layout and its raw bytes, row
/// by row.
#[derive(Debug)]
pub struct SourceImage {
    pub width: u32,
    pub height: u32,
    pub format: PixelFormat,
    pub data: Vec<u8>,
}

/// Why decoded bytes could not be taken as a source image.
#[derive(Clone, Copy, Debug, PartialEq, Eq, Structural)]
pub enum SourceError {
    /// The encoding's reported sizes do not describe a readable pixel.
    UnsupportedEncoding,
    /// The byte count is not width times height times the pixel size.
    LengthMismatch { expected: Option<usize>, actual: usize },
}

/// Number of pixels of a `width` by `height` image.
pub open spec fn pixel_count(width: u32, height: u32) -> nat {
    (width * height) as nat
}

impl SourceImage {
    /// The layout is readable and the bytes hold exactly every pixel.
    pub open spec fn wf(&self) -> bool {
        &&& self.format.wf()
        &&& self.data@.len() == pixel_count(self.width, self.height) * self.format.bytes_per_pixel
    }

    /// Takes decoded bytes with their size and native encoding.
    pub fn new(width: u32, height: u32, encoding: NativeEncoding, data: Vec<u8>) -> (r: Result<
        SourceImage,
        SourceError,
    >)
        ensures
            match PixelFormat::of_encoding(encoding) {
                None => r == Err::<SourceImage, _>(SourceError::UnsupportedEncoding),
                Some(f) => if data@.len() == pixel_count(width, height) * f.bytes_per_pixel {
                    r matches Ok(img) && img.width == width && img.height == height && img.format
                        == f && img.data@ == data@
                } else {
                    r matches Err(SourceError::LengthMismatch { .. })
                },
            },
            r matches Ok(img) ==> img.wf(),
    {
        let format = match PixelFormat::from_encoding(encoding) {
            Some(f) => f,
            None => return Err(SourceError::UnsupportedEncoding),
        };
        let actual = data.len();
        let expected = (width as usize).checked_mul(height as usize);
        let expected = match expected {
            Some(n) => n.checked_mul(format.bytes_per_pixel),
            None => None,
        };
        match expected {
            Some(n) => {
                if n == actual {
                    Ok(SourceImage { width, height, format, data })
                } else {
                    Err(SourceError::LengthMismatch { expected, actual })
                }
            },
            None => {
                proof {
                    assert(data@.len() != pixel_count(width, height) * format.bytes_per_pixel)
                        by (nonlinear_arith)
                        requires
                            data@.len() <= usize::MAX,
                            (width as int) * (height as int) > usize::MAX || (width as int)
                                * (height as int) * format.bytes_per_pixel > usize::MAX,
                            format.bytes_per_pixel >= 1;
                }
                Err(SourceError::LengthMismatch { expected, actual })
            },
        }
    }
}

/// Size of one populated slot, as a dimension error lists it.
#[derive(Clone, Copy, Debug, PartialEq, Eq, Structural)]
pub struct SlotSize {
    pub slot: usize,
    pub width: u32,
    pub height: u32,
}

/// The four source slots, each empty or holding one image.
#[derive(Debug)]
pub struct SourceSet {
    pub slots: Vec<Option<SourceImage>>,
}

/// Four slots, each empty or holding a well-formed image.
pub open spec fn slots_wf(slots: Seq<Option<SourceImage>>) -> bool {
    &&& slots.len() == SLOT_COUNT
    &&& forall|i: int| 0 <= i < slots.len() ==> (#[trigger] slots[i] matches Some(img) ==> img.wf())
}

/// The slots that hold an image, with their sizes, in slot order.
pub open spec fn size_list(slots: Seq<Option<SourceImage>>) -> Seq<SlotSize>
    decreases slots.len(),
{
    if slots.len() == 0 {
        Seq::empty()
    } else {
        let rest = size_list(slots.drop_last());
        match slots.last() {
            Some(img) => rest.push(
                SlotSize { slot: (slots.len() - 1) as usize, width: img.width, height: img.height },
            ),
            None => rest,
        }
    }
}

/// Every populated slot has size `width` by `height`.
pub open spec fn all_sized(slots: Seq<Option<SourceImage>>, width: u32, height: u32) -> bool {
    forall|i: int|
        0 <= i < slots.len() ==> (#[trigger] slots[i] matches Some(img) ==> img.width == width
            && img.height == height)
}

/// Some slot is populated.
pub open spec fn any_populated(slots: Seq<Option<SourceImage>>) -> bool {
    exists|i: int| 0 <= i < slots.len() && #[trigger] slots[i] is Some
}

/// Outcome of checking the sizes of the populated slots.
#[derive(Debug, PartialEq, Eq)]
pub enum SizeCheck {
    /// Every populated slot has this size.
    Uniform { width: u32, height: u32 },
    /// No slot is populated.
    Empty,
    /// The populated slots differ in size; all of them are listed.
    Mismatched { sizes: Vec<SlotSize> },
}

impl SourceSet {
    pub open spec fn wf(&self) -> bool {
        slots_wf(self.slots@)
    }

    /// Four empty slots.
    pub fn new() -> (r: SourceSet)
        ensures
            r.wf(),
            forall|i: int| 0 <= i < SLOT_COUNT ==> #[trigger] r.slots@[i] is None,
    {
        SourceSet { slots: vec![None, None, None, None] }
    }

    /// Places `img` in `slot`, replacing what was there.
    pub fn insert(&mut self, slot: usize, img: SourceImage)
        requires
            old(self).wf(),
            slot < SLOT_COUNT,
            img.wf(),
        ensures
            final(self).wf(),
            final(self).slots@ == old(self).slots@.update(slot as int, Some(img)),
    {
        self.slots.set(slot, Some(img));
    }

    /// Checks that all populated slots share one size: the first populated
    /// slot's size is the reference, and any other size lists every populated
    /// slot with its size.
    pub fn check_sizes(&self) -> (r: SizeCheck)
        requires
            self.wf(),
        ensures
            match r {
                SizeCheck::Uniform { width, height } => any_populated(self.slots@) && all_sized(
                    self.slots@,
                    width,
                    height,
                ),
                SizeCheck::Empty => !any_populated(self.slots@),
                SizeCheck::Mismatched { sizes } => {
                    &&& any_populated(self.slots@)
                    &&& forall|w: u32, h: u32| !all_sized(self.slots@, w, h)
                    &&& sizes@ == size_list(self.slots@)
                },
            },
    {
        let mut reference: Option<(u32, u32)> = None;
        let mut uniform = true;
        let mut sizes: Vec<SlotSize> = Vec::new();
        let mut i: usize = 0;
        while i < SLOT_COUNT
            invariant
                self.wf(),
                i <= SLOT_COUNT,
                sizes@ == size_list(self.slots@.subrange(0, i as int)),
                reference is None ==> uniform,
                reference is None ==> forall|j: int| 0 <= j < i ==> #[trigger] self.slots@[j] is None,
                reference is Some ==> exists|j: int| 0 <= j < i && #[trigger] self.slots@[j] is Some,
                reference matches Some((w, h)) ==> exists|j: int|
                    0 <= j < i && (#[trigger] self.slots@[j] matches Some(img) && img.width == w
                        && img.height == h),
                reference matches Some((w, h)) ==> (uniform <==> all_sized(
                    self.slots@.subrange(0, i as int),
                    w,
                    h,
                )),
            decreases SLOT_COUNT - i,
        {
            let ghost prefix = self.slots@.subrange(0, i as int);
            let ghost next = self.slots@.subrange(0, i + 1);
            proof {
                assert(next.drop_last() =~= prefix);
            }
            match &self.slots[i] {
                Some(img) => {
                    proof {
                        assert(next[i as int] == self.slots@[i as int]);
                        assert(self.slots@[i as int] == Some(*img));
                    }
                    sizes.push(SlotSize { slot: i, width: img.width, height: img.height });
                    match reference {
                        None => {
                            reference = Some((img.width, img.height));
                            proof {
                                assert(self.slots@[i as int] is Some);
                            }
                        },
                        Some((w, h)) => {
                            if img.width != w || img.height != h {
                                uniform = false;
                                proof {
                                    assert(next[i as int] == self.slots@[i as int]);
                                    assert(!all_sized(next, w, h));
                                }
                            }
                        },
                    }
                },
                None => {},
            }
            proof {
                match reference {
                    Some((w, h)) => {
                        if uniform {
                            assert(next[i as int] matches Some(img) ==> img.width == w && img.height == h);
                            assert forall|j: int| 0 <= j < i + 1 implies (#[trigger] next[j] matches Some(
                                img,
                            ) ==> img.width == w && img.height == h) by {
                                assert(next[j] == self.slots@[j]);
                                if j < i {
                                    assert(prefix[j] == self.slots@[j]);
                                }
                            }
                        } else {
                            if !all_sized(prefix, w, h) {
                                let j = choose|j: int| 0 <= j < prefix.len() && !(#[trigger] prefix[j] matches Some(
                                    img,
                                ) ==> img.width == w && img.height == h);
                                assert(next[j] == prefix[j]);
                            } else {
                                assert(next[i as int] == self.slots@[i as int]);
                            }
                        }
                    },
                    None => {
                        assert(self.slots@[i as int] is None);
                        assert forall|j: int| 0 <= j < i + 1 implies #[trigger] self.slots@[j] is None by {
                            if j < i {
                            }
                        }
                    },
                }
            }
            i = i + 1;
        }
        proof {
            assert(self.slots@.subrange(0, SLOT_COUNT as int) =~= self.slots@);
        }
        match reference {
            None => SizeCheck::Empty,
            Some((w, h)) => {
                if uniform {
                    SizeCheck::Uniform { width: w, height: h }
                } else {
                    proof {
                        assert forall|w2: u32, h2: u32| !all_sized(self.slots@, w2, h2) by {
                            if all_sized(self.slots@, w2, h2) {
                                let j = choose|j: int|
                                    0 <= j < SLOT_COUNT && (#[trigger] self.slots@[j] matches Some(
                                        img,
                                    ) && img.width == w && img.height == h);
                                assert(w2 == w && h2 == h);
                            }
                        }
                    }
                    SizeCheck::Mismatched { sizes }
                }
            },
        }
    }
}

} // verus!
