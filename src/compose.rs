//! The compositor: builds the 8-bit RGBA canvas from a channel plan and the
//! source slots.
use vstd::prelude::*;
use crate::format::{PixelFormat, element_value, read_element};
use crate::mask::{
    ChannelPlan, OutputChannelSpec, SLOT_COUNT, first_invalid, lemma_first_invalid,
    lemma_first_invalid_at,
};
use crate::sources::{
    SizeCheck, SlotSize, SourceImage, SourceSet, all_sized, any_populated, pixel_count, size_list,
};

verus! {

/// An output channel that reads a channel its source does not have; the last
/// channel of the source is read instead.
#[derive(Clone, Copy, Debug, PartialEq, Eq, Structural)]
pub struct ClampWarning {
    /// Output channel concerned.
    pub position: usize,
    /// Source slot it reads.
    pub slot: usize,
    /// Channel the plan asked for.
    pub requested: usize,
    /// Number of channels the source has.
    pub channel_count: usize,
}

/// Why composition did not produce a canvas.
#[derive(Debug, PartialEq, Eq)]
pub enum PackError {
    /// Output channel `position` reads slot `slot`, which holds no image.
    MissingSource { slot: usize, position: usize },
    /// No slot holds an image, so the canvas has no size.
    NoSources,
    /// The populated slots differ in size; every one of them is listed.
    MismatchedDimensions { sizes: Vec<SlotSize> },
    /// The canvas would not fit in memory's address range.
    CanvasTooLarge { width: u32, height: u32 },
}

/// The composed image: `pixels` holds `width * height` RGBA quadruplets, row
/// by row.
#[derive(Debug)]
pub struct Canvas {
    pub width: u32,
    pub height: u32,
    pub pixels: Vec<u8>,
    pub warnings: Vec<ClampWarning>,
}

/// An output channel spec whose source, if any, is populated.
pub open spec fn present(slots: Seq<Option<SourceImage>>) -> spec_fn(OutputChannelSpec) -> bool {
    |s: OutputChannelSpec|
        s matches OutputChannelSpec::FromSource { slot, .. } ==> slots[slot as int] is Some
}

/// Value a channel takes before any source is copied: its constant for a
/// fill, and for channels past the plan's end 0, or 255 for alpha.
pub open spec fn init_byte(plan: Seq<OutputChannelSpec>, c: int) -> u8 {
    if c < plan.len() && plan[c] is Fill {
        plan[c]->Fill_0
    } else if c == 3 && c >= plan.len() {
        255u8
    } else {
        0u8
    }
}

/// Channel `c` of output pixel `p`.
pub open spec fn out_byte(
    plan: Seq<OutputChannelSpec>,
    slots: Seq<Option<SourceImage>>,
    p: int,
    c: int,
) -> u8 {
    if c < plan.len() {
        match plan[c] {
            OutputChannelSpec::Fill(v) => v,
            OutputChannelSpec::FromSource { slot, channel } => {
                let img = slots[slot as int]->Some_0;
                element_value(img.data@, img.format, p as nat, img.format.clamp_channel(channel as nat))
            },
        }
    } else if c == 3 {
        255u8
    } else {
        0u8
    }
}

/// The whole canvas of `n` pixels, four bytes each.
pub open spec fn canvas_bytes(
    plan: Seq<OutputChannelSpec>,
    slots: Seq<Option<SourceImage>>,
    n: nat,
) -> Seq<u8> {
    Seq::new(4 * n, |i: int| out_byte(plan, slots, i / 4, i % 4))
}

/// Warning for output channel `c`, if it reads a channel its source lacks.
pub open spec fn clamp_at(
    plan: Seq<OutputChannelSpec>,
    slots: Seq<Option<SourceImage>>,
    c: int,
) -> Seq<ClampWarning> {
    match plan[c] {
        OutputChannelSpec::FromSource { slot, channel } => {
            let count = slots[slot as int]->Some_0.format.channel_count;
            if channel >= count {
                seq![ClampWarning { position: c as usize, slot, requested: channel, channel_count: count }]
            } else {
                Seq::empty()
            }
        },
        OutputChannelSpec::Fill(_) => Seq::empty(),
    }
}

/// Warnings for the first `k` output channels, in output order.
pub open spec fn warnings_upto(
    plan: Seq<OutputChannelSpec>,
    slots: Seq<Option<SourceImage>>,
    k: nat,
) -> Seq<ClampWarning>
    decreases k,
{
    if k == 0 {
        Seq::empty()
    } else {
        warnings_upto(plan, slots, (k - 1) as nat) + clamp_at(plan, slots, k - 1)
    }
}

/// The size that every populated slot shares, when they do share one.
pub open spec fn common_size(slots: Seq<Option<SourceImage>>) -> (u32, u32) {
    let i = choose|i: int| 0 <= i < slots.len() && #[trigger] slots[i] is Some;
    (slots[i]->Some_0.width, slots[i]->Some_0.height)
}

/// When the populated slots share a size, `common_size` is that size.
pub proof fn lemma_common_size(slots: Seq<Option<SourceImage>>)
    requires
        any_populated(slots),
        !(forall|w: u32, h: u32| !all_sized(slots, w, h)),
    ensures
        all_sized(slots, common_size(slots).0, common_size(slots).1),
{
    let (w, h) = choose|w: u32, h: u32| all_sized(slots, w, h);
    let i = choose|i: int| 0 <= i < slots.len() && #[trigger] slots[i] is Some;
    assert(slots[i] matches Some(img) ==> img.width == w && img.height == h);
}

/// Copies channel `channel` of each of the first `pixels` source pixels,
/// narrowed to a byte, into channel `out_channel` of the matching RGBA
/// quadruplet of `dest`; every other byte of `dest` is left as it was.
/// Disjoint pixel ranges can be copied independently, one call per range.
pub fn copy_channel(
    src: &[u8],
    format: PixelFormat,
    channel: usize,
    dest: &mut [u8],
    out_channel: usize,
    pixels: usize,
)
    requires
        format.wf(),
        channel < format.channel_count,
        out_channel < 4,
        pixels * format.bytes_per_pixel <= src@.len(),
        old(dest)@.len() == 4 * pixels,
    ensures
        final(dest)@.len() == old(dest)@.len(),
        forall|i: int|
            0 <= i < 4 * pixels ==> #[trigger] final(dest)@[i] == if i % 4 == out_channel {
                element_value(src@, format, (i / 4) as nat, channel as nat)
            } else {
                old(dest)@[i]
            },
{
    let ghost before = dest@;
    let dlen: usize = dest.len();
    let mut p: usize = 0;
    while p < pixels
        invariant
            format.wf(),
            channel < format.channel_count,
            out_channel < 4,
            pixels * format.bytes_per_pixel <= src@.len(),
            before.len() == 4 * pixels,
            dlen == 4 * pixels,
            dest@.len() == before.len(),
            p <= pixels,
            forall|i: int|
                0 <= i < 4 * pixels ==> #[trigger] dest@[i] == if i % 4 == out_channel && i / 4 < p {
                    element_value(src@, format, (i / 4) as nat, channel as nat)
                } else {
                    before[i]
                },
        decreases pixels - p,
    {
        proof {
            assert((p + 1) * format.bytes_per_pixel <= pixels * format.bytes_per_pixel)
                by (nonlinear_arith)
                requires
                    p + 1 <= pixels,
            ;
        }
        let v = read_element(src, format, p, channel);
        let j: usize = 4 * p + out_channel;
        dest[j] = v;
        p = p + 1;
    }
}

/// A canvas of `n` pixels holding the plan's constants: fill channels carry
/// their value, source channels 0, and channels past the plan 0 or, for alpha,
/// 255.
pub fn init_canvas(plan: &ChannelPlan, n: usize) -> (r: Vec<u8>)
    requires
        plan.wf(),
        4 * n <= usize::MAX,
    ensures
        r@.len() == 4 * n,
        forall|i: int| 0 <= i < 4 * n ==> #[trigger] r@[i] == init_byte(plan@, i % 4),
{
    let len = plan.channels.len();
    let mut quad: Vec<u8> = Vec::new();
    let mut c: usize = 0;
    while c < 4
        invariant
            plan.wf(),
            len == plan@.len(),
            c <= 4,
            quad@.len() == c,
            forall|j: int| 0 <= j < c ==> #[trigger] quad@[j] == init_byte(plan@, j),
        decreases 4 - c,
    {
        let v: u8 = if c < len {
            match plan.channels[c] {
                OutputChannelSpec::Fill(v) => v,
                OutputChannelSpec::FromSource { .. } => 0,
            }
        } else if c == 3 {
            255
        } else {
            0
        };
        quad.push(v);
        c = c + 1;
    }
    let mut out: Vec<u8> = Vec::with_capacity(4 * n);
    let mut i: usize = 0;
    while i < 4 * n
        invariant
            4 * n <= usize::MAX,
            quad@.len() == 4,
            forall|j: int| 0 <= j < 4 ==> #[trigger] quad@[j] == init_byte(plan@, j),
            i <= 4 * n,
            out@.len() == i,
            forall|j: int| 0 <= j < i ==> #[trigger] out@[j] == init_byte(plan@, j % 4),
        decreases 4 * n - i,
    {
        out.push(quad[i % 4]);
        i = i + 1;
    }
    out
}


/// The first output channel, if any, that reads an empty slot.
pub fn find_missing(plan: &ChannelPlan, sources: &SourceSet) -> (r: Option<usize>)
    requires
        plan.wf(),
        sources.wf(),
    ensures
        r == (match first_invalid(plan@, present(sources.slots@)) {
            Some(k) => Some(k as usize),
            None => None,
        }),
{
    let n = plan.channels.len();
    let mut k: usize = 0;
    while k < n
        invariant
            plan.wf(),
            sources.wf(),
            n == plan@.len(),
            k <= n,
            forall|j: int| 0 <= j < k ==> #[trigger] present(sources.slots@)(plan@[j]),
        decreases n - k,
    {
        match plan.channels[k] {
            OutputChannelSpec::FromSource { slot, .. } => {
                if sources.slots[slot].is_none() {
                    proof {
                        lemma_first_invalid_at(plan@, present(sources.slots@), k as nat);
                    }
                    return Some(k);
                }
            },
            OutputChannelSpec::Fill(_) => {},
        }
        k = k + 1;
    }
    proof {
        lemma_first_invalid(plan@, present(sources.slots@));
    }
    None
}

/// One warning per output channel that reads past its source's channels, in
/// output order.
pub fn clamp_warnings(plan: &ChannelPlan, sources: &SourceSet) -> (r: Vec<ClampWarning>)
    requires
        plan.wf(),
        sources.wf(),
        first_invalid(plan@, present(sources.slots@)) is None,
    ensures
        r@ == warnings_upto(plan@, sources.slots@, plan@.len()),
{
    proof {
        lemma_first_invalid(plan@, present(sources.slots@));
    }
    let n = plan.channels.len();
    let mut out: Vec<ClampWarning> = Vec::new();
    let mut k: usize = 0;
    while k < n
        invariant
            plan.wf(),
            sources.wf(),
            n == plan@.len(),
            k <= n,
            forall|j: int| 0 <= j < n ==> #[trigger] present(sources.slots@)(plan@[j]),
            out@ == warnings_upto(plan@, sources.slots@, k as nat),
        decreases n - k,
    {
        proof {
            assert(present(sources.slots@)(plan@[k as int]));
        }
        match plan.channels[k] {
            OutputChannelSpec::FromSource { slot, channel } => {
                match &sources.slots[slot] {
                    Some(img) => {
                        let count = img.format.channel_count;
                        if channel >= count {
                            out.push(
                                ClampWarning { position: k, slot, requested: channel, channel_count: count },
                            );
                        }
                    },
                    None => {},
                }
            },
            OutputChannelSpec::Fill(_) => {},
        }
        proof {
            assert(out@ =~= warnings_upto(plan@, sources.slots@, (k + 1) as nat));
        }
        k = k + 1;
    }
    out
}

/// The copy that fills one output channel from a source: channel `channel`
/// (already clamped) of the image in slot `slot` goes to `out_channel`.
#[derive(Clone, Copy, Debug, PartialEq, Eq, Structural)]
pub struct CopyJob {
    pub slot: usize,
    pub channel: usize,
    pub out_channel: usize,
}

/// The copy job for output channel `c`, if it reads a source.
pub open spec fn job_at(
    plan: Seq<OutputChannelSpec>,
    slots: Seq<Option<SourceImage>>,
    c: int,
) -> Option<CopyJob> {
    match plan[c] {
        OutputChannelSpec::FromSource { slot, channel } => Some(
            CopyJob {
                slot,
                channel: slots[slot as int]->Some_0.format.clamp_channel(channel as nat) as usize,
                out_channel: c as usize,
            },
        ),
        OutputChannelSpec::Fill(_) => None,
    }
}

/// Everything composition needs once the inputs are checked: the canvas size,
/// the canvas with its constants in place, one entry per output channel of the
/// plan (the copy that fills it, or none for a constant), and the warnings.
#[derive(Debug)]
pub struct Prepared {
    pub width: u32,
    pub height: u32,
    pub pixels: Vec<u8>,
    pub jobs: Vec<Option<CopyJob>>,
    pub warnings: Vec<ClampWarning>,
}

/// What the checks yield, in order: a channel that reads an empty slot, no
/// populated slot at all, differing sizes, a canvas too large to address; or
/// success, which `ok` describes for the common size.
pub open spec fn checked_post<T>(
    plan: Seq<OutputChannelSpec>,
    slots: Seq<Option<SourceImage>>,
    r: Result<T, PackError>,
    ok: spec_fn(T, u32, u32) -> bool,
) -> bool {
    match first_invalid(plan, present(slots)) {
        Some(k) => r == Err::<T, _>(
            PackError::MissingSource { slot: plan[k as int]->slot, position: k as usize },
        ),
        None => if !any_populated(slots) {
            r == Err::<T, _>(PackError::NoSources)
        } else if forall|w: u32, h: u32| !all_sized(slots, w, h) {
            r matches Err(PackError::MismatchedDimensions { sizes }) && sizes@ == size_list(slots)
        } else {
            let (w, h) = common_size(slots);
            if 4 * pixel_count(w, h) > usize::MAX {
                r == Err::<T, _>(PackError::CanvasTooLarge { width: w, height: h })
            } else {
                r matches Ok(v) && ok(v, w, h)
            }
        },
    }
}

/// A prepared composition for the common size `w` by `h`.
pub open spec fn prepared_ok(
    plan: Seq<OutputChannelSpec>,
    slots: Seq<Option<SourceImage>>,
) -> spec_fn(Prepared, u32, u32) -> bool {
    |prep: Prepared, w: u32, h: u32|
        {
            &&& prep.width == w
            &&& prep.height == h
            &&& prep.pixels@.len() == 4 * pixel_count(w, h)
            &&& forall|i: int|
                0 <= i < 4 * pixel_count(w, h) ==> #[trigger] prep.pixels@[i] == init_byte(plan, i % 4)
            &&& prep.jobs@.len() == plan.len()
            &&& forall|c: int| 0 <= c < plan.len() ==> #[trigger] prep.jobs@[c] == job_at(plan, slots, c)
            &&& prep.warnings@ == warnings_upto(plan, slots, plan.len())
        }
}

/// A finished canvas for the common size `w` by `h`.
pub open spec fn canvas_ok(
    plan: Seq<OutputChannelSpec>,
    slots: Seq<Option<SourceImage>>,
) -> spec_fn(Canvas, u32, u32) -> bool {
    |canvas: Canvas, w: u32, h: u32|
        {
            &&& canvas.width == w
            &&& canvas.height == h
            &&& canvas.pixels@ == canvas_bytes(plan, slots, pixel_count(w, h))
            &&& canvas.warnings@ == warnings_upto(plan, slots, plan.len())
        }
}

/// What composing `plan` over `slots` yields: the checks of `checked_post`,
/// then a canvas of the common size whose bytes are `canvas_bytes`, with one
/// warning per clamped channel.
pub open spec fn compose_post(
    plan: Seq<OutputChannelSpec>,
    slots: Seq<Option<SourceImage>>,
    r: Result<Canvas, PackError>,
) -> bool {
    checked_post(plan, slots, r, canvas_ok(plan, slots))
}

/// One entry per output channel: the copy that fills it, if it reads a source.
pub fn copy_jobs(plan: &ChannelPlan, sources: &SourceSet) -> (r: Vec<Option<CopyJob>>)
    requires
        plan.wf(),
        sources.wf(),
        first_invalid(plan@, present(sources.slots@)) is None,
    ensures
        r@.len() == plan@.len(),
        forall|c: int| 0 <= c < plan@.len() ==> #[trigger] r@[c] == job_at(plan@, sources.slots@, c),
{
    proof {
        lemma_first_invalid(plan@, present(sources.slots@));
    }
    let n = plan.channels.len();
    let mut out: Vec<Option<CopyJob>> = Vec::new();
    let mut c: usize = 0;
    while c < n
        invariant
            plan.wf(),
            sources.wf(),
            n == plan@.len(),
            c <= n,
            forall|j: int| 0 <= j < n ==> #[trigger] present(sources.slots@)(plan@[j]),
            out@.len() == c,
            forall|j: int| 0 <= j < c ==> #[trigger] out@[j] == job_at(plan@, sources.slots@, j),
        decreases n - c,
    {
        proof {
            assert(present(sources.slots@)(plan@[c as int]));
        }
        let job = match plan.channels[c] {
            OutputChannelSpec::FromSource { slot, channel } => match &sources.slots[slot] {
                Some(img) => {
                    let count = img.format.channel_count;
                    let ch = if channel < count {
                        channel
                    } else {
                        count - 1
                    };
                    Some(CopyJob { slot, channel: ch, out_channel: c })
                },
                None => None,
            },
            OutputChannelSpec::Fill(_) => None,
        };
        out.push(job);
        c = c + 1;
    }
    out
}

/// Checks the inputs and sets up composition: finds every referenced source,
/// checks that the populated slots share one size, places the constants and
/// lists the copy of each source channel, clamping a requested channel past a
/// source's last one to that last channel.
pub fn prepare(plan: &ChannelPlan, sources: &SourceSet) -> (r: Result<Prepared, PackError>)
    requires
        plan.wf(),
        sources.wf(),
    ensures
        checked_post(plan@, sources.slots@, r, prepared_ok(plan@, sources.slots@)),
{
    match find_missing(plan, sources) {
        Some(k) => {
            proof {
                lemma_first_invalid(plan@, present(sources.slots@));
            }
            let slot = match plan.channels[k] {
                OutputChannelSpec::FromSource { slot, .. } => slot,
                OutputChannelSpec::Fill(_) => 0,
            };
            return Err(PackError::MissingSource { slot, position: k });
        },
        None => {},
    }
    let (width, height) = match sources.check_sizes() {
        SizeCheck::Empty => return Err(PackError::NoSources),
        SizeCheck::Mismatched { sizes } => return Err(PackError::MismatchedDimensions { sizes }),
        SizeCheck::Uniform { width, height } => (width, height),
    };
    proof {
        let i = choose|i: int| 0 <= i < sources.slots@.len() && #[trigger] sources.slots@[i] is Some;
        assert(sources.slots@[i] matches Some(img) ==> img.width == width && img.height == height);
        assert(common_size(sources.slots@) == (width, height));
    }
    let n: usize = match (width as usize).checked_mul(height as usize) {
        Some(n) => n,
        None => {
            proof {
                assert(4 * pixel_count(width, height) > usize::MAX) by (nonlinear_arith)
                    requires
                        (width as int) * (height as int) > usize::MAX,
                ;
            }
            return Err(PackError::CanvasTooLarge { width, height });
        },
    };
    if n > usize::MAX / 4 {
        return Err(PackError::CanvasTooLarge { width, height });
    }
    let pixels = init_canvas(plan, n);
    let jobs = copy_jobs(plan, sources);
    let warnings = clamp_warnings(plan, sources);
    let prep = Prepared { width, height, pixels, jobs, warnings };
    proof {
        assert(prepared_ok(plan@, sources.slots@)(prep, width, height));
    }
    Ok(prep)
}

/// Builds the canvas: the checks and set-up of `prepare`, then each listed
/// copy over the whole canvas. The result is exactly what `compose_post`
/// states.
pub fn compose(plan: &ChannelPlan, sources: &SourceSet) -> (r: Result<Canvas, PackError>)
    requires
        plan.wf(),
        sources.wf(),
    ensures
        compose_post(plan@, sources.slots@, r),
{
    let prep = match prepare(plan, sources) {
        Ok(prep) => prep,
        Err(e) => return Err(e),
    };
    proof {
        lemma_first_invalid(plan@, present(sources.slots@));
    }
    let Prepared { width, height, mut pixels, jobs, warnings } = prep;
    proof {
        lemma_common_size(sources.slots@);
    }
    let ghost n = pixel_count(width, height);
    let len = jobs.len();
    let mut c: usize = 0;
    while c < len
        invariant
            plan.wf(),
            sources.wf(),
            len == plan@.len(),
            jobs@.len() == len,
            forall|j: int| 0 <= j < len ==> #[trigger] jobs@[j] == job_at(plan@, sources.slots@, j),
            c <= len,
            n == pixel_count(width, height),
            4 * n <= usize::MAX,
            all_sized(sources.slots@, width, height),
            forall|j: int| 0 <= j < len ==> #[trigger] present(sources.slots@)(plan@[j]),
            pixels@.len() == 4 * n,
            forall|i: int|
                0 <= i < 4 * n ==> #[trigger] pixels@[i] == if i % 4 < c {
                    out_byte(plan@, sources.slots@, i / 4, i % 4)
                } else {
                    init_byte(plan@, i % 4)
                },
        decreases len - c,
    {
        proof {
            assert(present(sources.slots@)(plan@[c as int]));
            assert(jobs@[c as int] == job_at(plan@, sources.slots@, c as int));
        }
        match jobs[c] {
            Some(job) => {
                match &sources.slots[job.slot] {
                    Some(img) => {
                        proof {
                            assert(sources.slots@[job.slot as int] == Some(*img));
                            assert(img.width == width && img.height == height);
                            assert(img.wf());
                        }
                        let count: usize = pixels.len() / 4;
                        copy_channel(
                            img.data.as_slice(),
                            img.format,
                            job.channel,
                            pixels.as_mut_slice(),
                            c,
                            count,
                        );
                    },
                    None => {},
                }
            },
            None => {},
        }
        c = c + 1;
    }
    proof {
        assert forall|i: int| 0 <= i < 4 * n implies #[trigger] pixels@[i] == out_byte(
            plan@,
            sources.slots@,
            i / 4,
            i % 4,
        ) by {
            if i % 4 >= len {
                assert(out_byte(plan@, sources.slots@, i / 4, i % 4) == init_byte(plan@, i % 4));
            }
        }
        assert(pixels@ =~= canvas_bytes(plan@, sources.slots@, n));
    }
    let canvas = Canvas { width, height, pixels, warnings };
    proof {
        assert(canvas_ok(plan@, sources.slots@)(canvas, width, height));
    }
    Ok(canvas)
}

} // verus!
