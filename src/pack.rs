//! The whole packing step, from mask strings and source slots to a canvas,
//! and the properties that it has.
use vstd::prelude::*;
use crate::compose::{
    Canvas, ClampWarning, PackError, canvas_ok, checked_post, clamp_at, compose, compose_post,
    out_byte, warnings_upto,
};
use crate::format::element_value;
use crate::mask::{
    MaskError, OutputChannelSpec, first_invalid, lemma_first_invalid, parse_masks, parse_spec,
    plan_wf, select_ok, swizzle_ok, valid_select_char,
};
use crate::sources::{SourceImage, SourceSet, slots_wf};

verus! {

/// Why packing failed: the masks were rejected, or composition was.
#[derive(Debug, PartialEq, Eq)]
pub enum Failure {
    Mask(MaskError),
    Compose(PackError),
}

/// Parses the masks, then composes the canvas from the sources. A mask error
/// comes before any check of the sources.
pub fn pack(swizzle: &str, select: &str, sources: &SourceSet) -> (r: Result<Canvas, Failure>)
    requires
        sources.wf(),
    ensures
        match parse_spec(swizzle@, select@) {
            Err(e) => r == Err::<Canvas, _>(Failure::Mask(e)),
            Ok(plan) => match r {
                Ok(canvas) => compose_post(plan, sources.slots@, Ok(canvas)),
                Err(Failure::Compose(e)) => compose_post(plan, sources.slots@, Err(e)),
                Err(Failure::Mask(_)) => false,
            },
        },
{
    let plan = match parse_masks(swizzle, select) {
        Ok(plan) => plan,
        Err(e) => return Err(Failure::Mask(e)),
    };
    match compose(&plan, sources) {
        Ok(canvas) => Ok(canvas),
        Err(e) => Err(Failure::Compose(e)),
    }
}

/// A mask whose characters are all accepted parses to one entry per
/// character.
proof fn lemma_parse_valid(swizzle: Seq<char>, select: Seq<char>)
    requires
        2 <= swizzle.len() <= 4,
        forall|i: int| 0 <= i < swizzle.len() ==> #[trigger] swizzle_ok()(swizzle[i]),
        forall|i: int| 0 <= i < select.len() ==> #[trigger] select_ok()(select[i]),
    ensures
        parse_spec(swizzle, select) matches Ok(plan) && plan.len() == swizzle.len(),
{
    lemma_first_invalid(swizzle, swizzle_ok());
    lemma_first_invalid(select, select_ok());
}

/// With swizzle `0123` and select `rrrr`, output channel `c` of every pixel is
/// the first (red) channel of source `c` at that pixel, narrowed to a byte.
pub proof fn identity_swizzle_reads_red(slots: Seq<Option<SourceImage>>, p: int, c: int)
    requires
        slots_wf(slots),
        forall|s: int| 0 <= s < 4 ==> #[trigger] slots[s] is Some,
        0 <= c < 4,
    ensures
        parse_spec(seq!['0', '1', '2', '3'], seq!['r', 'r', 'r', 'r']) matches Ok(plan)
            && out_byte(plan, slots, p, c) == element_value(
            slots[c]->Some_0.data@,
            slots[c]->Some_0.format,
            p as nat,
            0,
        ),
{
    let sw = seq!['0', '1', '2', '3'];
    let sel = seq!['r', 'r', 'r', 'r'];
    lemma_parse_valid(sw, sel);
    assert(slots[c] is Some);
    assert(slots[c]->Some_0.wf());
}

/// With swizzle `bbbw`, every pixel is opaque black, whatever the sources.
pub proof fn black_swizzle_fills_opaque_black(
    select: Seq<char>,
    slots: Seq<Option<SourceImage>>,
    p: int,
    c: int,
)
    requires
        forall|i: int| 0 <= i < select.len() ==> valid_select_char(#[trigger] select[i]),
        0 <= c < 4,
    ensures
        parse_spec(seq!['b', 'b', 'b', 'w'], select) matches Ok(plan) && out_byte(plan, slots, p, c)
            == if c == 3 {
            255u8
        } else {
            0u8
        },
{
    let sw = seq!['b', 'b', 'b', 'w'];
    assert forall|i: int| 0 <= i < select.len() implies #[trigger] select_ok()(select[i]) by {
        assert(valid_select_char(select[i]));
    }
    lemma_parse_valid(sw, select);
}

/// The warnings of the first `k` channels include the one of channel `c`
/// below `k`.
proof fn lemma_warnings_include(
    plan: Seq<OutputChannelSpec>,
    slots: Seq<Option<SourceImage>>,
    k: nat,
    c: int,
)
    requires
        0 <= c < k <= plan.len(),
    ensures
        forall|j: int|
            0 <= j < clamp_at(plan, slots, c).len() ==> warnings_upto(plan, slots, k).contains(
                #[trigger] clamp_at(plan, slots, c)[j],
            ),
    decreases k,
{
    let prev = warnings_upto(plan, slots, (k - 1) as nat);
    let last = clamp_at(plan, slots, k - 1);
    assert(warnings_upto(plan, slots, k) == prev + last);
    if c < k - 1 {
        lemma_warnings_include(plan, slots, (k - 1) as nat, c);
        assert forall|j: int| 0 <= j < clamp_at(plan, slots, c).len() implies warnings_upto(
            plan,
            slots,
            k,
        ).contains(#[trigger] clamp_at(plan, slots, c)[j]) by {
            let w = clamp_at(plan, slots, c)[j];
            let i = choose|i: int| 0 <= i < prev.len() && prev[i] == w;
            assert((prev + last)[i] == w);
        }
    } else {
        assert forall|j: int| 0 <= j < clamp_at(plan, slots, c).len() implies warnings_upto(
            plan,
            slots,
            k,
        ).contains(#[trigger] clamp_at(plan, slots, c)[j]) by {
            assert((prev + last)[prev.len() + j] == last[j]);
        }
    }
}

/// An output channel that asks a source for a channel it does not have reads
/// the source's last channel instead, and a warning names that output
/// channel, the slot, the channel asked for and the source's channel count.
pub proof fn select_past_last_channel_is_clamped(
    plan: Seq<OutputChannelSpec>,
    slots: Seq<Option<SourceImage>>,
    c: int,
    p: int,
)
    requires
        plan_wf(plan),
        slots_wf(slots),
        0 <= c < plan.len(),
        plan[c] matches OutputChannelSpec::FromSource { slot, channel } && slots[slot as int] matches Some(
            img,
        ) && channel >= img.format.channel_count,
    ensures
        ({
            let slot = plan[c]->slot;
            let channel = plan[c]->channel;
            let img = slots[slot as int]->Some_0;
            &&& out_byte(plan, slots, p, c) == element_value(
                img.data@,
                img.format,
                p as nat,
                (img.format.channel_count - 1) as nat,
            )
            &&& warnings_upto(plan, slots, plan.len()).contains(
                ClampWarning {
                    position: c as usize,
                    slot,
                    requested: channel,
                    channel_count: img.format.channel_count,
                },
            )
        }),
{
    lemma_warnings_include(plan, slots, plan.len(), c);
    assert(clamp_at(plan, slots, c).len() == 1);
    let slot = plan[c]->slot;
    let img = slots[slot as int]->Some_0;
    assert(clamp_at(plan, slots, c)[0] == ClampWarning {
        position: c as usize,
        slot,
        requested: plan[c]->channel,
        channel_count: img.format.channel_count,
    });
}

/// Composition is deterministic: two results that both meet `compose_post`
/// for the same plan and sources carry the same canvas, byte for byte.
pub proof fn compose_is_deterministic(
    plan: Seq<OutputChannelSpec>,
    slots: Seq<Option<SourceImage>>,
    r1: Result<Canvas, PackError>,
    r2: Result<Canvas, PackError>,
)
    requires
        compose_post(plan, slots, r1),
        compose_post(plan, slots, r2),
    ensures
        r1 is Ok <==> r2 is Ok,
        (r1 is Ok && r2 is Ok) ==> {
            let (a, b) = (r1->Ok_0, r2->Ok_0);
            a.width == b.width && a.height == b.height && a.pixels@ == b.pixels@ && a.warnings@
                == b.warnings@
        },
{
    match (r1, r2) {
        (Ok(a), Ok(b)) => {
            match first_invalid(plan, crate::compose::present(slots)) {
                Some(_) => {},
                None => {
                    let (w, h) = crate::compose::common_size(slots);
                    assert(canvas_ok(plan, slots)(a, w, h));
                    assert(canvas_ok(plan, slots)(b, w, h));
                },
            }
        },
        _ => {},
    }
}

} // verus!
