//! Parsing of the swizzle mask and the select mask into a channel plan.
use vstd::prelude::*;
use vstd::string::StrSliceExecFns;

verus! {

/// Number of source slots.
pub const SLOT_COUNT: usize = 4;

/// What one output channel is made of.
#[derive(Clone, Copy, Debug, PartialEq, Eq, Structural)]
pub enum OutputChannelSpec {
    /// A constant value for every pixel.
    Fill(u8),
    /// Channel `channel` of the image in slot `slot`.
    FromSource { slot: usize, channel: usize },
}

/// Why a pair of masks was rejected.
#[derive(Clone, Copy, Debug, PartialEq, Eq, Structural)]
pub enum MaskError {
    /// The swizzle mask has fewer than two characters.
    MaskTooShort { len: usize },
    /// The swizzle mask has more than four characters.
    MaskTooLong { len: usize },
    /// Character `ch` at `position` of the swizzle mask is not `0`-`3`, `b`, `w` or `g`.
    InvalidSwizzleChar { ch: char, position: usize },
    /// Character `ch` of the select mask, for source `slot`, is not `r`, `g`, `b` or `a`.
    InvalidSelectChar { ch: char, slot: usize },
}

/// The resolved plan: one entry per output channel, in output order.
#[derive(Debug)]
pub struct ChannelPlan {
    pub channels: Vec<OutputChannelSpec>,
}

/// Source slot named by a swizzle character.
pub open spec fn slot_of(c: char) -> Option<nat> {
    if c == '0' {
        Some(0)
    } else if c == '1' {
        Some(1)
    } else if c == '2' {
        Some(2)
    } else if c == '3' {
        Some(3)
    } else {
        None
    }
}

/// Constant named by a swizzle character.
pub open spec fn fill_of(c: char) -> Option<u8> {
    if c == 'b' {
        Some(0u8)
    } else if c == 'w' {
        Some(255u8)
    } else if c == 'g' {
        Some(128u8)
    } else {
        None
    }
}

/// Native channel named by a select character.
pub open spec fn select_of(c: char) -> Option<nat> {
    if c == 'r' {
        Some(0)
    } else if c == 'g' {
        Some(1)
    } else if c == 'b' {
        Some(2)
    } else if c == 'a' {
        Some(3)
    } else {
        None
    }
}

pub open spec fn valid_swizzle_char(c: char) -> bool {
    slot_of(c) is Some || fill_of(c) is Some
}

pub open spec fn valid_select_char(c: char) -> bool {
    select_of(c) is Some
}

pub open spec fn swizzle_ok() -> spec_fn(char) -> bool {
    |c: char| valid_swizzle_char(c)
}

pub open spec fn select_ok() -> spec_fn(char) -> bool {
    |c: char| valid_select_char(c)
}

/// Channel read from source `slot`: the select character at that index, or
/// red where the select mask is shorter.
pub open spec fn selected_channel(select: Seq<char>, slot: nat) -> nat {
    if slot < select.len() {
        select_of(select[slot as int])->Some_0
    } else {
        0
    }
}

/// The spec of the output channel that swizzle character `c` stands for.
pub open spec fn spec_of(c: char, select: Seq<char>) -> OutputChannelSpec {
    match slot_of(c) {
        Some(s) => OutputChannelSpec::FromSource {
            slot: s as usize,
            channel: selected_channel(select, s) as usize,
        },
        None => OutputChannelSpec::Fill(fill_of(c)->Some_0),
    }
}

/// Index of the first element of `s` that `ok` refuses, if any.
pub open spec fn first_invalid<T>(s: Seq<T>, ok: spec_fn(T) -> bool) -> Option<nat>
    decreases s.len(),
{
    if s.len() == 0 {
        None
    } else if !ok(s.last()) {
        match first_invalid(s.drop_last(), ok) {
            Some(i) => Some(i),
            None => Some((s.len() - 1) as nat),
        }
    } else {
        first_invalid(s.drop_last(), ok)
    }
}

/// What parsing a swizzle mask and a select mask yields.
pub open spec fn parse_spec(swizzle: Seq<char>, select: Seq<char>) -> Result<
    Seq<OutputChannelSpec>,
    MaskError,
> {
    if swizzle.len() < 2 {
        Err(MaskError::MaskTooShort { len: swizzle.len() as usize })
    } else if swizzle.len() > 4 {
        Err(MaskError::MaskTooLong { len: swizzle.len() as usize })
    } else {
        match first_invalid(select, select_ok()) {
            Some(i) => Err(MaskError::InvalidSelectChar { ch: select[i as int], slot: i as usize }),
            None => match first_invalid(swizzle, swizzle_ok()) {
                Some(i) => Err(
                    MaskError::InvalidSwizzleChar { ch: swizzle[i as int], position: i as usize },
                ),
                None => Ok(Seq::new(swizzle.len(), |i: int| spec_of(swizzle[i], select))),
            },
        }
    }
}

/// A plan as parsing makes it: two to four channels, each a constant or a
/// channel index below four of a slot below four.
pub open spec fn plan_wf(plan: Seq<OutputChannelSpec>) -> bool {
    &&& 2 <= plan.len() <= 4
    &&& plan_wf_upto(plan)
}

/// Every entry of a plan under construction reads a slot below four and a
/// channel below four.
pub open spec fn plan_wf_upto(plan: Seq<OutputChannelSpec>) -> bool {
    forall|i: int|
        0 <= i < plan.len() ==> (#[trigger] plan[i] matches OutputChannelSpec::FromSource {
            slot,
            channel,
        } ==> slot < SLOT_COUNT && channel < 4)
}

impl ChannelPlan {
    pub open spec fn view(&self) -> Seq<OutputChannelSpec> {
        self.channels@
    }

    pub open spec fn wf(&self) -> bool {
        plan_wf(self.channels@)
    }
}


/// `first_invalid` finds the first refused element, or says that none is.
pub proof fn lemma_first_invalid<T>(s: Seq<T>, ok: spec_fn(T) -> bool)
    ensures
        match first_invalid(s, ok) {
            None => forall|j: int| 0 <= j < s.len() ==> #[trigger] ok(s[j]),
            Some(i) => {
                &&& i < s.len()
                &&& !ok(s[i as int])
                &&& forall|j: int| 0 <= j < i ==> #[trigger] ok(s[j])
            },
        },
    decreases s.len(),
{
    if s.len() > 0 {
        let t = s.drop_last();
        lemma_first_invalid(t, ok);
        assert forall|j: int| 0 <= j < t.len() implies t[j] == s[j] by {}
    }
}

/// An element that `ok` refuses, after only accepted ones, is the first refused.
pub proof fn lemma_first_invalid_at<T>(s: Seq<T>, ok: spec_fn(T) -> bool, i: nat)
    requires
        i < s.len(),
        !ok(s[i as int]),
        forall|j: int| 0 <= j < i ==> #[trigger] ok(s[j]),
    ensures
        first_invalid(s, ok) == Some(i),
{
    lemma_first_invalid(s, ok);
    match first_invalid(s, ok) {
        None => {
            assert(ok(s[i as int]));
        },
        Some(k) => {
            if k < i {
                assert(ok(s[k as int]));
            } else if k > i {
                assert(ok(s[i as int]));
            }
        },
    }
}

/// Reads a swizzle character: a source slot, a constant, or neither.
pub fn swizzle_char(c: char) -> (r: (Option<usize>, Option<u8>))
    ensures
        r.0 == (match slot_of(c) {
            Some(s) => Some(s as usize),
            None => None,
        }),
        r.1 == fill_of(c),
{
    match c {
        '0' => (Some(0), None),
        '1' => (Some(1), None),
        '2' => (Some(2), None),
        '3' => (Some(3), None),
        'b' => (None, Some(0)),
        'w' => (None, Some(255)),
        'g' => (None, Some(128)),
        _ => (None, None),
    }
}

/// Reads a select character: the native channel it names, if any.
pub fn select_char(c: char) -> (r: Option<usize>)
    ensures
        r == (match select_of(c) {
            Some(ch) => Some(ch as usize),
            None => None,
        }),
{
    match c {
        'r' => Some(0),
        'g' => Some(1),
        'b' => Some(2),
        'a' => Some(3),
        _ => None,
    }
}

/// Turns a swizzle mask and a select mask into a channel plan.
///
/// The swizzle mask has one character per output channel: `0`-`3` reads that
/// source slot, `b`, `w` and `g` fill with 0, 255 and 128. The select mask has
/// one character per source slot (`r`, `g`, `b`, `a`) naming the native
/// channel read from it; a slot past its end reads red. Errors come in this
/// order: the swizzle mask's length, then the first bad select character, then
/// the first bad swizzle character.
pub fn parse_masks(swizzle: &str, select: &str) -> (r: Result<ChannelPlan, MaskError>)
    ensures
        match r {
            Ok(plan) => parse_spec(swizzle@, select@) == Ok::<_, MaskError>(plan@) && plan.wf(),
            Err(e) => parse_spec(swizzle@, select@) == Err::<Seq<OutputChannelSpec>, _>(e),
        },
        swizzle@.len() < 2 <==> r matches Err(MaskError::MaskTooShort { .. }),
        (2 <= swizzle@.len() <= 4 && (forall|i: int|
            0 <= i < swizzle@.len() ==> valid_swizzle_char(#[trigger] swizzle@[i])) && (forall|
            i: int,
        | 0 <= i < select@.len() ==> valid_select_char(#[trigger] select@[i]))) ==> (r matches Ok(
            plan,
        ) && plan@.len() == swizzle@.len()),
{
    let n: usize = swizzle.unicode_len();
    if n < 2 {
        return Err(MaskError::MaskTooShort { len: n });
    }
    if n > 4 {
        return Err(MaskError::MaskTooLong { len: n });
    }
    let m: usize = select.unicode_len();
    let mut channel_of_slot: Vec<usize> = vec![0, 0, 0, 0];
    let mut i: usize = 0;
    while i < m
        invariant
            n == swizzle@.len(),
            2 <= n <= 4,
            m == select@.len(),
            i <= m,
            forall|j: int| 0 <= j < i ==> valid_select_char(#[trigger] select@[j]),
            channel_of_slot@.len() == SLOT_COUNT,
            forall|s: int|
                0 <= s < SLOT_COUNT ==> #[trigger] channel_of_slot@[s] == (if s < i {
                    selected_channel(select@, s as nat)
                } else {
                    0
                }),
        decreases m - i,
    {
        let c = select.get_char(i);
        match select_char(c) {
            Some(ch) => {
                if i < SLOT_COUNT {
                    channel_of_slot.set(i, ch);
                }
            },
            None => {
                proof {
                    assert(!select_ok()(select@[i as int]));
                    assert forall|j: int| 0 <= j < i implies #[trigger] select_ok()(select@[j]) by {
                        assert(valid_select_char(select@[j]));
                    }
                    lemma_first_invalid_at(select@, select_ok(), i as nat);
                }
                return Err(MaskError::InvalidSelectChar { ch: c, slot: i });
            },
        }
        i = i + 1;
    }
    proof {
        assert forall|j: int| 0 <= j < m implies #[trigger] select_ok()(select@[j]) by {
            assert(valid_select_char(select@[j]));
        }
        lemma_first_invalid(select@, select_ok());
        assert forall|s: int| 0 <= s < SLOT_COUNT implies channel_of_slot@[s] == selected_channel(
            select@,
            s as nat,
        ) by {}
    }
    let mut channels: Vec<OutputChannelSpec> = Vec::new();
    let mut k: usize = 0;
    while k < n
        invariant
            n == swizzle@.len(),
            2 <= n <= 4,
            k <= n,
            first_invalid(select@, select_ok()) is None,
            forall|s: int|
                0 <= s < SLOT_COUNT ==> #[trigger] channel_of_slot@[s] == selected_channel(
                    select@,
                    s as nat,
                ),
            channel_of_slot@.len() == SLOT_COUNT,
            forall|j: int| 0 <= j < k ==> valid_swizzle_char(#[trigger] swizzle@[j]),
            channels@.len() == k,
            forall|j: int| 0 <= j < k ==> #[trigger] channels@[j] == spec_of(swizzle@[j], select@),
            plan_wf_upto(channels@),
        decreases n - k,
    {
        let c = swizzle.get_char(k);
        let (slot, fill) = swizzle_char(c);
        match slot {
            Some(s) => {
                let ch = channel_of_slot[s];
                proof {
                    lemma_first_invalid(select@, select_ok());
                    if s < select@.len() {
                        assert(select_ok()(select@[s as int]));
                    }
                }
                channels.push(OutputChannelSpec::FromSource { slot: s, channel: ch });
            },
            None => match fill {
                Some(v) => {
                    channels.push(OutputChannelSpec::Fill(v));
                },
                None => {
                    proof {
                        assert(!swizzle_ok()(swizzle@[k as int]));
                        assert forall|j: int| 0 <= j < k implies #[trigger] swizzle_ok()(
                            swizzle@[j],
                        ) by {
                            assert(valid_swizzle_char(swizzle@[j]));
                        }
                        lemma_first_invalid_at(swizzle@, swizzle_ok(), k as nat);
                    }
                    return Err(MaskError::InvalidSwizzleChar { ch: c, position: k });
                },
            },
        }
        k = k + 1;
    }
    proof {
        assert forall|j: int| 0 <= j < n implies #[trigger] swizzle_ok()(swizzle@[j]) by {
            assert(valid_swizzle_char(swizzle@[j]));
        }
        lemma_first_invalid(swizzle@, swizzle_ok());
        assert(channels@ =~= Seq::new(swizzle@.len(), |i: int| spec_of(swizzle@[i], select@)));
    }
    Ok(ChannelPlan { channels })
}

} // verus!
