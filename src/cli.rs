//! The command line: pairs of a flag and its value, in any order.
//!
//! `-0` to `-3` name a source image, `-s` the swizzle mask (default `bbbw`),
//! `-m` the select mask (default `rrrr`) and `-o` the output path, which is
//! required. A flag given twice keeps its last value.
use vstd::prelude::*;
use vstd::string::StrSliceExecFns;
use crate::mask::SLOT_COUNT;

verus! {

/// What a flag sets.
#[derive(Clone, Copy, Debug, PartialEq, Eq, Structural)]
pub enum Flag {
    Source(usize),
    Swizzle,
    Select,
    Output,
}

/// Why the command line was refused.
#[derive(Clone, Copy, Debug, PartialEq, Eq, Structural)]
pub enum ArgError {
    /// A flag has no value after it.
    OddCount { count: usize },
    /// The argument at `index` is not a known flag.
    UnknownFlag { index: usize },
    /// No output path was given.
    MissingOutput,
}

/// The settings of one run.
#[derive(Debug)]
pub struct Options {
    pub sources: Vec<Option<String>>,
    pub swizzle: String,
    pub select: String,
    pub output: String,
}

/// The settings as values: source paths, swizzle mask, select mask, output.
pub type OptionsView = (Seq<Option<Seq<char>>>, Seq<char>, Seq<char>, Option<Seq<char>>);

/// The flag that an argument spells, if any.
pub open spec fn flag_of(s: Seq<char>) -> Option<Flag> {
    if s.len() != 2 || s[0] != '-' {
        None
    } else if s[1] == '0' {
        Some(Flag::Source(0))
    } else if s[1] == '1' {
        Some(Flag::Source(1))
    } else if s[1] == '2' {
        Some(Flag::Source(2))
    } else if s[1] == '3' {
        Some(Flag::Source(3))
    } else if s[1] == 's' {
        Some(Flag::Swizzle)
    } else if s[1] == 'm' {
        Some(Flag::Select)
    } else if s[1] == 'o' {
        Some(Flag::Output)
    } else {
        None
    }
}

/// Settings before any flag.
pub open spec fn defaults() -> OptionsView {
    (
        seq![None, None, None, None],
        seq!['b', 'b', 'b', 'w'],
        seq!['r', 'r', 'r', 'r'],
        None,
    )
}

/// Settings after `flag` with value `v`.
pub open spec fn apply(o: OptionsView, flag: Flag, v: Seq<char>) -> OptionsView {
    match flag {
        Flag::Source(i) => (o.0.update(i as int, Some(v)), o.1, o.2, o.3),
        Flag::Swizzle => (o.0, v, o.2, o.3),
        Flag::Select => (o.0, o.1, v, o.3),
        Flag::Output => (o.0, o.1, o.2, Some(v)),
    }
}

/// Settings after the first `k` flag pairs.
pub open spec fn settings_after(args: Seq<Seq<char>>, k: nat) -> OptionsView
    decreases k,
{
    if k == 0 {
        defaults()
    } else {
        let i = 2 * (k - 1);
        apply(settings_after(args, (k - 1) as nat), flag_of(args[i])->Some_0, args[i + 1])
    }
}

/// The arguments as character sequences.
pub open spec fn arg_views(args: Seq<String>) -> Seq<Seq<char>> {
    args.map_values(|s: String| s@)
}

/// The flag that an argument spells, if any.
pub fn read_flag(arg: &str) -> (r: Option<Flag>)
    ensures
        r == flag_of(arg@),
{
    if arg.unicode_len() != 2 || arg.get_char(0) != '-' {
        return None;
    }
    match arg.get_char(1) {
        '0' => Some(Flag::Source(0)),
        '1' => Some(Flag::Source(1)),
        '2' => Some(Flag::Source(2)),
        '3' => Some(Flag::Source(3)),
        's' => Some(Flag::Swizzle),
        'm' => Some(Flag::Select),
        'o' => Some(Flag::Output),
        _ => None,
    }
}

/// Reads the flag pairs that follow the program name. Errors come in order: a
/// flag without a value, the first unknown flag, then a missing output path.
pub fn parse_args(args: &Vec<String>) -> (r: Result<Options, ArgError>)
    ensures
        args@.len() % 2 == 1 <==> r == Err::<Options, _>(ArgError::OddCount { count: args@.len() as usize }),
        r matches Err(ArgError::UnknownFlag { index }) ==> {
            &&& index < args@.len()
            &&& index % 2 == 0
            &&& flag_of(args@[index as int]@) is None
            &&& forall|j: int|
                0 <= j < index && j % 2 == 0 ==> #[trigger] flag_of(args@[j]@) is Some
        },
        args@.len() % 2 == 0 && (forall|j: int|
            0 <= j < args@.len() && j % 2 == 0 ==> #[trigger] flag_of(args@[j]@) is Some) ==> {
            let o = settings_after(arg_views(args@), (args@.len() / 2) as nat);
            match r {
                Ok(opts) => {
                    &&& o.3 == Some(opts.output@)
                    &&& opts.swizzle@ == o.1
                    &&& opts.select@ == o.2
                    &&& opts.sources@.len() == SLOT_COUNT
                    &&& forall|i: int|
                        0 <= i < SLOT_COUNT ==> #[trigger] o.0[i] == match opts.sources@[i] {
                            Some(p) => Some(p@),
                            None => None::<Seq<char>>,
                        }
                },
                Err(e) => e == ArgError::MissingOutput && o.3 is None,
            }
        },
{
    let n = args.len();
    if n % 2 == 1 {
        return Err(ArgError::OddCount { count: n });
    }
    let ghost views = arg_views(args@);
    let mut sources: Vec<Option<String>> = vec![None, None, None, None];
    proof {
        reveal_strlit("bbbw");
        reveal_strlit("rrrr");
    }
    let mut swizzle: String = "bbbw".to_owned();
    let mut select: String = "rrrr".to_owned();
    let mut output: Option<String> = None;
    let mut i: usize = 0;
    while i < n
        invariant
            n == args@.len(),
            n % 2 == 0,
            i % 2 == 0,
            i <= n,
            views == arg_views(args@),
            forall|j: int| 0 <= j < i && j % 2 == 0 ==> #[trigger] flag_of(args@[j]@) is Some,
            sources@.len() == SLOT_COUNT,
            ({
                let o = settings_after(views, (i / 2) as nat);
                &&& swizzle@ == o.1
                &&& select@ == o.2
                &&& o.3 == match output {
                    Some(p) => Some(p@),
                    None => None::<Seq<char>>,
                }
                &&& o.0.len() == SLOT_COUNT
                &&& forall|s: int|
                    0 <= s < SLOT_COUNT ==> #[trigger] o.0[s] == match sources@[s] {
                        Some(p) => Some(p@),
                        None => None::<Seq<char>>,
                    }
            }),
        decreases n - i,
    {
        let flag = match read_flag(args[i].as_str()) {
            Some(f) => f,
            None => return Err(ArgError::UnknownFlag { index: i }),
        };
        let value = args[i + 1].clone();
        let ghost before = sources@;
        match flag {
            Flag::Source(s) => {
                sources.set(s, Some(value));
            },
            Flag::Swizzle => {
                swizzle = value;
            },
            Flag::Select => {
                select = value;
            },
            Flag::Output => {
                output = Some(value);
            },
        }
        proof {
            assert(views[i as int] == args@[i as int]@);
            assert(views[i + 1] == args@[i + 1]@);
            assert((i + 2) / 2 == i / 2 + 1);
            let o = settings_after(views, (i / 2) as nat);
            let o2 = settings_after(views, ((i + 2) / 2) as nat);
            assert(o2 == apply(o, flag, views[i + 1]));
            assert forall|s: int| 0 <= s < SLOT_COUNT implies #[trigger] o2.0[s] == match sources@[s] {
                Some(p) => Some(p@),
                None => None::<Seq<char>>,
            } by {
                if flag != Flag::Source(s as usize) {
                    assert(sources@[s] == before[s]);
                }
            }
        }
        i = i + 2;
    }
    match output {
        Some(output) => Ok(Options { sources, swizzle, select, output }),
        None => Err(ArgError::MissingOutput),
    }
}

} // verus!
