//! Settings panels and other helpers are started from a list of candidate
//! programs, the first one that starts winning.
use vstd::prelude::*;
use crate::text::owned;

verus! {

/// A program to start and its arguments.
pub struct Launch {
    pub program: String,
    pub args: Vec<String>,
}

/// The views of a candidate list, as program names and argument lists.
pub open spec fn launch_views(v: Seq<Launch>) -> Seq<(Seq<char>, Seq<Seq<char>>)> {
    v.map_values(|l: Launch| (l.program@, l.args@.map_values(|a: String| a@)))
}

pub(crate) fn launch(program: &str, args: &[&str]) -> (l: Launch)
    ensures
        l.program@ == program@,
        l.args@.len() == args@.len(),
        forall|i: int| 0 <= i < args@.len() ==> #[trigger] l.args@[i]@ == args@[i]@,
{
    let mut v: Vec<String> = Vec::new();
    let mut i: usize = 0;
    while i < args.len()
        invariant
            i <= args.len(),
            v@.len() == i,
            forall|j: int| 0 <= j < i ==> #[trigger] v@[j]@ == args@[j]@,
        decreases args.len() - i,
    {
        v.push(owned(args[i]));
        i = i + 1;
    }
    Launch { program: owned(program), args: v }
}

/// What launching does after trying candidate `tried` of `count`.
#[derive(Clone, Copy, Debug, PartialEq, Eq, Structural)]
pub enum LaunchNext {
    /// Try the candidate at this index.
    Try(usize),
    /// Stop, reporting whether anything was started.
    Finish(bool),
}

/// The first step of launching from `count` candidates.
pub fn first_launch(count: usize) -> (r: LaunchNext)
    ensures
        r == (if count == 0 {
            LaunchNext::Finish(false)
        } else {
            LaunchNext::Try(0)
        }),
{
    if count == 0 {
        LaunchNext::Finish(false)
    } else {
        LaunchNext::Try(0)
    }
}

/// After trying candidate `tried`: stop as soon as one started; a candidate
/// that is not installed or failed to start gives way to the next; after the
/// last, report that nothing started.
pub fn after_attempt(tried: usize, started: bool, count: usize) -> (r: LaunchNext)
    requires
        tried < count,
    ensures
        started ==> r == LaunchNext::Finish(true),
        !started && tried + 1 < count ==> r == LaunchNext::Try((tried + 1) as usize),
        !started && tried + 1 == count ==> r == LaunchNext::Finish(false),
{
    if started {
        LaunchNext::Finish(true)
    } else if tried + 1 < count {
        LaunchNext::Try(tried + 1)
    } else {
        LaunchNext::Finish(false)
    }
}

/// One of Cinnamon's settings panels, which has no fallback.
pub fn cinnamon_panel(panel: &str) -> (r: Vec<Launch>)
    ensures
        launch_views(r@) == seq![("cinnamon-settings"@, seq![panel@])],
{
    let mut r: Vec<Launch> = Vec::new();
    r.push(launch("cinnamon-settings", &[panel]));
    proof {
        let v = launch_views(r@);
        assert(v[0].1 =~= seq![panel@]);
    }
    assert(launch_views(r@) =~= seq![("cinnamon-settings"@, seq![panel@])]);
    r
}

} // verus!
