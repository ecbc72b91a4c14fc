//! The decisions of the modules that watch the desktop: audio playing,
//! a fullscreen window, and a suspend of the machine. What they observe is
//! handed to them as plain values.
use vstd::prelude::*;

use crate::modules::Progress;

verus! {

/// Counts the audio streams that are playing, as a list of sink inputs is
/// walked: each stream that is not corked adds one, and the end of the
/// list publishes the total and starts a new count.
#[derive(Clone, Copy, Debug)]
pub struct AudioCounter {
    /// Streams counted so far in the current walk.
    pub in_progress: usize,
    /// The total of the last finished walk.
    pub last_total: usize,
}

impl AudioCounter {
    /// A counter that has seen nothing.
    pub fn new() -> (r: Self)
        ensures
            r.in_progress == 0,
            r.last_total == 0,
    {
        AudioCounter { in_progress: 0, last_total: 0 }
    }

    /// A sink input of the walk, `corked` if it is paused.
    pub fn item(&mut self, corked: bool)
        ensures
            final(self).last_total == old(self).last_total,
            final(self).in_progress == if corked || old(self).in_progress == usize::MAX {
                old(self).in_progress
            } else {
                (old(self).in_progress + 1) as usize
            },
    {
        if !corked && self.in_progress < usize::MAX {
            self.in_progress = self.in_progress + 1;
        }
    }

    /// The end of the walk, or an error that ended it.
    pub fn end(&mut self)
        ensures
            final(self).last_total == old(self).in_progress,
            final(self).in_progress == 0,
    {
        self.last_total = self.in_progress;
        self.in_progress = 0;
    }

    /// The answer before a timer fires: audio that plays rewinds the
    /// chain, since it may stop without the user doing anything.
    pub fn progress(&self) -> (r: Progress)
        ensures
            r == if self.last_total == 0 {
                Progress::Continue
            } else {
                Progress::Reset
            },
    {
        if self.last_total == 0 {
            Progress::Continue
        } else {
            Progress::Reset
        }
    }
}

/// A window is shown fullscreen: its `_NET_WM_STATE` holds the fullscreen
/// atom, and its `WM_STATE` is there and not withdrawn (zero).
pub open spec fn fullscreen_spec(net_wm_state: Seq<u32>, wm_state: Seq<u32>, fullscreen_atom: u32) -> bool {
    &&& exists|i: int| 0 <= i < net_wm_state.len() && net_wm_state[i] == fullscreen_atom
    &&& wm_state.len() > 0
    &&& wm_state[0] != 0
}

/// Whether a window with these property values is shown fullscreen.
pub fn window_is_fullscreen(net_wm_state: &[u32], wm_state: &[u32], fullscreen_atom: u32) -> (r:
    bool)
    ensures
        r == fullscreen_spec(net_wm_state@, wm_state@, fullscreen_atom),
{
    if wm_state.len() == 0 || wm_state[0] == 0 {
        return false;
    }
    let mut i: usize = 0;
    while i < net_wm_state.len()
        invariant
            i <= net_wm_state@.len(),
            wm_state@.len() > 0 && wm_state@[0] != 0,
            forall|j: int| 0 <= j < i ==> net_wm_state@[j] != fullscreen_atom,
        decreases net_wm_state.len() - i,
    {
        if net_wm_state[i] == fullscreen_atom {
            assert(net_wm_state@[i as int] == fullscreen_atom);
            return true;
        }
        i = i + 1;
    }
    false
}

/// The answer before a timer fires while a window is, or is not, shown
/// fullscreen: freeze the chain until the user is active again.
pub fn fullscreen_progress(fullscreen: bool) -> (r: Progress)
    ensures
        r == if fullscreen {
            Progress::Abort
        } else {
            Progress::Continue
        },
{
    if fullscreen {
        Progress::Abort
    } else {
        Progress::Continue
    }
}

/// How much longer than asked, in milliseconds, a sleep may last before
/// it counts as a suspend of the machine.
pub const SUSPEND_MARGIN_MS: u64 = 3000;

/// Whether a sleep of `asked` milliseconds that lasted `slept` went on so
/// much longer that the machine was suspended, when that is watched for.
pub fn slept_through_suspend(asked: u64, slept: u64, detect_sleep: bool) -> (r: bool)
    ensures
        r == (detect_sleep && slept >= asked && slept - asked >= SUSPEND_MARGIN_MS),
{
    detect_sleep && slept >= asked && slept - asked >= SUSPEND_MARGIN_MS
}

} // verus!
