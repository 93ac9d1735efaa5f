//! Windows of the cycle: the span of crank angles in which a valve is open or
//! a combustion runs.
//!
//! A window is given by the angle at which it opens and the angle at which it
//! closes, both within one cycle. A window that closes at a smaller angle than
//! it opens runs over the end of the cycle into the next one. This module
//! only compares angles, it never computes with them: an angle is handed to
//! it as an integer that is ordered as the angle is, such as the angle in a
//! small unit, or the key of the bit pattern of a binary floating-point
//! number.

use vstd::prelude::*;

verus! {

/// A window of the cycle.
#[derive(Debug, Clone, Copy, PartialEq, Eq, Structural)]
pub struct CycleWindow {
    pub opening: i64,
    pub closing: i64,
}

/// The integer that a pattern of 64 bits writes in sign and magnitude: the
/// highest bit is the sign, the other bits are the magnitude.
pub open spec fn sign_magnitude(bits: u64) -> int {
    if bits < 0x8000_0000_0000_0000 {
        bits as int
    } else {
        -(bits - 0x8000_0000_0000_0000)
    }
}

/// Reads a pattern of 64 bits as an integer in sign and magnitude. The bit
/// patterns of binary floating-point numbers are ordered by these integers as
/// the numbers are, and the two zeros have the same one, so that the integer
/// can stand for the number wherever numbers are only compared.
pub fn order_key(bits: u64) -> (r: i64)
    ensures
        r == sign_magnitude(bits),
{
    if bits < 0x8000_0000_0000_0000 {
        bits as i64
    } else {
        let magnitude: u64 = bits - 0x8000_0000_0000_0000;
        -(magnitude as i64)
    }
}

/// The angle, taken into one cycle of `cycle` units that starts at `from`.
pub open spec fn turned(angle: int, from: int, cycle: int) -> int {
    (angle - from) % cycle
}

impl CycleWindow {
    /// Whether the window runs over the end of the cycle.
    pub open spec fn wraps_view(&self) -> bool {
        self.closing < self.opening
    }

    /// Whether the angle lies in the window, the two ends counted in.
    pub open spec fn holds(&self, angle: i64) -> bool {
        if self.wraps_view() {
            angle >= self.opening || angle <= self.closing
        } else {
            self.opening <= angle <= self.closing
        }
    }

    /// Whether the angle lies in the window, the two ends counted out.
    pub open spec fn holds_strictly(&self, angle: i64) -> bool {
        if self.wraps_view() {
            angle > self.opening || angle < self.closing
        } else {
            self.opening < angle < self.closing
        }
    }

    /// Makes the window from `opening` to `closing`.
    pub fn new(opening: i64, closing: i64) -> (r: CycleWindow)
        ensures
            r.opening == opening,
            r.closing == closing,
    {
        CycleWindow { opening, closing }
    }

    /// Tells whether the window runs over the end of the cycle.
    pub fn wraps(&self) -> (r: bool)
        ensures
            r == self.wraps_view(),
    {
        self.closing < self.opening
    }

    /// Tells whether a valve with this window is open at the given angle: the
    /// valve is open from its opening angle to its closing angle, both
    /// counted in.
    pub fn is_open(&self, angle: i64) -> (r: bool)
        ensures
            r == self.holds(angle),
    {
        if self.closing < self.opening {
            if angle < self.opening && angle > self.closing {
                false
            } else {
                true
            }
        } else {
            if angle < self.opening || angle > self.closing {
                false
            } else {
                true
            }
        }
    }

    /// Tells whether a combustion with this window has started and not yet
    /// ended at the given angle: it runs between its two angles, both
    /// counted out.
    pub fn has_started(&self, angle: i64) -> (r: bool)
        ensures
            r == self.holds_strictly(angle),
    {
        if self.closing < self.opening {
            if angle <= self.opening && angle >= self.closing {
                false
            } else {
                true
            }
        } else {
            if angle <= self.opening || angle >= self.closing {
                false
            } else {
                true
            }
        }
    }

    /// Tells whether the angle lies before the opening within its cycle, so
    /// that the time since the opening reaches back into the cycle before.
    pub fn opened_in_cycle_before(&self, angle: i64) -> (r: bool)
        ensures
            r == (angle < self.opening),
    {
        angle < self.opening
    }
}

/// With angles counted in units of which `cycle` make one cycle, a window
/// holds every angle that lies, turning on from the opening, before the
/// closing, and no angle that lies behind it: a valve is open strictly inside
/// its window and closed outside of it, also where the window runs over the
/// end of the cycle.
pub proof fn lemma_window_modulo(w: CycleWindow, angle: i64, cycle: int)
    requires
        0 <= w.opening < cycle,
        0 <= w.closing < cycle,
        0 <= angle < cycle,
    ensures
        turned(angle as int, w.opening as int, cycle) < turned(
            w.closing as int,
            w.opening as int,
            cycle,
        ) ==> w.holds(angle),
        turned(angle as int, w.opening as int, cycle) > turned(
            w.closing as int,
            w.opening as int,
            cycle,
        ) ==> !w.holds(angle),
        0 < turned(angle as int, w.opening as int, cycle) < turned(
            w.closing as int,
            w.opening as int,
            cycle,
        ) ==> w.holds_strictly(angle),
        w.holds(w.opening),
        w.holds(w.closing),
        !w.holds_strictly(w.opening),
        !w.holds_strictly(w.closing),
{
    lemma_turned(angle as int, w.opening as int, cycle);
    lemma_turned(w.closing as int, w.opening as int, cycle);
}

proof fn lemma_turned(angle: int, from: int, cycle: int)
    requires
        0 <= angle < cycle,
        0 <= from < cycle,
    ensures
        turned(angle, from, cycle) == if angle >= from {
            angle - from
        } else {
            angle - from + cycle
        },
{
    if angle >= from {
        vstd::arithmetic::div_mod::lemma_small_mod((angle - from) as nat, cycle as nat);
    } else {
        vstd::arithmetic::div_mod::lemma_small_mod((angle - from + cycle) as nat, cycle as nat);
        vstd::arithmetic::div_mod::lemma_mod_add_multiples_vanish(angle - from, cycle);
    }
}

} // verus!
