use vstd::prelude::*;

verus! {

/// The two players' scores.
#[derive(PartialEq, Eq, Structural, Clone, Copy, Debug)]
pub struct Score {
    pub first_player: u64,
    pub second_player: u64,
}

pub open spec fn sat_add(a: u64, b: u64) -> u64 {
    if a + b > u64::MAX {
        u64::MAX
    } else {
        (a + b) as u64
    }
}

pub open spec fn award_spec(s: Score, first: bool, points: u64) -> Score {
    if first {
        Score { first_player: sat_add(s.first_player, points), ..s }
    } else {
        Score { second_player: sat_add(s.second_player, points), ..s }
    }
}

impl Score {
    pub open spec fn new_spec() -> Score {
        Score { first_player: 0, second_player: 0 }
    }

    /// Both players at zero.
    pub fn new() -> (r: Score)
        ensures
            r == Score::new_spec(),
    {
        Score { first_player: 0, second_player: 0 }
    }

    /// Adds `points` to one player's counter, saturating at the largest value.
    pub fn award(&mut self, first: bool, points: u64)
        ensures
            *final(self) == award_spec(*old(self), first, points),
    {
        if first {
            self.first_player = self.first_player.saturating_add(points);
        } else {
            self.second_player = self.second_player.saturating_add(points);
        }
    }
}

/// How many scoring balls are in flight or queued; never below zero.
#[derive(PartialEq, Eq, Structural, Clone, Copy, Debug)]
pub struct PointBallCount(pub u8);

pub open spec fn decrement_spec(c: PointBallCount) -> PointBallCount {
    if c.0 == 0 {
        c
    } else {
        PointBallCount((c.0 - 1) as u8)
    }
}

/// The counter after `n` decrements.
pub open spec fn decrement_times(c: PointBallCount, n: nat) -> PointBallCount
    decreases n,
{
    if n == 0 {
        c
    } else {
        decrement_spec(decrement_times(c, (n - 1) as nat))
    }
}

impl PointBallCount {
    /// Removes one scoring ball from the count; at zero it stays zero.
    pub fn decrement(&mut self)
        ensures
            *final(self) == decrement_spec(*old(self)),
    {
        if let Some(c) = self.0.checked_sub(1) {
            self.0 = c;
        }
    }
}

/// Any run of decrements leaves the count at the old value minus their
/// number, and at zero once they outnumber it: it never goes below zero.
pub proof fn lemma_decrements_saturate(c: PointBallCount, n: nat)
    ensures
        decrement_times(c, n).0 == (if n <= c.0 { c.0 - n } else { 0 }),
    decreases n,
{
    if n > 0 {
        lemma_decrements_saturate(c, (n - 1) as nat);
    }
}

} // verus!
