use vstd::prelude::*;

verus! {

/// A direction of rotation: clockwise or counterclockwise.
#[derive(Clone, Copy, Debug, PartialEq, Eq, Structural)]
pub enum Dir {
    Cw,
    Ccw,
}

impl Dir {
    /// The sign of the direction: +1 clockwise, -1 counterclockwise.
    pub open spec fn sign(self) -> int {
        match self {
            Dir::Cw => 1,
            Dir::Ccw => -1,
        }
    }

    /// The sign of the direction as an integer.
    pub fn int_value(&self) -> (r: i32)
        ensures
            r == self.sign(),
    {
        match self {
            Dir::Cw => 1,
            Dir::Ccw => -1,
        }
    }
}

/// The counter value of a free-running 16-bit hardware counter together
/// with the number of times it overflowed: the counts since it started.
pub open spec fn total_counts(overflows: u16, cnt: u16) -> int {
    cnt + overflows * 65536
}

/// Integer division by two rounding toward zero, as Rust's `/` does.
pub open spec fn half_toward_zero(p: int) -> int {
    if p >= 0 {
        p / 2
    } else {
        -((-p) / 2)
    }
}

/// Turns the counts of a direction-less pulse counter into a signed
/// position. The counter counts both edges of every step pulse; the
/// direction of travel is applied to the counts taken while it held.
pub struct StepCounter {
    dir: Dir,
    pos: i32,
    last_cnt: i32,
}

impl StepCounter {
    #[verifier::type_invariant]
    closed spec fn inv(self) -> bool {
        0 <= self.last_cnt <= u16::MAX
    }

    /// The current direction of travel.
    pub closed spec fn direction(self) -> Dir {
        self.dir
    }

    /// The position in counted edges.
    pub closed spec fn edges(self) -> int {
        self.pos as int
    }

    /// The counter value at the last sample.
    pub closed spec fn last_count(self) -> int {
        self.last_cnt as int
    }

    /// The position in edges after a sample of the hardware counter: the
    /// counts since the last sample, signed by the direction, are added.
    pub open spec fn sampled_edges(self, overflows: u16, cnt: u16) -> int {
        self.edges() + (total_counts(overflows, cnt) - self.last_count()) * self.direction().sign()
    }

    /// A sample whose counts and resulting position fit the counter's
    /// 32-bit arithmetic.
    pub open spec fn sample_fits(self, overflows: u16, cnt: u16) -> bool {
        &&& total_counts(overflows, cnt) <= i32::MAX
        &&& i32::MIN <= self.sampled_edges(overflows, cnt) <= i32::MAX
    }

    /// A counter at position 0, moving clockwise, whose hardware counter
    /// starts at 0.
    pub fn new() -> (c: StepCounter)
        ensures
            c.direction() == Dir::Cw,
            c.edges() == 0,
            c.last_count() == 0,
    {
        StepCounter { dir: Dir::Cw, pos: 0, last_cnt: 0 }
    }

    pub fn dir(&self) -> (d: Dir)
        ensures
            d == self.direction(),
    {
        self.dir
    }

    /// Takes a sample of the hardware counter: `overflows` since the last
    /// sample (the overflow counter is cleared by reading it) and the
    /// current counter value `cnt`.
    pub fn update_pos(&mut self, overflows: u16, cnt: u16)
        requires
            old(self).sample_fits(overflows, cnt),
        ensures
            final(self).edges() == old(self).sampled_edges(overflows, cnt),
            final(self).last_count() == cnt,
            final(self).direction() == old(self).direction(),
    {
        proof {
            use_type_invariant(&*self);
        }
        let cnt = cnt as i32;
        let overflows = overflows as i32;
        let rel_cnt = cnt + overflows * (u16::MAX as i32 + 1) - self.last_cnt;
        self.last_cnt = cnt;
        self.pos = self.pos + rel_cnt * self.dir.int_value();
    }

    /// Samples the hardware counter and returns the position in steps
    /// (each step pulse is counted twice).
    pub fn get_pos(&mut self, overflows: u16, cnt: u16) -> (p: i32)
        requires
            old(self).sample_fits(overflows, cnt),
        ensures
            final(self).edges() == old(self).sampled_edges(overflows, cnt),
            final(self).last_count() == cnt,
            final(self).direction() == old(self).direction(),
            p == half_toward_zero(final(self).edges()),
    {
        self.update_pos(overflows, cnt);
        self.pos / 2
    }

    /// Changes the direction of travel. The hardware counter does not know
    /// the direction, so the counts taken so far are credited to the old
    /// direction first: a change needs a `sample` of the counter. A sample
    /// given while the direction stays is applied as well (reading the
    /// counter clears its overflow count, so the sample must not be lost).
    pub fn set_dir(&mut self, dir: Dir, sample: Option<(u16, u16)>)
        requires
            old(self).direction() != dir ==> sample is Some,
            sample matches Some((overflows, cnt)) ==> old(self).sample_fits(overflows, cnt),
        ensures
            final(self).direction() == dir,
            match sample {
                Some((overflows, cnt)) => final(self).edges() == old(self).sampled_edges(overflows, cnt)
                    && final(self).last_count() == cnt,
                None => final(self).edges() == old(self).edges() && final(self).last_count()
                    == old(self).last_count(),
            },
    {
        match sample {
            Some((overflows, cnt)) => {
                self.update_pos(overflows, cnt);
            },
            None => {},
        }
        proof {
            use_type_invariant(&*self);
        }
        self.dir = dir;
    }
}

/// Sampling in two steps gives the same position as sampling once at the
/// end: `c2` is `c` after a sample `(ov1, cnt1)` (as `update_pos` leaves
/// it), and a further sample `(ov2, cnt2)` of `c2` lands where a single
/// sample of `c` with all the overflows would.
pub proof fn law_samples_add_up(c: StepCounter, c2: StepCounter, ov1: u16, cnt1: u16, ov2: u16, cnt2: u16)
    requires
        ov1 + ov2 <= u16::MAX,
        c2.direction() == c.direction(),
        c2.edges() == c.sampled_edges(ov1, cnt1),
        c2.last_count() == cnt1,
    ensures
        c2.sampled_edges(ov2, cnt2) == c.sampled_edges((ov1 + ov2) as u16, cnt2),
{
    let s = c.direction().sign();
    assert((cnt1 + ov1 * 65536 - c.last_count()) * s + (cnt2 + ov2 * 65536 - cnt1) * s
        == (cnt2 + (ov1 + ov2) * 65536 - c.last_count()) * s) by (nonlinear_arith);
}

/// The signed sum of runs: each run's raw edge count times its direction's
/// sign.
pub open spec fn signed_edges(runs: Seq<(Dir, int)>) -> int
    decreases runs.len(),
{
    if runs.len() == 0 {
        0
    } else {
        signed_edges(runs.drop_last()) + runs.last().1 * runs.last().0.sign()
    }
}

/// The runs between the samples `ss` taken of the counters `cs`: run `i`
/// went in the direction `cs[i]` held, over the raw edges counted between
/// the sample before it (or `cs[0]`'s last count) and sample `i`.
pub open spec fn runs_between(cs: Seq<StepCounter>, ss: Seq<(u16, u16)>) -> Seq<(Dir, int)> {
    Seq::new(ss.len(), |i: int| (cs[i].direction(), total_counts(ss[i].0, ss[i].1) - cs[i].last_count()))
}

/// The position is the signed sum of the runs: `cs[i + 1]` is what sample
/// `ss[i]` of `cs[i]` leaves (as `update_pos`, `get_pos` and `set_dir`
/// with a sample leave it; a direction change without a sample may happen
/// in between), so the last counter's position is the first one's plus
/// each run's raw edges times the sign of the direction it went in.
pub proof fn law_position_is_signed_runs(cs: Seq<StepCounter>, ss: Seq<(u16, u16)>)
    requires
        cs.len() == ss.len() + 1,
        forall|i: int|
            0 <= i < ss.len() ==> (#[trigger] cs[i + 1]).edges() == cs[i].sampled_edges(ss[i].0, ss[i].1)
                && cs[i + 1].last_count() == ss[i].1,
    ensures
        cs.last().edges() == cs[0].edges() + signed_edges(runs_between(cs, ss)),
    decreases ss.len(),
{
    if ss.len() > 0 {
        let n = ss.len() - 1;
        let cs2 = cs.drop_last();
        let ss2 = ss.drop_last();
        assert forall|i: int| 0 <= i < ss2.len() implies (#[trigger] cs2[i + 1]).edges() == cs2[i].sampled_edges(
            ss2[i].0,
            ss2[i].1,
        ) && cs2[i + 1].last_count() == ss2[i].1 by {
            assert(cs[i + 1] == cs2[i + 1]);
        }
        law_position_is_signed_runs(cs2, ss2);
        assert(runs_between(cs, ss).drop_last() =~= runs_between(cs2, ss2));
        assert(cs[n + 1].edges() == cs[n].sampled_edges(ss[n].0, ss[n].1));
        assert(cs2.last() == cs[n]);
        assert(cs.last() == cs[n + 1]);
        assert(runs_between(cs, ss).last() == (cs[n].direction(), total_counts(ss[n].0, ss[n].1) - cs[n].last_count()));
    }
}

/// Read from a counter started by `new`, the position in steps is half the
/// signed sum of the runs, rounded toward zero (each step is counted on
/// both edges of its pulse).
pub proof fn law_steps_from_new(cs: Seq<StepCounter>, ss: Seq<(u16, u16)>)
    requires
        cs.len() == ss.len() + 1,
        cs[0].edges() == 0,
        forall|i: int|
            0 <= i < ss.len() ==> (#[trigger] cs[i + 1]).edges() == cs[i].sampled_edges(ss[i].0, ss[i].1)
                && cs[i + 1].last_count() == ss[i].1,
    ensures
        half_toward_zero(cs.last().edges()) == half_toward_zero(signed_edges(runs_between(cs, ss))),
{
    law_position_is_signed_runs(cs, ss);
}

} // verus!
