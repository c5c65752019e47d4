//! The order of work in one frame of simulation.
//!
//! A sub-step over `n` bodies zeroes every body's accumulated acceleration,
//! then visits each unordered pair `(i, j)` with `i < j` exactly once, in
//! ascending `i` and then ascending `j`, and finally advances every body once
//! with the chosen scheme. A frame repeats the sub-step a configured number
//! of times. The numbers are handled by whoever carries out the plan; the
//! plan itself is fixed here.
use vstd::prelude::*;
use crate::integration::StepType;

verus! {

/// One unit of work in a sub-step.
#[derive(Clone, Copy, Debug, PartialEq, Eq, Structural)]
pub enum Action {
    /// Set the body's accumulated acceleration to zero.
    ResetAcceleration { body: usize },
    /// Evaluate the force on `first` from `second` once; add it, over the mass
    /// of `first`, to the acceleration of `first` and subtract it, over the
    /// mass of `second`, from the acceleration of `second`.
    ApplyPair { first: usize, second: usize },
    /// Advance the body by one time step with the given scheme.
    Integrate { body: usize, step_type: StepType },
}

/// Zeroing of the accelerations of bodies `0 .. n`, in ascending order.
pub open spec fn resets(n: nat) -> Seq<Action> {
    Seq::new(n, |k: int| Action::ResetAcceleration { body: k as usize })
}

/// The pairs `(i, j)` with `i < j < n`, in ascending `j`.
pub open spec fn pair_row(i: nat, n: nat) -> Seq<Action> {
    if i < n {
        Seq::new((n - i - 1) as nat, |k: int| Action::ApplyPair { first: i as usize, second: (i + 1 + k) as usize })
    } else {
        Seq::empty()
    }
}

/// The rows of pairs whose first body is below `i`, row after row.
pub open spec fn pairs_upto(i: nat, n: nat) -> Seq<Action>
    decreases i,
{
    if i == 0 {
        Seq::empty()
    } else {
        pairs_upto((i - 1) as nat, n) + pair_row((i - 1) as nat, n)
    }
}

/// Every unordered pair of bodies `0 .. n`, in canonical order.
pub open spec fn all_pairs(n: nat) -> Seq<Action> {
    pairs_upto(n, n)
}

/// Advancing bodies `0 .. n` with scheme `s`, in ascending order.
pub open spec fn integrations(n: nat, s: StepType) -> Seq<Action> {
    Seq::new(n, |k: int| Action::Integrate { body: k as usize, step_type: s })
}

/// One sub-step: reset, then all pairs, then integration.
pub open spec fn substep(n: nat, s: StepType) -> Seq<Action> {
    resets(n) + all_pairs(n) + integrations(n, s)
}

/// `k` sub-steps, one after another.
pub open spec fn frame(n: nat, s: StepType, k: nat) -> Seq<Action>
    decreases k,
{
    if k == 0 {
        Seq::empty()
    } else {
        frame(n, s, (k - 1) as nat) + substep(n, s)
    }
}

/// Whether `a` and `b` are both pair evaluations and `a` comes first in
/// ascending order of the first body, then of the second.
pub open spec fn pair_precedes(a: Action, b: Action) -> bool {
    &&& a matches Action::ApplyPair { first: i1, second: j1 }
    &&& b matches Action::ApplyPair { first: i2, second: j2 }
    &&& (i1 < i2 || (i1 == i2 && j1 < j2))
}

/// Whether `a` evaluates the pair of distinct bodies `i < j`, both below `n`.
pub open spec fn is_pair_below(a: Action, n: nat) -> bool {
    a matches Action::ApplyPair { first, second } && first < second && second < n
}

/// Every action of `s` evaluates a pair of distinct bodies below `n` whose
/// first body is below `i`.
pub open spec fn pairs_within(s: Seq<Action>, i: nat, n: nat) -> bool {
    forall|k: int| 0 <= k < s.len() ==> #[trigger] is_pair_below(s[k], n) && s[k]->first < i
}

/// The actions of `s` are pair evaluations in strictly ascending canonical
/// order.
pub open spec fn pairs_ascending(s: Seq<Action>) -> bool {
    forall|p: int, q: int| 0 <= p < q < s.len() ==> pair_precedes(#[trigger] s[p], #[trigger] s[q])
}

/// `s` evaluates the pair `(a, b)` somewhere.
pub open spec fn evaluates_pair(s: Seq<Action>, a: usize, b: usize) -> bool {
    exists|k: int| 0 <= k < s.len() && #[trigger] s[k] == (Action::ApplyPair { first: a, second: b })
}

/// `s` evaluates every pair `a < b < n` with `a < i`.
pub open spec fn covers_pairs(s: Seq<Action>, i: nat, n: nat) -> bool {
    forall|a: usize, b: usize| a < i && a < b && b < n ==> #[trigger] evaluates_pair(s, a, b)
}

/// The rows below `i` hold exactly the pairs whose first body is below `i`,
/// each once, in canonical order.
pub(crate) proof fn lemma_pairs_upto(i: nat, n: nat)
    requires
        i <= n,
        n <= usize::MAX,
    ensures
        pairs_within(pairs_upto(i, n), i, n),
        pairs_ascending(pairs_upto(i, n)),
        covers_pairs(pairs_upto(i, n), i, n),
    decreases i,
{
    if i > 0 {
        let h = (i - 1) as nat;
        lemma_pairs_upto(h, n);
        let prev = pairs_upto(h, n);
        let row = pair_row(h, n);
        let s = pairs_upto(i, n);
        assert(s == prev + row);
        assert forall|k: int| 0 <= k < s.len() implies #[trigger] is_pair_below(s[k], n) && s[k]->first
            < i by {
            if k < prev.len() {
                assert(s[k] == prev[k]);
                assert(is_pair_below(prev[k], n));
            } else {
                assert(s[k] == row[k - prev.len()]);
            }
        }
        assert forall|p: int, q: int| 0 <= p < q < s.len() implies pair_precedes(
            #[trigger] s[p],
            #[trigger] s[q],
        ) by {
            if q < prev.len() {
                assert(pair_precedes(prev[p], prev[q]));
            } else if p < prev.len() {
                assert(is_pair_below(prev[p], n));
                assert(s[q] == row[q - prev.len()]);
            } else {
                assert(s[p] == row[p - prev.len()]);
                assert(s[q] == row[q - prev.len()]);
            }
        }
        assert forall|a: usize, b: usize| a < i && a < b && b < n implies #[trigger] evaluates_pair(
            s,
            a,
            b,
        ) by {
            if a < h {
                assert(evaluates_pair(prev, a, b));
                let k = choose|k: int|
                    0 <= k < prev.len() && #[trigger] prev[k] == (Action::ApplyPair { first: a, second: b });
                assert(s[k] == prev[k]);
            } else {
                let k = prev.len() + (b - a - 1);
                assert(s[k] == row[b - a - 1]);
            }
        }
    }
}

/// Rows of pairs only grow: the rows below `m` are a prefix of the rows
/// below any `m2 >= m`.
proof fn lemma_pairs_prefix(m: nat, m2: nat, n: nat)
    requires
        m <= m2,
    ensures
        pairs_upto(m, n).len() <= pairs_upto(m2, n).len(),
        forall|t: int| 0 <= t < pairs_upto(m, n).len() ==> #[trigger] pairs_upto(m2, n)[t] == pairs_upto(m, n)[t],
    decreases m2 - m,
{
    if m < m2 {
        let h = (m2 - 1) as nat;
        lemma_pairs_prefix(m, h, n);
        assert(pairs_upto(m2, n) == pairs_upto(h, n) + pair_row(h, n));
        assert forall|t: int| 0 <= t < pairs_upto(m, n).len() implies #[trigger] pairs_upto(m2, n)[t]
            == pairs_upto(m, n)[t] by {
            assert(pairs_upto(m2, n)[t] == pairs_upto(h, n)[t]);
        }
    }
}

/// The pair `(i, i + 1 + k)` stands at offset `k` of row `i`.
proof fn lemma_pair_at(i: nat, k: nat, n: nat)
    requires
        i < n,
        k < n - i - 1,
    ensures
        pairs_upto((i + 1) as nat, n).len() == pairs_upto(i, n).len() + (n - i - 1),
        pairs_upto(i, n).len() + k < all_pairs(n).len(),
        all_pairs(n)[(pairs_upto(i, n).len() + k) as int] == (Action::ApplyPair {
            first: i as usize,
            second: (i + 1 + k) as usize,
        }),
{
    let next = pairs_upto((i + 1) as nat, n);
    assert(next == pairs_upto(i, n) + pair_row(i, n));
    lemma_pairs_prefix((i + 1) as nat, n, n);
    assert(next[(pairs_upto(i, n).len() + k) as int] == pair_row(i, n)[k as int]);
}

/// The rows below `i + 1` have as many pairs as the rows below `i`, plus
/// row `i`.
proof fn lemma_row_len(i: nat, n: nat)
    requires
        i < n,
    ensures
        pairs_upto((i + 1) as nat, n).len() == pairs_upto(i, n).len() + (n - i - 1),
{
    assert(pairs_upto((i + 1) as nat, n) == pairs_upto(i, n) + pair_row(i, n));
}

/// The next action a cursor hands out, within the current sub-step.
#[derive(Clone, Copy, Debug, PartialEq, Eq, Structural)]
enum Stage {
    Reset { body: usize },
    Pair { first: usize, second: usize },
    Advance { body: usize },
}

/// Hands out the actions of a frame one at a time, in the order
/// [`frame_plan`] lists them, without holding the whole plan.
pub struct FrameCursor {
    bodies: usize,
    step_type: StepType,
    substeps: u32,
    completed: u32,
    stage: Stage,
}

impl FrameCursor {
    /// The whole plan this cursor walks through.
    pub closed spec fn plan(self) -> Seq<Action> {
        frame(self.bodies as nat, self.step_type, self.substeps as nat)
    }

    /// Index, within the current sub-step, of the next action.
    closed spec fn local(self) -> int {
        let n = self.bodies as nat;
        match self.stage {
            Stage::Reset { body } => body as int,
            Stage::Pair { first, second } => n + pairs_upto(first as nat, n).len() + (second - first - 1),
            Stage::Advance { body } => n + all_pairs(n).len() + body,
        }
    }

    /// Index, within the plan, of the next action; the plan's length once
    /// every action has been handed out.
    pub closed spec fn position(self) -> int {
        self.completed * substep(self.bodies as nat, self.step_type).len() + self.local()
    }

    /// The stage names a real action while sub-steps remain, and the first
    /// reset once they are all done.
    pub closed spec fn wf(self) -> bool {
        &&& self.completed <= self.substeps
        &&& self.completed < self.substeps ==> self.bodies > 0 && match self.stage {
            Stage::Reset { body } => body < self.bodies,
            Stage::Pair { first, second } => first < second && second < self.bodies,
            Stage::Advance { body } => body < self.bodies,
        }
        &&& self.completed == self.substeps ==> self.stage == (Stage::Reset { body: 0 })
    }

    /// The next action is the one at `position` of the plan, and positions
    /// stay within it.
    proof fn lemma_current(self)
        requires
            self.wf(),
        ensures
            0 <= self.position() <= self.plan().len(),
            self.position() == self.plan().len() <==> self.completed == self.substeps,
            self.completed < self.substeps ==> 0 <= self.local() < substep(
                self.bodies as nat,
                self.step_type,
            ).len(),
            self.completed < self.substeps ==> self.plan()[self.position()] == substep(
                self.bodies as nat,
                self.step_type,
            )[self.local()],
    {
        let n = self.bodies as nat;
        let s = self.step_type;
        let l = substep(n, s).len() as int;
        let c = self.completed as int;
        let k = self.substeps as int;
        crate::laws::lemma_frame_repeats(self.bodies, s, self.substeps as nat);
        crate::laws::lemma_substep_layout(self.bodies, s);
        let loc = self.local();
        if c < k {
            match self.stage {
                Stage::Pair { first, second } => {
                    lemma_pair_at(first as nat, (second - first - 1) as nat, n);
                },
                _ => {},
            }
            assert(0 <= loc < l);
            assert(c * l + loc < k * l) by (nonlinear_arith)
                requires
                    0 <= loc < l,
                    0 <= c < k,
            ;
            assert(0 <= c * l) by (nonlinear_arith)
                requires
                    0 <= c,
                    0 <= l,
            ;
            vstd::arithmetic::div_mod::lemma_fundamental_div_mod_converse(c * l + loc, l, c, loc);
        }
    }

    /// A cursor at the start of `substeps` sub-steps over `bodies` bodies.
    pub fn new(bodies: usize, step_type: StepType, substeps: u32) -> (r: FrameCursor)
        ensures
            r.wf(),
            r.plan() == frame(bodies as nat, step_type, substeps as nat),
            r.position() == 0,
    {
        let completed = if bodies == 0 {
            substeps
        } else {
            0
        };
        let r = FrameCursor { bodies, step_type, substeps, completed, stage: Stage::Reset { body: 0 } };
        proof {
            crate::laws::lemma_substep_layout(bodies, step_type);
            if bodies == 0 {
                assert(substep(0, step_type).len() == 0) by {
                    assert(all_pairs(0) == Seq::<Action>::empty());
                }
                assert(substeps * substep(0, step_type).len() == 0) by (nonlinear_arith)
                    requires
                        substep(0, step_type).len() == 0,
                ;
            }
        }
        r
    }

    /// Hands out the next action of the plan, or `None` once all of them
    /// have been handed out.
    pub fn next_action(&mut self) -> (r: Option<Action>)
        requires
            old(self).wf(),
        ensures
            final(self).wf(),
            final(self).plan() == old(self).plan(),
            0 <= final(self).position() <= final(self).plan().len(),
            old(self).position() < old(self).plan().len() ==> r == Some(old(self).plan()[old(self).position()])
                && final(self).position() == old(self).position() + 1,
            old(self).position() >= old(self).plan().len() ==> r.is_none() && final(self).position() == old(
                self,
            ).position(),
    {
        proof {
            old(self).lemma_current();
        }
        if self.completed >= self.substeps {
            return None;
        }
        let n = self.bodies;
        let ghost start = *old(self);
        let ghost l = substep(n as nat, self.step_type).len() as int;
        proof {
            crate::laws::lemma_substep_layout(n, self.step_type);
        }
        let action = match self.stage {
            Stage::Reset { body } => {
                if body + 1 < n {
                    self.stage = Stage::Reset { body: body + 1 };
                } else if n >= 2 {
                    self.stage = Stage::Pair { first: 0, second: 1 };
                } else {
                    self.stage = Stage::Advance { body: 0 };
                }
                Action::ResetAcceleration { body }
            },
            Stage::Pair { first, second } => {
                proof {
                    lemma_pair_at(first as nat, (second - first - 1) as nat, n as nat);
                    lemma_row_len(first as nat, n as nat);
                    lemma_pairs_prefix((first + 1) as nat, n as nat, n as nat);
                }
                if second + 1 < n {
                    self.stage = Stage::Pair { first, second: second + 1 };
                } else if first + 2 < n {
                    self.stage = Stage::Pair { first: first + 1, second: first + 2 };
                } else {
                    proof {
                        lemma_row_len((first + 1) as nat, n as nat);
                    }
                    self.stage = Stage::Advance { body: 0 };
                }
                Action::ApplyPair { first, second }
            },
            Stage::Advance { body } => {
                if body + 1 < n {
                    self.stage = Stage::Advance { body: body + 1 };
                } else {
                    self.completed = self.completed + 1;
                    self.stage = Stage::Reset { body: 0 };
                }
                Action::Integrate { body, step_type: self.step_type }
            },
        };
        proof {
            let c = start.completed as int;
            assert((c + 1) * l == c * l + l) by (nonlinear_arith);
            assert(self.completed == c + 1 ==> self.position() == c * l + l);
            if n < 2 {
                assert(2 * all_pairs(n as nat).len() == n * (n - 1)) by {
                    crate::laws::lemma_every_pair_once(n);
                }
                assert(all_pairs(n as nat).len() == 0) by (nonlinear_arith)
                    requires
                        n < 2,
                        2 * all_pairs(n as nat).len() == n * (n - 1),
                ;
            }
            assert(self.position() == start.position() + 1);
        }
        Some(action)
    }
}

/// The work of one frame over `n` bodies: `substeps` sub-steps, each
/// resetting every acceleration, applying every unordered pair once in
/// canonical order and advancing every body with `step_type`.
pub fn frame_plan(n: usize, step_type: StepType, substeps: u32) -> (r: Vec<Action>)
    ensures
        r@ == frame(n as nat, step_type, substeps as nat),
{
    let mut cursor = FrameCursor::new(n, step_type, substeps);
    let mut plan: Vec<Action> = Vec::new();
    loop
        invariant
            cursor.wf(),
            cursor.plan() == frame(n as nat, step_type, substeps as nat),
            0 <= cursor.position() <= cursor.plan().len(),
            plan@ == cursor.plan().take(cursor.position()),
        ensures
            plan@ == frame(n as nat, step_type, substeps as nat),
        decreases cursor.plan().len() - cursor.position(),
    {
        match cursor.next_action() {
            Some(a) => {
                plan.push(a);
                assert(plan@ =~= cursor.plan().take(cursor.position()));
            },
            None => {
                assert(plan@ =~= cursor.plan());
                break;
            },
        }
    }
    plan
}

/// The number of sub-steps a frame runs: the configured count, one when
/// none is configured.
pub open spec fn substep_count(configured: Option<u8>) -> nat {
    match configured {
        Some(k) => k as nat,
        None => 1,
    }
}

/// Resolves the configured number of sub-steps per frame.
pub fn substeps_per_frame(configured: Option<u8>) -> (r: u32)
    ensures
        r as nat == substep_count(configured),
{
    match configured {
        Some(k) => k as u32,
        None => 1,
    }
}

} // verus!
