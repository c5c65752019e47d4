//! What holds of every frame plan, for every number of bodies.
use vstd::prelude::*;
use crate::integration::StepType;
use crate::schedule::{
    Action,
    all_pairs,
    evaluates_pair,
    frame,
    integrations,
    is_pair_below,
    lemma_pairs_upto,
    pair_precedes,
    pairs_ascending,
    pairs_upto,
    pair_row,
    resets,
    substep,
};

verus! {

/// `a` stands at exactly one place in `s`.
pub open spec fn occurs_once(s: Seq<Action>, a: Action) -> bool {
    &&& exists|k: int| 0 <= k < s.len() && #[trigger] s[k] == a
    &&& forall|p: int, q: int|
        0 <= p < s.len() && 0 <= q < s.len() && #[trigger] s[p] == a && #[trigger] s[q] == a ==> p == q
}

/// The phase an action belongs to: zeroing, force accumulation, integration.
pub open spec fn phase(a: Action) -> int {
    match a {
        Action::ResetAcceleration { .. } => 0,
        Action::ApplyPair { .. } => 1,
        Action::Integrate { .. } => 2,
    }
}

/// Every body that `a` names is below `n`.
pub open spec fn names_bodies_below(a: Action, n: nat) -> bool {
    match a {
        Action::ResetAcceleration { body } => body < n,
        Action::ApplyPair { first, second } => first < n && second < n,
        Action::Integrate { body, .. } => body < n,
    }
}

/// The number of pair evaluations: twice it is `n * (n - 1)`.
proof fn lemma_pairs_upto_len(i: nat, n: nat)
    requires
        i <= n,
    ensures
        2 * pairs_upto(i, n).len() == i * (2 * n - i - 1),
    decreases i,
{
    if i > 0 {
        let h = (i - 1) as nat;
        lemma_pairs_upto_len(h, n);
        assert(pair_row(h, n).len() == n - h - 1);
        assert(i * (2 * n - i - 1) == h * (2 * n - h - 1) + 2 * (n - h - 1)) by (nonlinear_arith)
            requires
                i == h + 1,
        ;
    }
}

/// Each unordered pair of distinct bodies is evaluated exactly once per
/// sub-step, no other pair is evaluated, and there are `n * (n - 1) / 2`
/// evaluations.
pub proof fn lemma_every_pair_once(n: usize)
    ensures
        2 * all_pairs(n as nat).len() == n * (n - 1),
        forall|k: int|
            0 <= k < all_pairs(n as nat).len() ==> #[trigger] is_pair_below(all_pairs(n as nat)[k], n as nat),
        forall|a: usize, b: usize|
            a < b && b < n ==> #[trigger] occurs_once(all_pairs(n as nat), Action::ApplyPair { first: a, second: b }),
{
    lemma_pairs_upto(n as nat, n as nat);
    lemma_pairs_upto_len(n as nat, n as nat);
    let s = all_pairs(n as nat);
    assert forall|a: usize, b: usize| a < b && b < n implies #[trigger] occurs_once(
        s,
        Action::ApplyPair { first: a, second: b },
    ) by {
        assert(evaluates_pair(s, a, b));
        let x = Action::ApplyPair { first: a, second: b };
        assert forall|p: int, q: int|
            0 <= p < s.len() && 0 <= q < s.len() && #[trigger] s[p] == x && #[trigger] s[q] == x implies p == q by {
            if p < q {
                assert(pair_precedes(s[p], s[q]));
            } else if q < p {
                assert(pair_precedes(s[q], s[p]));
            }
        }
    }
}

/// Pairs are evaluated in ascending order of the first body, and for equal
/// first bodies in ascending order of the second.
pub proof fn lemma_canonical_pair_order(n: usize)
    ensures
        pairs_ascending(all_pairs(n as nat)),
{
    lemma_pairs_upto(n as nat, n as nat);
}

/// Where each action of a sub-step comes from: the first `n` zero the
/// accelerations, the pair evaluations follow, the last `n` integrate.
pub(crate) proof fn lemma_substep_layout(n: usize, s: StepType)
    ensures
        substep(n as nat, s).len() == 2 * n + all_pairs(n as nat).len(),
        forall|k: int|
            0 <= k < n ==> #[trigger] substep(n as nat, s)[k] == (Action::ResetAcceleration { body: k as usize }),
        forall|k: int|
            n <= k < n + all_pairs(n as nat).len() ==> #[trigger] substep(n as nat, s)[k] == all_pairs(
                n as nat,
            )[k - n],
        forall|k: int|
            n + all_pairs(n as nat).len() <= k < 2 * n + all_pairs(n as nat).len() ==> #[trigger] substep(
                n as nat,
                s,
            )[k] == (Action::Integrate { body: (k - n - all_pairs(n as nat).len()) as usize, step_type: s }),
{
    let r = resets(n as nat);
    let p = all_pairs(n as nat);
    let i = integrations(n as nat, s);
    let sub = substep(n as nat, s);
    assert(sub == r + p + i);
    assert forall|k: int| 0 <= k < n implies #[trigger] sub[k] == (Action::ResetAcceleration {
        body: k as usize,
    }) by {
        assert(sub[k] == r[k]);
    }
    assert forall|k: int| n <= k < n + p.len() implies #[trigger] sub[k] == p[k - n] by {
        assert(sub[k] == (r + p)[k]);
    }
    assert forall|k: int| n + p.len() <= k < 2 * n + p.len() implies #[trigger] sub[k] == (
    Action::Integrate { body: (k - n - p.len()) as usize, step_type: s }) by {
        assert(sub[k] == i[k - n - p.len()]);
    }
}

/// Within a sub-step every acceleration is zeroed before any pair is
/// evaluated, and every pair is evaluated before any body is advanced; no
/// action names a body outside the collection.
pub proof fn lemma_phases_in_order(n: usize, s: StepType)
    ensures
        forall|p: int, q: int|
            0 <= p < q < substep(n as nat, s).len() ==> phase(#[trigger] substep(n as nat, s)[p]) <= phase(
                #[trigger] substep(n as nat, s)[q],
            ),
        forall|k: int|
            0 <= k < substep(n as nat, s).len() ==> names_bodies_below(
                #[trigger] substep(n as nat, s)[k],
                n as nat,
            ),
{
    lemma_substep_layout(n, s);
    lemma_every_pair_once(n);
    let sub = substep(n as nat, s);
    let m = all_pairs(n as nat).len();
    assert forall|k: int| 0 <= k < sub.len() implies phase(#[trigger] sub[k]) == (if k < n {
        0int
    } else if k < n + m {
        1int
    } else {
        2int
    }) && names_bodies_below(sub[k], n as nat) by {
        if n <= k < n + m {
            assert(is_pair_below(all_pairs(n as nat)[k - n], n as nat));
        }
    }
    assert forall|p: int, q: int| 0 <= p < q < sub.len() implies phase(#[trigger] sub[p]) <= phase(
        #[trigger] sub[q],
    ) by {
        assert(phase(sub[p]) == (if p < n {
            0int
        } else if p < n + m {
            1int
        } else {
            2int
        }));
        assert(phase(sub[q]) == (if q < n {
            0int
        } else if q < n + m {
            1int
        } else {
            2int
        }));
    }
}

/// Within a sub-step each body's acceleration is zeroed exactly once and
/// each body is advanced exactly once, always with the chosen scheme.
pub proof fn lemma_each_body_once(n: usize, s: StepType)
    ensures
        forall|b: usize|
            b < n ==> #[trigger] occurs_once(substep(n as nat, s), Action::ResetAcceleration { body: b }),
        forall|b: usize|
            b < n ==> #[trigger] occurs_once(substep(n as nat, s), Action::Integrate { body: b, step_type: s }),
        forall|k: int|
            0 <= k < substep(n as nat, s).len() && (#[trigger] substep(n as nat, s)[k]) is Integrate
                ==> substep(n as nat, s)[k]->step_type == s,
{
    lemma_substep_layout(n, s);
    lemma_every_pair_once(n);
    let sub = substep(n as nat, s);
    let m = all_pairs(n as nat).len();
    assert forall|k: int| n <= k < n + m implies (#[trigger] sub[k]) is ApplyPair by {
        assert(is_pair_below(all_pairs(n as nat)[k - n], n as nat));
    }
    assert forall|b: usize| b < n implies #[trigger] occurs_once(
        sub,
        Action::ResetAcceleration { body: b },
    ) by {
        let x = Action::ResetAcceleration { body: b };
        assert(sub[b as int] == x);
        assert forall|p: int, q: int|
            0 <= p < sub.len() && 0 <= q < sub.len() && #[trigger] sub[p] == x && #[trigger] sub[q] == x implies p
                == q by {
            assert(p < n);
            assert(q < n);
        }
    }
    assert forall|b: usize| b < n implies #[trigger] occurs_once(
        sub,
        Action::Integrate { body: b, step_type: s },
    ) by {
        let x = Action::Integrate { body: b, step_type: s };
        assert(sub[n + m + b] == x);
        assert forall|p: int, q: int|
            0 <= p < sub.len() && 0 <= q < sub.len() && #[trigger] sub[p] == x && #[trigger] sub[q] == x implies p
                == q by {
            assert(p >= n + m);
            assert(q >= n + m);
        }
    }
}

/// A frame of `k` sub-steps is the sub-step repeated `k` times: it has `k`
/// times its length, and its action at `t` is the sub-step's action at
/// `t` modulo that length.
pub proof fn lemma_frame_repeats(n: usize, s: StepType, k: nat)
    ensures
        frame(n as nat, s, k).len() == k * substep(n as nat, s).len(),
        forall|t: int|
            0 <= t < frame(n as nat, s, k).len() ==> #[trigger] frame(n as nat, s, k)[t] == substep(
                n as nat,
                s,
            )[t % substep(n as nat, s).len() as int],
    decreases k,
{
    if k > 0 {
        let h = (k - 1) as nat;
        lemma_frame_repeats(n, s, h);
        let sub = substep(n as nat, s);
        let l = sub.len() as int;
        let prev = frame(n as nat, s, h);
        let f = frame(n as nat, s, k);
        assert(f == prev + sub);
        assert(k * l == h * l + l) by (nonlinear_arith)
            requires
                k == h + 1,
        ;
        assert(f.len() == k * l);
        assert forall|t: int| 0 <= t < f.len() implies #[trigger] f[t] == sub[t % l] by {
            if t < prev.len() {
                assert(f[t] == prev[t]);
            } else {
                vstd::arithmetic::div_mod::lemma_fundamental_div_mod_converse(t, l, h as int, t - h * l);
                assert(f[t] == sub[t - prev.len()]);
            }
        }
    } else {
        assert(k * substep(n as nat, s).len() == 0);
    }
}

/// No body ever interacts with itself; a frame over at most one body
/// evaluates no pair at all, and a frame over no bodies does nothing.
pub proof fn lemma_no_self_interaction(n: usize, s: StepType, k: nat)
    ensures
        forall|t: int|
            0 <= t < frame(n as nat, s, k).len() && (#[trigger] frame(n as nat, s, k)[t]) is ApplyPair
                ==> frame(n as nat, s, k)[t]->first < frame(n as nat, s, k)[t]->second,
        n <= 1 ==> forall|t: int|
            0 <= t < frame(n as nat, s, k).len() ==> !((#[trigger] frame(n as nat, s, k)[t]) is ApplyPair),
        n == 0 ==> frame(n as nat, s, k).len() == 0,
{
    lemma_frame_repeats(n, s, k);
    lemma_phases_in_order(n, s);
    lemma_substep_layout(n, s);
    lemma_every_pair_once(n);
    let sub = substep(n as nat, s);
    let m = all_pairs(n as nat).len();
    let f = frame(n as nat, s, k);
    if n <= 1 {
        assert(m == 0) by (nonlinear_arith)
            requires
                n <= 1,
                2 * m == n * (n - 1),
        ;
    }
    assert forall|t: int| 0 <= t < f.len() && (#[trigger] f[t]) is ApplyPair implies f[t]->first
        < f[t]->second by {
        let u = t % sub.len() as int;
        assert(f[t] == sub[u]);
        if n <= u < n + m {
            assert(is_pair_below(all_pairs(n as nat)[u - n], n as nat));
        }
    }
    if n <= 1 {
        assert forall|t: int| 0 <= t < f.len() implies !((#[trigger] f[t]) is ApplyPair) by {
            let u = t % sub.len() as int;
            assert(f[t] == sub[u]);
        }
    }
    if n == 0 {
        assert(k * sub.len() == 0) by (nonlinear_arith)
            requires
                sub.len() == 0,
        ;
    }
}

} // verus!
