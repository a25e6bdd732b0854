//! Forces between pairs of particles, and sums that do not depend on the
//! order in which the neighbours are visited.
//!
//! A rule of attraction of strength `s` pulls a particle toward a neighbour
//! at distance `d` with a force of magnitude `s / d`; a rule of repulsion
//! pushes it away with the same magnitude. Each component is rounded toward
//! zero.

use crate::fixed::{
    dist2, distance_squared, div_toward_zero, divide_toward_zero, is_within, lemma_div_toward_zero,
    lemma_square_bound, within, Vec2, ONE,
};
use crate::rules::{ColorRule, ColorRuleTable, Interaction, TableView};
use crate::store::{Particle, StoreView};
use vstd::prelude::*;

verus! {

/// No component of the force of one neighbour is larger than this.
pub const MAX_PAIR_FORCE: i128 = 0x200_0000_0000;

/// A force in the plane, in fixed-point units.
pub struct Force {
    pub x: int,
    pub y: int,
}

/// The strength with which a rule pulls toward the neighbour: negative
/// where it pushes away, zero where it exerts no force.
pub open spec fn pull(rule: ColorRule) -> int {
    match rule.kind {
        Interaction::Attract => rule.strength as int,
        Interaction::Repel => -(rule.strength as int),
        _ => 0,
    }
}

/// One component of the force of a pull along a separation of `delta` in
/// that component, at a squared distance of `d2`.
pub open spec fn axis_force(pull: int, delta: int, d2: int) -> int {
    div_toward_zero(pull * ONE * delta, d2)
}

/// The force that the particle `q` exerts on the particle `p`: none unless
/// the rule of their colours attracts or repels, `q` lies within the rule's
/// radius, and the two are not in the same place.
pub open spec fn pair_force(t: TableView, p: Particle, q: Particle) -> Force {
    let rule = t.rule(p.color, q.color);
    let d2 = dist2(p.position, q.position);
    if d2 > 0 && within(p.position, q.position, rule.radius as int) {
        Force {
            x: axis_force(pull(rule), q.position.x - p.position.x, d2),
            y: axis_force(pull(rule), q.position.y - p.position.y, d2),
        }
    } else {
        Force { x: 0, y: 0 }
    }
}

/// The force that the slot `q` exerts on the live particle `id`.
pub open spec fn force_from(s: StoreView, t: TableView, id: int, q: int) -> Force {
    if q != id && s.is_live(q) {
        pair_force(t, s.particle(id), s.particle(q))
    } else {
        Force { x: 0, y: 0 }
    }
}

/// The horizontal component of `force_from`, as a function of the slot.
pub open spec fn force_x_from(s: StoreView, t: TableView, id: int) -> spec_fn(int) -> int {
    |q: int| force_from(s, t, id, q).x
}

/// The vertical component of `force_from`, as a function of the slot.
pub open spec fn force_y_from(s: StoreView, t: TableView, id: int) -> spec_fn(int) -> int {
    |q: int| force_from(s, t, id, q).y
}

/// The sum of `f` over the numbers below `n`.
pub open spec fn sum_below(f: spec_fn(int) -> int, n: int) -> int
    decreases n,
{
    if n <= 0 {
        0
    } else {
        sum_below(f, n - 1) + f(n - 1)
    }
}

/// The sum of `f` over the members of a list.
pub open spec fn sum_over(f: spec_fn(int) -> int, ids: Seq<usize>) -> int
    decreases ids.len(),
{
    if ids.len() == 0 {
        0
    } else {
        sum_over(f, ids.drop_last()) + f(ids.last() as int)
    }
}

/// The force on the live particle `id`: the sum of the forces that all
/// slots exert on it.
pub open spec fn net_force(s: StoreView, t: TableView, id: int) -> Force {
    Force {
        x: sum_below(force_x_from(s, t, id), s.slots.len() as int),
        y: sum_below(force_y_from(s, t, id), s.slots.len() as int),
    }
}

/// The squared distance does not depend on the direction, and a point
/// within a radius is within every larger one.
pub proof fn lemma_within_symmetric_monotone(a: Vec2, b: Vec2, small: int, large: int)
    requires
        small <= large,
    ensures
        dist2(a, b) == dist2(b, a),
        within(a, b, small) == within(b, a, small),
        within(a, b, small) ==> within(a, b, large),
{
    let dx = b.x - a.x;
    let dy = b.y - a.y;
    assert(dx * dx == (-dx) * (-dx)) by (nonlinear_arith);
    assert(dy * dy == (-dy) * (-dy)) by (nonlinear_arith);
    if 0 <= small {
        assert(small * small <= large * large) by (nonlinear_arith)
            requires
                0 <= small <= large,
        ;
    }
}

/// No component of a pair's force exceeds the strength of the pull.
pub proof fn lemma_axis_force_bound(pull: int, delta: int, other: int)
    requires
        -0x8000_0000 <= pull <= 0x8000_0000,
        delta * delta + other * other > 0,
    ensures
        -MAX_PAIR_FORCE <= axis_force(pull, delta, delta * delta + other * other) <= MAX_PAIR_FORCE,
        axis_force(-pull, delta, delta * delta + other * other) == -axis_force(
            pull,
            delta,
            delta * delta + other * other,
        ),
        axis_force(pull, -delta, delta * delta + other * other) == -axis_force(
            pull,
            delta,
            delta * delta + other * other,
        ),
{
    let d2 = delta * delta + other * other;
    let a = pull * ONE * delta;
    let bound = 0x8000_0000 * ONE;
    assert(-(bound * d2) <= a <= bound * d2) by (nonlinear_arith)
        requires
            -0x8000_0000 <= pull <= 0x8000_0000,
            d2 == delta * delta + other * other,
            a == pull * ONE * delta,
            bound == 0x8000_0000 * ONE,
            ONE == 1024,
    ;
    lemma_div_toward_zero(a, d2);
    if a >= 0 {
        assert(a / d2 <= bound) by (nonlinear_arith)
            requires
                0 <= a <= bound * d2,
                d2 > 0,
        ;
    } else {
        assert((-a) / d2 <= bound) by (nonlinear_arith)
            requires
                0 <= -a <= bound * d2,
                d2 > 0,
        ;
    }
    assert((-pull) * ONE * delta == -a) by (nonlinear_arith)
        requires
            a == pull * ONE * delta,
    ;
    assert(pull * ONE * (-delta) == -a) by (nonlinear_arith)
        requires
            a == pull * ONE * delta,
    ;
}

/// Taking one member out of a list takes its term out of the sum.
pub proof fn lemma_sum_over_remove(f: spec_fn(int) -> int, ids: Seq<usize>, k: int)
    requires
        0 <= k < ids.len(),
    ensures
        sum_over(f, ids) == sum_over(f, ids.remove(k)) + f(ids[k] as int),
    decreases ids.len(),
{
    let last = ids.len() - 1;
    if k == last {
        assert(ids.remove(k) =~= ids.drop_last());
    } else {
        lemma_sum_over_remove(f, ids.drop_last(), k);
        assert(ids.remove(k).drop_last() =~= ids.drop_last().remove(k));
        assert(ids.remove(k).last() == ids.last());
    }
}

/// A list without repetition stays one when a member is taken out, and
/// keeps every other member.
pub proof fn lemma_remove_member(ids: Seq<usize>, k: int)
    requires
        0 <= k < ids.len(),
        ids.no_duplicates(),
    ensures
        ids.remove(k).no_duplicates(),
        !ids.remove(k).contains(ids[k]),
        forall|v: usize| v != ids[k] && ids.contains(v) ==> #[trigger] ids.remove(k).contains(v),
        forall|i: int| 0 <= i < ids.remove(k).len() ==> ids.contains(#[trigger] ids.remove(k)[i]),
{
    let rest = ids.remove(k);
    assert forall|i: int| 0 <= i < rest.len() implies rest[i] == ids[if i < k {
        i
    } else {
        i + 1
    }] by {}
    assert forall|i: int, j: int| 0 <= i < j < rest.len() implies rest[i] != rest[j] by {
        let a = if i < k {
            i
        } else {
            i + 1
        };
        let b = if j < k {
            j
        } else {
            j + 1
        };
        assert(rest[i] == ids[a] && rest[j] == ids[b]);
    }
    if rest.contains(ids[k]) {
        let i = choose|i: int| 0 <= i < rest.len() && rest[i] == ids[k];
        let a = if i < k {
            i
        } else {
            i + 1
        };
        assert(rest[i] == ids[a]);
    }
    assert forall|v: usize| v != ids[k] && ids.contains(v) implies #[trigger] rest.contains(v) by {
        let i = choose|i: int| 0 <= i < ids.len() && ids[i] == v;
        if i < k {
            assert(rest[i] == v);
        } else {
            assert(rest[i - 1] == v);
        }
    }
    assert forall|i: int| 0 <= i < rest.len() implies ids.contains(#[trigger] rest[i]) by {
        let a = if i < k {
            i
        } else {
            i + 1
        };
        assert(ids[a] == rest[i]);
    }
}

/// A list without repetition that holds every number below `n` at which
/// `f` is not zero, and no number from `n` on, sums to the same as all the
/// numbers below `n`, whatever its order.
pub proof fn lemma_sum_over_support(f: spec_fn(int) -> int, ids: Seq<usize>, n: int)
    requires
        0 <= n <= usize::MAX + 1,
        ids.no_duplicates(),
        forall|i: int| 0 <= i < ids.len() ==> ids[i] < n,
        forall|q: usize| q < n && f(q as int) != 0 ==> #[trigger] ids.contains(q),
    ensures
        sum_over(f, ids) == sum_below(f, n),
    decreases n,
{
    if n == 0 {
        if ids.len() > 0 {
            assert(ids[0] < 0);
        }
    } else {
        let top = (n - 1) as usize;
        if ids.contains(top) {
            let k = choose|k: int| 0 <= k < ids.len() && ids[k] == top;
            let rest = ids.remove(k);
            lemma_sum_over_remove(f, ids, k);
            lemma_remove_member(ids, k);
            assert forall|i: int| 0 <= i < rest.len() implies rest[i] < n - 1 by {
                assert(ids.contains(rest[i]));
                assert(rest.contains(rest[i]));
            }
            lemma_sum_over_support(f, rest, n - 1);
        } else {
            assert forall|i: int| 0 <= i < ids.len() implies ids[i] < n - 1 by {
                assert(ids.contains(ids[i]));
            }
            lemma_sum_over_support(f, ids, n - 1);
        }
    }
}

/// The force that the particle `q` exerts on the particle `p`.
pub fn pair_force_of(table: &ColorRuleTable, p: Particle, q: Particle) -> (f: (i128, i128))
    ensures
        f.0 == pair_force(table@, p, q).x,
        f.1 == pair_force(table@, p, q).y,
        -MAX_PAIR_FORCE <= f.0 <= MAX_PAIR_FORCE,
        -MAX_PAIR_FORCE <= f.1 <= MAX_PAIR_FORCE,
{
    let rule: ColorRule = table.rule_for(p.color, q.color);
    let d2: i128 = distance_squared(p.position, q.position);
    if d2 == 0 || !is_within(p.position, q.position, rule.radius) {
        return (0, 0);
    }
    let strength: i128 = match rule.kind {
        Interaction::Attract => rule.strength as i128,
        Interaction::Repel => -(rule.strength as i128),
        _ => 0,
    };
    let dx: i128 = q.position.x as i128 - p.position.x as i128;
    let dy: i128 = q.position.y as i128 - p.position.y as i128;
    proof {
        lemma_axis_force_bound(strength as int, dx as int, dy as int);
        lemma_axis_force_bound(strength as int, dy as int, dx as int);
        lemma_square_bound(dx as int);
        lemma_square_bound(dy as int);
        assert(-0x200_0000_0000 <= strength * (ONE as int) <= 0x200_0000_0000);
        assert(-0x1_0000_0000_0000_0000_0000 <= strength * (ONE as int) * dx
            <= 0x1_0000_0000_0000_0000_0000) by (nonlinear_arith)
            requires
                -0x200_0000_0000 <= strength * (ONE as int) <= 0x200_0000_0000,
                -0x1_0000_0000 < dx < 0x1_0000_0000,
        ;
        assert(-0x1_0000_0000_0000_0000_0000 <= strength * (ONE as int) * dy
            <= 0x1_0000_0000_0000_0000_0000) by (nonlinear_arith)
            requires
                -0x200_0000_0000 <= strength * (ONE as int) <= 0x200_0000_0000,
                -0x1_0000_0000 < dy < 0x1_0000_0000,
        ;
    }
    let scaled: i128 = strength * (ONE as i128);
    let fx: i128 = divide_toward_zero(scaled * dx, d2);
    let fy: i128 = divide_toward_zero(scaled * dy, d2);
    (fx, fy)
}

} // verus!
