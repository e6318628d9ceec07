//! The escape-time evaluator. The loop and its decisions are here; the orbit's
//! arithmetic and the escape test are supplied by the caller as closures.

use vstd::prelude::*;
use crate::color::{hsv_to_rgb_spec, rgb_convert, MixRatio, ColorRgb};

verus! {

/// The outcome of the escape-time iteration for one point.
#[derive(Clone, Copy, Debug, PartialEq, Eq, Structural)]
pub enum EscapeTime {
    /// The orbit was first found outside the escape radius at this check, counted from 1.
    Diverged(u16),
    /// The orbit stayed inside for every check.
    Bounded,
}

/// `orbit` starts at `start`, and each of its values is a result of `step` on the one before.
pub open spec fn is_orbit<S, G: Fn(S) -> S>(orbit: Seq<S>, start: S, step: G) -> bool {
    &&& orbit.len() > 0 ==> orbit[0] == start
    &&& forall|j: int|
        0 <= j < orbit.len() - 1 ==> #[trigger] step.ensures((orbit[j],), orbit[j + 1])
}

/// The first `n` values of `orbit` were tested and found inside.
pub open spec fn stays_inside<S, F: Fn(&S) -> bool>(orbit: Seq<S>, n: int, outside: F) -> bool {
    forall|j: int| 0 <= j < n ==> #[trigger] outside.ensures((&orbit[j],), false)
}

/// What the evaluator reports: `Diverged(i)` where some orbit is inside at the
/// first `i - 1` checks and outside at check `i <= max_iter`; `Bounded` where some
/// orbit is inside at all `max_iter` checks.
pub open spec fn escape_outcome<S, F: Fn(&S) -> bool, G: Fn(S) -> S>(
    r: EscapeTime,
    start: S,
    max_iter: u16,
    outside: F,
    step: G,
) -> bool {
    match r {
        EscapeTime::Diverged(i) => 1 <= i <= max_iter && exists|orbit: Seq<S>|
            #[trigger] is_orbit(orbit, start, step) && orbit.len() == i && stays_inside(
                orbit,
                i - 1,
                outside,
            ) && outside.ensures((&orbit[i - 1],), true),
        EscapeTime::Bounded => exists|orbit: Seq<S>|
            #[trigger] is_orbit(orbit, start, step) && orbit.len() == max_iter && stays_inside(
                orbit,
                max_iter as int,
                outside,
            ),
    }
}

/// Runs the escape-time iteration from `start`: at check `i = 1, 2, ..., max_iter`
/// it reports `Diverged(i)` if the current value is outside, and otherwise moves
/// to the next value with `step`. It reports `Bounded` if no check finds it outside.
pub fn escape_time<S, F, G>(start: S, max_iter: u16, outside: F, step: G) -> (r: EscapeTime) where
    F: Fn(&S) -> bool,
    G: Fn(S) -> S,

    requires
        forall|s: S| #[trigger] outside.requires((&s,)),
        forall|s: S| #[trigger] step.requires((s,)),
    ensures
        escape_outcome(r, start, max_iter, outside, step),
{
    if max_iter == 0 {
        assert(is_orbit(Seq::<S>::empty(), start, step));
        return EscapeTime::Bounded;
    }
    let ghost orbit: Seq<S> = seq![start];
    let mut c: S = start;
    let mut i: u16 = 1;
    assert(is_orbit(orbit, start, step));
    loop
        invariant
            forall|s: S| #[trigger] outside.requires((&s,)),
            forall|s: S| #[trigger] step.requires((s,)),
            1 <= i <= max_iter,
            orbit.len() == i,
            orbit[i - 1] == c,
            is_orbit(orbit, start, step),
            stays_inside(orbit, i - 1, outside),
        decreases max_iter - i,
    {
        let out = outside(&c);
        if out {
            assert(is_orbit(orbit, start, step));
            return EscapeTime::Diverged(i);
        }
        if i == max_iter {
            assert(stays_inside(orbit, max_iter as int, outside));
            return EscapeTime::Bounded;
        }
        let ghost before = orbit;
        c = step(c);
        proof {
            orbit = orbit.push(c);
            assert forall|j: int| 0 <= j < orbit.len() - 1 implies #[trigger] step.ensures(
                (orbit[j],),
                orbit[j + 1],
            ) by {
                if j < before.len() - 1 {
                    assert(orbit[j] == before[j] && orbit[j + 1] == before[j + 1]);
                }
            }
            assert forall|j: int| 0 <= j < i implies #[trigger] outside.ensures(
                (&orbit[j],),
                false,
            ) by {
                assert(orbit[j] == before[j]);
            }
        }
        i = i + 1;
    }
}

/// An orbit from a point that `step` leaves where it is never moves.
proof fn lemma_orbit_stays_at<S, G: Fn(S) -> S>(orbit: Seq<S>, start: S, step: G, j: int)
    requires
        0 <= j < orbit.len(),
        is_orbit(orbit, start, step),
        forall|s: S| #[trigger] step.ensures((start,), s) ==> s == start,
    ensures
        orbit[j] == start,
    decreases j,
{
    if j > 0 {
        lemma_orbit_stays_at(orbit, start, step, j - 1);
        let k = j - 1;
        assert(step.ensures((orbit[k],), orbit[k + 1]));
    }
}

/// A start that is inside and that `step` leaves where it is never diverges.
pub proof fn lemma_fixed_point_bounded<S, F: Fn(&S) -> bool, G: Fn(S) -> S>(
    r: EscapeTime,
    start: S,
    max_iter: u16,
    outside: F,
    step: G,
)
    requires
        escape_outcome(r, start, max_iter, outside, step),
        !outside.ensures((&start,), true),
        forall|s: S| #[trigger] step.ensures((start,), s) ==> s == start,
    ensures
        r == EscapeTime::Bounded,
{
    if let EscapeTime::Diverged(i) = r {
        let orbit = choose|orbit: Seq<S>|
            #[trigger] is_orbit(orbit, start, step) && orbit.len() == i && stays_inside(
                orbit,
                i - 1,
                outside,
            ) && outside.ensures((&orbit[i - 1],), true);
        lemma_orbit_stays_at(orbit, start, step, i - 1);
        assert(orbit[i - 1] == start);
    }
}

/// A start that is inside and whose every successor is outside diverges at the
/// second check, where the orbit is first tested after one step.
pub proof fn lemma_outside_after_one_step<S, F: Fn(&S) -> bool, G: Fn(S) -> S>(
    r: EscapeTime,
    start: S,
    max_iter: u16,
    outside: F,
    step: G,
)
    requires
        escape_outcome(r, start, max_iter, outside, step),
        max_iter >= 2,
        !outside.ensures((&start,), true),
        forall|s: S| #[trigger] step.ensures((start,), s) ==> !outside.ensures((&s,), false),
    ensures
        r == EscapeTime::Diverged(2),
{
    match r {
        EscapeTime::Diverged(i) => {
            let orbit = choose|orbit: Seq<S>|
                #[trigger] is_orbit(orbit, start, step) && orbit.len() == i && stays_inside(
                    orbit,
                    i - 1,
                    outside,
                ) && outside.ensures((&orbit[i - 1],), true);
            if i > 2 {
                let z: int = 0;
                assert(step.ensures((orbit[z],), orbit[z + 1]));
                assert(outside.ensures((&orbit[z + 1],), false));
            }
        },
        EscapeTime::Bounded => {
            let orbit = choose|orbit: Seq<S>|
                #[trigger] is_orbit(orbit, start, step) && orbit.len() == max_iter
                    && stays_inside(orbit, max_iter as int, outside);
            let z: int = 0;
            assert(step.ensures((orbit[z],), orbit[z + 1]));
            assert(outside.ensures((&orbit[z + 1],), false));
        },
    }
}

/// The colour of an escape-time outcome: black for a bounded point, and the
/// colour of hue `i mod 360` for one that diverged at check `i`.
pub fn escape_color(e: EscapeTime, m: MixRatio) -> (r: ColorRgb)
    requires
        m.wf(),
    ensures
        e == EscapeTime::Bounded ==> r == (0u8, 0u8, 0u8),
        e matches EscapeTime::Diverged(i) ==> r == hsv_to_rgb_spec(i as int % 360, m),
{
    match e {
        EscapeTime::Diverged(i) => rgb_convert(i, m),
        EscapeTime::Bounded => (0, 0, 0),
    }
}

} // verus!
