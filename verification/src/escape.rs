//! The bounded orbit test and the grey level that an escape time is shown as.

use vstd::prelude::*;

verus! {

/// The brightest grey level; an orbit that escapes in round 0 is shown with it.
pub const WHITE: u8 = 255;

/// `states` and `escaped` record a run of `step` on the point `c`: the run begins
/// in `start`, and round `k` leads from `states[k]` to `states[k + 1]` and
/// reports `escaped[k]`.
pub open spec fn is_orbit<C, S: Fn(C, C) -> (C, bool)>(
    step: S,
    c: C,
    start: C,
    states: Seq<C>,
    escaped: Seq<bool>,
) -> bool {
    &&& states.len() == escaped.len() + 1
    &&& states[0] == start
    &&& forall|k: int|
        0 <= k < escaped.len() ==> step.ensures(
            (c, states[k]),
            (states[k + 1], #[trigger] escaped[k]),
        )
}

/// `time` is what a run that reported `escaped`, round by round, amounts to
/// under the cap `limit`: the run stopped at the first round that escaped, whose
/// number is the escape time, or it went through all `limit` rounds without one.
pub open spec fn first_escape(escaped: Seq<bool>, limit: u32, time: Option<u32>) -> bool {
    match time {
        Some(i) => {
            &&& i < limit
            &&& escaped.len() == i + 1
            &&& escaped[i as int]
            &&& forall|k: int| 0 <= k < i ==> !escaped[k]
        },
        None => {
            &&& escaped.len() == limit
            &&& forall|k: int| 0 <= k < limit ==> !escaped[k]
        },
    }
}

/// `time` is a possible escape time of the point `c`: some run of `step` from
/// `start` amounts to it under the cap `limit`.
pub open spec fn escapes_in<C, S: Fn(C, C) -> (C, bool)>(
    step: S,
    c: C,
    start: C,
    limit: u32,
    time: Option<u32>,
) -> bool {
    exists|states: Seq<C>, escaped: Seq<bool>|
        is_orbit(step, c, start, states, escaped) && first_escape(escaped, limit, time)
}

/// `step` may be called on `start`, and on every state that it returns without
/// reporting an escape.
pub open spec fn can_iterate<C, S: Fn(C, C) -> (C, bool)>(step: S, c: C, start: C) -> bool {
    &&& step.requires((c, start))
    &&& forall|z: C, next: C|
        step.requires((c, z)) && #[trigger] step.ensures((c, z), (next, false))
            ==> step.requires((c, next))
}

/// Follows the orbit of the point `c` for at most `limit` rounds.
///
/// Each round calls `step` on `c` and the current state, beginning with `start`;
/// `step` returns the next state and whether it lies outside the escape radius.
/// The result is the number of the first round that escaped, counted from 0, or
/// `None` if `limit` rounds passed without an escape. For the Mandelbrot set
/// `start` is zero and `step` squares the state, adds `c` and compares the
/// squared norm of the sum with four.
pub fn escape_time<C: Copy, S: Fn(C, C) -> (C, bool)>(
    c: C,
    limit: u32,
    start: C,
    step: &S,
) -> (time: Option<u32>)
    requires
        limit > 0 ==> can_iterate(*step, c, start),
    ensures
        escapes_in(*step, c, start, limit, time),
{
    let ghost mut states: Seq<C> = seq![start];
    let ghost mut escaped: Seq<bool> = Seq::empty();
    let mut z = start;
    let mut i: u32 = 0;
    while i < limit
        invariant
            i <= limit,
            escaped.len() == i,
            is_orbit(*step, c, start, states, escaped),
            states[i as int] == z,
            forall|k: int| 0 <= k < i ==> !escaped[k],
            limit > 0 ==> can_iterate(*step, c, start),
            i < limit ==> step.requires((c, z)),
        decreases limit - i,
    {
        let (next, out) = step(c, z);
        proof {
            let before = escaped;
            states = states.push(next);
            escaped = escaped.push(out);
            assert forall|k: int| 0 <= k < escaped.len() implies step.ensures(
                (c, states[k]),
                (states[k + 1], #[trigger] escaped[k]),
            ) by {
                if k < i {
                    assert(before[k] == escaped[k]);
                }
            }
            assert(is_orbit(*step, c, start, states, escaped));
        }
        if out {
            return Some(i);
        }
        z = next;
        i += 1;
    }
    None
}

/// `step` returns one result for each point and state.
pub open spec fn is_deterministic_step<C, S: Fn(C, C) -> (C, bool)>(step: S) -> bool {
    forall|c: C, z: C, first: (C, bool), second: (C, bool)|
        #[trigger] step.ensures((c, z), first) && #[trigger] step.ensures((c, z), second) ==> first
            == second
}

/// Two runs of a deterministic `step` from the same start agree for as long as
/// both last: in the state before round `k` and in what every earlier round
/// reported.
proof fn lemma_orbits_agree<C, S: Fn(C, C) -> (C, bool)>(
    step: S,
    c: C,
    start: C,
    first: (Seq<C>, Seq<bool>),
    second: (Seq<C>, Seq<bool>),
    k: int,
)
    requires
        is_deterministic_step(step),
        is_orbit(step, c, start, first.0, first.1),
        is_orbit(step, c, start, second.0, second.1),
        0 <= k <= first.1.len(),
        k <= second.1.len(),
    ensures
        first.0[k] == second.0[k],
        forall|j: int| 0 <= j < k ==> first.1[j] == second.1[j],
    decreases k,
{
    if k > 0 {
        lemma_orbits_agree(step, c, start, first, second, k - 1);
        assert(step.ensures((c, first.0[k - 1]), (first.0[k], first.1[k - 1])));
        assert(step.ensures((c, second.0[k - 1]), (second.0[k], second.1[k - 1])));
    }
}

/// A deterministic `step` gives every point exactly one escape time: two calls
/// of [`escape_time`] with the same arguments return the same result.
pub proof fn lemma_escape_time_unique<C, S: Fn(C, C) -> (C, bool)>(
    step: S,
    c: C,
    start: C,
    limit: u32,
    first: Option<u32>,
    second: Option<u32>,
)
    requires
        is_deterministic_step(step),
        escapes_in(step, c, start, limit, first),
        escapes_in(step, c, start, limit, second),
    ensures
        first == second,
{
    let (s1, e1) = choose|s: Seq<C>, e: Seq<bool>|
        is_orbit(step, c, start, s, e) && first_escape(e, limit, first);
    let (s2, e2) = choose|s: Seq<C>, e: Seq<bool>|
        is_orbit(step, c, start, s, e) && first_escape(e, limit, second);
    let shared = if e1.len() <= e2.len() {
        e1.len() as int
    } else {
        e2.len() as int
    };
    lemma_orbits_agree(step, c, start, (s1, e1), (s2, e2), shared);
    if e1.len() < e2.len() {
        assert(e1[e1.len() - 1] == e2[e1.len() - 1]);
    } else if e2.len() < e1.len() {
        assert(e1[e2.len() - 1] == e2[e2.len() - 1]);
    } else if e1.len() > 0 {
        assert(e1[e1.len() - 1] == e2[e1.len() - 1]);
    }
}

/// A point whose first round already reports an escape has escape time 0 under
/// every cap of at least one round.
pub proof fn lemma_escape_in_first_round<C, S: Fn(C, C) -> (C, bool)>(
    step: S,
    c: C,
    start: C,
    limit: u32,
    time: Option<u32>,
)
    requires
        limit >= 1,
        forall|next: C, out: bool| #[trigger] step.ensures((c, start), (next, out)) ==> out,
        escapes_in(step, c, start, limit, time),
    ensures
        time == Some(0u32),
{
    let (s, e) = choose|s: Seq<C>, e: Seq<bool>|
        is_orbit(step, c, start, s, e) && first_escape(e, limit, time);
    assert(step.ensures((c, s[0]), (s[1], e[0])));
}

/// An orbit that stays where nothing escapes has no escape time, whatever the
/// cap: if `start` lies in the set `inside`, and every round from a state of
/// `inside` leads to a state of `inside` and reports no escape, the result of
/// [`escape_time`] is `None`.
pub proof fn lemma_never_escapes<C, S: Fn(C, C) -> (C, bool)>(
    step: S,
    c: C,
    start: C,
    limit: u32,
    inside: spec_fn(C) -> bool,
    time: Option<u32>,
)
    requires
        inside(start),
        forall|z: C, next: C, out: bool|
            inside(z) && #[trigger] step.ensures((c, z), (next, out)) ==> inside(next) && !out,
        escapes_in(step, c, start, limit, time),
    ensures
        time is None,
{
    let (s, e) = choose|s: Seq<C>, e: Seq<bool>|
        is_orbit(step, c, start, s, e) && first_escape(e, limit, time);
    if let Some(i) = time {
        lemma_orbit_stays_inside(step, c, start, inside, s, e, i as int);
        assert(step.ensures((c, s[i as int]), (s[i + 1], e[i as int])));
    }
}

/// The state before round `k` of a run lies in a set that holds the start and
/// that no round leaves.
proof fn lemma_orbit_stays_inside<C, S: Fn(C, C) -> (C, bool)>(
    step: S,
    c: C,
    start: C,
    inside: spec_fn(C) -> bool,
    states: Seq<C>,
    escaped: Seq<bool>,
    k: int,
)
    requires
        inside(start),
        forall|z: C, next: C, out: bool|
            inside(z) && #[trigger] step.ensures((c, z), (next, out)) ==> inside(next) && !out,
        is_orbit(step, c, start, states, escaped),
        0 <= k <= escaped.len(),
    ensures
        inside(states[k]),
    decreases k,
{
    if k > 0 {
        lemma_orbit_stays_inside(step, c, start, inside, states, escaped, k - 1);
        assert(step.ensures((c, states[k - 1]), (states[k], escaped[k - 1])));
    }
}

/// The grey level of an escape time.
///
/// A point that never escaped is black. A point that escaped in round `i` is
/// `i` steps darker than white, and black once `i` reaches 255 or more.
pub open spec fn intensity_of(time: Option<u32>) -> u8 {
    match time {
        None => 0u8,
        Some(i) => if i <= 255 {
            (255 - i) as u8
        } else {
            0u8
        },
    }
}

/// Turns an escape time into a grey level, saturating at black.
pub fn intensity(time: Option<u32>) -> (level: u8)
    ensures
        level == intensity_of(time),
{
    match time {
        None => 0,
        Some(i) => if i <= 255 {
            WHITE - i as u8
        } else {
            0
        },
    }
}

} // verus!
