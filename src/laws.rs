//! Facts about the automaton that relate several steps, cells or calls.

use crate::universe::{
    births, cell_ok, deaths, frame_pixels, is_alive, live_count, neighbor_of, populated_view, rule,
    step_view, stepped, Cell, UniverseView, ALIVE, STALL_LIMIT,
};
use vstd::prelude::*;

verus! {

/// Light stays within `[0, ALIVE]` and hues within `[0, 360)` under the rule;
/// a cell that is lit (light at least one) stays lit, and a cell that was
/// alive is lit afterwards.
pub proof fn lemma_rule_keeps_light_in_range(c: Cell, live: nat, blended: u16)
    requires
        cell_ok(c),
    ensures
        cell_ok(rule(c, live, blended).0),
        c.light >= 1 ==> rule(c, live, blended).0.light >= 1,
        is_alive(c) ==> rule(c, live, blended).0.light >= 1,
{
}

/// Whether the step from `v` ends in a reseed.
pub open spec fn reseeds(v: UniverseView, blended: Seq<u16>) -> bool {
    let w = v.width as int;
    let h = v.height as int;
    let b = births(v.current(), w, h, blended, v.size());
    let d = deaths(v.current(), w, h, blended, v.size());
    b == d && v.stall_count + 1 >= STALL_LIMIT
}

/// Across a step that does not reseed, every cell that was lit stays lit, every
/// cell that was alive becomes lit, and all lights stay at most `ALIVE`.
pub proof fn lemma_step_keeps_lit_cells_lit(v: UniverseView, blended: Seq<u16>, reseed: Seq<u32>)
    requires
        v.wf(),
        blended.len() == v.size(),
        !reseeds(v, blended),
    ensures
        forall|k: int|
            0 <= k < v.size() ==> {
                let before = #[trigger] v.current()[k];
                let after = step_view(v, blended, reseed).current()[k];
                &&& after.light <= ALIVE
                &&& after.hue < 360
                &&& (before.light >= 1 ==> after.light >= 1)
                &&& (is_alive(before) ==> after.light >= 1)
            },
{
    let w = v.width as int;
    let h = v.height as int;
    let nv = step_view(v, blended, reseed);
    assert forall|k: int| 0 <= k < v.size() implies {
        let before = #[trigger] v.current()[k];
        let after = nv.current()[k];
        &&& after.light <= ALIVE
        &&& after.hue < 360
        &&& (before.light >= 1 ==> after.light >= 1)
        &&& (is_alive(before) ==> after.light >= 1)
    } by {
        assert(nv.current()[k] == stepped(v.current(), w, h, blended, k).0);
        lemma_rule_keeps_light_in_range(
            v.current()[k],
            live_count(v.current(), w, h, k / h, k % h),
            blended[k],
        );
    }
}

/// The grid has no edge: each corner has the opposite corner as a diagonal
/// neighbour.
pub proof fn lemma_corners_are_adjacent(w: int, h: int)
    requires
        1 <= w,
        1 <= h,
    ensures
        neighbor_of(w, h, 0, 0, 0) == (w - 1, h - 1),
        neighbor_of(w, h, w - 1, 0, 6) == (0int, h - 1),
        neighbor_of(w, h, 0, h - 1, 2) == (w - 1, 0int),
        neighbor_of(w, h, w - 1, h - 1, 5) == (0int, 0int),
{
    vstd::arithmetic::div_mod::lemma_mod_multiples_basic(2, w);
    vstd::arithmetic::div_mod::lemma_mod_multiples_basic(2, h);
    vstd::arithmetic::div_mod::lemma_small_mod((w - 1) as nat, w as nat);
    vstd::arithmetic::div_mod::lemma_small_mod((h - 1) as nat, h as nat);
}

/// The state after `n` steps from `v`, step `i` using `blends[i]` and
/// `reseeds[i]`.
pub open spec fn run(v: UniverseView, blends: Seq<Seq<u16>>, reseeds: Seq<Seq<u32>>, n: nat) -> UniverseView
    decreases n,
{
    if n == 0 {
        v
    } else {
        step_view(run(v, blends, reseeds, (n - 1) as nat), blends[n - 1], reseeds[n - 1])
    }
}

/// Two runs from the same reseed draws, fed the same sequences of blended
/// hues and reseed draws, pass through the same states and show the same
/// frames.
pub proof fn lemma_runs_are_deterministic(
    w: nat,
    h: nat,
    seed1: Seq<u32>,
    seed2: Seq<u32>,
    blends1: Seq<Seq<u16>>,
    blends2: Seq<Seq<u16>>,
    reseeds1: Seq<Seq<u32>>,
    reseeds2: Seq<Seq<u32>>,
    n: nat,
)
    requires
        seed1 == seed2,
        blends1 == blends2,
        reseeds1 == reseeds2,
    ensures
        forall|i: nat|
            i <= n ==> #[trigger] run(populated_view(w, h, seed1), blends1, reseeds1, i) == run(
                populated_view(w, h, seed2),
                blends2,
                reseeds2,
                i,
            ),
        forall|i: nat|
            i < n ==> #[trigger] frame_pixels(run(populated_view(w, h, seed1), blends1, reseeds1, i), blends1[i as int])
                == frame_pixels(run(populated_view(w, h, seed2), blends2, reseeds2, i), blends2[i as int]),
{
}

/// Whether the step from `v` has as many births as deaths.
pub open spec fn balanced(v: UniverseView, blended: Seq<u16>) -> bool {
    let w = v.width as int;
    let h = v.height as int;
    births(v.current(), w, h, blended, v.size()) == deaths(v.current(), w, h, blended, v.size())
}

/// From a state with no stall, steps that keep births equal to deaths raise the
/// stall count one by one, and the fifth such step reseeds the grid from its
/// reseed draws.
pub proof fn lemma_fifth_balanced_step_reseeds(
    v: UniverseView,
    blends: Seq<Seq<u16>>,
    reseeds: Seq<Seq<u32>>,
)
    requires
        v.stall_count == 0,
        blends.len() == STALL_LIMIT,
        reseeds.len() == STALL_LIMIT,
        forall|j: nat| j < STALL_LIMIT ==> balanced(#[trigger] run(v, blends, reseeds, j), blends[j as int]),
    ensures
        forall|j: nat| 1 <= j < STALL_LIMIT ==> (#[trigger] run(v, blends, reseeds, j)).stall_count == j,
        run(v, blends, reseeds, STALL_LIMIT as nat) == populated_view(v.width, v.height, reseeds[4]),
{
    let r1 = run(v, blends, reseeds, 1);
    assert(balanced(run(v, blends, reseeds, 0), blends[0]));
    assert(r1.stall_count == 1 && r1.width == v.width && r1.height == v.height);
    let r2 = run(v, blends, reseeds, 2);
    assert(balanced(run(v, blends, reseeds, 1), blends[1]));
    assert(r2.stall_count == 2 && r2.width == v.width && r2.height == v.height);
    let r3 = run(v, blends, reseeds, 3);
    assert(balanced(run(v, blends, reseeds, 2), blends[2]));
    assert(r3.stall_count == 3 && r3.width == v.width && r3.height == v.height);
    let r4 = run(v, blends, reseeds, 4);
    assert(balanced(run(v, blends, reseeds, 3), blends[3]));
    assert(r4.stall_count == 4 && r4.width == v.width && r4.height == v.height);
    assert(balanced(run(v, blends, reseeds, 4), blends[4]));
    assert forall|j: nat| 1 <= j < STALL_LIMIT implies (#[trigger] run(v, blends, reseeds, j)).stall_count == j by {
        if j == 1 {
        } else if j == 2 {
        } else if j == 3 {
        } else {
        }
    }
}

} // verus!
