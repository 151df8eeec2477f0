//! What the calls of a tick are guaranteed to look like.
//!
//! The scheduler states the calls of a tick as a sequence built phase by
//! phase. The lemmas here draw from that what callers rely on: which calls
//! are made, that none is made twice, and in what order they come.

use crate::engine::countable;
use crate::engine::drained;
use crate::engine::is_due;
use crate::engine::object_after_phase;
use crate::engine::object_calls;
use crate::engine::objects_after_phase;
use crate::engine::phase_calls;
use crate::engine::tick_calls;
use crate::engine::Call;
use crate::engine::HolderView;
use crate::engine::Phase;
use vstd::prelude::*;

verus! {

/// Whether `call` names a component of `objects` for which the hook of its
/// phase is due.
pub open spec fn is_owed(call: Call, objects: Seq<Seq<HolderView>>) -> bool {
    &&& call.game_object < objects.len()
    &&& call.component < objects[call.game_object as int].len()
    &&& is_due(call.phase, objects[call.game_object as int][call.component as int])
}

/// Whether `a` comes before `b` on the way through the game objects and
/// their components.
pub open spec fn comes_before(a: Call, b: Call) -> bool {
    a.game_object < b.game_object || (a.game_object == b.game_object && a.component
        < b.component)
}

/// The calls on the first `n` components of one game object: each is in the
/// given phase, on that game object, on one of those components and due;
/// they come in the order of the components; and every call that is due is
/// among them.
pub proof fn lemma_object_calls(phase: Phase, game_object: int, holders: Seq<HolderView>, n: int)
    requires
        0 <= game_object <= usize::MAX,
        0 <= n <= holders.len() <= usize::MAX,
    ensures
        forall|k: int|
            0 <= k < object_calls(phase, game_object, holders, n).len() ==> {
                let call = #[trigger] object_calls(phase, game_object, holders, n)[k];
                &&& call.phase == phase
                &&& call.game_object == game_object
                &&& call.component < n
                &&& is_due(phase, holders[call.component as int])
            },
        forall|j: int, k: int|
            0 <= j < k < object_calls(phase, game_object, holders, n).len() ==> (
            #[trigger] object_calls(phase, game_object, holders, n)[j]).component < (
            #[trigger] object_calls(phase, game_object, holders, n)[k]).component,
        forall|c: int|
            0 <= c < n && is_due(phase, #[trigger] holders[c]) ==> object_calls(
                phase,
                game_object,
                holders,
                n,
            ).contains(Call { phase, game_object: game_object as usize, component: c as usize }),
    decreases n,
{
    if n > 0 {
        lemma_object_calls(phase, game_object, holders, n - 1);
        let shorter = object_calls(phase, game_object, holders, n - 1);
        let calls = object_calls(phase, game_object, holders, n);
        assert forall|c: int| 0 <= c < n && is_due(phase, #[trigger] holders[c]) implies calls.contains(
            Call { phase, game_object: game_object as usize, component: c as usize },
        ) by {
            let call = Call { phase, game_object: game_object as usize, component: c as usize };
            if c < n - 1 {
                let k = choose|k: int| 0 <= k < shorter.len() && shorter[k] == call;
                assert(calls[k] == call);
            } else {
                assert(calls[calls.len() - 1] == call);
            }
        }
    }
}

/// The calls of a phase on the first `m` game objects: each is in the given
/// phase and owed; they come in the order of the game objects and their
/// components; and every call that is owed is among them.
pub proof fn lemma_phase_calls(phase: Phase, objects: Seq<Seq<HolderView>>, m: int)
    requires
        countable(objects),
        0 <= m <= objects.len(),
    ensures
        forall|k: int|
            0 <= k < phase_calls(phase, objects, m).len() ==> {
                let call = #[trigger] phase_calls(phase, objects, m)[k];
                &&& call.phase == phase
                &&& call.game_object < m
                &&& is_owed(call, objects)
            },
        forall|j: int, k: int|
            0 <= j < k < phase_calls(phase, objects, m).len() ==> comes_before(
                #[trigger] phase_calls(phase, objects, m)[j],
                #[trigger] phase_calls(phase, objects, m)[k],
            ),
        forall|call: Call|
            call.phase == phase && call.game_object < m && is_owed(call, objects)
                ==> #[trigger] phase_calls(phase, objects, m).contains(call),
    decreases m,
{
    if m > 0 {
        lemma_phase_calls(phase, objects, m - 1);
        lemma_object_calls(phase, m - 1, objects[m - 1], objects[m - 1].len() as int);
        let before = phase_calls(phase, objects, m - 1);
        let last = object_calls(phase, m - 1, objects[m - 1], objects[m - 1].len() as int);
        let calls = phase_calls(phase, objects, m);
        assert(calls == before + last);
        assert forall|k: int| 0 <= k < calls.len() implies {
            let call = #[trigger] calls[k];
            &&& call.phase == phase
            &&& call.game_object < m
            &&& is_owed(call, objects)
        } by {
            if k < before.len() {
                assert(calls[k] == before[k]);
            } else {
                assert(calls[k] == last[k - before.len()]);
            }
        }
        assert forall|j: int, k: int| 0 <= j < k < calls.len() implies comes_before(
            #[trigger] calls[j],
            #[trigger] calls[k],
        ) by {
            if k < before.len() {
                assert(calls[j] == before[j] && calls[k] == before[k]);
            } else if j < before.len() {
                assert(calls[j] == before[j] && calls[k] == last[k - before.len()]);
            } else {
                assert(calls[j] == last[j - before.len()] && calls[k] == last[k - before.len()]);
            }
        }
        assert forall|call: Call|
            call.phase == phase && call.game_object < m && is_owed(call, objects) implies #[trigger] calls.contains(
            call,
        ) by {
            if call.game_object < m - 1 {
                assert(before.contains(call));
                let k = choose|k: int| 0 <= k < before.len() && before[k] == call;
                assert(calls[k] == call);
            } else {
                let holders = objects[m - 1];
                assert(is_due(phase, holders[call.component as int]));
                let same = Call {
                    phase,
                    game_object: (m - 1) as usize,
                    component: (call.component as int) as usize,
                };
                assert(same == call);
                assert(last.contains(same));
                let k = choose|k: int| 0 <= k < last.len() && last[k] == call;
                assert(calls[before.len() + k] == call);
            }
        }
    }
}

/// What holds of the calls of one tick over `objects`.
///
/// - Every call names a component of `objects` for which the hook of its
///   phase is due, and a resize is called only if the screen size was set.
/// - Every such call is made.
/// - The calls come phase by phase: a call in an earlier phase comes before
///   every call in a later one, whatever the game objects. Within a phase
///   they come in the order of the game objects and their components.
/// - No call is made twice.
pub proof fn lemma_tick_calls(objects: Seq<Seq<HolderView>>, resized: bool)
    requires
        countable(objects),
    ensures
        forall|k: int|
            0 <= k < tick_calls(objects, resized).len() ==> {
                let call = #[trigger] tick_calls(objects, resized)[k];
                &&& is_owed(call, objects)
                &&& call.phase == Phase::Resize ==> resized
            },
        forall|call: Call|
            is_owed(call, objects) && (call.phase == Phase::Resize ==> resized)
                ==> #[trigger] tick_calls(objects, resized).contains(call),
        forall|j: int, k: int|
            0 <= j < k < tick_calls(objects, resized).len() ==> {
                let a = #[trigger] tick_calls(objects, resized)[j];
                let b = #[trigger] tick_calls(objects, resized)[k];
                a.phase.rank() < b.phase.rank() || (a.phase == b.phase && comes_before(a, b))
            },
{
    let n = objects.len() as int;
    let first = phase_calls(Phase::FirstUpdate, objects, n);
    let resize = if resized {
        phase_calls(Phase::Resize, objects, n)
    } else {
        Seq::empty()
    };
    let update = phase_calls(Phase::Update, objects, n);
    let pre = phase_calls(Phase::PreRender, objects, n);
    let render = phase_calls(Phase::Render, objects, n);
    let late = phase_calls(Phase::LateUpdate, objects, n);
    let calls = tick_calls(objects, resized);
    lemma_phase_calls(Phase::FirstUpdate, objects, n);
    lemma_phase_calls(Phase::Resize, objects, n);
    lemma_phase_calls(Phase::Update, objects, n);
    lemma_phase_calls(Phase::PreRender, objects, n);
    lemma_phase_calls(Phase::Render, objects, n);
    lemma_phase_calls(Phase::LateUpdate, objects, n);
    assert(calls == first + resize + update + pre + render + late);
    let s1 = first.len() as int;
    let s2 = s1 + resize.len();
    let s3 = s2 + update.len();
    let s4 = s3 + pre.len();
    let s5 = s4 + render.len();
    assert forall|k: int| 0 <= k < calls.len() implies #[trigger] calls[k] == (if k < s1 {
        first[k]
    } else if k < s2 {
        resize[k - s1]
    } else if k < s3 {
        update[k - s2]
    } else if k < s4 {
        pre[k - s3]
    } else if k < s5 {
        render[k - s4]
    } else {
        late[k - s5]
    }) by {}
    assert forall|k: int| 0 <= k < calls.len() implies {
        let call = #[trigger] calls[k];
        &&& is_owed(call, objects)
        &&& call.phase == Phase::Resize ==> resized
    } by {}
    assert forall|call: Call|
        is_owed(call, objects) && (call.phase == Phase::Resize ==> resized) implies #[trigger] calls.contains(
        call,
    ) by {
        match call.phase {
            Phase::FirstUpdate => {
                assert(first.contains(call));
                let k = choose|k: int| 0 <= k < first.len() && first[k] == call;
                assert(calls[k] == call);
            },
            Phase::Resize => {
                assert(resize.contains(call));
                let k = choose|k: int| 0 <= k < resize.len() && resize[k] == call;
                assert(calls[s1 + k] == call);
            },
            Phase::Update => {
                assert(update.contains(call));
                let k = choose|k: int| 0 <= k < update.len() && update[k] == call;
                assert(calls[s2 + k] == call);
            },
            Phase::PreRender => {
                assert(pre.contains(call));
                let k = choose|k: int| 0 <= k < pre.len() && pre[k] == call;
                assert(calls[s3 + k] == call);
            },
            Phase::Render => {
                assert(render.contains(call));
                let k = choose|k: int| 0 <= k < render.len() && render[k] == call;
                assert(calls[s4 + k] == call);
            },
            Phase::LateUpdate => {
                assert(late.contains(call));
                let k = choose|k: int| 0 <= k < late.len() && late[k] == call;
                assert(calls[s5 + k] == call);
            },
        }
    }
    assert forall|j: int, k: int| 0 <= j < k < calls.len() implies {
        let a = #[trigger] calls[j];
        let b = #[trigger] calls[k];
        a.phase.rank() < b.phase.rank() || (a.phase == b.phase && comes_before(a, b))
    } by {}
}

/// Phase ordering: within one tick, every call of an earlier phase comes
/// before every call of a later phase, whichever game objects and components
/// the two are made on. What a component does in its update has been done
/// when any component is rendered.
pub proof fn lemma_phases_in_order(objects: Seq<Seq<HolderView>>, resized: bool, j: int, k: int)
    requires
        countable(objects),
        0 <= j < tick_calls(objects, resized).len(),
        0 <= k < tick_calls(objects, resized).len(),
        tick_calls(objects, resized)[j].phase.rank() < tick_calls(objects, resized)[k].phase.rank(),
    ensures
        j < k,
{
    lemma_tick_calls(objects, resized);
    if k < j {
        let a = tick_calls(objects, resized)[k];
        let b = tick_calls(objects, resized)[j];
        assert(a.phase.rank() < b.phase.rank() || (a.phase == b.phase && comes_before(a, b)));
    }
}

/// Within one tick no call is made twice.
pub proof fn lemma_no_call_twice(objects: Seq<Seq<HolderView>>, resized: bool, j: int, k: int)
    requires
        countable(objects),
        0 <= j < tick_calls(objects, resized).len(),
        0 <= k < tick_calls(objects, resized).len(),
        tick_calls(objects, resized)[j] == tick_calls(objects, resized)[k],
    ensures
        j == k,
{
    lemma_tick_calls(objects, resized);
    if j < k {
        let a = tick_calls(objects, resized)[j];
        let b = tick_calls(objects, resized)[k];
        assert(a.phase.rank() < b.phase.rank() || (a.phase == b.phase && comes_before(a, b)));
    }
    if k < j {
        let a = tick_calls(objects, resized)[k];
        let b = tick_calls(objects, resized)[j];
        assert(a.phase.rank() < b.phase.rank() || (a.phase == b.phase && comes_before(a, b)));
    }
}

/// Deferred insertion. A game object that is queued while a tick runs is
/// not in the queue that the tick drained when it began, so the tick makes
/// no call on it: all its calls are on game objects below
/// `live.len() + pending.len()`. The next tick finds it in the queue at some
/// place `q`, makes it game object number `live.len() + queue.len() - 1 - q`
/// of the live list, and calls every hook on it that is due.
pub proof fn lemma_queued_joins_next_tick(
    live: Seq<Seq<HolderView>>,
    pending: Seq<Seq<HolderView>>,
    resized: bool,
    k: int,
    next_queue: Seq<Seq<HolderView>>,
    next_resized: bool,
    q: int,
    call: Call,
)
    requires
        countable(drained(live, pending)),
        0 <= k < tick_calls(drained(live, pending), resized).len(),
        countable(
            drained(objects_after_phase(Phase::FirstUpdate, drained(live, pending)), next_queue),
        ),
        0 <= q < next_queue.len(),
        call.game_object == live.len() + pending.len() + next_queue.len() - 1 - q,
        call.component < next_queue[q].len(),
        is_due(call.phase, next_queue[q][call.component as int]),
        call.phase == Phase::Resize ==> next_resized,
    ensures
        tick_calls(drained(live, pending), resized)[k].game_object < live.len() + pending.len(),
        drained(objects_after_phase(Phase::FirstUpdate, drained(live, pending)), next_queue)[call.game_object as int]
            == next_queue[q],
        tick_calls(
            drained(objects_after_phase(Phase::FirstUpdate, drained(live, pending)), next_queue),
            next_resized,
        ).contains(call),
{
    lemma_tick_calls(drained(live, pending), resized);
    let next_live = objects_after_phase(Phase::FirstUpdate, drained(live, pending));
    lemma_tick_calls(drained(next_live, next_queue), next_resized);
    assert(is_owed(call, drained(next_live, next_queue)));
}

/// Whether no component of `objects` has had its first update.
pub open spec fn all_fresh(objects: Seq<Seq<HolderView>>) -> bool {
    forall|g: int, c: int|
        0 <= g < objects.len() && 0 <= c < objects[g].len() ==> !(
        #[trigger] objects[g][c]).had_first_update
}

/// The live list when tick number `n` begins, before its queue is drained:
/// `live` is the list before the first tick, and `queues[k]` is the queue
/// that tick number `k` finds.
pub open spec fn live_before(
    live: Seq<Seq<HolderView>>,
    queues: Seq<Seq<Seq<HolderView>>>,
    n: int,
) -> Seq<Seq<HolderView>>
    decreases n,
{
    if n <= 0 {
        live
    } else {
        objects_after_phase(
            Phase::FirstUpdate,
            drained(live_before(live, queues, n - 1), queues[n - 1]),
        )
    }
}

/// The game objects that tick number `n` runs over.
pub open spec fn objects_of_tick(
    live: Seq<Seq<HolderView>>,
    queues: Seq<Seq<Seq<HolderView>>>,
    n: int,
) -> Seq<Seq<HolderView>> {
    drained(live_before(live, queues, n), queues[n])
}

/// The calls of tick number `n`.
pub open spec fn calls_of_tick(
    live: Seq<Seq<HolderView>>,
    queues: Seq<Seq<Seq<HolderView>>>,
    resizes: Seq<bool>,
    n: int,
) -> Seq<Call> {
    tick_calls(objects_of_tick(live, queues, n), resizes[n])
}

/// A game object that tick number `s` runs over is still in its place when a
/// later tick `t` begins, and all its components have had their first
/// update.
pub proof fn lemma_lived_through(
    live: Seq<Seq<HolderView>>,
    queues: Seq<Seq<Seq<HolderView>>>,
    s: int,
    t: int,
    g: int,
)
    requires
        0 <= s < t,
        0 <= g < objects_of_tick(live, queues, s).len(),
    ensures
        g < live_before(live, queues, t).len(),
        g < objects_of_tick(live, queues, t).len(),
        objects_of_tick(live, queues, t)[g] == object_after_phase(
            Phase::FirstUpdate,
            objects_of_tick(live, queues, s)[g],
        ),
    decreases t - s,
{
    if t == s + 1 {
    } else {
        lemma_lived_through(live, queues, s, t - 1, g);
        let once = object_after_phase(Phase::FirstUpdate, objects_of_tick(live, queues, s)[g]);
        assert(object_after_phase(Phase::FirstUpdate, once) =~= once);
    }
}

/// First update once, across ticks: over any number of ticks, with whatever
/// is queued between them, no first update is called twice.
pub proof fn lemma_first_update_at_most_once(
    live: Seq<Seq<HolderView>>,
    queues: Seq<Seq<Seq<HolderView>>>,
    resizes: Seq<bool>,
    s: int,
    i: int,
    t: int,
    j: int,
)
    requires
        0 <= s <= t,
        countable(objects_of_tick(live, queues, s)),
        countable(objects_of_tick(live, queues, t)),
        0 <= i < calls_of_tick(live, queues, resizes, s).len(),
        0 <= j < calls_of_tick(live, queues, resizes, t).len(),
        calls_of_tick(live, queues, resizes, s)[i].phase == Phase::FirstUpdate,
        calls_of_tick(live, queues, resizes, s)[i] == calls_of_tick(live, queues, resizes, t)[j],
    ensures
        s == t,
        i == j,
{
    lemma_tick_calls(objects_of_tick(live, queues, s), resizes[s]);
    lemma_tick_calls(objects_of_tick(live, queues, t), resizes[t]);
    let call = calls_of_tick(live, queues, resizes, s)[i];
    if s < t {
        lemma_lived_through(live, queues, s, t, call.game_object as int);
        assert(is_owed(call, objects_of_tick(live, queues, t)));
    } else {
        lemma_no_call_twice(objects_of_tick(live, queues, s), resizes[s], i, j);
    }
}

/// A component that has had its first update when tick number `t` begins
/// got it by a call in an earlier tick, if every component was fresh when
/// it came in.
proof fn lemma_had_first_update(
    live: Seq<Seq<HolderView>>,
    queues: Seq<Seq<Seq<HolderView>>>,
    resizes: Seq<bool>,
    t: int,
    g: int,
    c: int,
) -> (at: (int, int))
    requires
        0 <= t,
        all_fresh(live),
        forall|k: int| 0 <= k <= t ==> all_fresh(#[trigger] queues[k]),
        forall|k: int| 0 <= k <= t ==> countable(#[trigger] objects_of_tick(live, queues, k)),
        0 <= g < objects_of_tick(live, queues, t).len(),
        0 <= c < objects_of_tick(live, queues, t)[g].len(),
        objects_of_tick(live, queues, t)[g][c].had_first_update,
    ensures
        0 <= at.0 < t,
        0 <= at.1 < calls_of_tick(live, queues, resizes, at.0).len(),
        calls_of_tick(live, queues, resizes, at.0)[at.1] == (Call {
            phase: Phase::FirstUpdate,
            game_object: g as usize,
            component: c as usize,
        }),
    decreases t,
{
    let before = live_before(live, queues, t);
    let objects = objects_of_tick(live, queues, t);
    assert(countable(objects_of_tick(live, queues, t)));
    if g >= before.len() {
        let q = queues[t].len() - 1 - (g - before.len());
        assert(objects[g] == queues[t][q]);
        assert(all_fresh(queues[t]));
        assert(!queues[t][q][c].had_first_update);
        assert(false);
        (0, 0)
    } else if t == 0 {
        assert(objects[g] == live[g]);
        assert(!live[g][c].had_first_update);
        (0, 0)
    } else {
        let earlier = objects_of_tick(live, queues, t - 1);
        assert(objects[g] == before[g]);
        assert(before[g] == object_after_phase(Phase::FirstUpdate, earlier[g]));
        assert(countable(objects_of_tick(live, queues, t - 1)));
        if earlier[g][c].had_first_update {
            lemma_had_first_update(live, queues, resizes, t - 1, g, c)
        } else {
            let call = Call {
                phase: Phase::FirstUpdate,
                game_object: g as usize,
                component: c as usize,
            };
            lemma_tick_calls(earlier, resizes[t - 1]);
            assert(is_owed(call, earlier));
            let calls = calls_of_tick(live, queues, resizes, t - 1);
            assert(calls.contains(call));
            let i = choose|i: int| 0 <= i < calls.len() && calls[i] == call;
            (t - 1, i)
        }
    }
}

/// First update first, across ticks: if every component is fresh when it
/// comes in, then whenever another hook of a component is called, its first
/// update has been called before: in an earlier tick, or earlier in the same
/// tick.
pub proof fn lemma_first_update_comes_first(
    live: Seq<Seq<HolderView>>,
    queues: Seq<Seq<Seq<HolderView>>>,
    resizes: Seq<bool>,
    t: int,
    j: int,
) -> (at: (int, int))
    requires
        0 <= t,
        all_fresh(live),
        forall|k: int| 0 <= k <= t ==> all_fresh(#[trigger] queues[k]),
        forall|k: int| 0 <= k <= t ==> countable(#[trigger] objects_of_tick(live, queues, k)),
        0 <= j < calls_of_tick(live, queues, resizes, t).len(),
        calls_of_tick(live, queues, resizes, t)[j].phase != Phase::FirstUpdate,
    ensures
        0 <= at.0 <= t,
        0 <= at.1 < calls_of_tick(live, queues, resizes, at.0).len(),
        at.0 < t || at.1 < j,
        calls_of_tick(live, queues, resizes, at.0)[at.1] == (Call {
            phase: Phase::FirstUpdate,
            ..calls_of_tick(live, queues, resizes, t)[j]
        }),
{
    let objects = objects_of_tick(live, queues, t);
    let calls = calls_of_tick(live, queues, resizes, t);
    let call = calls[j];
    let first = Call { phase: Phase::FirstUpdate, ..call };
    assert(countable(objects_of_tick(live, queues, t)));
    lemma_tick_calls(objects, resizes[t]);
    assert(is_owed(call, objects));
    let g = call.game_object as int;
    let c = call.component as int;
    if objects[g][c].had_first_update {
        let at = lemma_had_first_update(live, queues, resizes, t, g, c);
        assert(first == Call {
            phase: Phase::FirstUpdate,
            game_object: g as usize,
            component: c as usize,
        });
        at
    } else {
        assert(is_owed(first, objects));
        assert(calls.contains(first));
        let i = choose|i: int| 0 <= i < calls.len() && calls[i] == first;
        lemma_phases_in_order(objects, resizes[t], i, j);
        (t, i)
    }
}

} // verus!
