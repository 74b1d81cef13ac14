//! The uptime collector: one tick adds one tick's uptime to every agent that
//! the uptime source reports, all of them or none.
use vstd::prelude::*;
use crate::payload::{ids_of, json_object_keys, parse_object_keys};
use crate::record::Ledgers;
use crate::schedule::Schedule;
use crate::model::{consistent, ledger_or_fresh, moved_forward};
use crate::store::Store;

verus! {

/// Why a tick was skipped.
#[derive(Clone, Copy, Debug, PartialEq, Eq, Structural)]
pub enum CollectError {
    /// The uptime source's answer is not a JSON object.
    MalformedPayload,
}

/// The map `m` after every agent of `ids` gained `tick` units of uptime;
/// agents that `m` did not know start from a fresh ledger, agents outside
/// `ids` stay as they are.
pub open spec fn ticked(m: Ledgers, ids: Set<Seq<char>>, tick: u64) -> Ledgers {
    Map::new(
        |id: Seq<char>| m.contains_key(id) || ids.contains(id),
        |id: Seq<char>|
            if ids.contains(id) {
                ledger_or_fresh(m, id).with_raw_advanced(tick)
            } else {
                m[id]
            },
    )
}

/// Ticking one more agent is one advance of its reported uptime.
pub proof fn lemma_ticked_insert(
    m: Ledgers,
    ids: Set<Seq<char>>,
    id: Seq<char>,
    tick: u64,
)
    requires
        !ids.contains(id),
    ensures
        ticked(m, ids.insert(id), tick) == ticked(m, ids, tick).insert(
            id,
            ledger_or_fresh(ticked(m, ids, tick), id).with_raw_advanced(tick),
        ),
{
    let a = ticked(m, ids.insert(id), tick);
    let b = ticked(m, ids, tick).insert(
        id,
        ledger_or_fresh(ticked(m, ids, tick), id).with_raw_advanced(tick),
    );
    assert(a =~= b);
}

/// A tick only adds: agents that were not reported keep their ledgers, agents
/// that were reported keep their chat and their notified and claimed
/// counters, and the map stays consistent.
pub proof fn law_tick_only_adds(m: Ledgers, ids: Set<Seq<char>>, tick: u64)
    requires
        consistent(m),
    ensures
        consistent(ticked(m, ids, tick)),
        moved_forward(m, ticked(m, ids, tick)),
        forall|id: Seq<char>|
            m.contains_key(id) && !ids.contains(id) ==> #[trigger] ticked(m, ids, tick)[id]
                == m[id],
        forall|id: Seq<char>|
            ids.contains(id) ==> {
                let before = ledger_or_fresh(m, id);
                let after = #[trigger] ticked(m, ids, tick)[id];
                &&& after.bound_chat == before.bound_chat
                &&& after.notified == before.notified
                &&& after.claimed == before.claimed
                &&& after.raw == if before.raw + tick <= u64::MAX {
                    before.raw + tick
                } else {
                    u64::MAX as int
                }
            },
{
    let next = ticked(m, ids, tick);
    assert forall|id: Seq<char>| next.contains_key(id) implies (#[trigger] next[id]).ordered() by {
        if m.contains_key(id) {
            assert(m[id].ordered());
        }
    }
    assert forall|a: Seq<char>, b: Seq<char>|
        next.contains_key(a) && next.contains_key(b) && (#[trigger] next[a]).bound_chat is Some
            && next[a].bound_chat == (#[trigger] next[b]).bound_chat implies a == b by {
        assert(m.contains_key(a) && m[a].bound_chat == next[a].bound_chat);
        assert(m.contains_key(b) && m[b].bound_chat == next[b].bound_chat);
    }
}

fn seen_before(ids: &Vec<String>, i: usize) -> (seen: bool)
    requires
        i < ids@.len(),
    ensures
        seen == ids_of(ids@).take(i as int).contains(ids@[i as int]@),
{
    let ghost front = ids_of(ids@).take(i as int);
    let mut j: usize = 0;
    while j < i
        invariant
            j <= i < ids@.len(),
            front == ids_of(ids@).take(i as int),
            forall|k: int| 0 <= k < j ==> #[trigger] front[k] != ids@[i as int]@,
        decreases i - j,
    {
        if ids[j] == ids[i] {
            assert(front[j as int] == ids@[i as int]@);
            return true;
        }
        j += 1;
    }
    false
}

/// Applies one tick to the reported agents: each identifier that occurs in
/// `ids` gains one tick's uptime once, however often it occurs, and is put on
/// record first where it is new. Returns how many agents advanced.
pub fn collector_tick(store: &mut Store, schedule: &Schedule, ids: &Vec<String>) -> (advanced:
    usize)
    requires
        old(store).wf(),
    ensures
        final(store).wf(),
        moved_forward(old(store)@, final(store)@),
        final(store)@ == ticked(old(store)@, ids_of(ids@).to_set(), schedule.tick()),
        advanced == ids_of(ids@).to_set().len(),
{
    let tick = schedule.tick_unit();
    let ghost all = ids_of(ids@);
    let mut advanced: usize = 0;
    let mut i: usize = 0;
    proof {
        assert(all.take(0).to_set() =~= Set::<Seq<char>>::empty());
        assert(ticked(store@, Set::<Seq<char>>::empty(), tick) =~= store@);
    }
    while i < ids.len()
        invariant
            i <= ids@.len(),
            all == ids_of(ids@),
            tick == schedule.tick(),
            store.wf(),
            store@ == ticked(old(store)@, all.take(i as int).to_set(), tick),
            all.take(i as int).to_set().finite(),
            advanced == all.take(i as int).to_set().len(),
            advanced <= i,
        decreases ids@.len() - i,
    {
        let ghost done = all.take(i as int).to_set();
        let ghost id = ids@[i as int]@;
        proof {
            assert(all[i as int] == id);
            assert(all.take(i + 1) =~= all.take(i as int).push(id));
            all.take(i as int).lemma_push_to_set_commute(id);
            assert(all.take(i + 1).to_set() == done.insert(id));
        }
        if !seen_before(ids, i) {
            proof {
                assert(!done.contains(id));
                lemma_ticked_insert(old(store)@, done, id, tick);
            }
            store.advance_raw(ids[i].as_str(), tick);
            advanced += 1;
        } else {
            assert(done.insert(id) =~= done);
        }
        i += 1;
    }
    assert(all.take(ids@.len() as int) =~= all);
    advanced
}

/// One collector tick from the uptime source's answer. An answer that is not
/// a JSON object skips the tick and changes nothing; otherwise every agent
/// named by a key of the object gains one tick's uptime.
pub fn collect(store: &mut Store, schedule: &Schedule, body: &str) -> (res: Result<
    usize,
    CollectError,
>)
    requires
        old(store).wf(),
    ensures
        final(store).wf(),
        moved_forward(old(store)@, final(store)@),
        match json_object_keys(body@) {
            Some(ids) => {
                &&& res == Ok::<usize, CollectError>(ids.len() as usize)
                &&& final(store)@ == ticked(old(store)@, ids, schedule.tick())
            },
            None => {
                &&& res == Err::<usize, CollectError>(CollectError::MalformedPayload)
                &&& final(store)@ == old(store)@
            },
        },
{
    match parse_object_keys(body) {
        Ok(ids) => Ok(collector_tick(store, schedule, &ids)),
        Err(_) => Err(CollectError::MalformedPayload),
    }
}

} // verus!
