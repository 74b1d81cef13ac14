//! The store as mathematics: a map from agent identifier to ledger, what it
//! means for such a map to be consistent, and how the list of records that the
//! store keeps relates to it.
use vstd::prelude::*;
use crate::record::{AgentRecord, ChatId, Ledger, Ledgers};

verus! {

/// The records as a map from identifier to ledger.
pub open spec fn ledgers_of(recs: Seq<AgentRecord>) -> Ledgers {
    Map::new(
        |id: Seq<char>| holds_agent(recs, id),
        |id: Seq<char>| recs[place_of(recs, id)].ledger(),
    )
}

/// Whether some record of `recs` has the identifier `id`.
pub open spec fn holds_agent(recs: Seq<AgentRecord>, id: Seq<char>) -> bool {
    exists|i: int| 0 <= i < recs.len() && #[trigger] recs[i].id() == id
}

/// The place of a record with the identifier `id`.
pub open spec fn place_of(recs: Seq<AgentRecord>, id: Seq<char>) -> int {
    choose|i: int| 0 <= i < recs.len() && #[trigger] recs[i].id() == id
}

/// No two records share an identifier.
pub open spec fn distinct_ids(recs: Seq<AgentRecord>) -> bool {
    forall|i: int, j: int|
        0 <= i < recs.len() && 0 <= j < recs.len() && i != j ==> #[trigger] recs[i].id()
            != #[trigger] recs[j].id()
}

/// Every ledger keeps its counters ordered, and no chat is linked to two
/// agents.
pub open spec fn consistent(m: Ledgers) -> bool {
    &&& forall|id: Seq<char>| m.contains_key(id) ==> (#[trigger] m[id]).ordered()
    &&& forall|a: Seq<char>, b: Seq<char>|
        m.contains_key(a) && m.contains_key(b) && (#[trigger] m[a]).bound_chat is Some
            && m[a].bound_chat == (#[trigger] m[b]).bound_chat ==> a == b
}

/// Whether some agent of `m` is linked to `chat`.
pub open spec fn chat_bound(m: Ledgers, chat: ChatId) -> bool {
    exists|id: Seq<char>| m.contains_key(id) && (#[trigger] m[id]).bound_chat == Some(chat)
}

/// The agent of `m` that is linked to `chat`.
pub open spec fn agent_of_chat(m: Ledgers, chat: ChatId) -> Seq<char> {
    choose|id: Seq<char>| m.contains_key(id) && (#[trigger] m[id]).bound_chat == Some(chat)
}

/// The ledger that `id` has in `m`, or a fresh one where `m` does not know it.
pub open spec fn ledger_or_fresh(m: Ledgers, id: Seq<char>) -> Ledger {
    if m.contains_key(id) {
        m[id]
    } else {
        Ledger::fresh()
    }
}

/// The map `m` after the agent of `chat`, if there is one, lost its chat.
pub open spec fn unbound(m: Ledgers, chat: ChatId) -> Ledgers {
    if chat_bound(m, chat) {
        m.insert(agent_of_chat(m, chat), m[agent_of_chat(m, chat)].with_chat(None))
    } else {
        m
    }
}

/// Nothing was lost between `before` and `after`: every agent is still on
/// record, and none of its counters went back.
pub open spec fn moved_forward(before: Ledgers, after: Ledgers) -> bool {
    forall|id: Seq<char>| #[trigger]
        before.contains_key(id) ==> {
            &&& after.contains_key(id)
            &&& before[id].raw <= after[id].raw
            &&& before[id].notified <= after[id].notified
            &&& before[id].claimed <= after[id].claimed
        }
}

/// The record at `i` is what the map holds under its identifier.
pub proof fn lemma_ledger_at(recs: Seq<AgentRecord>, i: int)
    requires
        distinct_ids(recs),
        0 <= i < recs.len(),
    ensures
        holds_agent(recs, recs[i].id()),
        place_of(recs, recs[i].id()) == i,
        ledgers_of(recs).contains_key(recs[i].id()),
        ledgers_of(recs)[recs[i].id()] == recs[i].ledger(),
{
    let id = recs[i].id();
    assert(holds_agent(recs, id));
    let p = place_of(recs, id);
    assert(0 <= p < recs.len() && recs[p].id() == id);
}

/// Replacing a record by one with the same identifier changes the map at that
/// identifier alone.
pub proof fn lemma_update_at(recs: Seq<AgentRecord>, p: int, rec: AgentRecord)
    requires
        distinct_ids(recs),
        0 <= p < recs.len(),
        rec.id() == recs[p].id(),
    ensures
        distinct_ids(recs.update(p, rec)),
        ledgers_of(recs.update(p, rec)) == ledgers_of(recs).insert(rec.id(), rec.ledger()),
{
    let next = recs.update(p, rec);
    assert(distinct_ids(next)) by {
        assert forall|i: int, j: int|
            0 <= i < next.len() && 0 <= j < next.len() && i != j implies #[trigger] next[i].id()
            != #[trigger] next[j].id() by {
            assert(next[i].id() == recs[i].id());
            assert(next[j].id() == recs[j].id());
        }
    }
    let a = ledgers_of(next);
    let b = ledgers_of(recs).insert(rec.id(), rec.ledger());
    assert forall|id: Seq<char>| a.contains_key(id) <==> b.contains_key(id) by {
        if a.contains_key(id) {
            let i = place_of(next, id);
            assert(recs[i].id() == id);
        }
        if b.contains_key(id) {
            if id == rec.id() {
                assert(next[p].id() == id);
            } else {
                let i = place_of(recs, id);
                assert(next[i].id() == id);
            }
        }
    }
    assert forall|id: Seq<char>| a.contains_key(id) implies a[id] == b[id] by {
        let i = place_of(next, id);
        lemma_ledger_at(next, i);
        assert(recs[i].id() == id);
        if i != p {
            lemma_ledger_at(recs, i);
        }
    }
    assert(a =~= b);
}

/// Appending a record with a new identifier adds it to the map.
pub proof fn lemma_push(recs: Seq<AgentRecord>, rec: AgentRecord)
    requires
        distinct_ids(recs),
        !holds_agent(recs, rec.id()),
    ensures
        distinct_ids(recs.push(rec)),
        ledgers_of(recs.push(rec)) == ledgers_of(recs).insert(rec.id(), rec.ledger()),
{
    let next = recs.push(rec);
    let n = recs.len() as int;
    assert(distinct_ids(next)) by {
        assert forall|i: int, j: int|
            0 <= i < next.len() && 0 <= j < next.len() && i != j implies #[trigger] next[i].id()
            != #[trigger] next[j].id() by {
            if i < n {
                assert(next[i].id() == recs[i].id());
            }
            if j < n {
                assert(next[j].id() == recs[j].id());
            }
        }
    }
    let a = ledgers_of(next);
    let b = ledgers_of(recs).insert(rec.id(), rec.ledger());
    assert forall|id: Seq<char>| a.contains_key(id) <==> b.contains_key(id) by {
        if a.contains_key(id) {
            let i = place_of(next, id);
            if i < n {
                assert(recs[i].id() == id);
            }
        }
        if b.contains_key(id) {
            if id == rec.id() {
                assert(next[n].id() == id);
            } else {
                let i = place_of(recs, id);
                assert(next[i].id() == id);
            }
        }
    }
    assert forall|id: Seq<char>| a.contains_key(id) implies a[id] == b[id] by {
        let i = place_of(next, id);
        lemma_ledger_at(next, i);
        if i < n {
            assert(recs[i].id() == id);
            lemma_ledger_at(recs, i);
        }
    }
    assert(a =~= b);
}

/// Records with distinct identifiers are as many as the keys of their map.
pub proof fn lemma_count(recs: Seq<AgentRecord>)
    requires
        distinct_ids(recs),
    ensures
        ledgers_of(recs).dom().finite(),
        ledgers_of(recs).dom().len() == recs.len(),
    decreases recs.len(),
{
    if recs.len() == 0 {
        assert(ledgers_of(recs).dom() =~= Set::<Seq<char>>::empty());
    } else {
        let front = recs.drop_last();
        let last = recs.last();
        assert(distinct_ids(front)) by {
            assert forall|i: int, j: int|
                0 <= i < front.len() && 0 <= j < front.len() && i != j implies (
            #[trigger] front[i].id()) != (#[trigger] front[j].id()) by {
                assert(front[i].id() == recs[i].id());
                assert(front[j].id() == recs[j].id());
            }
        }
        lemma_count(front);
        if holds_agent(front, last.id()) {
            let i = place_of(front, last.id());
            assert(recs[i].id() == front[i].id());
            assert(recs[recs.len() - 1].id() == last.id());
        }
        lemma_push(front, last);
        assert(front.push(last) =~= recs);
        assert(ledgers_of(recs).dom() =~= ledgers_of(front).dom().insert(last.id()));
    }
}

/// Setting one ledger keeps the map consistent where the new ledger is
/// ordered and its chat, if it has one, is linked to no other agent.
pub proof fn lemma_insert_consistent(m: Ledgers, id: Seq<char>, ledger: Ledger)
    requires
        consistent(m),
        ledger.ordered(),
        ledger.bound_chat is Some ==> forall|other: Seq<char>|
            m.contains_key(other) && other != id ==> (#[trigger] m[other]).bound_chat
                != ledger.bound_chat,
    ensures
        consistent(m.insert(id, ledger)),
{
    let next = m.insert(id, ledger);
    assert forall|k: Seq<char>| next.contains_key(k) implies (#[trigger] next[k]).ordered() by {
        if k != id {
            assert(m[k].ordered());
        }
    }
    assert forall|a: Seq<char>, b: Seq<char>|
        next.contains_key(a) && next.contains_key(b) && (#[trigger] next[a]).bound_chat is Some
            && next[a].bound_chat == (#[trigger] next[b]).bound_chat implies a == b by {
        if a != id && b != id {
            assert(m[a].bound_chat == m[b].bound_chat);
        } else if a == id && b != id {
            assert(m[b].bound_chat != ledger.bound_chat);
        } else if a != id && b == id {
            assert(m[a].bound_chat != ledger.bound_chat);
        }
    }
}

/// Replacing a ledger by an ordered one with the same chat keeps the map
/// consistent.
pub proof fn lemma_keeps_chat(m: Ledgers, id: Seq<char>, ledger: Ledger)
    requires
        consistent(m),
        m.contains_key(id),
        ledger.ordered(),
        ledger.bound_chat == m[id].bound_chat,
    ensures
        consistent(m.insert(id, ledger)),
{
    if ledger.bound_chat is Some {
        assert forall|other: Seq<char>| m.contains_key(other) && other != id implies (
        #[trigger] m[other]).bound_chat != ledger.bound_chat by {
            if m[other].bound_chat == ledger.bound_chat {
                assert(m[id].bound_chat == m[other].bound_chat);
            }
        }
    }
    lemma_insert_consistent(m, id, ledger);
}

/// With counters ordered and chats linked one to one, the agent that a record
/// linked to `chat` names is the agent of that chat.
pub proof fn lemma_chat_at(recs: Seq<AgentRecord>, p: int, chat: ChatId)
    requires
        distinct_ids(recs),
        consistent(ledgers_of(recs)),
        0 <= p < recs.len(),
        recs[p].bound_chat == Some(chat),
    ensures
        chat_bound(ledgers_of(recs), chat),
        agent_of_chat(ledgers_of(recs), chat) == recs[p].id(),
        ledgers_of(recs)[recs[p].id()] == recs[p].ledger(),
{
    let m = ledgers_of(recs);
    lemma_ledger_at(recs, p);
    assert(m[recs[p].id()].bound_chat == Some(chat));
    let id = agent_of_chat(m, chat);
    assert(m.contains_key(id) && m[id].bound_chat == Some(chat));
}

} // verus!
