//! The agent record store: the one place where counters and chat links change.
use vstd::prelude::*;
use crate::model::{
    agent_of_chat, chat_bound, consistent, distinct_ids, ledger_or_fresh, ledgers_of,
    lemma_chat_at, lemma_count, lemma_insert_consistent, lemma_keeps_chat, lemma_ledger_at,
    lemma_push, lemma_update_at, moved_forward, place_of, unbound,
};
use crate::record::{AgentRecord, ChatId, Ledgers};

verus! {

/// How an attempt to link a chat to an agent ended.
#[derive(Clone, Copy, Debug, PartialEq, Eq, Structural)]
pub enum BindOutcome {
    /// The agent is now linked to the chat.
    Success,
    /// The chat already has an agent, or the agent already has a chat.
    AlreadyBound,
    /// The store has no record of the agent.
    NotFound,
}

/// Why a notified or claimed counter was not advanced.
#[derive(Clone, Copy, Debug, PartialEq, Eq, Structural)]
pub enum AdvanceError {
    /// No agent is linked to the chat.
    UnknownChat,
    /// The advance would pass the counter that bounds this one.
    Exceeds,
}

/// How linking `chat` to `id` ends on the map `m`: a chat that has an agent,
/// or an agent that has a chat, is refused, and so is an unknown agent.
pub open spec fn bind_outcome(m: Ledgers, id: Seq<char>, chat: ChatId) -> BindOutcome {
    if chat_bound(m, chat) {
        BindOutcome::AlreadyBound
    } else if !m.contains_key(id) {
        BindOutcome::NotFound
    } else if m[id].bound_chat is Some {
        BindOutcome::AlreadyBound
    } else {
        BindOutcome::Success
    }
}

/// What is wrong with a record that cannot be restored.
#[derive(Clone, Copy, Debug, PartialEq, Eq, Structural)]
pub enum Fault {
    /// Its counters are out of order.
    Unordered,
    /// An earlier record has the same identifier.
    DuplicateAgent,
    /// An earlier record is linked to the same chat.
    DuplicateChat,
}

/// The first record that cannot be restored, and what is wrong with it.
#[derive(Clone, Copy, Debug, PartialEq, Eq, Structural)]
pub struct RestoreError {
    /// The place of the record among those handed in.
    pub index: usize,
    /// What is wrong with it.
    pub fault: Fault,
}

/// What is wrong with the record at `i`, given the records before it.
pub open spec fn fault_at(recs: Seq<AgentRecord>, i: int) -> Option<Fault> {
    if !recs[i].ledger().ordered() {
        Some(Fault::Unordered)
    } else if exists|j: int| 0 <= j < i && #[trigger] recs[j].id() == recs[i].id() {
        Some(Fault::DuplicateAgent)
    } else if recs[i].bound_chat is Some && exists|j: int|
        0 <= j < i && (#[trigger] recs[j]).bound_chat == recs[i].bound_chat {
        Some(Fault::DuplicateChat)
    } else {
        None
    }
}

/// Records without a fault have distinct identifiers and make a consistent
/// map.
pub proof fn lemma_faultless(recs: Seq<AgentRecord>)
    requires
        forall|i: int| 0 <= i < recs.len() ==> fault_at(recs, i) is None,
    ensures
        distinct_ids(recs),
        consistent(ledgers_of(recs)),
{
    assert forall|i: int, j: int|
        0 <= i < recs.len() && 0 <= j < recs.len() && i != j implies #[trigger] recs[i].id()
        != #[trigger] recs[j].id() by {
        if i < j {
            assert(fault_at(recs, j) is None);
        } else {
            assert(fault_at(recs, i) is None);
        }
    }
    let m = ledgers_of(recs);
    assert forall|id: Seq<char>| m.contains_key(id) implies (#[trigger] m[id]).ordered() by {
        let p = place_of(recs, id);
        assert(fault_at(recs, p) is None);
    }
    assert forall|a: Seq<char>, b: Seq<char>|
        m.contains_key(a) && m.contains_key(b) && (#[trigger] m[a]).bound_chat is Some
            && m[a].bound_chat == (#[trigger] m[b]).bound_chat implies a == b by {
        let p = place_of(recs, a);
        let q = place_of(recs, b);
        if p < q {
            assert(fault_at(recs, q) is None);
        } else if q < p {
            assert(fault_at(recs, p) is None);
        }
    }
}

/// Records with distinct identifiers that make a consistent map are without
/// fault.
pub proof fn lemma_consistent_faultless(recs: Seq<AgentRecord>)
    requires
        distinct_ids(recs),
        consistent(ledgers_of(recs)),
    ensures
        forall|i: int| 0 <= i < recs.len() ==> fault_at(recs, i) is None,
{
    let m = ledgers_of(recs);
    assert forall|i: int| 0 <= i < recs.len() implies fault_at(recs, i) is None by {
        lemma_ledger_at(recs, i);
        assert(m[recs[i].id()].ordered());
        assert forall|j: int| 0 <= j < i implies (#[trigger] recs[j]).bound_chat is None
            || recs[j].bound_chat != recs[i].bound_chat by {
            lemma_ledger_at(recs, j);
            if recs[j].bound_chat is Some && recs[j].bound_chat == recs[i].bound_chat {
                assert(m[recs[j].id()].bound_chat == m[recs[i].id()].bound_chat);
                assert(recs[j].id() == recs[i].id());
            }
        }
    }
}

/// The agent records, each under its own identifier.
pub struct Store {
    records: Vec<AgentRecord>,
}

impl View for Store {
    type V = Ledgers;

    closed spec fn view(&self) -> Ledgers {
        ledgers_of(self.records@)
    }
}

impl Store {
    /// The store's invariant: identifiers are unique, counters are ordered and
    /// the link between chats and agents is one to one.
    pub closed spec fn wf(&self) -> bool {
        &&& distinct_ids(self.records@)
        &&& consistent(self@)
    }

    /// What a well-formed store's map is like: counters ordered, chats linked
    /// one to one.
    pub proof fn lemma_wf_consistent(&self)
        requires
            self.wf(),
        ensures
            consistent(self@),
    {
    }

    /// The ledger invariant: in a well-formed store, which is every store that
    /// this module hands out or leaves behind, each agent's claimed units are
    /// at most its notified units, and those at most its reported uptime.
    pub proof fn law_counters_ordered(&self, id: Seq<char>)
        requires
            self.wf(),
            self@.contains_key(id),
        ensures
            0 <= self@[id].claimed <= self@[id].notified <= self@[id].raw,
    {
        assert(self@[id].ordered());
    }

    /// A store without records.
    pub fn new() -> (store: Store)
        ensures
            store.wf(),
            store@ == Ledgers::empty(),
    {
        let store = Store { records: Vec::new() };
        assert(store@ =~= Ledgers::empty());
        store
    }

    fn position_of_agent(&self, id: &String) -> (pos: Option<usize>)
        requires
            self.wf(),
        ensures
            match pos {
                Some(i) => i < self.records@.len() && self.records@[i as int].id() == id@,
                None => !self@.contains_key(id@),
            },
    {
        let mut i: usize = 0;
        while i < self.records.len()
            invariant
                i <= self.records@.len(),
                forall|j: int| 0 <= j < i ==> (#[trigger] self.records@[j]).id() != id@,
            decreases self.records@.len() - i,
        {
            if self.records[i].agent_id == *id {
                return Some(i);
            }
            i += 1;
        }
        None
    }

    fn position_of_chat(&self, chat: ChatId) -> (pos: Option<usize>)
        requires
            self.wf(),
        ensures
            match pos {
                Some(i) => {
                    &&& i < self.records@.len()
                    &&& self.records@[i as int].bound_chat == Some(chat)
                    &&& chat_bound(self@, chat)
                },
                None => !chat_bound(self@, chat),
            },
    {
        let mut i: usize = 0;
        while i < self.records.len()
            invariant
                self.wf(),
                i <= self.records@.len(),
                forall|j: int|
                    0 <= j < i ==> (#[trigger] self.records@[j]).bound_chat != Some(chat),
            decreases self.records@.len() - i,
        {
            let hit = match self.records[i].bound_chat {
                Some(c) => c == chat,
                None => false,
            };
            if hit {
                proof {
                    lemma_chat_at(self.records@, i as int, chat);
                }
                return Some(i);
            }
            i += 1;
        }
        proof {
            if chat_bound(self@, chat) {
                let id = agent_of_chat(self@, chat);
                let p = place_of(self.records@, id);
                lemma_ledger_at(self.records@, p);
            }
        }
        None
    }

    fn put_at(&mut self, p: usize, rec: AgentRecord)
        requires
            old(self).wf(),
            p < old(self).records@.len(),
            rec.id() == old(self).records@[p as int].id(),
            consistent(old(self)@.insert(rec.id(), rec.ledger())),
        ensures
            final(self).wf(),
            final(self)@ == old(self)@.insert(rec.id(), rec.ledger()),
    {
        proof {
            lemma_update_at(self.records@, p as int, rec);
        }
        self.records.set(p, rec);
    }

    fn put_new(&mut self, rec: AgentRecord)
        requires
            old(self).wf(),
            !old(self)@.contains_key(rec.id()),
            consistent(old(self)@.insert(rec.id(), rec.ledger())),
        ensures
            final(self).wf(),
            final(self)@ == old(self)@.insert(rec.id(), rec.ledger()),
    {
        proof {
            lemma_push(self.records@, rec);
        }
        self.records.push(rec);
    }

    /// The record of `agent_id`, made with all counters at zero and no chat
    /// where the store did not have one.
    pub fn get_or_create(&mut self, agent_id: &str) -> (rec: AgentRecord)
        requires
            old(self).wf(),
        ensures
            final(self).wf(),
            moved_forward(old(self)@, final(self)@),
            final(self)@ == old(self)@.insert(agent_id@, ledger_or_fresh(old(self)@, agent_id@)),
            rec.id() == agent_id@,
            rec.ledger() == ledger_or_fresh(old(self)@, agent_id@),
    {
        let id = agent_id.to_owned();
        match self.position_of_agent(&id) {
            Some(p) => {
                proof {
                    lemma_ledger_at(self.records@, p as int);
                    assert(self@.insert(agent_id@, self@[agent_id@]) =~= self@);
                }
                self.records[p].clone()
            },
            None => {
                let rec = AgentRecord::fresh(id);
                let out = rec.clone();
                proof {
                    lemma_insert_consistent(self@, rec.id(), rec.ledger());
                }
                self.put_new(rec);
                out
            },
        }
    }

    /// The record of `agent_id`, if the store has one.
    pub fn find(&self, agent_id: &str) -> (found: Option<AgentRecord>)
        requires
            self.wf(),
        ensures
            found is Some <==> self@.contains_key(agent_id@),
            found is Some ==> found->0.id() == agent_id@ && found->0.ledger() == self@[agent_id@],
    {
        let id = agent_id.to_owned();
        match self.position_of_agent(&id) {
            Some(p) => {
                proof {
                    lemma_ledger_at(self.records@, p as int);
                }
                Some(self.records[p].clone())
            },
            None => None,
        }
    }

    /// Adds `delta` units of reported uptime to `agent_id`, which is recorded
    /// first where the store did not know it. The counter stops at the largest
    /// value it can hold.
    pub fn advance_raw(&mut self, agent_id: &str, delta: u64)
        requires
            old(self).wf(),
        ensures
            final(self).wf(),
            moved_forward(old(self)@, final(self)@),
            final(self)@ == old(self)@.insert(
                agent_id@,
                ledger_or_fresh(old(self)@, agent_id@).with_raw_advanced(delta),
            ),
    {
        let id = agent_id.to_owned();
        match self.position_of_agent(&id) {
            Some(p) => {
                let cur = &self.records[p];
                let rec = AgentRecord {
                    agent_id: id,
                    bound_chat: cur.bound_chat,
                    raw_uptime_units: cur.raw_uptime_units.saturating_add(delta),
                    notified_units: cur.notified_units,
                    claimed_units: cur.claimed_units,
                };
                proof {
                    lemma_ledger_at(self.records@, p as int);
                    assert(self@[agent_id@].ordered());
                    lemma_insert_consistent(self@, rec.id(), rec.ledger());
                }
                self.put_at(p, rec);
            },
            None => {
                let rec = AgentRecord {
                    agent_id: id,
                    bound_chat: None,
                    raw_uptime_units: delta,
                    notified_units: 0,
                    claimed_units: 0,
                };
                proof {
                    lemma_insert_consistent(self@, rec.id(), rec.ledger());
                }
                self.put_new(rec);
            },
        }
    }

    /// Links `chat` to `agent_id`. A chat that already has an agent, an agent
    /// that already has a chat and an unknown agent are refused, and the store
    /// stays as it was.
    pub fn bind(&mut self, agent_id: &str, chat: ChatId) -> (outcome: BindOutcome)
        requires
            old(self).wf(),
        ensures
            final(self).wf(),
            moved_forward(old(self)@, final(self)@),
            outcome == bind_outcome(old(self)@, agent_id@, chat),
            final(self)@ == if outcome == BindOutcome::Success {
                old(self)@.insert(agent_id@, old(self)@[agent_id@].with_chat(Some(chat)))
            } else {
                old(self)@
            },
    {
        if self.position_of_chat(chat).is_some() {
            return BindOutcome::AlreadyBound;
        }
        let id = agent_id.to_owned();
        match self.position_of_agent(&id) {
            None => BindOutcome::NotFound,
            Some(p) => {
                proof {
                    lemma_ledger_at(self.records@, p as int);
                }
                let cur = &self.records[p];
                if cur.bound_chat.is_some() {
                    return BindOutcome::AlreadyBound;
                }
                let rec = AgentRecord {
                    agent_id: id,
                    bound_chat: Some(chat),
                    raw_uptime_units: cur.raw_uptime_units,
                    notified_units: cur.notified_units,
                    claimed_units: cur.claimed_units,
                };
                proof {
                    assert(self@[agent_id@].ordered());
                    lemma_insert_consistent(self@, rec.id(), rec.ledger());
                }
                self.put_at(p, rec);
                BindOutcome::Success
            },
        }
    }

    /// Takes the chat from the agent that `chat` is linked to; the counters
    /// stay. Returns whether there was such an agent.
    pub fn unbind(&mut self, chat: ChatId) -> (was_bound: bool)
        requires
            old(self).wf(),
        ensures
            final(self).wf(),
            moved_forward(old(self)@, final(self)@),
            was_bound == chat_bound(old(self)@, chat),
            final(self)@ == unbound(old(self)@, chat),
            !chat_bound(final(self)@, chat),
    {
        match self.position_of_chat(chat) {
            None => false,
            Some(p) => {
                proof {
                    lemma_chat_at(self.records@, p as int, chat);
                }
                let cur = &self.records[p];
                let rec = AgentRecord {
                    agent_id: cur.agent_id.clone(),
                    bound_chat: None,
                    raw_uptime_units: cur.raw_uptime_units,
                    notified_units: cur.notified_units,
                    claimed_units: cur.claimed_units,
                };
                proof {
                    assert(self@[rec.id()].ordered());
                    lemma_insert_consistent(self@, rec.id(), rec.ledger());
                }
                let ghost before = self@;
                self.put_at(p, rec);
                proof {
                    let id = rec.id();
                    if chat_bound(self@, chat) {
                        let other = agent_of_chat(self@, chat);
                        assert(other != id);
                        assert(before.contains_key(other));
                        assert(before[other].bound_chat == before[id].bound_chat);
                    }
                }
                true
            },
        }
    }

    /// The record of the agent that `chat` is linked to.
    pub fn find_by_chat(&self, chat: ChatId) -> (found: Option<AgentRecord>)
        requires
            self.wf(),
        ensures
            found is Some <==> chat_bound(self@, chat),
            found is Some ==> {
                &&& found->0.id() == agent_of_chat(self@, chat)
                &&& found->0.ledger() == self@[agent_of_chat(self@, chat)]
                &&& found->0.bound_chat == Some(chat)
            },
    {
        match self.position_of_chat(chat) {
            None => None,
            Some(p) => {
                proof {
                    lemma_chat_at(self.records@, p as int, chat);
                }
                Some(self.records[p].clone())
            },
        }
    }

    /// Adds `delta` units to the notified counter of the agent of `chat`.
    /// Refused, with the store unchanged, where no agent is linked to `chat` or
    /// the counter would pass the reported uptime.
    pub fn advance_notified(&mut self, chat: ChatId, delta: u64) -> (res: Result<(), AdvanceError>)
        requires
            old(self).wf(),
        ensures
            final(self).wf(),
            moved_forward(old(self)@, final(self)@),
            match res {
                Ok(_) => {
                    let id = agent_of_chat(old(self)@, chat);
                    &&& chat_bound(old(self)@, chat)
                    &&& old(self)@[id].notified + delta <= old(self)@[id].raw
                    &&& final(self)@ == old(self)@.insert(
                        id,
                        old(self)@[id].with_notified_advanced(delta),
                    )
                },
                Err(AdvanceError::UnknownChat) => {
                    &&& !chat_bound(old(self)@, chat)
                    &&& final(self)@ == old(self)@
                },
                Err(AdvanceError::Exceeds) => {
                    let id = agent_of_chat(old(self)@, chat);
                    &&& chat_bound(old(self)@, chat)
                    &&& old(self)@[id].notified + delta > old(self)@[id].raw
                    &&& final(self)@ == old(self)@
                },
            },
    {
        match self.position_of_chat(chat) {
            None => Err(AdvanceError::UnknownChat),
            Some(p) => {
                proof {
                    lemma_chat_at(self.records@, p as int, chat);
                }
                let cur = &self.records[p];
                assert(cur.ledger().ordered());
                if delta > cur.raw_uptime_units - cur.notified_units {
                    return Err(AdvanceError::Exceeds);
                }
                let rec = AgentRecord {
                    agent_id: cur.agent_id.clone(),
                    bound_chat: cur.bound_chat,
                    raw_uptime_units: cur.raw_uptime_units,
                    notified_units: cur.notified_units + delta,
                    claimed_units: cur.claimed_units,
                };
                proof {
                    lemma_keeps_chat(self@, rec.id(), rec.ledger());
                }
                self.put_at(p, rec);
                Ok(())
            },
        }
    }

    /// Adds `delta` units to the claimed counter of the agent of `chat`.
    /// Refused, with the store unchanged, where no agent is linked to `chat` or
    /// the counter would pass the notified one.
    pub fn advance_claimed(&mut self, chat: ChatId, delta: u64) -> (res: Result<(), AdvanceError>)
        requires
            old(self).wf(),
        ensures
            final(self).wf(),
            moved_forward(old(self)@, final(self)@),
            match res {
                Ok(_) => {
                    let id = agent_of_chat(old(self)@, chat);
                    &&& chat_bound(old(self)@, chat)
                    &&& old(self)@[id].claimed + delta <= old(self)@[id].notified
                    &&& final(self)@ == old(self)@.insert(
                        id,
                        old(self)@[id].with_claimed_advanced(delta),
                    )
                },
                Err(AdvanceError::UnknownChat) => {
                    &&& !chat_bound(old(self)@, chat)
                    &&& final(self)@ == old(self)@
                },
                Err(AdvanceError::Exceeds) => {
                    let id = agent_of_chat(old(self)@, chat);
                    &&& chat_bound(old(self)@, chat)
                    &&& old(self)@[id].claimed + delta > old(self)@[id].notified
                    &&& final(self)@ == old(self)@
                },
            },
    {
        match self.position_of_chat(chat) {
            None => Err(AdvanceError::UnknownChat),
            Some(p) => {
                proof {
                    lemma_chat_at(self.records@, p as int, chat);
                }
                let cur = &self.records[p];
                assert(cur.ledger().ordered());
                if delta > cur.notified_units - cur.claimed_units {
                    return Err(AdvanceError::Exceeds);
                }
                let rec = AgentRecord {
                    agent_id: cur.agent_id.clone(),
                    bound_chat: cur.bound_chat,
                    raw_uptime_units: cur.raw_uptime_units,
                    notified_units: cur.notified_units,
                    claimed_units: cur.claimed_units + delta,
                };
                proof {
                    lemma_keeps_chat(self@, rec.id(), rec.ledger());
                }
                self.put_at(p, rec);
                Ok(())
            },
        }
    }

    /// A copy of every record, one for each agent, in no promised order.
    pub fn records(&self) -> (out: Vec<AgentRecord>)
        requires
            self.wf(),
        ensures
            distinct_ids(out@),
            ledgers_of(out@) == self@,
            forall|i: int| 0 <= i < out@.len() ==> fault_at(out@, i) is None,
    {
        let mut out: Vec<AgentRecord> = Vec::new();
        let mut i: usize = 0;
        while i < self.records.len()
            invariant
                i <= self.records@.len(),
                out@ == self.records@.subrange(0, i as int),
            decreases self.records@.len() - i,
        {
            let rec = self.records[i].clone();
            out.push(rec);
            assert(out@ =~= self.records@.subrange(0, i + 1));
            i += 1;
        }
        assert(out@ =~= self.records@);
        proof {
            lemma_consistent_faultless(out@);
        }
        out
    }

    /// The number of agents on record.
    pub fn len(&self) -> (n: usize)
        requires
            self.wf(),
        ensures
            n == self@.dom().len(),
            self@.dom().finite(),
    {
        proof {
            lemma_count(self.records@);
        }
        self.records.len()
    }

    /// A store that holds `records`, as they were saved. Records whose counters
    /// are out of order, or that repeat an identifier or a chat, are not
    /// taken: the first such record is named.
    pub fn restore(records: Vec<AgentRecord>) -> (res: Result<Store, RestoreError>)
        ensures
            match res {
                Ok(store) => {
                    &&& forall|i: int| 0 <= i < records@.len() ==> fault_at(records@, i) is None
                    &&& store.wf()
                    &&& store@ == ledgers_of(records@)
                },
                Err(e) => {
                    &&& e.index < records@.len()
                    &&& fault_at(records@, e.index as int) == Some(e.fault)
                    &&& forall|i: int| 0 <= i < e.index ==> fault_at(records@, i) is None
                },
            },
    {
        let mut i: usize = 0;
        while i < records.len()
            invariant
                i <= records@.len(),
                forall|k: int| 0 <= k < i ==> fault_at(records@, k) is None,
            decreases records@.len() - i,
        {
            let rec = &records[i];
            if !(rec.claimed_units <= rec.notified_units && rec.notified_units
                <= rec.raw_uptime_units) {
                return Err(RestoreError { index: i, fault: Fault::Unordered });
            }
            let mut same_id = false;
            let mut same_chat = false;
            let mut j: usize = 0;
            while j < i
                invariant
                    j <= i < records@.len(),
                    rec == records@[i as int],
                    same_id == exists|k: int|
                        0 <= k < j && #[trigger] records@[k].id() == records@[i as int].id(),
                    same_chat == (records@[i as int].bound_chat is Some && exists|k: int|
                        0 <= k < j && (#[trigger] records@[k]).bound_chat
                            == records@[i as int].bound_chat),
                decreases i - j,
            {
                let earlier = &records[j];
                let ghost id_before = same_id;
                let ghost chat_before = same_chat;
                if earlier.agent_id == rec.agent_id {
                    same_id = true;
                }
                let chat_hit = match (earlier.bound_chat, rec.bound_chat) {
                    (Some(a), Some(b)) => a == b,
                    _ => false,
                };
                if chat_hit {
                    same_chat = true;
                }
                proof {
                    let here = records@[j as int];
                    let this = records@[i as int];
                    assert(here.id() == this.id() <==> earlier.agent_id@ == rec.agent_id@);
                    if id_before {
                        let k = choose|k: int|
                            0 <= k < j && #[trigger] records@[k].id() == this.id();
                        assert(0 <= k < j + 1 && records@[k].id() == this.id());
                    }
                    if chat_before {
                        let k = choose|k: int|
                            0 <= k < j && (#[trigger] records@[k]).bound_chat == this.bound_chat;
                        assert(0 <= k < j + 1 && records@[k].bound_chat == this.bound_chat);
                    }
                    if chat_hit {
                        assert(0 <= j < j + 1 && here.bound_chat == this.bound_chat);
                    }
                }
                j += 1;
            }
            if same_id {
                return Err(RestoreError { index: i, fault: Fault::DuplicateAgent });
            }
            if same_chat {
                return Err(RestoreError { index: i, fault: Fault::DuplicateChat });
            }
            i += 1;
        }
        proof {
            lemma_faultless(records@);
        }
        Ok(Store { records })
    }
}

impl Clone for Store {
    /// A second store with the same records.
    fn clone(&self) -> (copy: Store)
        ensures
            copy@ == self@,
            copy.wf() == self.wf(),
    {
        let mut out: Vec<AgentRecord> = Vec::new();
        let mut i: usize = 0;
        while i < self.records.len()
            invariant
                i <= self.records@.len(),
                out@ == self.records@.subrange(0, i as int),
            decreases self.records@.len() - i,
        {
            let rec = self.records[i].clone();
            out.push(rec);
            assert(out@ =~= self.records@.subrange(0, i + 1));
            i += 1;
        }
        assert(out@ =~= self.records@);
        Store { records: out }
    }
}

} // verus!
