//! The entitlement notifier: finds the chats that have earned whole accrual
//! units, and advances the notified counter once every message for a chat was
//! accepted.
use vstd::prelude::*;
use crate::binder::{RegisterOutcome, register_outcome, registered};
use crate::model::{
    agent_of_chat, chat_bound, consistent, distinct_ids, ledger_or_fresh, ledgers_of, lemma_chat_at,
    lemma_insert_consistent, lemma_keeps_chat, lemma_ledger_at, moved_forward, place_of,
};
use crate::record::{ChatId, Ledgers};
use crate::schedule::Schedule;
use crate::store::{AdvanceError, Store};

verus! {

/// The messages owed to one chat: `earned` of them, one for each accrual unit.
#[derive(Clone, Copy, Debug, PartialEq, Eq, Structural)]
pub struct Notice {
    /// The chat to tell.
    pub chat: ChatId,
    /// How many accrual units its agent has earned since it was last told.
    pub earned: u64,
}

/// How the delivery of a notice was settled.
#[derive(Clone, Copy, Debug, PartialEq, Eq, Structural)]
pub enum NoticeOutcome {
    /// Every message was accepted and the notified counter moved.
    Advanced,
    /// Fewer messages were accepted than are owed; nothing changed.
    Incomplete,
    /// The store refused the advance; nothing changed.
    Refused(AdvanceError),
}

/// Whole accrual units that the agent of `chat` has earned and was not told
/// of; zero for a chat without an agent.
pub open spec fn owed(m: Ledgers, chat: ChatId, unit_threshold: u64) -> int {
    if chat_bound(m, chat) {
        m[agent_of_chat(m, chat)].earned(unit_threshold)
    } else {
        0
    }
}

/// Whether `notice` is due on the map `m`: it is for at least one accrual
/// unit, and for exactly as many as its chat is owed.
pub open spec fn due(m: Ledgers, unit_threshold: u64, notice: Notice) -> bool {
    notice.earned >= 1 && notice.earned == owed(m, notice.chat, unit_threshold)
}

/// How settling `notice` ends on the map `m` when `accepted` messages got
/// through.
pub open spec fn notice_outcome(
    m: Ledgers,
    unit_threshold: u64,
    notice: Notice,
    accepted: u64,
) -> NoticeOutcome {
    let id = agent_of_chat(m, notice.chat);
    if accepted < notice.earned {
        NoticeOutcome::Incomplete
    } else if !chat_bound(m, notice.chat) {
        NoticeOutcome::Refused(AdvanceError::UnknownChat)
    } else if m[id].notified + notice.earned * unit_threshold > m[id].raw {
        NoticeOutcome::Refused(AdvanceError::Exceeds)
    } else {
        NoticeOutcome::Advanced
    }
}

/// The map `m` after `notice` was settled with `accepted` messages through.
pub open spec fn notice_settled(
    m: Ledgers,
    unit_threshold: u64,
    notice: Notice,
    accepted: u64,
) -> Ledgers {
    let id = agent_of_chat(m, notice.chat);
    if notice_outcome(m, unit_threshold, notice, accepted) == NoticeOutcome::Advanced {
        m.insert(id, m[id].with_notified_advanced((notice.earned * unit_threshold) as u64))
    } else {
        m
    }
}

/// One notice for every chat whose agent has earned at least one whole accrual
/// unit since it was last told, and for no other chat. Agents without a chat
/// are passed over; their uptime stays earned.
pub fn due_notices(store: &Store, schedule: &Schedule) -> (out: Vec<Notice>)
    requires
        store.wf(),
        schedule.wf(),
    ensures
        forall|j: int| 0 <= j < out@.len() ==> due(store@, schedule.threshold(), #[trigger] out@[j]),
        forall|j: int, k: int|
            0 <= j < out@.len() && 0 <= k < out@.len() && j != k ==> (#[trigger] out@[j]).chat
                != (#[trigger] out@[k]).chat,
        forall|chat: ChatId|
            owed(store@, chat, schedule.threshold()) >= 1 ==> exists|j: int|
                0 <= j < out@.len() && (#[trigger] out@[j]).chat == chat,
{
    let recs = store.records();
    let threshold = schedule.unit_threshold();
    let mut out: Vec<Notice> = Vec::new();
    let ghost mut src: Seq<int> = Seq::empty();
    proof {
        store.lemma_wf_consistent();
    }
    let mut i: usize = 0;
    while i < recs.len()
        invariant
            i <= recs@.len(),
            threshold == schedule.threshold(),
            threshold > 0,
            distinct_ids(recs@),
            ledgers_of(recs@) == store@,
            consistent(store@),
            src.len() == out@.len(),
            forall|j: int|
                0 <= j < out@.len() ==> {
                    &&& 0 <= #[trigger] src[j] < i
                    &&& recs@[src[j]].bound_chat == Some(out@[j].chat)
                    &&& out@[j].earned == recs@[src[j]].ledger().earned(threshold)
                    &&& out@[j].earned >= 1
                },
            forall|j: int, k: int|
                0 <= j < k < out@.len() ==> #[trigger] src[j] < #[trigger] src[k],
            forall|p: int|
                0 <= p < i && (#[trigger] recs@[p]).bound_chat is Some && recs@[p].ledger().earned(
                    threshold,
                ) >= 1 ==> exists|j: int| 0 <= j < out@.len() && #[trigger] src[j] == p,
        decreases recs@.len() - i,
    {
        let rec = &recs[i];
        proof {
            lemma_ledger_at(recs@, i as int);
            assert(store@[rec.id()].ordered());
        }
        match rec.bound_chat {
            Some(chat) => {
                let earned = rec.earned(threshold);
                if earned >= 1 {
                    let ghost before = src;
                    out.push(Notice { chat, earned });
                    proof {
                        src = src.push(i as int);
                        assert forall|p: int|
                            0 <= p < i + 1 && (#[trigger] recs@[p]).bound_chat is Some
                                && recs@[p].ledger().earned(threshold)
                                >= 1 implies exists|j: int|
                            0 <= j < out@.len() && #[trigger] src[j] == p by {
                            if p < i {
                                let j = choose|j: int|
                                    0 <= j < before.len() && #[trigger] before[j] == p;
                                assert(src[j] == p);
                            } else {
                                assert(src[out@.len() - 1] == p);
                            }
                        }
                    }
                }
            },
            None => {},
        }
        i += 1;
    }
    proof {
        assert forall|j: int| 0 <= j < out@.len() implies due(
            store@,
            schedule.threshold(),
            #[trigger] out@[j],
        ) by {
            lemma_chat_at(recs@, src[j], out@[j].chat);
        }
        assert forall|j: int, k: int|
            0 <= j < out@.len() && 0 <= k < out@.len() && j != k implies (#[trigger] out@[j]).chat
            != (#[trigger] out@[k]).chat by {
            if out@[j].chat == out@[k].chat {
                lemma_chat_at(recs@, src[j], out@[j].chat);
                lemma_chat_at(recs@, src[k], out@[k].chat);
                if j < k {
                    assert(src[j] < src[k]);
                } else {
                    assert(src[k] < src[j]);
                }
            }
        }
        assert forall|chat: ChatId| owed(store@, chat, schedule.threshold()) >= 1 implies exists|
            j: int,
        |
            0 <= j < out@.len() && (#[trigger] out@[j]).chat == chat by {
            let id = agent_of_chat(store@, chat);
            let p = place_of(recs@, id);
            lemma_ledger_at(recs@, p);
            assert(recs@[p].bound_chat == Some(chat));
            let j = choose|j: int| 0 <= j < out@.len() && #[trigger] src[j] == p;
            assert(out@[j].chat == chat);
        }
    }
    out
}

/// Settles the delivery of `notice`, of which `accepted` messages got through
/// to the chat. Only when all of them did is the notified counter advanced, by
/// the uptime of the accrual units that the notice stood for; otherwise the
/// store stays as it was, and the same units are due again.
pub fn settle_notice(
    store: &mut Store,
    schedule: &Schedule,
    notice: Notice,
    accepted: u64,
) -> (outcome: NoticeOutcome)
    requires
        old(store).wf(),
        schedule.wf(),
    ensures
        final(store).wf(),
        moved_forward(old(store)@, final(store)@),
        outcome == notice_outcome(old(store)@, schedule.threshold(), notice, accepted),
        final(store)@ == notice_settled(old(store)@, schedule.threshold(), notice, accepted),
{
    if accepted < notice.earned {
        return NoticeOutcome::Incomplete;
    }
    match notice.earned.checked_mul(schedule.unit_threshold()) {
        Some(units) => match store.advance_notified(notice.chat, units) {
            Ok(_) => NoticeOutcome::Advanced,
            Err(e) => NoticeOutcome::Refused(e),
        },
        None => match store.find_by_chat(notice.chat) {
            Some(_) => NoticeOutcome::Refused(AdvanceError::Exceeds),
            None => NoticeOutcome::Refused(AdvanceError::UnknownChat),
        },
    }
}

/// Reported uptime never takes entitlement away: after any agent's uptime
/// advanced, a chat is owed at least what it was owed before.
pub proof fn lemma_owed_grows(
    m: Ledgers,
    unit_threshold: u64,
    chat: ChatId,
    id: Seq<char>,
    delta: u64,
)
    requires
        consistent(m),
        unit_threshold > 0,
    ensures
        consistent(m.insert(id, ledger_or_fresh(m, id).with_raw_advanced(delta))),
        owed(m.insert(id, ledger_or_fresh(m, id).with_raw_advanced(delta)), chat, unit_threshold)
            >= owed(m, chat, unit_threshold),
{
    let after = ledger_or_fresh(m, id).with_raw_advanced(delta);
    let next = m.insert(id, after);
    if m.contains_key(id) {
        assert(m[id].ordered());
        lemma_keeps_chat(m, id, after);
    } else {
        lemma_insert_consistent(m, id, after);
    }
    if chat_bound(m, chat) {
        let a = agent_of_chat(m, chat);
        assert(next.contains_key(a));
        assert(next[a].bound_chat == Some(chat));
        let b = agent_of_chat(next, chat);
        assert(next.contains_key(b) && next[b].bound_chat == Some(chat));
        assert(a == b);
        assert(m[a].ordered());
        assert(next[a].raw >= m[a].raw);
        vstd::arithmetic::div_mod::lemma_div_is_ordered(
            m[a].raw - m[a].notified,
            next[a].raw - next[a].notified,
            unit_threshold as int,
        );
    } else if chat_bound(next, chat) {
        let b = agent_of_chat(next, chat);
        assert(next[b].ordered());
        vstd::arithmetic::div_mod::lemma_div_pos_is_pos(
            next[b].raw - next[b].notified,
            unit_threshold as int,
        );
    }
}

/// A delivery that stopped short changes nothing: when fewer messages were
/// accepted than the chat is owed, no counter moves, the chat is owed the same
/// number of messages afterwards, and uptime reported in between can only add
/// to it.
pub proof fn law_failed_delivery_keeps_entitlement(
    m: Ledgers,
    unit_threshold: u64,
    notice: Notice,
    accepted: u64,
    id: Seq<char>,
    delta: u64,
)
    requires
        consistent(m),
        unit_threshold > 0,
        notice.earned == owed(m, notice.chat, unit_threshold),
        accepted < notice.earned,
    ensures
        notice_outcome(m, unit_threshold, notice, accepted) == NoticeOutcome::Incomplete,
        notice_settled(m, unit_threshold, notice, accepted) == m,
        owed(notice_settled(m, unit_threshold, notice, accepted), notice.chat, unit_threshold)
            == notice.earned,
        owed(
            notice_settled(m, unit_threshold, notice, accepted).insert(
                id,
                ledger_or_fresh(m, id).with_raw_advanced(delta),
            ),
            notice.chat,
            unit_threshold,
        ) >= notice.earned,
{
    lemma_owed_grows(m, unit_threshold, notice.chat, id, delta);
}

/// A notice that was due and fully delivered is accepted by the store: the
/// notified counter moves by the uptime of the units told, the counters stay
/// ordered, and the chat is owed nothing more until new uptime comes in.
pub proof fn law_full_delivery_advances(
    m: Ledgers,
    unit_threshold: u64,
    notice: Notice,
    accepted: u64,
)
    requires
        consistent(m),
        unit_threshold > 0,
        notice.earned >= 1,
        notice.earned == owed(m, notice.chat, unit_threshold),
        accepted >= notice.earned,
    ensures
        notice_outcome(m, unit_threshold, notice, accepted) == NoticeOutcome::Advanced,
        consistent(notice_settled(m, unit_threshold, notice, accepted)),
        owed(notice_settled(m, unit_threshold, notice, accepted), notice.chat, unit_threshold) == 0,
{
    let a = agent_of_chat(m, notice.chat);
    let t = unit_threshold as int;
    let gap = m[a].raw - m[a].notified;
    assert(m[a].ordered());
    assert(notice.earned == gap / t);
    vstd::arithmetic::div_mod::lemma_fundamental_div_mod(gap, t);
    vstd::arithmetic::div_mod::lemma_mod_bound(gap, t);
    assert(notice.earned * unit_threshold == t * (gap / t)) by (nonlinear_arith)
        requires
            notice.earned == gap / t,
            t == unit_threshold,
    ;
    let units = notice.earned * unit_threshold;
    assert(units <= gap);
    let after = m[a].with_notified_advanced(units as u64);
    let next = notice_settled(m, unit_threshold, notice, accepted);
    assert(next == m.insert(a, after));
    lemma_keeps_chat(m, a, after);
    let b = agent_of_chat(next, notice.chat);
    assert(next.contains_key(a) && next[a].bound_chat == Some(notice.chat));
    assert(next.contains_key(b) && next[b].bound_chat == Some(notice.chat));
    assert(a == b);
    assert(next[a].raw - next[a].notified == gap % t);
    assert((gap % t) / t == 0) by {
        vstd::arithmetic::div_mod::lemma_basic_div(gap % t, t);
    }
}

/// Uptime reported while an agent had no chat is not lost: once a chat is
/// registered for the agent, the chat is owed every whole accrual unit that
/// the agent had earned by then.
pub proof fn law_registration_reveals_earned(
    m: Ledgers,
    unit_threshold: u64,
    chat: ChatId,
    id: Seq<char>,
)
    requires
        consistent(m),
        register_outcome(m, chat, id) == RegisterOutcome::Registered,
    ensures
        owed(m, chat, unit_threshold) == 0,
        owed(registered(m, chat, id), chat, unit_threshold) == m[id].earned(unit_threshold),
{
    let next = registered(m, chat, id);
    let after = m[id].with_chat(Some(chat));
    assert(m[id].ordered());
    lemma_insert_consistent(m, id, after);
    assert(next.contains_key(id) && next[id].bound_chat == Some(chat));
    let a = agent_of_chat(next, chat);
    assert(next.contains_key(a) && next[a].bound_chat == Some(chat));
    assert(a == id);
}

} // verus!
