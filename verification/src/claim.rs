//! The claim processor: turns notified entitlement into a reward request, and
//! advances the claimed counter only once the reward was issued.
use vstd::prelude::*;
use crate::record::{ChatId, Ledgers};
use crate::schedule::Schedule;
use crate::model::{agent_of_chat, chat_bound, consistent, lemma_keeps_chat, moved_forward};
use crate::store::{AdvanceError, Store};

verus! {

/// What is asked of the reward issuer: `quantity` items, each worth
/// `units_per_item` accrual units.
#[derive(Clone, Copy, Debug, PartialEq, Eq, Structural)]
pub struct RewardRequest {
    /// How many items to issue.
    pub quantity: u64,
    /// How many accrual units each item is worth.
    pub units_per_item: u64,
}

/// What a claim request leads to.
#[derive(Clone, Copy, Debug, PartialEq, Eq, Structural)]
pub enum ClaimDecision {
    /// The chat has no agent.
    NotRegistered,
    /// No whole accrual unit is notified and unclaimed.
    NothingToClaim,
    /// The issuer is to be asked for this reward.
    Request(RewardRequest),
}

/// How a claim was settled.
#[derive(Clone, Copy, Debug, PartialEq, Eq, Structural)]
pub enum ClaimOutcome {
    /// The reward was issued and the claimed counter moved.
    Claimed,
    /// The issuer failed; nothing changed and the claim can be made again.
    IssuerFailed,
    /// The store refused the advance; nothing changed.
    Refused(AdvanceError),
}

/// Whole accrual units that the agent of `chat` was told of and has not
/// claimed; zero for a chat without an agent.
pub open spec fn unclaimed_of(m: Ledgers, chat: ChatId, unit_threshold: u64) -> int {
    if chat_bound(m, chat) {
        m[agent_of_chat(m, chat)].unclaimed(unit_threshold)
    } else {
        0
    }
}

/// What a claim from `chat` leads to on the map `m`: one item worth all the
/// unclaimed units, where there is at least one.
pub open spec fn claim_decision(
    m: Ledgers,
    unit_threshold: u64,
    chat: ChatId,
) -> ClaimDecision {
    if !chat_bound(m, chat) {
        ClaimDecision::NotRegistered
    } else if unclaimed_of(m, chat, unit_threshold) <= 0 {
        ClaimDecision::NothingToClaim
    } else {
        ClaimDecision::Request(
            RewardRequest {
                quantity: 1,
                units_per_item: unclaimed_of(m, chat, unit_threshold) as u64,
            },
        )
    }
}

/// How settling a claim of `units` accrual units ends on the map `m`, given
/// whether the issuer delivered.
pub open spec fn claim_outcome(
    m: Ledgers,
    unit_threshold: u64,
    chat: ChatId,
    units: u64,
    issued: bool,
) -> ClaimOutcome {
    let id = agent_of_chat(m, chat);
    if !issued {
        ClaimOutcome::IssuerFailed
    } else if !chat_bound(m, chat) {
        ClaimOutcome::Refused(AdvanceError::UnknownChat)
    } else if m[id].claimed + units * unit_threshold > m[id].notified {
        ClaimOutcome::Refused(AdvanceError::Exceeds)
    } else {
        ClaimOutcome::Claimed
    }
}

/// The map `m` after a claim of `units` accrual units was settled.
pub open spec fn claim_settled(
    m: Ledgers,
    unit_threshold: u64,
    chat: ChatId,
    units: u64,
    issued: bool,
) -> Ledgers {
    let id = agent_of_chat(m, chat);
    if claim_outcome(m, unit_threshold, chat, units, issued) == ClaimOutcome::Claimed {
        m.insert(id, m[id].with_claimed_advanced((units * unit_threshold) as u64))
    } else {
        m
    }
}

/// Decides what a claim from `chat` leads to. Nothing is changed and nobody is
/// called: the request, where there is one, is for the caller to send.
pub fn begin_claim(store: &Store, schedule: &Schedule, chat: ChatId) -> (decision: ClaimDecision)
    requires
        store.wf(),
        schedule.wf(),
    ensures
        decision == claim_decision(store@, schedule.threshold(), chat),
{
    match store.find_by_chat(chat) {
        None => ClaimDecision::NotRegistered,
        Some(rec) => {
            proof {
                store.lemma_wf_consistent();
                assert(store@[rec.id()].ordered());
            }
            let units = rec.unclaimed(schedule.unit_threshold());
            if units == 0 {
                ClaimDecision::NothingToClaim
            } else {
                ClaimDecision::Request(RewardRequest { quantity: 1, units_per_item: units })
            }
        },
    }
}

/// Settles a claim of `units` accrual units for `chat`. Where the issuer
/// failed nothing changes; where it delivered, the claimed counter advances by
/// the uptime of those units, unless the store refuses.
pub fn finish_claim(
    store: &mut Store,
    schedule: &Schedule,
    chat: ChatId,
    units: u64,
    issued: bool,
) -> (outcome: ClaimOutcome)
    requires
        old(store).wf(),
        schedule.wf(),
    ensures
        final(store).wf(),
        moved_forward(old(store)@, final(store)@),
        outcome == claim_outcome(old(store)@, schedule.threshold(), chat, units, issued),
        final(store)@ == claim_settled(old(store)@, schedule.threshold(), chat, units, issued),
{
    if !issued {
        return ClaimOutcome::IssuerFailed;
    }
    match units.checked_mul(schedule.unit_threshold()) {
        Some(delta) => match store.advance_claimed(chat, delta) {
            Ok(_) => ClaimOutcome::Claimed,
            Err(e) => ClaimOutcome::Refused(e),
        },
        None => match store.find_by_chat(chat) {
            Some(_) => ClaimOutcome::Refused(AdvanceError::Exceeds),
            None => ClaimOutcome::Refused(AdvanceError::UnknownChat),
        },
    }
}

/// A failed issuer costs nothing: no counter moves, and the chat has as much
/// to claim afterwards as it had before.
pub proof fn law_failed_issue_keeps_entitlement(
    m: Ledgers,
    unit_threshold: u64,
    chat: ChatId,
    units: u64,
)
    ensures
        claim_outcome(m, unit_threshold, chat, units, false) == ClaimOutcome::IssuerFailed,
        claim_settled(m, unit_threshold, chat, units, false) == m,
        unclaimed_of(claim_settled(m, unit_threshold, chat, units, false), chat, unit_threshold)
            == unclaimed_of(m, chat, unit_threshold),
        claim_decision(claim_settled(m, unit_threshold, chat, units, false), unit_threshold, chat)
            == claim_decision(m, unit_threshold, chat),
{
}

/// A claim for everything unclaimed, once issued, is accepted by the store,
/// keeps the counters ordered, and leaves nothing to claim: the next claim is
/// told so.
pub proof fn law_issued_claim_spends_entitlement(
    m: Ledgers,
    unit_threshold: u64,
    chat: ChatId,
    units: u64,
)
    requires
        consistent(m),
        unit_threshold > 0,
        claim_decision(m, unit_threshold, chat) == ClaimDecision::Request(
            RewardRequest { quantity: 1, units_per_item: units },
        ),
    ensures
        claim_outcome(m, unit_threshold, chat, units, true) == ClaimOutcome::Claimed,
        consistent(claim_settled(m, unit_threshold, chat, units, true)),
        claim_decision(claim_settled(m, unit_threshold, chat, units, true), unit_threshold, chat)
            == ClaimDecision::NothingToClaim,
{
    let a = agent_of_chat(m, chat);
    let t = unit_threshold as int;
    let gap = m[a].notified - m[a].claimed;
    assert(m[a].ordered());
    assert(gap <= u64::MAX);
    vstd::arithmetic::div_mod::lemma_fundamental_div_mod(gap, t);
    vstd::arithmetic::div_mod::lemma_mod_bound(gap, t);
    vstd::arithmetic::div_mod::lemma_div_pos_is_pos(gap, t);
    assert(gap / t <= gap) by (nonlinear_arith)
        requires
            gap >= 0,
            t > 0,
    ;
    assert(units == gap / t);
    assert(units * unit_threshold == t * (gap / t)) by (nonlinear_arith)
        requires
            units == gap / t,
            t == unit_threshold,
    ;
    let delta = units * unit_threshold;
    assert(delta <= gap);
    let after = m[a].with_claimed_advanced(delta as u64);
    let next = claim_settled(m, unit_threshold, chat, units, true);
    assert(next == m.insert(a, after));
    lemma_keeps_chat(m, a, after);
    let b = agent_of_chat(next, chat);
    assert(next.contains_key(a) && next[a].bound_chat == Some(chat));
    assert(next.contains_key(b) && next[b].bound_chat == Some(chat));
    assert(a == b);
    assert(next[a].notified - next[a].claimed == gap % t);
    vstd::arithmetic::div_mod::lemma_basic_div(gap % t, t);
}

} // verus!
