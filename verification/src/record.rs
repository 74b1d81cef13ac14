//! One agent's counters and chat link.
use vstd::prelude::*;

verus! {

/// The identity of a chat.
pub type ChatId = i64;

/// What the store knows of one agent besides its identifier.
pub ghost struct Ledger {
    /// The chat that the agent is linked to, if any.
    pub bound_chat: Option<ChatId>,
    /// Units of uptime reported for the agent since it was first seen.
    pub raw: u64,
    /// Units of uptime whose accrual units the chat was told of.
    pub notified: u64,
    /// Units of uptime whose accrual units were redeemed.
    pub claimed: u64,
}

/// Every agent's ledger, by the agent's identifier.
pub type Ledgers = Map<Seq<char>, Ledger>;

impl Ledger {
    /// The ledger of an agent that has just been seen for the first time.
    pub open spec fn fresh() -> Ledger {
        Ledger { bound_chat: None, raw: 0, notified: 0, claimed: 0 }
    }

    /// Nothing is notified before it is earned, nor claimed before it is
    /// notified.
    pub open spec fn ordered(self) -> bool {
        0 <= self.claimed <= self.notified <= self.raw
    }

    /// This ledger after `delta` more units of uptime were reported. The counter
    /// stops at the largest value it can hold.
    pub open spec fn with_raw_advanced(self, delta: u64) -> Ledger {
        Ledger {
            raw: if self.raw + delta <= u64::MAX {
                (self.raw + delta) as u64
            } else {
                u64::MAX
            },
            ..self
        }
    }

    /// This ledger after `delta` more units were notified.
    pub open spec fn with_notified_advanced(self, delta: u64) -> Ledger
        recommends
            self.notified + delta <= self.raw,
    {
        Ledger { notified: (self.notified + delta) as u64, ..self }
    }

    /// This ledger after `delta` more units were claimed.
    pub open spec fn with_claimed_advanced(self, delta: u64) -> Ledger
        recommends
            self.claimed + delta <= self.notified,
    {
        Ledger { claimed: (self.claimed + delta) as u64, ..self }
    }

    /// This ledger linked to `chat`.
    pub open spec fn with_chat(self, chat: Option<ChatId>) -> Ledger {
        Ledger { bound_chat: chat, ..self }
    }

    /// Whole accrual units earned and not yet notified.
    pub open spec fn earned(self, unit_threshold: u64) -> int
        recommends
            unit_threshold > 0,
    {
        (self.raw - self.notified) / (unit_threshold as int)
    }

    /// Whole accrual units notified and not yet claimed.
    pub open spec fn unclaimed(self, unit_threshold: u64) -> int
        recommends
            unit_threshold > 0,
    {
        (self.notified - self.claimed) / (unit_threshold as int)
    }
}

/// One agent as the store hands it out.
#[derive(Debug)]
pub struct AgentRecord {
    /// The agent's identifier, as the uptime source names it.
    pub agent_id: String,
    /// The chat that the agent is linked to, if any.
    pub bound_chat: Option<ChatId>,
    /// Units of uptime reported for the agent since it was first seen.
    pub raw_uptime_units: u64,
    /// Units of uptime whose accrual units the chat was told of.
    pub notified_units: u64,
    /// Units of uptime whose accrual units were redeemed.
    pub claimed_units: u64,
}

impl AgentRecord {
    /// The counters and chat link of this record.
    pub open spec fn ledger(&self) -> Ledger {
        Ledger {
            bound_chat: self.bound_chat,
            raw: self.raw_uptime_units,
            notified: self.notified_units,
            claimed: self.claimed_units,
        }
    }

    /// The agent's identifier as a sequence of characters.
    pub open spec fn id(&self) -> Seq<char> {
        self.agent_id@
    }

    /// A record with all counters at zero and no chat.
    pub fn fresh(agent_id: String) -> (rec: AgentRecord)
        ensures
            rec.agent_id == agent_id,
            rec.ledger() == Ledger::fresh(),
    {
        AgentRecord {
            agent_id,
            bound_chat: None,
            raw_uptime_units: 0,
            notified_units: 0,
            claimed_units: 0,
        }
    }

    /// Whole accrual units earned and not yet notified.
    pub fn earned(&self, unit_threshold: u64) -> (days: u64)
        requires
            unit_threshold > 0,
            self.ledger().ordered(),
        ensures
            days == self.ledger().earned(unit_threshold),
    {
        (self.raw_uptime_units - self.notified_units) / unit_threshold
    }

    /// Whole accrual units notified and not yet claimed.
    pub fn unclaimed(&self, unit_threshold: u64) -> (days: u64)
        requires
            unit_threshold > 0,
            self.ledger().ordered(),
        ensures
            days == self.ledger().unclaimed(unit_threshold),
    {
        (self.notified_units - self.claimed_units) / unit_threshold
    }
}

impl Clone for AgentRecord {
    fn clone(&self) -> (rec: AgentRecord)
        ensures
            rec == *self,
    {
        AgentRecord {
            agent_id: self.agent_id.clone(),
            bound_chat: self.bound_chat,
            raw_uptime_units: self.raw_uptime_units,
            notified_units: self.notified_units,
            claimed_units: self.claimed_units,
        }
    }
}

} // verus!
