//! What to do with a line of text from a chat: the decisions of the message
//! handler, apart from sending and from calling the reward issuer.
use vstd::prelude::*;
use crate::binder::{
    DeregisterOutcome, RegisterOutcome, deregister, register, register_outcome, registered,
};
use crate::claim::{
    ClaimDecision, ClaimOutcome, RewardRequest, begin_claim, claim_decision, claim_outcome,
    claim_settled, finish_claim, unclaimed_of,
};
use crate::command::{Command, CommandView, parse_command, parsed, text_is};
use crate::record::{ChatId, Ledgers};
use crate::schedule::Schedule;
use crate::model::{agent_of_chat, chat_bound, moved_forward, unbound};
use crate::store::Store;

verus! {

/// Units of uptime in one hour, for showing uptime in hours.
pub const UNITS_PER_HOUR: u64 = 3600;

/// What the chat is told.
#[derive(Clone, Copy, Debug, PartialEq, Eq, Structural)]
pub enum Reply {
    /// How to register; said to a chat without an agent.
    Greeting,
    /// The chat already has an agent.
    AlreadyRegistered,
    /// The chat is now linked to the agent it named.
    RegisterSuccess,
    /// The identifier names no agent that can be linked.
    InvalidAgent,
    /// The agent's reported uptime, in whole hours.
    UptimeHours(u64),
    /// The accrual units that can be claimed.
    UnclaimedDays(u64),
    /// There is nothing to claim yet.
    NothingToClaim,
    /// The chat's agent lost its chat.
    Deregistered,
    /// The reward was issued; what the issuer returned goes to the chat.
    Reward,
    /// The claim could not be completed and nothing was spent; try again.
    RetryLater,
}

/// What the caller is to do next.
#[derive(Clone, Copy, Debug, PartialEq, Eq, Structural)]
pub enum Action {
    /// Show the menu for a chat that is, or is not, registered.
    Menu(bool),
    /// Send one message.
    Say(Reply),
    /// Send one message, then the menu.
    SayThenMenu(Reply, bool),
    /// Ask the reward issuer, then hand the result to `handle_reward`.
    AskIssuer(RewardRequest),
}

/// Whether `s` is one of the two lines that ask for the menu before any
/// command is read.
pub open spec fn asks_menu(s: Seq<char>) -> bool {
    s == "/start"@ || s == "/menu"@
}

/// What follows from the line `s` sent by `chat`, on the map `m`.
pub open spec fn action_for(
    m: Ledgers,
    unit_threshold: u64,
    chat: ChatId,
    s: Seq<char>,
) -> Action {
    let known = chat_bound(m, chat);
    if asks_menu(s) {
        Action::Menu(known)
    } else {
        match parsed(s) {
            Some(CommandView::Register(id)) => match register_outcome(m, chat, id) {
                RegisterOutcome::AlreadyRegistered => Action::Say(Reply::AlreadyRegistered),
                RegisterOutcome::Registered => Action::SayThenMenu(Reply::RegisterSuccess, true),
                RegisterOutcome::InvalidAgent => Action::Say(Reply::InvalidAgent),
            },
            Some(CommandView::Uptime) => if known {
                Action::Say(
                    Reply::UptimeHours(m[agent_of_chat(m, chat)].raw / UNITS_PER_HOUR),
                )
            } else {
                Action::Say(Reply::Greeting)
            },
            Some(CommandView::Unclaimed) => if known {
                Action::Say(Reply::UnclaimedDays(unclaimed_of(m, chat, unit_threshold) as u64))
            } else {
                Action::Say(Reply::Greeting)
            },
            Some(CommandView::Claim) => match claim_decision(m, unit_threshold, chat) {
                ClaimDecision::NotRegistered => Action::Say(Reply::Greeting),
                ClaimDecision::NothingToClaim => Action::Say(Reply::NothingToClaim),
                ClaimDecision::Request(request) => Action::AskIssuer(request),
            },
            Some(CommandView::Deregister) => if known {
                Action::Say(Reply::Deregistered)
            } else {
                Action::Say(Reply::Greeting)
            },
            Some(CommandView::Menu) => Action::Menu(known),
            None => if known {
                Action::Menu(true)
            } else {
                Action::Say(Reply::Greeting)
            },
        }
    }
}

/// The map `m` after the line `s` sent by `chat` was handled: only
/// registering and deregistering change it.
pub open spec fn state_after(m: Ledgers, chat: ChatId, s: Seq<char>) -> Ledgers {
    if asks_menu(s) {
        m
    } else {
        match parsed(s) {
            Some(CommandView::Register(id)) => registered(m, chat, id),
            Some(CommandView::Deregister) => unbound(m, chat),
            _ => m,
        }
    }
}

/// Handles one line of text from `chat`: reads the command, changes the store
/// where the command registers or deregisters, and says what to send. A claim
/// changes nothing yet: it asks for the issuer to be called.
pub fn handle_text(store: &mut Store, schedule: &Schedule, chat: ChatId, text: &str) -> (action:
    Action)
    requires
        old(store).wf(),
        schedule.wf(),
    ensures
        final(store).wf(),
        moved_forward(old(store)@, final(store)@),
        action == action_for(old(store)@, schedule.threshold(), chat, text@),
        final(store)@ == state_after(old(store)@, chat, text@),
{
    let found = store.find_by_chat(chat);
    let known = found.is_some();
    if text_is(text, "/start") || text_is(text, "/menu") {
        return Action::Menu(known);
    }
    proof {
        store.lemma_wf_consistent();
    }
    match parse_command(text) {
        Some(Command::Register(id)) => match register(store, chat, id.as_str()) {
            RegisterOutcome::AlreadyRegistered => Action::Say(Reply::AlreadyRegistered),
            RegisterOutcome::Registered => Action::SayThenMenu(Reply::RegisterSuccess, true),
            RegisterOutcome::InvalidAgent => Action::Say(Reply::InvalidAgent),
        },
        Some(Command::Uptime) => match found {
            Some(rec) => Action::Say(Reply::UptimeHours(rec.raw_uptime_units / UNITS_PER_HOUR)),
            None => Action::Say(Reply::Greeting),
        },
        Some(Command::Unclaimed) => match found {
            Some(rec) => {
                assert(store@[rec.id()].ordered());
                Action::Say(Reply::UnclaimedDays(rec.unclaimed(schedule.unit_threshold())))
            },
            None => Action::Say(Reply::Greeting),
        },
        Some(Command::Claim) => match begin_claim(store, schedule, chat) {
            ClaimDecision::NotRegistered => Action::Say(Reply::Greeting),
            ClaimDecision::NothingToClaim => Action::Say(Reply::NothingToClaim),
            ClaimDecision::Request(request) => Action::AskIssuer(request),
        },
        Some(Command::Deregister) => match deregister(store, chat) {
            DeregisterOutcome::Deregistered => Action::Say(Reply::Deregistered),
            DeregisterOutcome::NotRegistered => Action::Say(Reply::Greeting),
        },
        Some(Command::Menu) => Action::Menu(known),
        None => if known {
            Action::Menu(true)
        } else {
            Action::Say(Reply::Greeting)
        },
    }
}

/// What the chat is told once a claim of `units` accrual units is settled on
/// the map `m`.
pub open spec fn reward_reply(
    m: Ledgers,
    unit_threshold: u64,
    chat: ChatId,
    units: u64,
    issued: bool,
) -> Reply {
    if claim_outcome(m, unit_threshold, chat, units, issued) == ClaimOutcome::Claimed {
        Reply::Reward
    } else {
        Reply::RetryLater
    }
}

/// Settles the claim that `request` stood for, once the issuer was asked:
/// `issued` says whether it delivered. A delivered reward advances the claimed
/// counter and goes to the chat; a failed one changes nothing and the chat is
/// told to try again.
pub fn handle_reward(
    store: &mut Store,
    schedule: &Schedule,
    chat: ChatId,
    request: RewardRequest,
    issued: bool,
) -> (reply: Reply)
    requires
        old(store).wf(),
        schedule.wf(),
    ensures
        final(store).wf(),
        moved_forward(old(store)@, final(store)@),
        reply == reward_reply(
            old(store)@,
            schedule.threshold(),
            chat,
            request.units_per_item,
            issued,
        ),
        final(store)@ == claim_settled(
            old(store)@,
            schedule.threshold(),
            chat,
            request.units_per_item,
            issued,
        ),
{
    match finish_claim(store, schedule, chat, request.units_per_item, issued) {
        ClaimOutcome::Claimed => Reply::Reward,
        ClaimOutcome::IssuerFailed => Reply::RetryLater,
        ClaimOutcome::Refused(_) => Reply::RetryLater,
    }
}

} // verus!
