//! The registration binder: links a chat to one agent and takes the link away.
use vstd::prelude::*;
use crate::record::{ChatId, Ledgers};
use crate::model::{agent_of_chat, chat_bound, consistent, moved_forward, unbound};
use crate::store::{BindOutcome, Store};

verus! {

/// How a registration ended.
#[derive(Clone, Copy, Debug, PartialEq, Eq, Structural)]
pub enum RegisterOutcome {
    /// The chat is now linked to the agent.
    Registered,
    /// The chat already has an agent, this one or another.
    AlreadyRegistered,
    /// The agent is unknown, or linked to another chat.
    InvalidAgent,
}

/// How a deregistration ended.
#[derive(Clone, Copy, Debug, PartialEq, Eq, Structural)]
pub enum DeregisterOutcome {
    /// The chat's agent lost its chat.
    Deregistered,
    /// The chat had no agent; nothing changed.
    NotRegistered,
}

/// How registering `chat` for `id` ends on the map `m`.
pub open spec fn register_outcome(
    m: Ledgers,
    chat: ChatId,
    id: Seq<char>,
) -> RegisterOutcome {
    if chat_bound(m, chat) {
        RegisterOutcome::AlreadyRegistered
    } else if m.contains_key(id) && m[id].bound_chat is None {
        RegisterOutcome::Registered
    } else {
        RegisterOutcome::InvalidAgent
    }
}

/// The map `m` after `chat` asked to be registered for `id`.
pub open spec fn registered(m: Ledgers, chat: ChatId, id: Seq<char>) -> Ledgers {
    if register_outcome(m, chat, id) == RegisterOutcome::Registered {
        m.insert(id, m[id].with_chat(Some(chat)))
    } else {
        m
    }
}

/// Links `chat` to `agent_id`. Refused, with the store unchanged, where the
/// chat already has an agent, or the agent is unknown or has a chat.
pub fn register(store: &mut Store, chat: ChatId, agent_id: &str) -> (outcome: RegisterOutcome)
    requires
        old(store).wf(),
    ensures
        final(store).wf(),
        moved_forward(old(store)@, final(store)@),
        outcome == register_outcome(old(store)@, chat, agent_id@),
        final(store)@ == registered(old(store)@, chat, agent_id@),
{
    if store.find_by_chat(chat).is_some() {
        return RegisterOutcome::AlreadyRegistered;
    }
    match store.bind(agent_id, chat) {
        BindOutcome::Success => RegisterOutcome::Registered,
        BindOutcome::AlreadyBound => RegisterOutcome::InvalidAgent,
        BindOutcome::NotFound => RegisterOutcome::InvalidAgent,
    }
}

/// Takes the link of `chat` away; the agent's counters stay. A chat without an
/// agent is told so and nothing changes.
pub fn deregister(store: &mut Store, chat: ChatId) -> (outcome: DeregisterOutcome)
    requires
        old(store).wf(),
    ensures
        final(store).wf(),
        moved_forward(old(store)@, final(store)@),
        outcome == if chat_bound(old(store)@, chat) {
            DeregisterOutcome::Deregistered
        } else {
            DeregisterOutcome::NotRegistered
        },
        final(store)@ == unbound(old(store)@, chat),
        !chat_bound(final(store)@, chat),
{
    if store.unbind(chat) {
        DeregisterOutcome::Deregistered
    } else {
        DeregisterOutcome::NotRegistered
    }
}

/// Unlinking leaves a consistent map consistent, and the chat without an
/// agent.
pub proof fn lemma_unbound(m: Ledgers, chat: ChatId)
    requires
        consistent(m),
    ensures
        consistent(unbound(m, chat)),
        !chat_bound(unbound(m, chat), chat),
        unbound(m, chat).dom() == m.dom(),
{
    if chat_bound(m, chat) {
        let id = agent_of_chat(m, chat);
        let next = unbound(m, chat);
        crate::model::lemma_insert_consistent(m, id, m[id].with_chat(None));
        assert(next.dom() =~= m.dom());
        if chat_bound(next, chat) {
            let other = agent_of_chat(next, chat);
            assert(other != id);
            assert(m[other].bound_chat == m[id].bound_chat);
        }
    }
}

/// Deregistering twice in a row is deregistering once: the second call finds
/// no agent for the chat and leaves every record as the first call left it.
pub proof fn law_deregister_idempotent(m: Ledgers, chat: ChatId)
    requires
        consistent(m),
    ensures
        unbound(unbound(m, chat), chat) == unbound(m, chat),
        !chat_bound(unbound(m, chat), chat),
{
    lemma_unbound(m, chat);
}

/// Once an agent is registered to a chat, no registration of that agent
/// succeeds, from that chat or another, and each attempt leaves the agent
/// linked to the first chat.
pub proof fn law_binding_exclusive(
    m: Ledgers,
    first: ChatId,
    second: ChatId,
    id: Seq<char>,
)
    requires
        consistent(m),
        register_outcome(m, first, id) == RegisterOutcome::Registered,
    ensures
        register_outcome(registered(m, first, id), second, id) != RegisterOutcome::Registered,
        second != first ==> register_outcome(registered(m, first, id), second, id)
            == RegisterOutcome::InvalidAgent || register_outcome(
            registered(m, first, id),
            second,
            id,
        ) == RegisterOutcome::AlreadyRegistered,
        registered(registered(m, first, id), second, id) == registered(m, first, id),
        registered(m, first, id)[id].bound_chat == Some(first),
{
    let once = registered(m, first, id);
    assert(once.contains_key(id));
    assert(once[id].bound_chat == Some(first));
}

} // verus!
