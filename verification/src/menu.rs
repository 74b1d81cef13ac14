//! The menu of commands that a chat is shown.
use vstd::prelude::*;
use crate::command::{
    CommandView, is_space, lemma_spaces_end_at, lemma_word_end_at, parsed, word_at, word_stop,
};

verus! {

/// One button of the menu.
#[derive(Clone, Copy, Debug, PartialEq, Eq, Structural)]
pub enum MenuEntry {
    /// Show the agent's reported uptime.
    Uptime,
    /// Show the accrual units that can be claimed.
    Unclaimed,
    /// Redeem the accrual units that can be claimed.
    Claim,
    /// Take the link between the chat and its agent away.
    Deregister,
    /// Start registering: the identifier is still to be typed.
    Register,
}

impl MenuEntry {
    /// The text that the button puts into the chat's input line.
    pub open spec fn query_text(self) -> Seq<char> {
        match self {
            MenuEntry::Uptime => "/uptime"@,
            MenuEntry::Unclaimed => "/unclaimed"@,
            MenuEntry::Claim => "/claim"@,
            MenuEntry::Deregister => "/deregister"@,
            MenuEntry::Register => "/register "@,
        }
    }

    /// The text that the button puts into the chat's input line. The one for
    /// registering ends in a blank, for the identifier to follow.
    pub fn query(&self) -> (text: &'static str)
        ensures
            text@ == self.query_text(),
    {
        match self {
            MenuEntry::Uptime => "/uptime",
            MenuEntry::Unclaimed => "/unclaimed",
            MenuEntry::Claim => "/claim",
            MenuEntry::Deregister => "/deregister",
            MenuEntry::Register => "/register ",
        }
    }
}

/// The buttons shown to a chat: everything but registering for a chat that
/// has an agent, registering alone for one that has none.
pub open spec fn menu_of(registered: bool) -> Seq<MenuEntry> {
    if registered {
        seq![MenuEntry::Uptime, MenuEntry::Unclaimed, MenuEntry::Claim, MenuEntry::Deregister]
    } else {
        seq![MenuEntry::Register]
    }
}

/// The buttons shown to a chat, top to bottom.
pub fn menu_entries(registered: bool) -> (entries: Vec<MenuEntry>)
    ensures
        entries@ == menu_of(registered),
{
    let mut entries: Vec<MenuEntry> = Vec::new();
    if registered {
        entries.push(MenuEntry::Uptime);
        entries.push(MenuEntry::Unclaimed);
        entries.push(MenuEntry::Claim);
        entries.push(MenuEntry::Deregister);
    } else {
        entries.push(MenuEntry::Register);
    }
    assert(entries@ =~= menu_of(registered));
    entries
}

impl MenuEntry {
    /// The command that the button stands for.
    pub open spec fn command(self, id: Seq<char>) -> CommandView {
        match self {
            MenuEntry::Uptime => CommandView::Uptime,
            MenuEntry::Unclaimed => CommandView::Unclaimed,
            MenuEntry::Claim => CommandView::Claim,
            MenuEntry::Deregister => CommandView::Deregister,
            MenuEntry::Register => CommandView::Register(id),
        }
    }
}

/// Whether `word` is a word: not empty, and without white space.
pub open spec fn is_word(word: Seq<char>) -> bool {
    word.len() > 0 && forall|i: int| 0 <= i < word.len() ==> !is_space(#[trigger] word[i])
}

/// A line made of a word, one blank and a second word has exactly these two
/// words; a line made of one word has that word and no other.
pub proof fn lemma_two_words(name: Seq<char>, arg: Seq<char>)
    requires
        is_word(name),
        arg.len() == 0 || is_word(arg),
    ensures
        word_at(name + seq![' '] + arg, 0) == name,
        word_at(name + seq![' '] + arg, word_stop(name + seq![' '] + arg, 0)) == arg,
        word_at(name, 0) == name,
        word_at(name, word_stop(name, 0)) == Seq::<char>::empty(),
{
    let n = name.len() as int;
    let line = name + seq![' '] + arg;
    let total = line.len() as int;
    assert(is_space(' '));
    assert(forall|i: int| 0 <= i < n ==> line[i] == name[i]);
    assert(line[n] == ' ');
    assert(forall|i: int| n < i < total ==> line[i] == arg[i - n - 1]);
    lemma_spaces_end_at(line, 0, 0);
    lemma_word_end_at(line, 0, n);
    assert(line.subrange(0, n) =~= name);
    lemma_spaces_end_at(line, n, n + 1);
    lemma_word_end_at(line, n + 1, total);
    assert(line.subrange(n + 1, total) =~= arg);
    lemma_spaces_end_at(name, 0, 0);
    lemma_word_end_at(name, 0, n);
    assert(name.subrange(0, n) =~= name);
    lemma_spaces_end_at(name, n, n);
    lemma_word_end_at(name, n, n);
    assert(name.subrange(n, n) =~= Seq::<char>::empty());
}

/// Every button but the one for registering spells its own command: the
/// parser reads the button's text as the command that the button stands for.
pub proof fn law_menu_query_parses(entry: MenuEntry)
    requires
        entry != MenuEntry::Register,
    ensures
        parsed(entry.query_text()) == Some(entry.command(Seq::<char>::empty())),
{
    reveal_strlit("/register");
    reveal_strlit("/uptime");
    reveal_strlit("/unclaimed");
    reveal_strlit("/claim");
    reveal_strlit("/deregister");
    reveal_strlit("/menu");
    let text = entry.query_text();
    assert(is_word(text));
    lemma_two_words(text, Seq::<char>::empty());
}

/// The button for registering, completed by an identifier, spells the
/// registration of that identifier.
pub proof fn law_register_query_completes(id: Seq<char>)
    requires
        is_word(id),
    ensures
        parsed(MenuEntry::Register.query_text() + id) == Some(MenuEntry::Register.command(id)),
{
    reveal_strlit("/register");
    reveal_strlit("/register ");
    let name = "/register"@;
    assert(is_word(name));
    assert(MenuEntry::Register.query_text() + id =~= name + seq![' '] + id);
    lemma_two_words(name, id);
}

} // verus!
