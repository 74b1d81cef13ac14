//! The commands that a chat can send, and how a line of text is read as one.
use vstd::prelude::*;
use vstd::std_specs::iter::IteratorSpec;

verus! {

/// Whether `c` is white space: the characters that separate the words of a
/// line (Unicode's White_Space property).
pub open spec fn is_space(c: char) -> bool {
    let u = c as u32;
    ||| 0x09 <= u <= 0x0D
    ||| u == 0x20
    ||| u == 0x85
    ||| u == 0xA0
    ||| u == 0x1680
    ||| 0x2000 <= u <= 0x200A
    ||| u == 0x2028
    ||| u == 0x2029
    ||| u == 0x202F
    ||| u == 0x205F
    ||| u == 0x3000
}

/// Whether `c` is white space.
pub fn is_whitespace(c: char) -> (space: bool)
    ensures
        space == is_space(c),
{
    let u: u32 = c as u32;
    (0x09 <= u && u <= 0x0D) || u == 0x20 || u == 0x85 || u == 0xA0 || u == 0x1680 || (0x2000 <= u
        && u <= 0x200A) || u == 0x2028 || u == 0x2029 || u == 0x202F || u == 0x205F || u == 0x3000
}

/// The characters of `text`, in order.
pub fn chars_of(text: &str) -> (out: Vec<char>)
    ensures
        out@ == text@,
{
    broadcast use vstd::string::group_string_axioms;

    let mut it = text.chars();
    let mut out: Vec<char> = Vec::new();
    loop
        invariant
            it.obeys_prophetic_iter_laws(),
            out@ + it.remaining() == text@,
        decreases text@.len() - out@.len(),
    {
        let ghost before = it.remaining();
        match it.next() {
            Some(c) => {
                out.push(c);
                assert(out@ + it.remaining() =~= (out@.drop_last() + before));
            },
            None => {
                assert(out@ + it.remaining() =~= out@);
                return out;
            },
        }
    }
}

/// A command from a chat.
#[derive(Debug, PartialEq, Eq)]
pub enum Command {
    /// Link this chat to the agent with the given identifier.
    Register(String),
    /// Show the agent's reported uptime.
    Uptime,
    /// Show the accrual units that can be claimed.
    Unclaimed,
    /// Redeem the accrual units that can be claimed.
    Claim,
    /// Take the link between this chat and its agent away.
    Deregister,
    /// Show the menu of commands.
    Menu,
}

/// A command, with the identifier as a sequence of characters.
pub ghost enum CommandView {
    /// Link this chat to the agent with the given identifier.
    Register(Seq<char>),
    /// Show the agent's reported uptime.
    Uptime,
    /// Show the accrual units that can be claimed.
    Unclaimed,
    /// Redeem the accrual units that can be claimed.
    Claim,
    /// Take the link between this chat and its agent away.
    Deregister,
    /// Show the menu of commands.
    Menu,
}

impl Clone for Command {
    fn clone(&self) -> (copy: Command)
        ensures
            copy == *self,
    {
        match self {
            Command::Register(id) => Command::Register(id.clone()),
            Command::Uptime => Command::Uptime,
            Command::Unclaimed => Command::Unclaimed,
            Command::Claim => Command::Claim,
            Command::Deregister => Command::Deregister,
            Command::Menu => Command::Menu,
        }
    }
}

impl View for Command {
    type V = CommandView;

    open spec fn view(&self) -> CommandView {
        match self {
            Command::Register(id) => CommandView::Register(id@),
            Command::Uptime => CommandView::Uptime,
            Command::Unclaimed => CommandView::Unclaimed,
            Command::Claim => CommandView::Claim,
            Command::Deregister => CommandView::Deregister,
            Command::Menu => CommandView::Menu,
        }
    }
}

/// Where the white space that starts at `from` ends.
pub open spec fn spaces_end(s: Seq<char>, from: int) -> int
    decreases s.len() - from,
{
    if 0 <= from < s.len() && is_space(s[from]) {
        spaces_end(s, from + 1)
    } else {
        from
    }
}

/// Where the run of characters other than white space that starts at `from`
/// ends.
pub open spec fn word_end(s: Seq<char>, from: int) -> int
    decreases s.len() - from,
{
    if 0 <= from < s.len() && !is_space(s[from]) {
        word_end(s, from + 1)
    } else {
        from
    }
}

/// Where the first word at or after `from` starts; the length of `s` where no
/// word follows.
pub open spec fn word_start(s: Seq<char>, from: int) -> int {
    spaces_end(s, from)
}

/// Where the first word at or after `from` stops.
pub open spec fn word_stop(s: Seq<char>, from: int) -> int {
    word_end(s, spaces_end(s, from))
}

/// The first word at or after `from`; empty where no word follows.
pub open spec fn word_at(s: Seq<char>, from: int) -> Seq<char> {
    s.subrange(word_start(s, from), word_stop(s, from))
}

/// The command that the word `name` stands for, with `arg` the word after it:
/// registering needs an identifier there, the others take nothing.
pub open spec fn named_command(name: Seq<char>, arg: Seq<char>) -> Option<CommandView> {
    if name == "/register"@ {
        if arg.len() > 0 {
            Some(CommandView::Register(arg))
        } else {
            None
        }
    } else if name == "/uptime"@ {
        Some(CommandView::Uptime)
    } else if name == "/unclaimed"@ {
        Some(CommandView::Unclaimed)
    } else if name == "/claim"@ {
        Some(CommandView::Claim)
    } else if name == "/deregister"@ {
        Some(CommandView::Deregister)
    } else if name == "/menu"@ {
        Some(CommandView::Menu)
    } else {
        None
    }
}

/// The command that the line `s` spells. Its first word names the command and
/// starts with `/`; a first word that starts with `@`, a mention, is passed
/// over and the word after it names the command.
pub open spec fn parsed(s: Seq<char>) -> Option<CommandView> {
    let first = word_at(s, 0);
    let rest = word_stop(s, 0);
    if first.len() == 0 {
        None
    } else if first[0] == '/' {
        named_command(first, word_at(s, rest))
    } else if first[0] == '@' {
        let second = word_at(s, rest);
        if second.len() == 0 {
            None
        } else {
            named_command(second, word_at(s, word_stop(s, rest)))
        }
    } else {
        None
    }
}

/// What a word is: white space leads up to it, it holds no white space, and
/// it ends at white space or at the end of the line. It is empty only where
/// nothing but white space is left.
pub proof fn law_word_bounds(s: Seq<char>, from: int)
    requires
        0 <= from <= s.len(),
    ensures
        from <= word_start(s, from) <= word_stop(s, from) <= s.len(),
        forall|i: int| from <= i < word_start(s, from) ==> is_space(#[trigger] s[i]),
        forall|i: int| word_start(s, from) <= i < word_stop(s, from) ==> !is_space(#[trigger] s[i]),
        word_stop(s, from) < s.len() ==> is_space(s[word_stop(s, from)]),
        word_start(s, from) < s.len() ==> word_start(s, from) < word_stop(s, from),
        word_at(s, from).len() == word_stop(s, from) - word_start(s, from),
{
    lemma_spaces_end(s, from);
    lemma_word_end(s, word_start(s, from));
}

proof fn lemma_spaces_end(s: Seq<char>, from: int)
    requires
        0 <= from <= s.len(),
    ensures
        from <= spaces_end(s, from) <= s.len(),
        forall|i: int| from <= i < spaces_end(s, from) ==> is_space(#[trigger] s[i]),
        spaces_end(s, from) < s.len() ==> !is_space(s[spaces_end(s, from)]),
    decreases s.len() - from,
{
    if from < s.len() && is_space(s[from]) {
        lemma_spaces_end(s, from + 1);
    }
}

proof fn lemma_word_end(s: Seq<char>, from: int)
    requires
        0 <= from <= s.len(),
    ensures
        from <= word_end(s, from) <= s.len(),
        forall|i: int| from <= i < word_end(s, from) ==> !is_space(#[trigger] s[i]),
        word_end(s, from) < s.len() ==> is_space(s[word_end(s, from)]),
        from < s.len() && !is_space(s[from]) ==> from < word_end(s, from),
    decreases s.len() - from,
{
    if from < s.len() && !is_space(s[from]) {
        lemma_word_end(s, from + 1);
    }
}

/// White space that runs from `from` up to `to` and stops there ends at `to`.
pub proof fn lemma_spaces_end_at(s: Seq<char>, from: int, to: int)
    requires
        0 <= from <= to <= s.len(),
        forall|i: int| from <= i < to ==> is_space(#[trigger] s[i]),
        to < s.len() ==> !is_space(s[to]),
    ensures
        spaces_end(s, from) == to,
    decreases to - from,
{
    if from < to {
        lemma_spaces_end_at(s, from + 1, to);
    }
}

/// A run without white space from `from` up to `to` that stops there ends at
/// `to`.
pub proof fn lemma_word_end_at(s: Seq<char>, from: int, to: int)
    requires
        0 <= from <= to <= s.len(),
        forall|i: int| from <= i < to ==> !is_space(#[trigger] s[i]),
        to < s.len() ==> is_space(s[to]),
    ensures
        word_end(s, from) == to,
    decreases to - from,
{
    if from < to {
        lemma_word_end_at(s, from + 1, to);
    }
}

fn skip_spaces(s: &Vec<char>, from: usize) -> (to: usize)
    requires
        from <= s@.len(),
    ensures
        to == spaces_end(s@, from as int),
        from <= to <= s@.len(),
{
    let mut i: usize = from;
    while i < s.len() && is_whitespace(s[i])
        invariant
            from <= i <= s@.len(),
            spaces_end(s@, from as int) == spaces_end(s@, i as int),
        decreases s@.len() - i,
    {
        i += 1;
    }
    i
}

fn skip_word(s: &Vec<char>, from: usize) -> (to: usize)
    requires
        from <= s@.len(),
    ensures
        to == word_end(s@, from as int),
        from <= to <= s@.len(),
{
    let mut i: usize = from;
    while i < s.len() && !is_whitespace(s[i])
        invariant
            from <= i <= s@.len(),
            word_end(s@, from as int) == word_end(s@, i as int),
        decreases s@.len() - i,
    {
        i += 1;
    }
    i
}

/// The bounds of the first word at or after `from`.
fn next_word(s: &Vec<char>, from: usize) -> (bounds: (usize, usize))
    requires
        from <= s@.len(),
    ensures
        bounds.0 == word_start(s@, from as int),
        bounds.1 == word_stop(s@, from as int),
        from <= bounds.0 <= bounds.1 <= s@.len(),
{
    let start = skip_spaces(s, from);
    let stop = skip_word(s, start);
    (start, stop)
}

/// Whether the characters of `s` from `start` to `stop` spell `word`.
fn spells(s: &Vec<char>, start: usize, stop: usize, word: &str) -> (same: bool)
    requires
        start <= stop <= s@.len(),
    ensures
        same == (s@.subrange(start as int, stop as int) == word@),
{
    let w = chars_of(word);
    let ghost part = s@.subrange(start as int, stop as int);
    if w.len() != stop - start {
        return false;
    }
    let mut i: usize = 0;
    while i < w.len()
        invariant
            start <= stop <= s@.len(),
            w@ == word@,
            w@.len() == stop - start,
            part == s@.subrange(start as int, stop as int),
            i <= w@.len(),
            forall|k: int| 0 <= k < i ==> part[k] == w@[k],
        decreases w@.len() - i,
    {
        if s[start + i] != w[i] {
            assert(part[i as int] != w@[i as int]);
            return false;
        }
        i += 1;
    }
    assert(part =~= w@);
    true
}

/// Reads a line of text as a command; none where it spells no command.
pub fn parse_command(text: &str) -> (res: Option<Command>)
    ensures
        match res {
            Some(command) => parsed(text@) == Some(command@),
            None => parsed(text@) is None,
        },
{
    let s = chars_of(text);
    let (first_start, first_stop) = next_word(&s, 0);
    if first_start == first_stop {
        return None;
    }
    let lead = s[first_start];
    let (name_start, name_stop) = if lead == '/' {
        (first_start, first_stop)
    } else if lead == '@' {
        let (second_start, second_stop) = next_word(&s, first_stop);
        if second_start == second_stop {
            return None;
        }
        (second_start, second_stop)
    } else {
        return None;
    };
    if spells(&s, name_start, name_stop, "/register") {
        let (id_start, id_stop) = next_word(&s, name_stop);
        if id_start == id_stop {
            None
        } else {
            Some(Command::Register(text.substring_char(id_start, id_stop).to_owned()))
        }
    } else if spells(&s, name_start, name_stop, "/uptime") {
        Some(Command::Uptime)
    } else if spells(&s, name_start, name_stop, "/unclaimed") {
        Some(Command::Unclaimed)
    } else if spells(&s, name_start, name_stop, "/claim") {
        Some(Command::Claim)
    } else if spells(&s, name_start, name_stop, "/deregister") {
        Some(Command::Deregister)
    } else if spells(&s, name_start, name_stop, "/menu") {
        Some(Command::Menu)
    } else {
        None
    }
}

/// Whether `text` is exactly `word`.
pub fn text_is(text: &str, word: &str) -> (same: bool)
    ensures
        same == (text@ == word@),
{
    let s = chars_of(text);
    assert(s@.subrange(0, s@.len() as int) =~= s@);
    spells(&s, 0, s.len(), word)
}

} // verus!
