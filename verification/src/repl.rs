//! The interactive console: what each typed line asks for, the slash commands, and how answers
//! are shown.

use vstd::prelude::*;
use crate::rule::{copy_string, push, text_of};
use crate::text::{chars_of, is_ws, is_ws_char, lines_of, str_eq, string_of, texts_of, trim, trim_start};

verus! {

// ---------------------------------------------------------------------------
// Words
// ---------------------------------------------------------------------------

/// The length of the run of non-whitespace characters that starts a text.
pub open spec fn word_len(t: Seq<char>) -> nat
    decreases t.len(),
{
    if t.len() == 0 || is_ws(t[0]) { 0 } else { 1 + word_len(t.skip(1)) }
}

/// The first whitespace-separated word of a text (std's `split_whitespace().next()`).
pub open spec fn first_word(s: Seq<char>) -> Option<Seq<char>> {
    let t = trim_start(s);
    if t.len() == 0 { None } else { Some(t.take(word_len(t) as int)) }
}

/// The text after the first word.
pub open spec fn after_first_word(s: Seq<char>) -> Seq<char> {
    let t = trim_start(s);
    t.skip(word_len(t) as int)
}

proof fn lemma_word_len(t: Seq<char>, k: int)
    requires
        0 <= k <= t.len(),
        forall|j: int| 0 <= j < k ==> !is_ws(t[j]),
        k == t.len() || is_ws(t[k]),
    ensures
        word_len(t) == k,
    decreases k,
{
    if k > 0 {
        lemma_word_len(t.skip(1), k - 1);
    }
}

proof fn lemma_trim_start_at(s: Seq<char>, i: int)
    requires
        0 <= i <= s.len(),
        forall|j: int| 0 <= j < i ==> is_ws(s[j]),
        i == s.len() || !is_ws(s[i]),
    ensures
        trim_start(s) == s.skip(i),
    decreases i,
{
    if i > 0 {
        lemma_trim_start_at(s.skip(1), i - 1);
        assert(s.skip(1).skip(i - 1) =~= s.skip(i));
    } else {
        assert(s.skip(0) =~= s);
    }
}

/// The first word of a text and what follows it (see `first_word`, `after_first_word`).
pub fn split_first_word(s: &str) -> (r: Option<(String, String)>)
    ensures
        match r {
            Some((w, rest)) => first_word(s@) == Some(w@) && after_first_word(s@) == rest@,
            None => first_word(s@) is None,
        },
{
    let cs = chars_of(s);
    let n = cs.len();
    let mut i: usize = 0;
    while i < n && is_ws_char(cs[i])
        invariant
            i <= n,
            n == cs@.len(),
            cs@ == s@,
            forall|j: int| 0 <= j < i ==> is_ws(cs@[j]),
        decreases n - i,
    {
        i = i + 1;
    }
    proof {
        lemma_trim_start_at(s@, i as int);
    }
    if i == n {
        return None;
    }
    let mut k: usize = i;
    while k < n && !is_ws_char(cs[k])
        invariant
            i <= k <= n,
            n == cs@.len(),
            forall|j: int| i <= j < k ==> !is_ws(cs@[j]),
        decreases n - k,
    {
        k = k + 1;
    }
    let ghost t = s@.skip(i as int);
    proof {
        assert forall|j: int| 0 <= j < k - i implies !is_ws(t[j]) by {
            assert(t[j] == cs@[i + j]);
        }
        if k < n {
            assert(t[k - i] == cs@[k as int]);
        }
        lemma_word_len(t, k - i);
    }
    let mut w: Vec<char> = Vec::new();
    let mut j: usize = i;
    while j < k
        invariant
            i <= j <= k <= n,
            n == cs@.len(),
            w@ == cs@.subrange(i as int, j as int),
        decreases k - j,
    {
        w.push(cs[j]);
        proof {
            assert(cs@.subrange(i as int, j + 1) =~= cs@.subrange(i as int, j as int).push(cs@[j as int]));
        }
        j = j + 1;
    }
    let mut rest: Vec<char> = Vec::new();
    let mut q: usize = k;
    while q < n
        invariant
            k <= q <= n,
            n == cs@.len(),
            rest@ == cs@.subrange(k as int, q as int),
        decreases n - q,
    {
        rest.push(cs[q]);
        proof {
            assert(cs@.subrange(k as int, q + 1) =~= cs@.subrange(k as int, q as int).push(cs@[q as int]));
        }
        q = q + 1;
    }
    proof {
        assert(w@ =~= t.take(k - i));
        assert(rest@ =~= t.skip(k - i));
    }
    Some((string_of(w.as_slice()), string_of(rest.as_slice())))
}

// ---------------------------------------------------------------------------
// Slash commands
// ---------------------------------------------------------------------------

/// A slash command.
#[derive(Debug, PartialEq, Eq)]
pub enum SlashCommand {
    /// Nothing typed: show how slash mode works.
    Hint,
    Help,
    Pin,
    Agents,
    Config,
    Clear,
    /// `quit` or `exit`.
    Quit,
    /// Another word.
    Unknown(String),
}

/// The mathematical value of a slash command.
pub enum SlashView {
    Hint,
    Help,
    Pin,
    Agents,
    Config,
    Clear,
    Quit,
    Unknown(Seq<char>),
}

impl View for SlashCommand {
    type V = SlashView;

    open spec fn view(&self) -> SlashView {
        match self {
            SlashCommand::Hint => SlashView::Hint,
            SlashCommand::Help => SlashView::Help,
            SlashCommand::Pin => SlashView::Pin,
            SlashCommand::Agents => SlashView::Agents,
            SlashCommand::Config => SlashView::Config,
            SlashCommand::Clear => SlashView::Clear,
            SlashCommand::Quit => SlashView::Quit,
            SlashCommand::Unknown(w) => SlashView::Unknown(w@),
        }
    }
}

/// The command a slash line names by its first word.
pub open spec fn slash_command_of(cmd: Seq<char>) -> SlashView {
    match first_word(cmd) {
        None => SlashView::Hint,
        Some(w) => if w == "help"@ {
            SlashView::Help
        } else if w == "pin"@ {
            SlashView::Pin
        } else if w == "agents"@ {
            SlashView::Agents
        } else if w == "config"@ {
            SlashView::Config
        } else if w == "clear"@ {
            SlashView::Clear
        } else if w == "quit"@ || w == "exit"@ {
            SlashView::Quit
        } else {
            SlashView::Unknown(w)
        },
    }
}

/// The command a slash line names (see `slash_command_of`).
pub fn handle_slash_command(cmd: &str) -> (r: SlashCommand)
    ensures
        r@ == slash_command_of(cmd@),
{
    match split_first_word(cmd) {
        None => SlashCommand::Hint,
        Some((w, _)) => {
            let x = w.as_str();
            if str_eq(x, "help") {
                SlashCommand::Help
            } else if str_eq(x, "pin") {
                SlashCommand::Pin
            } else if str_eq(x, "agents") {
                SlashCommand::Agents
            } else if str_eq(x, "config") {
                SlashCommand::Config
            } else if str_eq(x, "clear") {
                SlashCommand::Clear
            } else if str_eq(x, "quit") || str_eq(x, "exit") {
                SlashCommand::Quit
            } else {
                SlashCommand::Unknown(w)
            }
        },
    }
}

/// An `agents` subcommand.
#[derive(Debug, PartialEq, Eq)]
pub enum AgentsCommand {
    List,
    Create(String),
    /// `create` without a name.
    CreateUsage,
    Delete(String),
    /// `delete` without a name.
    DeleteUsage,
    /// Anything else.
    Usage,
}

/// The mathematical value of an `agents` subcommand.
pub enum AgentsView {
    List,
    Create(Seq<char>),
    CreateUsage,
    Delete(Seq<char>),
    DeleteUsage,
    Usage,
}

impl View for AgentsCommand {
    type V = AgentsView;

    open spec fn view(&self) -> AgentsView {
        match self {
            AgentsCommand::List => AgentsView::List,
            AgentsCommand::Create(n) => AgentsView::Create(n@),
            AgentsCommand::CreateUsage => AgentsView::CreateUsage,
            AgentsCommand::Delete(n) => AgentsView::Delete(n@),
            AgentsCommand::DeleteUsage => AgentsView::DeleteUsage,
            AgentsCommand::Usage => AgentsView::Usage,
        }
    }
}

/// The `agents` subcommand of a line: its first word, and for `create` and `delete` the second.
pub open spec fn agents_command_of(line: Seq<char>) -> AgentsView {
    match first_word(line) {
        Some(w) => if w == "list"@ {
            AgentsView::List
        } else if w == "create"@ {
            match first_word(after_first_word(line)) {
                Some(n) => AgentsView::Create(n),
                None => AgentsView::CreateUsage,
            }
        } else if w == "delete"@ {
            match first_word(after_first_word(line)) {
                Some(n) => AgentsView::Delete(n),
                None => AgentsView::DeleteUsage,
            }
        } else {
            AgentsView::Usage
        },
        None => AgentsView::Usage,
    }
}

/// The `agents` subcommand of a line (see `agents_command_of`).
pub fn parse_agents_command(line: &str) -> (r: AgentsCommand)
    ensures
        r@ == agents_command_of(line@),
{
    match split_first_word(line) {
        None => AgentsCommand::Usage,
        Some((w, rest)) => {
            let x = w.as_str();
            if str_eq(x, "list") {
                AgentsCommand::List
            } else if str_eq(x, "create") {
                match split_first_word(rest.as_str()) {
                    Some((n, _)) => AgentsCommand::Create(n),
                    None => AgentsCommand::CreateUsage,
                }
            } else if str_eq(x, "delete") {
                match split_first_word(rest.as_str()) {
                    Some((n, _)) => AgentsCommand::Delete(n),
                    None => AgentsCommand::DeleteUsage,
                }
            } else {
                AgentsCommand::Usage
            }
        },
    }
}

/// The name a pin is made under: the trimmed line, when not empty.
pub fn pin_name(line: &str) -> (r: Option<String>)
    ensures
        match r {
            Some(n) => trim(line@).len() > 0 && n@ == trim(line@),
            None => trim(line@).len() == 0,
        },
{
    let t = crate::text::trim_str(line);
    if t.as_str().unicode_len() > 0 { Some(t) } else { None }
}

/// The file name of an agent.
pub fn agent_file_name(name: &str) -> (r: String)
    ensures
        r@ == name@ + ".md"@,
{
    let mut t = text_of(name);
    push(&mut t, ".md");
    t
}

/// The first text of a new agent file.
pub fn agent_file_content(name: &str) -> (r: String)
    ensures
        r@ == "# Agent: "@ + name@ + "\n\n"@,
{
    let mut t = text_of("# Agent: ");
    push(&mut t, name);
    push(&mut t, "\n\n");
    t
}

/// The help of the slash commands.
pub open spec fn help_text_of() -> Seq<char> {
    "Built-in commands:\n/help   - this help\n/pin    - Pin the current conversation to a new agent file\n/agents - Subagent commands: list, create <name>, delete <name>\n/config - Show system configuration of Yushi CLI\n/clear  - Clear the current session context history\n/quit   - Exit TUI"@
}

/// The help of the slash commands (see `help_text_of`).
pub fn help_text() -> (r: &'static str)
    ensures
        r@ == help_text_of(),
{
    "Built-in commands:\n/help   - this help\n/pin    - Pin the current conversation to a new agent file\n/agents - Subagent commands: list, create <name>, delete <name>\n/config - Show system configuration of Yushi CLI\n/clear  - Clear the current session context history\n/quit   - Exit TUI"
}

// ---------------------------------------------------------------------------
// The console loop
// ---------------------------------------------------------------------------

/// What the console is reading.
#[derive(Debug, Clone, Copy, PartialEq, Eq, Structural)]
pub enum Mode {
    /// A line of conversation or a command.
    Dialog,
    /// Text to append to the agents' memory file.
    Memory,
    /// A slash command.
    Slash,
    /// A message over several lines.
    Multiline,
}

/// What one input asks the console to do.
#[derive(Debug, PartialEq, Eq)]
pub enum ConsoleAction {
    /// Nothing, but read in another mode.
    SwitchMode,
    /// Run a slash command (the text after `/`).
    Slash(String),
    /// Append text to the memory file.
    AppendMemory(String),
    /// There was nothing to append after `#`.
    NothingAfterHash,
    /// There was nothing to append in memory mode.
    NothingToAppend,
    /// Read more lines, starting with this one.
    ReadMore(String),
    /// Send a line to the agent and stream the answer.
    Chat(String),
    /// Send a multi-line message to the agent and show the whole answer.
    ChatWhole(String),
    /// An empty multi-line message was ignored.
    EmptyMultiline,
    /// Nothing.
    Skip,
}

/// The mathematical value of a console action.
pub enum ActionView {
    SwitchMode,
    Slash(Seq<char>),
    AppendMemory(Seq<char>),
    NothingAfterHash,
    NothingToAppend,
    ReadMore(Seq<char>),
    Chat(Seq<char>),
    ChatWhole(Seq<char>),
    EmptyMultiline,
    Skip,
}

impl View for ConsoleAction {
    type V = ActionView;

    open spec fn view(&self) -> ActionView {
        match self {
            ConsoleAction::SwitchMode => ActionView::SwitchMode,
            ConsoleAction::Slash(c) => ActionView::Slash(c@),
            ConsoleAction::AppendMemory(c) => ActionView::AppendMemory(c@),
            ConsoleAction::NothingAfterHash => ActionView::NothingAfterHash,
            ConsoleAction::NothingToAppend => ActionView::NothingToAppend,
            ConsoleAction::ReadMore(l) => ActionView::ReadMore(l@),
            ConsoleAction::Chat(l) => ActionView::Chat(l@),
            ConsoleAction::ChatWhole(c) => ActionView::ChatWhole(c@),
            ConsoleAction::EmptyMultiline => ActionView::EmptyMultiline,
            ConsoleAction::Skip => ActionView::Skip,
        }
    }
}

/// What an input does in a mode, and the mode read next. In dialog mode: a line of `/` alone
/// goes to slash mode, another `/` line runs its command; `#` alone goes to memory mode, another
/// `#` line appends what follows the `#`; `\` alone goes to multi-line mode, another line ending
/// in `\` reads on; a blank line is skipped; anything else is sent. The other modes do their
/// work with the input and go back to dialog mode.
pub open spec fn console_step_of(mode: Mode, input: Seq<char>) -> (Mode, ActionView) {
    match mode {
        Mode::Dialog => {
            if input.len() > 0 && input[0] == '/' {
                if trim(input) == "/"@ {
                    (Mode::Slash, ActionView::SwitchMode)
                } else {
                    (Mode::Dialog, ActionView::Slash(input.skip(1)))
                }
            } else if input.len() > 0 && input[0] == '#' {
                if trim(input) == "#"@ {
                    (Mode::Memory, ActionView::SwitchMode)
                } else if trim_start(input.skip(1)).len() > 0 {
                    (Mode::Dialog, ActionView::AppendMemory(trim_start(input.skip(1))))
                } else {
                    (Mode::Dialog, ActionView::NothingAfterHash)
                }
            } else if input.len() > 0 && input.last() == '\\' {
                if trim(input) == "\\"@ {
                    (Mode::Multiline, ActionView::SwitchMode)
                } else {
                    (Mode::Dialog, ActionView::ReadMore(input))
                }
            } else if trim(input).len() == 0 {
                (Mode::Dialog, ActionView::Skip)
            } else {
                (Mode::Dialog, ActionView::Chat(input))
            }
        },
        Mode::Memory => if trim(input).len() > 0 {
            (Mode::Dialog, ActionView::AppendMemory(input))
        } else {
            (Mode::Dialog, ActionView::NothingToAppend)
        },
        Mode::Slash => (Mode::Dialog, ActionView::Slash(input)),
        Mode::Multiline => if trim(input).len() > 0 {
            (Mode::Dialog, ActionView::ChatWhole(input))
        } else {
            (Mode::Dialog, ActionView::EmptyMultiline)
        },
    }
}

fn skip_first(cs: &Vec<char>) -> (r: String)
    requires
        cs@.len() > 0,
    ensures
        r@ == cs@.skip(1),
{
    let mut out: Vec<char> = Vec::new();
    let mut i: usize = 1;
    while i < cs.len()
        invariant
            1 <= i <= cs@.len(),
            out@ == cs@.subrange(1, i as int),
        decreases cs.len() - i,
    {
        out.push(cs[i]);
        proof {
            assert(cs@.subrange(1, i + 1) =~= cs@.subrange(1, i as int).push(cs@[i as int]));
        }
        i = i + 1;
    }
    proof {
        assert(out@ =~= cs@.skip(1));
    }
    string_of(out.as_slice())
}

pub(crate) fn trim_start_text(s: &str) -> (r: String)
    ensures
        r@ == trim_start(s@),
{
    let cs = chars_of(s);
    let n = cs.len();
    let mut i: usize = 0;
    while i < n && is_ws_char(cs[i])
        invariant
            i <= n,
            n == cs@.len(),
            cs@ == s@,
            forall|j: int| 0 <= j < i ==> is_ws(cs@[j]),
        decreases n - i,
    {
        i = i + 1;
    }
    proof {
        lemma_trim_start_at(s@, i as int);
    }
    let mut out: Vec<char> = Vec::new();
    let mut j: usize = i;
    while j < n
        invariant
            i <= j <= n,
            n == cs@.len(),
            out@ == cs@.subrange(i as int, j as int),
        decreases n - j,
    {
        out.push(cs[j]);
        proof {
            assert(cs@.subrange(i as int, j + 1) =~= cs@.subrange(i as int, j as int).push(cs@[j as int]));
        }
        j = j + 1;
    }
    proof {
        assert(out@ =~= s@.skip(i as int));
    }
    string_of(out.as_slice())
}

/// What an input does in a mode, and the next mode (see `console_step_of`).
pub fn console_step(mode: Mode, input: &str) -> (r: (Mode, ConsoleAction))
    ensures
        (r.0, r.1@) == console_step_of(mode, input@),
{
    proof {
        reveal_strlit("/");
        reveal_strlit("#");
        reveal_strlit("\\");
    }
    let t = crate::text::trim_str(input);
    let blank = t.as_str().unicode_len() == 0;
    match mode {
        Mode::Dialog => {
            let cs = chars_of(input);
            let n = cs.len();
            if n > 0 && cs[0] == '/' {
                if str_eq(t.as_str(), "/") {
                    (Mode::Slash, ConsoleAction::SwitchMode)
                } else {
                    (Mode::Dialog, ConsoleAction::Slash(skip_first(&cs)))
                }
            } else if n > 0 && cs[0] == '#' {
                if str_eq(t.as_str(), "#") {
                    (Mode::Memory, ConsoleAction::SwitchMode)
                } else {
                    let rest = skip_first(&cs);
                    let content = trim_start_text(rest.as_str());
                    if content.as_str().unicode_len() > 0 {
                        (Mode::Dialog, ConsoleAction::AppendMemory(content))
                    } else {
                        (Mode::Dialog, ConsoleAction::NothingAfterHash)
                    }
                }
            } else if n > 0 && cs[n - 1] == '\\' {
                if str_eq(t.as_str(), "\\") {
                    (Mode::Multiline, ConsoleAction::SwitchMode)
                } else {
                    (Mode::Dialog, ConsoleAction::ReadMore(text_of(input)))
                }
            } else if blank {
                (Mode::Dialog, ConsoleAction::Skip)
            } else {
                (Mode::Dialog, ConsoleAction::Chat(text_of(input)))
            }
        },
        Mode::Memory => if !blank {
            (Mode::Dialog, ConsoleAction::AppendMemory(text_of(input)))
        } else {
            (Mode::Dialog, ConsoleAction::NothingToAppend)
        },
        Mode::Slash => (Mode::Dialog, ConsoleAction::Slash(text_of(input))),
        Mode::Multiline => if !blank {
            (Mode::Dialog, ConsoleAction::ChatWhole(text_of(input)))
        } else {
            (Mode::Dialog, ConsoleAction::EmptyMultiline)
        },
    }
}

/// One line of a multi-line message: a line ending in `\` is added without it and more is read;
/// another line is added and ends the message.
pub open spec fn multiline_line_of(accum: Seq<char>, line: Seq<char>) -> (Seq<char>, bool) {
    if line.len() > 0 && line.last() == '\\' {
        (accum + line.drop_last(), true)
    } else {
        (accum + line, false)
    }
}

/// Adds one line to a multi-line message (see `multiline_line_of`); true when more is read.
pub fn multiline_line(accum: &mut String, line: &str) -> (more: bool)
    ensures
        (final(accum)@, more) == multiline_line_of(old(accum)@, line@),
{
    let cs = chars_of(line);
    let n = cs.len();
    if n > 0 && cs[n - 1] == '\\' {
        let mut i: usize = 0;
        let mut out: Vec<char> = Vec::new();
        while i < n - 1
            invariant
                i <= n - 1,
                n == cs@.len(),
                n > 0,
                out@ == cs@.take(i as int),
            decreases n - 1 - i,
        {
            out.push(cs[i]);
            proof {
                assert(cs@.take(i + 1) =~= cs@.take(i as int).push(cs@[i as int]));
            }
            i = i + 1;
        }
        proof {
            assert(out@ =~= line@.drop_last());
        }
        push(accum, string_of(out.as_slice()).as_str());
        true
    } else {
        push(accum, line);
        false
    }
}

/// A line as read in multi-line mode: without the `\r` and `\n` characters that end it.
pub open spec fn strip_line_end(s: Seq<char>) -> Seq<char>
    decreases s.len(),
{
    if s.len() > 0 && (s.last() == '\r' || s.last() == '\n') { strip_line_end(s.drop_last()) } else { s }
}

/// A line as read in multi-line mode (see `strip_line_end`).
pub fn strip_line_ending(s: &str) -> (r: String)
    ensures
        r@ == strip_line_end(s@),
{
    let cs = chars_of(s);
    let mut k: usize = cs.len();
    proof {
        assert(cs@.take(k as int) =~= cs@);
    }
    while k > 0 && (cs[k - 1] == '\r' || cs[k - 1] == '\n')
        invariant
            k <= cs@.len(),
            cs@ == s@,
            strip_line_end(s@) == strip_line_end(cs@.take(k as int)),
        decreases k,
    {
        proof {
            assert(cs@.take(k as int).drop_last() =~= cs@.take(k - 1));
        }
        k = k - 1;
    }
    let mut out: Vec<char> = Vec::new();
    let mut i: usize = 0;
    while i < k
        invariant
            i <= k <= cs@.len(),
            out@ == cs@.take(i as int),
        decreases k - i,
    {
        out.push(cs[i]);
        proof {
            assert(cs@.take(i + 1) =~= cs@.take(i as int).push(cs@[i as int]));
        }
        i = i + 1;
    }
    string_of(out.as_slice())
}

/// Lines as an answer shows them: the first after `● `, the others indented by two.
pub open spec fn shown_lines(ls: Seq<Seq<char>>) -> Seq<Seq<char>>
    decreases ls.len(),
{
    if ls.len() == 0 {
        Seq::empty()
    } else if ls.len() == 1 {
        seq!["● "@ + ls[0]]
    } else {
        shown_lines(ls.drop_last()).push("  "@ + ls.last())
    }
}

/// The lines an answer is shown as.
pub open spec fn response_lines_of(response: Seq<char>) -> Seq<Seq<char>> {
    shown_lines(lines_of(response))
}

/// The lines an answer is shown as (see `response_lines_of`).
pub fn format_response(response: &str) -> (r: Vec<String>)
    ensures
        texts_of(r@) == response_lines_of(response@),
{
    let ls = crate::text::text_lines(response);
    let ghost lv = lines_of(response@);
    let mut out: Vec<String> = Vec::new();
    let mut i: usize = 0;
    proof {
        assert(texts_of(ls@).len() == ls@.len());
        assert(texts_of(out@) =~= shown_lines(lv.take(0)));
    }
    while i < ls.len()
        invariant
            i <= ls@.len(),
            texts_of(ls@) == lv,
            lv.len() == ls@.len(),
            texts_of(out@) =~= shown_lines(lv.take(i as int)),
        decreases ls.len() - i,
    {
        let mut t = if i == 0 { text_of("● ") } else { text_of("  ") };
        push(&mut t, ls[i].as_str());
        let ghost prev = out@;
        out.push(t);
        proof {
            assert(lv[i as int] == ls@[i as int]@);
            let u = lv.take(i + 1);
            assert(u.drop_last() =~= lv.take(i as int));
            assert(u.last() == lv[i as int]);
            if i == 0 {
                assert(u[0] == lv[0]);
            }
            assert(texts_of(out@) =~= texts_of(prev).push(t@));
        }
        i = i + 1;
    }
    proof {
        assert(lv.take(i as int) =~= lv);
    }
    out
}


/// Every mode but dialog reads one input and goes back to dialog mode.
pub proof fn lemma_modes_return_to_dialog(mode: Mode, input: Seq<char>)
    requires
        mode != Mode::Dialog,
    ensures
        console_step_of(mode, input).0 == Mode::Dialog,
{
}

} // verus!
