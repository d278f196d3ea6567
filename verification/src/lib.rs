//! An interactive command-loop toolkit: a terminal-aware line editor with a
//! cursor/geometry engine, and a dispatcher that routes completed input lines
//! to named command handlers.
//!
//! The library holds the state and the decisions: the edit buffer, the
//! terminal geometry, the per-keystroke event transitions, tokenization and
//! command lookup. Everything it wants done to the real terminal is emitted
//! as [`printerterm::OutputAction`] values, and the end of the session is
//! reported as a [`LoopSignal`], so the embedding program — which owns the
//! device, reads its events and releases it on every exit path — stays a
//! thin shell around verified logic.

pub mod buffer;
pub mod printerterm;
pub mod tokenize;

use vstd::prelude::*;

use crate::printerterm::{
    ActionView, Direction, InputEvent, OutputAction, PrinterTerm, ReadStep, RenderState,
    advance_scroll_count, advanced_row, event_transition, printed, render_state_of,
    scroll_then_move, span_rows, state_after_print,
};
use crate::tokenize::{
    join_tokens, lemma_join_snoc, lemma_tokens_skip_spaces, scan_spaces, scan_token, tokens,
    tokens_from,
};

verus! {

/// The prompt a fresh command loop shows until it is changed.
pub const DEFAULT_PROMPT: &'static str = "rusty_cmd $ ";

/// The capability surface a command implementation offers the dispatcher.
///
/// Implementations live outside this library; the dispatcher only promises
/// to call them as the contract of [`CmdLoop::handle_line`] says. An
/// implementation must route all of its output through the printer it is
/// handed, so that the tracked geometry never drifts from the device.
pub trait CommandHandler {
    /// Runs the command. `line` holds everything that followed the command
    /// token on the input line, rejoined with single spaces, or `None` if
    /// nothing followed it.
    fn execute(&self, line: Option<String>, printer: &mut PrinterTerm);

    /// The command's help text, shown by the help listing; lines are split
    /// on line breaks and indented.
    fn get_help_string(&self) -> &'static str {
        "No help here..."
    }
}

/// One registered command: either the built-in quit behaviour — print a
/// farewell and signal the end of the session — or an external handler.
pub enum CommandSlot<H> {
    BuiltinQuit,
    Handler(H),
}

/// What the embedding program should do after a dispatched line: keep the
/// loop running, or release the terminal and exit with success. Ending the
/// session is reported upward rather than performed here, so every exit
/// path funnels through the embedder's one release point.
pub enum LoopSignal {
    Continue,
    Quit,
}

/// The first token of line `l` names the built-in quit slot in `reg`: the
/// one dispatch that ends the session.
pub open spec fn quit_dispatched<H>(reg: Map<Seq<char>, CommandSlot<H>>, l: Seq<char>) -> bool {
    &&& tokens(l).len() > 0
    &&& reg.contains_key(tokens(l)[0])
    &&& reg[tokens(l)[0]] matches CommandSlot::BuiltinQuit
}

/// No two entries share a name.
pub open spec fn names_unique<H>(s: Seq<(String, CommandSlot<H>)>) -> bool {
    forall|i: int, j: int| 0 <= i < j < s.len() ==> s[i].0@ != s[j].0@
}

/// The registry a list of entries denotes: a map from command name to slot,
/// later entries winning.
pub open spec fn registry_of<H>(s: Seq<(String, CommandSlot<H>)>) -> Map<
    Seq<char>,
    CommandSlot<H>,
>
    decreases s.len(),
{
    if s.len() == 0 {
        Map::empty()
    } else {
        registry_of(s.drop_last()).insert(s.last().0@, s.last().1)
    }
}

/// A name is in the registry exactly when some entry bears it.
proof fn lemma_registry_contains<H>(s: Seq<(String, CommandSlot<H>)>, n: Seq<char>)
    ensures
        registry_of(s).contains_key(n) <==> exists|i: int| 0 <= i < s.len() && s[i].0@ == n,
    decreases s.len(),
{
    if s.len() > 0 {
        lemma_registry_contains(s.drop_last(), n);
        if registry_of(s).contains_key(n) {
            if s.last().0@ == n {
                assert(s[s.len() - 1].0@ == n);
            } else {
                let i = choose|i: int| 0 <= i < s.drop_last().len() && s.drop_last()[i].0@ == n;
                assert(s[i].0@ == n);
            }
        }
        if exists|i: int| 0 <= i < s.len() && s[i].0@ == n {
            let i = choose|i: int| 0 <= i < s.len() && s[i].0@ == n;
            if i < s.len() - 1 {
                assert(s.drop_last()[i].0@ == n);
            }
        }
    }
}

/// With unique names, the registry maps each entry's name to that entry's
/// slot.
proof fn lemma_registry_index<H>(s: Seq<(String, CommandSlot<H>)>, i: int)
    requires
        names_unique(s),
        0 <= i < s.len(),
    ensures
        registry_of(s).contains_key(s[i].0@),
        registry_of(s)[s[i].0@] == s[i].1,
    decreases s.len(),
{
    if i == s.len() - 1 {
    } else {
        assert(names_unique(s.drop_last()));
        assert(s.drop_last()[i] == s[i]);
        lemma_registry_index(s.drop_last(), i);
        assert(s[i].0@ != s.last().0@);
    }
}

/// Appending an entry inserts its name into the registry.
proof fn lemma_registry_push<H>(s: Seq<(String, CommandSlot<H>)>, e: (String, CommandSlot<H>))
    ensures
        registry_of(s.push(e)) == registry_of(s).insert(e.0@, e.1),
{
    assert(s.push(e).drop_last() =~= s);
    assert(s.push(e).last() == e);
}

/// Removing an entry and inserting a new slot under the same name leaves
/// the same registry as inserting over the original list: the removed entry
/// was the only bearer of the name.
proof fn lemma_registry_remove_insert<H>(
    s: Seq<(String, CommandSlot<H>)>,
    i: int,
    v: CommandSlot<H>,
)
    requires
        names_unique(s),
        0 <= i < s.len(),
    ensures
        registry_of(s.remove(i)).insert(s[i].0@, v) == registry_of(s).insert(s[i].0@, v),
    decreases s.len(),
{
    let n = s[i].0@;
    if i == s.len() - 1 {
        assert(s.remove(i) =~= s.drop_last());
        assert(registry_of(s.remove(i)).insert(n, v) =~= registry_of(s).insert(n, v));
    } else {
        let t = s.drop_last();
        assert(names_unique(t));
        assert(t[i] == s[i]);
        lemma_registry_remove_insert(t, i, v);
        assert(s.remove(i).drop_last() =~= t.remove(i));
        assert(s.remove(i).last() == s.last());
        assert(s.last().0@ != n);
        let a = registry_of(t.remove(i));
        let b = registry_of(t);
        let ln = s.last().0@;
        let lv = s.last().1;
        assert(registry_of(s.remove(i)) == a.insert(ln, lv));
        assert(registry_of(s) == b.insert(ln, lv));
        assert(a.insert(n, v) == b.insert(n, v));
        assert(a.insert(ln, lv).insert(n, v) =~= b.insert(ln, lv).insert(n, v)) by {
            assert forall|m: Seq<char>|
                a.insert(ln, lv).insert(n, v).contains_key(m) == b.insert(ln, lv).insert(
                    n,
                    v,
                ).contains_key(m) by {
                if m != n && m != ln {
                    assert(a.insert(n, v).contains_key(m) == b.insert(n, v).contains_key(m));
                }
            }
            assert forall|m: Seq<char>|
                a.insert(ln, lv).insert(n, v).contains_key(m) implies a.insert(ln, lv).insert(
                    n,
                    v,
                )[m] == b.insert(ln, lv).insert(n, v)[m] by {
                if m != n && m != ln {
                    assert(a.insert(n, v)[m] == b.insert(n, v)[m]);
                }
            }
        }
    }
}

/// The entries that do not bear `name`, in order.
pub open spec fn entries_without<H>(
    entries: Seq<(Seq<char>, CommandSlot<H>)>,
    name: Seq<char>,
) -> Seq<(Seq<char>, CommandSlot<H>)>
    decreases entries.len(),
{
    if entries.len() == 0 {
        Seq::empty()
    } else {
        let rest = entries_without(entries.drop_last(), name);
        if entries.last().0 == name {
            rest
        } else {
            rest.push(entries.last())
        }
    }
}

/// When no entry bears `name`, dropping its bearers changes nothing.
proof fn lemma_entries_without_absent<H>(
    entries: Seq<(Seq<char>, CommandSlot<H>)>,
    name: Seq<char>,
)
    requires
        forall|k: int| 0 <= k < entries.len() ==> entries[k].0 != name,
    ensures
        entries_without(entries, name) == entries,
    decreases entries.len(),
{
    if entries.len() > 0 {
        assert(forall|k: int|
            0 <= k < entries.drop_last().len() ==> entries.drop_last()[k] == entries[k]);
        lemma_entries_without_absent(entries.drop_last(), name);
        assert(entries.drop_last().push(entries.last()) =~= entries);
    }
}

/// When exactly the entry at `i` bears `name`, dropping the bearers is
/// removing that one entry.
proof fn lemma_entries_without_unique<H>(
    entries: Seq<(Seq<char>, CommandSlot<H>)>,
    name: Seq<char>,
    i: int,
)
    requires
        0 <= i < entries.len(),
        entries[i].0 == name,
        forall|k: int| 0 <= k < entries.len() && k != i ==> entries[k].0 != name,
    ensures
        entries_without(entries, name) == entries.remove(i),
    decreases entries.len(),
{
    let most = entries.drop_last();
    if i == entries.len() - 1 {
        assert(forall|k: int| 0 <= k < most.len() ==> most[k] == entries[k]);
        lemma_entries_without_absent(most, name);
        assert(entries.remove(i) =~= most);
    } else {
        assert(forall|k: int| 0 <= k < most.len() ==> most[k] == entries[k]);
        lemma_entries_without_unique(most, name, i);
        assert(entries.last().0 != name);
        assert(entries.remove(i) =~= most.remove(i).push(entries.last()));
    }
}

/// Registering twice under one name keeps only the second slot: the
/// registry that [`CmdLoop::add_command`] builds maps the name to the slot
/// registered under it last, whatever was there before.
pub proof fn lemma_register_overwrite<H>(
    reg: Map<Seq<char>, CommandSlot<H>>,
    name: Seq<char>,
    first: CommandSlot<H>,
    second: CommandSlot<H>,
)
    ensures
        reg.insert(name, first).insert(name, second) == reg.insert(name, second),
{
    assert(reg.insert(name, first).insert(name, second) =~= reg.insert(name, second));
}

/// Character-for-character string equality.
fn str_eq(a: &str, b: &str) -> (r: bool)
    ensures
        r == (a@ == b@),
{
    let na = a.unicode_len();
    let nb = b.unicode_len();
    if na != nb {
        return false;
    }
    let mut i: usize = 0;
    while i < na
        invariant
            i <= na,
            na == a@.len(),
            na == b@.len(),
            forall|k: int| 0 <= k < i ==> a@[k] == b@[k],
        decreases na - i,
    {
        if a.get_char(i) != b.get_char(i) {
            return false;
        }
        i = i + 1;
    }
    proof {
        assert(a@ =~= b@);
    }
    true
}

/// The command loop: the active prompt, the command registry, and the
/// printer whose geometry tracks the terminal.
pub struct CmdLoop<H: CommandHandler> {
    printer: PrinterTerm,
    prompt: String,
    commands: Vec<(String, CommandSlot<H>)>,
}

impl<H: CommandHandler> CmdLoop<H> {
    /// Registry entries carry pairwise distinct names.
    pub closed spec fn wf(self) -> bool {
        names_unique(self.commands@)
    }

    /// The command registry: a map from command name to its slot.
    pub closed spec fn registry(self) -> Map<Seq<char>, CommandSlot<H>> {
        registry_of(self.commands@)
    }

    /// The registry's entries in registration order: each command's name
    /// and slot, names pairwise distinct. The help listing walks this list.
    pub closed spec fn command_list(self) -> Seq<(Seq<char>, CommandSlot<H>)> {
        self.commands@.map(|i: int, e: (String, CommandSlot<H>)| (e.0@, e.1))
    }

    /// The active prompt.
    pub closed spec fn prompt(self) -> Seq<char> {
        self.prompt@
    }

    /// The printer, carrying geometry, edit buffer and pending actions.
    pub closed spec fn printer(self) -> PrinterTerm {
        self.printer
    }

    /// A fresh loop: the default prompt, a registry holding exactly the
    /// built-in `quit` command, and a printer for a provisional 80 by 24
    /// terminal — feed a resize event with the real size before use.
    pub fn new() -> (c: CmdLoop<H>)
        ensures
            c.wf(),
            c.prompt() == DEFAULT_PROMPT@,
            c.registry() == Map::<Seq<char>, CommandSlot<H>>::empty().insert(
                "quit"@,
                CommandSlot::<H>::BuiltinQuit,
            ),
            c.command_list() == seq![("quit"@, CommandSlot::<H>::BuiltinQuit)],
            c.printer().cursor_col() == 0,
            c.printer().cursor_row() == 0,
            c.printer().cols() == 80,
            c.printer().rows() == 24,
            c.printer().buffer_text() == Seq::<char>::empty(),
            c.printer().buffer_idx() == 0,
            c.printer().actions() == seq![ActionView::ClearAll, ActionView::MoveTo(0, 0)],
    {
        let mut commands: Vec<(String, CommandSlot<H>)> = Vec::new();
        commands.push(("quit".to_owned(), CommandSlot::BuiltinQuit));
        let c = CmdLoop { printer: PrinterTerm::new(80, 24), prompt: DEFAULT_PROMPT.to_owned(), commands };
        proof {
            assert(c.commands@.drop_last() =~= Seq::<(String, CommandSlot<H>)>::empty());
            assert(registry_of(Seq::<(String, CommandSlot<H>)>::empty())
                == Map::<Seq<char>, CommandSlot<H>>::empty());
            assert(c.registry() =~= Map::<Seq<char>, CommandSlot<H>>::empty().insert(
                "quit"@,
                CommandSlot::<H>::BuiltinQuit,
            ));
            assert(c.command_list() =~= seq![("quit"@, CommandSlot::<H>::BuiltinQuit)]);
        }
        c
    }

    /// Replaces the prompt; the new prompt shows from the next render on.
    pub fn change_prompt(&mut self, new_prompt: &str)
        ensures
            final(self).prompt() == new_prompt@,
            final(self).registry() == old(self).registry(),
            final(self).printer() == old(self).printer(),
            final(self).wf() == old(self).wf(),
    {
        self.prompt = new_prompt.to_owned();
    }

    /// The active prompt.
    pub fn get_prompt(&self) -> (p: &str)
        ensures
            p@ == self.prompt(),
    {
        self.prompt.as_str()
    }

    /// The index of the entry bearing `name`, if one does.
    fn find_slot(&self, name: &str) -> (r: Option<usize>)
        requires
            self.wf(),
        ensures
            match r {
                Some(i) => {
                    &&& i < self.commands@.len()
                    &&& self.commands@[i as int].0@ == name@
                    &&& self.registry().contains_key(name@)
                    &&& self.registry()[name@] == self.commands@[i as int].1
                },
                None => !self.registry().contains_key(name@),
            },
    {
        let len = self.commands.len();
        let mut j: usize = 0;
        while j < len
            invariant
                j <= len,
                len == self.commands@.len(),
                names_unique(self.commands@),
                forall|k: int| 0 <= k < j ==> self.commands@[k].0@ != name@,
            decreases len - j,
        {
            if str_eq(self.commands[j].0.as_str(), name) {
                proof {
                    assert(names_unique(self.commands@));
                    lemma_registry_index(self.commands@, j as int);
                }
                return Some(j);
            }
            j = j + 1;
        }
        proof {
            lemma_registry_contains(self.commands@, name@);
        }
        None
    }

    /// Splits a raw line into the command name and the remainder. The line
    /// is split on runs of whitespace; the first token is the command name —
    /// the empty string when the line holds no token at all — and the
    /// remaining tokens, rejoined with single spaces, are the remainder, or
    /// `None` when no token followed the first.
    pub fn parse_command<'a>(&self, command_line: &'a str) -> (r: (&'a str, Option<String>))
        ensures
            ({
                let ts = tokens(command_line@);
                &&& r.0@ == if ts.len() == 0 {
                    Seq::<char>::empty()
                } else {
                    ts[0]
                }
                &&& match r.1 {
                    Option::None => ts.len() <= 1,
                    Option::Some(rest) => ts.len() >= 2 && rest@ == join_tokens(ts.skip(1)),
                }
            }),
    {
        let ghost s = command_line@;
        let ghost ts = tokens(s);
        let n = command_line.unicode_len();
        let start = scan_spaces(command_line, 0);
        proof {
            lemma_tokens_skip_spaces(s, 0, start as int);
        }
        if start >= n {
            proof {
                assert(tokens_from(s, n as int) =~= Seq::<Seq<char>>::empty());
                reveal_strlit("");
                assert(""@ =~= Seq::<char>::empty());
            }
            return ("", None);
        }
        let tend = scan_token(command_line, start);
        let cmd = command_line.substring_char(start, tend);
        proof {
            assert(ts == seq![s.subrange(start as int, tend as int)] + tokens_from(
                s,
                tend as int,
            ));
            assert(ts[0] == cmd@);
            assert(tokens_from(s, tend as int) =~= ts.skip(1));
        }
        let mut rest = String::new();
        let mut count: usize = 0;
        let mut i = tend;
        loop
            invariant_except_break
                i <= n,
                n == s.len(),
                s == command_line@,
                ts == tokens(s),
                count as int + 1 <= ts.len(),
                count <= i,
                tokens_from(s, i as int) == ts.skip(count as int + 1),
                rest@ == join_tokens(ts.subrange(1, count as int + 1)),
            ensures
                n == s.len(),
                s == command_line@,
                ts == tokens(s),
                count as int + 1 == ts.len(),
                rest@ == join_tokens(ts.subrange(1, count as int + 1)),
            decreases n - i,
        {
            let t0 = scan_spaces(command_line, i);
            proof {
                lemma_tokens_skip_spaces(s, i as int, t0 as int);
            }
            if t0 >= n {
                proof {
                    assert(tokens_from(s, n as int) =~= Seq::<Seq<char>>::empty());
                    assert(ts.skip(count as int + 1).len() == 0);
                }
                break;
            }
            let t1 = scan_token(command_line, t0);
            let tok = command_line.substring_char(t0, t1);
            proof {
                crate::tokenize::lemma_token_end_bounds(s, t0 as int);
                assert(tokens_from(s, t0 as int) == seq![s.subrange(t0 as int, t1 as int)]
                    + tokens_from(s, t1 as int));
                assert(ts.skip(count as int + 1).len() >= 1);
                assert(count as int + 2 <= ts.len());
                assert(ts.skip(count as int + 1)[0] == tok@);
                assert(ts[count as int + 1] == tok@);
                assert forall|k: int| 0 <= k < tokens_from(s, t1 as int).len() implies
                    tokens_from(s, t1 as int)[k] == ts.skip(count as int + 2)[k] by {
                    assert(tokens_from(s, t1 as int)[k] == ts.skip(count as int + 1)[k + 1]);
                    assert(ts.skip(count as int + 1)[k + 1] == ts[count as int + 2 + k]);
                    assert(ts.skip(count as int + 2)[k] == ts[count as int + 2 + k]);
                }
                assert(tokens_from(s, t1 as int).len() == ts.skip(count as int + 2).len());
                assert(tokens_from(s, t1 as int) =~= ts.skip(count as int + 2));
            }
            if count == 0 {
                rest.append(tok);
            } else {
                rest.append(" ");
                rest.append(tok);
            }
            proof {
                let prev = ts.subrange(1, count as int + 1);
                assert(ts.subrange(1, count as int + 2) =~= prev.push(ts[count as int + 1]));
                if count == 0 {
                    assert(prev.len() == 0);
                    assert(join_tokens(prev) =~= Seq::<char>::empty());
                    assert(join_tokens(seq![tok@]) == tok@);
                    assert(prev.push(tok@) =~= seq![tok@]);
                    assert(rest@ =~= tok@);
                } else {
                    lemma_join_snoc(prev, tok@);
                    reveal_strlit(" ");
                    assert(" "@ =~= seq![' ']);
                    assert(rest@ =~= join_tokens(prev) + seq![' '] + tok@);
                }
            }
            count = count + 1;
            i = t1;
        }
        if count == 0 {
            (cmd, None)
        } else {
            proof {
                assert(ts.subrange(1, ts.len() as int) =~= ts.skip(1));
            }
            (cmd, Some(rest))
        }
    }

    /// Registers `handler` under `name`. A later registration under the
    /// same name replaces the earlier one: the registry maps each name to
    /// the handler registered under it last.
    pub fn add_command(&mut self, name: &str, handler: H)
        requires
            old(self).wf(),
        ensures
            final(self).wf(),
            final(self).registry() == old(self).registry().insert(
                name@,
                CommandSlot::Handler(handler),
            ),
            final(self).command_list() == entries_without(old(self).command_list(), name@).push(
                (name@, CommandSlot::Handler(handler)),
            ),
            final(self).prompt() == old(self).prompt(),
            final(self).printer() == old(self).printer(),
    {
        let ghost pre_list = self.command_list();
        let found = self.find_slot(name);
        match found {
            Some(i) => {
                let ghost pre = self.commands@;
                self.commands.remove(i);
                proof {
                    let cur = self.commands@;
                    assert forall|a: int, b: int| 0 <= a < b < cur.len() implies cur[a].0@
                        != cur[b].0@ by {
                        let x = if a < i { a } else { a + 1 };
                        let y = if b < i { b } else { b + 1 };
                        assert(cur[a] == pre[x]);
                        assert(cur[b] == pre[y]);
                        assert(pre[x].0@ != pre[y].0@);
                    }
                    assert forall|k: int| 0 <= k < cur.len() implies cur[k].0@ != name@ by {
                        let x = if k < i { k } else { k + 1 };
                        assert(cur[k] == pre[x]);
                        if x < i {
                            assert(pre[x].0@ != pre[i as int].0@);
                        } else {
                            assert(pre[i as int].0@ != pre[x].0@);
                        }
                    }
                }
                let entry = (name.to_owned(), CommandSlot::Handler(handler));
                let ghost e = entry;
                self.commands.push(entry);
                proof {
                    lemma_registry_push(pre.remove(i as int), e);
                    lemma_registry_remove_insert(pre, i as int, e.1);
                    assert forall|k: int|
                        0 <= k < pre_list.len() && k != i implies pre_list[k].0 != name@ by {
                        assert(pre_list[k] == (pre[k].0@, pre[k].1));
                        if k < i {
                            assert(pre[k].0@ != pre[i as int].0@);
                        } else {
                            assert(pre[i as int].0@ != pre[k].0@);
                        }
                    }
                    assert(pre_list[i as int].0 == name@);
                    lemma_entries_without_unique(pre_list, name@, i as int);
                    assert(self.command_list() =~= pre_list.remove(i as int).push(
                        (name@, CommandSlot::Handler(handler)),
                    ));
                }
            },
            None => {
                let ghost pre = self.commands@;
                let entry = (name.to_owned(), CommandSlot::Handler(handler));
                let ghost e = entry;
                self.commands.push(entry);
                proof {
                    lemma_registry_contains(pre, name@);
                    lemma_registry_push(pre, e);
                    assert forall|k: int| 0 <= k < pre_list.len() implies pre_list[k].0
                        != name@ by {
                        assert(pre_list[k] == (pre[k].0@, pre[k].1));
                        assert(registry_of(pre).contains_key(pre[k].0@)) by {
                            lemma_registry_contains(pre, pre[k].0@);
                        }
                    }
                    lemma_entries_without_absent(pre_list, name@);
                    assert(self.command_list() =~= pre_list.push(
                        (name@, CommandSlot::Handler(handler)),
                    ));
                }
            },
        }
    }

    /// Prints the active prompt at the tracked cursor position.
    pub fn render_prompt(&mut self)
        ensures
            final(self).wf() == old(self).wf(),
            final(self).registry() == old(self).registry(),
            final(self).prompt() == old(self).prompt(),
            printed(old(self).printer(), final(self).printer(), old(self).prompt()),
    {
        self.printer.print_wrapped(self.prompt.as_str());
    }

    /// Feeds one terminal event to the line editor; see
    /// [`PrinterTerm::handle_event`]. The registry and the prompt are
    /// untouched.
    pub fn handle_event(&mut self, event: InputEvent) -> (step: ReadStep)
        ensures
            event_transition(old(self).printer(), final(self).printer(), event, step),
            final(self).wf() == old(self).wf(),
            final(self).registry() == old(self).registry(),
            final(self).prompt() == old(self).prompt(),
    {
        self.printer.handle_event(event)
    }

    /// Hands over the queued output actions, oldest first, for the
    /// embedding program to perform; see [`PrinterTerm::take_actions`].
    pub fn take_actions(&mut self) -> (acts: Vec<OutputAction>)
        ensures
            acts@.map(|i: int, a: OutputAction| a@) == old(self).printer().actions(),
            final(self).printer().actions() == Seq::<ActionView>::empty(),
            final(self).printer().same_core(old(self).printer()),
            final(self).wf() == old(self).wf(),
            final(self).registry() == old(self).registry(),
            final(self).prompt() == old(self).prompt(),
    {
        self.printer.take_actions()
    }

    /// Dispatches one completed input line.
    ///
    /// A line with no tokens queues a bare line break and nothing more. A
    /// first token found in the registry runs its slot: the built-in quit
    /// prints its farewell and signals the end of the session; an external
    /// handler is invoked with the remainder and the printer. An unmatched
    /// `help` token runs the help listing. Any other unmatched token is
    /// reported as unknown, in exactly the words the contract shows. The
    /// registry and the prompt are never changed by dispatch.
    pub fn handle_line(&mut self, line: &str) -> (sig: LoopSignal)
        requires
            old(self).wf(),
        ensures
            final(self).wf(),
            final(self).registry() == old(self).registry(),
            final(self).prompt() == old(self).prompt(),
            ((sig matches LoopSignal::Quit) <==> quit_dispatched(old(self).registry(), line@)),
            ({
                let ts = tokens(line@);
                let reg = old(self).registry();
                let p = old(self).printer();
                &&& (ts.len() == 0 ==> final(self).printer().same_core(p)
                    && final(self).printer().actions() == p.actions().push(ActionView::Newline))
                &&& (quit_dispatched(reg, line@) ==> printed(
                    p,
                    final(self).printer(),
                    "Quitting..."@,
                ))
                &&& ((ts.len() > 0 && !reg.contains_key(ts[0]) && ts[0] != "help"@) ==> printed(
                    p,
                    final(self).printer(),
                    "Unknown command: "@ + ts[0],
                ))
                &&& ((ts.len() > 0 && !reg.contains_key(ts[0]) && ts[0] == "help"@) ==> {
                    &&& p.actions().is_prefix_of(final(self).printer().actions())
                    &&& help_listing_output(
                        p,
                        final(self).printer(),
                        false,
                        old(self).command_list(),
                    )
                })
            }),
    {
        let ghost ts = tokens(line@);
        let (cmd, remainder) = self.parse_command(line);
        if cmd.unicode_len() == 0 {
            proof {
                crate::tokenize::lemma_tokens_wf(line@, 0);
                if ts.len() > 0 {
                    assert(crate::tokenize::token_is_wf(ts[0]));
                }
            }
            self.printer.print_newline();
            return LoopSignal::Continue;
        }
        proof {
            crate::tokenize::lemma_tokens_wf(line@, 0);
            if ts.len() > 0 {
                assert(crate::tokenize::token_is_wf(ts[0]));
            }
            assert(ts.len() > 0);
        }
        let found = self.find_slot(cmd);
        match found {
            Some(i) => {
                match &self.commands[i].1 {
                    CommandSlot::BuiltinQuit => {
                        self.printer.print_wrapped("Quitting...");
                        LoopSignal::Quit
                    },
                    CommandSlot::Handler(h) => {
                        h.execute(remainder, &mut self.printer);
                        LoopSignal::Continue
                    },
                }
            },
            None => {
                if str_eq(cmd, "help") {
                    self.help_command();
                    LoopSignal::Continue
                } else {
                    let mut msg = "Unknown command: ".to_owned();
                    msg.append(cmd);
                    self.printer.print_wrapped(msg.as_str());
                    LoopSignal::Continue
                }
            },
        }
    }

    /// Prints the help listing: every registered command's name, followed by
    /// its help text, one indented line per line of text. When no explicit
    /// `help` command is registered, a one-line description of the help
    /// command itself comes first. Only output is queued: the registry, the
    /// prompt, the edit buffer and the terminal size are untouched.
    pub fn help_command(&mut self)
        requires
            old(self).wf(),
        ensures
            final(self).wf(),
            final(self).registry() == old(self).registry(),
            final(self).prompt() == old(self).prompt(),
            old(self).printer().actions().is_prefix_of(final(self).printer().actions()),
            final(self).printer().buffer_text() == old(self).printer().buffer_text(),
            final(self).printer().buffer_idx() == old(self).printer().buffer_idx(),
            final(self).printer().cols() == old(self).printer().cols(),
            final(self).printer().rows() == old(self).printer().rows(),
            help_listing_output(
                old(self).printer(),
                final(self).printer(),
                old(self).registry().contains_key("help"@),
                old(self).command_list(),
            ),
    {
        let ghost entries = self.command_list();
        let ghost st0 = render_state_of(self.printer());
        let explicit_help = self.find_slot("help");
        if explicit_help.is_none() {
            self.printer.print_wrapped("help:\n\tThis help menu");
        }
        let ghost st_start = render_state_of(self.printer());
        proof {
            if explicit_help is None {
                assert(st_start == state_after_print(st0, "help:\n\tThis help menu"@));
            }
            assert(entries.take(0) =~= Seq::<(Seq<char>, CommandSlot<H>)>::empty());
            assert(help_listing_relation(st_start, entries.take(0), st_start));
        }
        let len = self.commands.len();
        let mut i: usize = 0;
        while i < len
            invariant
                i <= len,
                len == self.commands@.len(),
                self.commands@ == old(self).commands@,
                self.prompt@ == old(self).prompt@,
                entries == self.command_list(),
                entries.len() == len,
                help_listing_relation(st_start, entries.take(i as int), render_state_of(
                    self.printer(),
                )),
                old(self).printer().actions().is_prefix_of(self.printer().actions()),
                self.printer().buffer_text() == old(self).printer().buffer_text(),
                self.printer().buffer_idx() == old(self).printer().buffer_idx(),
                self.printer().cols() == old(self).printer().cols(),
                self.printer().rows() == old(self).printer().rows(),
            decreases len - i,
        {
            let ghost cur = render_state_of(self.printer());
            let ghost before = self.printer().actions();
            let mut name_line = self.commands[i].0.clone();
            name_line.append(":\n");
            self.printer.print_wrapped(name_line.as_str());
            let ghost mid = render_state_of(self.printer());
            proof {
                assert(entries[i as int] == (self.commands@[i as int].0@, self.commands@[
                    i as int
                ].1));
                assert(name_line@ == entries[i as int].0 + ":\n"@);
                assert(mid == state_after_print(cur, entries[i as int].0 + ":\n"@));
            }
            let help: &str = match &self.commands[i].1 {
                CommandSlot::BuiltinQuit => "Quit with exit code 0",
                CommandSlot::Handler(h) => h.get_help_string(),
            };
            let ghost help_text = help@;
            print_help_lines(&mut self.printer, help);
            proof {
                lemma_prefix_chain(old(self).printer().actions(), before, self.printer().actions());
                assert(render_state_of(self.printer()) == state_after_help_entry(
                    cur,
                    entries[i as int].0,
                    help_text,
                ));
                if entries[i as int].1 is BuiltinQuit {
                    assert(help_text == "Quit with exit code 0"@);
                }
                assert(help_entry_step(cur, entries[i as int], render_state_of(self.printer())));
                assert(entries.take(i as int + 1).drop_last() =~= entries.take(i as int));
                assert(entries.take(i as int + 1).last() == entries[i as int]);
                assert(help_listing_relation(st_start, entries.take(i as int + 1), render_state_of(
                    self.printer(),
                )));
            }
            i = i + 1;
        }
        let ghost listed = render_state_of(self.printer());
        self.printer.update_cursor(Direction::Down(1));
        proof {
            lemma_prefix_grow(old(self).printer().actions(), self.printer().actions());
            assert(entries.take(len as int) =~= entries);
            assert(help_listing_relation(st_start, entries, listed));
            let has_help = old(self).registry().contains_key("help"@);
            assert((explicit_help is None) == !has_help);
            assert(help_listing_start(old(self).printer(), has_help) == st_start);
            assert(help_listing_relation(
                help_listing_start(old(self).printer(), has_help),
                entries,
                listed,
            ));
            assert(self.printer().cursor_col() == 0);
            assert(self.printer().cursor_row() == advanced_row(
                listed.row,
                span_rows(1, listed.cols),
                listed.rows,
            ));
            assert(self.printer().actions() == listed.acts + scroll_then_move(
                advance_scroll_count(listed.row, span_rows(1, listed.cols), listed.rows),
                0,
                advanced_row(listed.row, span_rows(1, listed.cols), listed.rows),
            ));
            lemma_help_listing_output_intro(
                old(self).printer(),
                self.printer(),
                has_help,
                entries,
                listed,
            );
        }
    }
}

/// The position of the first line break at or after `i`, or the end of the
/// text.
pub open spec fn line_break(text: Seq<char>, i: int) -> int
    decreases text.len() - i when 0 <= i <= text.len()
{
    if i >= text.len() || text[i] == '\n' {
        i
    } else {
        line_break(text, i + 1)
    }
}

/// The line break's position lies between `i` and the end of the text.
pub proof fn lemma_line_break_bounds(text: Seq<char>, i: int)
    requires
        0 <= i <= text.len(),
    ensures
        i <= line_break(text, i) <= text.len(),
    decreases text.len() - i,
{
    if !(i >= text.len() || text[i] == '\n') {
        lemma_line_break_bounds(text, i + 1);
    }
}

/// A run of characters known free of line breaks up to a break or the end
/// pins the break position down exactly.
pub proof fn lemma_line_break_at(text: Seq<char>, from: int, to: int)
    requires
        0 <= from <= to <= text.len(),
        forall|k: int| from <= k < to ==> text[k] != '\n',
        to == text.len() || text[to] == '\n',
    ensures
        line_break(text, from) == to,
    decreases to - from,
{
    if from < to {
        lemma_line_break_at(text, from + 1, to);
    }
}

/// The lines of `text` from position `i` onward, split on line breaks; the
/// trailing segment is a line even when it is empty.
pub open spec fn lines_from(text: Seq<char>, i: int) -> Seq<Seq<char>>
    decreases text.len() - i when 0 <= i <= text.len() via lines_from_decreases
{
    let e = line_break(text, i);
    if e >= text.len() {
        seq![text.subrange(i, text.len() as int)]
    } else {
        seq![text.subrange(i, e)] + lines_from(text, e + 1)
    }
}

#[via_fn]
proof fn lines_from_decreases(text: Seq<char>, i: int) {
    if 0 <= i <= text.len() {
        lemma_line_break_bounds(text, i);
    }
}

/// The render state after printing each of `lines` in order, each prefixed
/// by one tab.
pub open spec fn state_after_tabbed_lines(st: RenderState, lines: Seq<Seq<char>>) -> RenderState
    decreases lines.len(),
{
    if lines.len() == 0 {
        st
    } else {
        state_after_tabbed_lines(state_after_print(st, "\t"@ + lines[0]), lines.skip(1))
    }
}

/// The render state after one command's entry in the help listing: its name
/// with a trailing colon and line break, then every line of `help`, each on
/// its own tab-indented row.
pub open spec fn state_after_help_entry(
    st: RenderState,
    name: Seq<char>,
    help: Seq<char>,
) -> RenderState {
    state_after_tabbed_lines(state_after_print(st, name + ":\n"@), lines_from(help, 0))
}

/// One registered command's contribution to the help listing. The built-in
/// quit shows exactly `Quit with exit code 0`; an external handler shows
/// some text — whatever its `get_help_string` returned, which no contract
/// can pin.
pub open spec fn help_entry_step<H>(
    st: RenderState,
    entry: (Seq<char>, CommandSlot<H>),
    post: RenderState,
) -> bool {
    match entry.1 {
        CommandSlot::BuiltinQuit => post == state_after_help_entry(
            st,
            entry.0,
            "Quit with exit code 0"@,
        ),
        CommandSlot::Handler(_) => exists|help: Seq<char>|
            post == #[trigger] state_after_help_entry(st, entry.0, help),
    }
}

/// The listing of `entries`, in order, each contributing exactly once:
/// state `post` closes the chain of entry steps that starts at `st`.
pub open spec fn help_listing_relation<H>(
    st: RenderState,
    entries: Seq<(Seq<char>, CommandSlot<H>)>,
    post: RenderState,
) -> bool
    decreases entries.len(),
{
    if entries.len() == 0 {
        post == st
    } else {
        exists|mid: RenderState|
            help_listing_relation(st, entries.drop_last(), mid) && #[trigger] help_entry_step(
                mid,
                entries.last(),
                post,
            )
    }
}

/// The whole output of the help listing, from printer state `pre` to
/// `post`: when no `help` entry is registered, first the default
/// self-description; then every registered command's entry, in registration
/// order; closed by one row's advance. Only output and the cursor change.
/// Where the listing's chain of prints starts: at the printer's own state,
/// or — when no `help` entry is registered — after the default
/// self-description of the help command.
pub open spec fn help_listing_start(pre: PrinterTerm, has_help_entry: bool) -> RenderState {
    if has_help_entry {
        render_state_of(pre)
    } else {
        state_after_print(render_state_of(pre), "help:\n\tThis help menu"@)
    }
}

pub open spec fn help_listing_output<H>(
    pre: PrinterTerm,
    post: PrinterTerm,
    has_help_entry: bool,
    entries: Seq<(Seq<char>, CommandSlot<H>)>,
) -> bool {
    &&& post.cursor_col() == 0
    &&& post.cols() == pre.cols()
    &&& post.rows() == pre.rows()
    &&& post.buffer_text() == pre.buffer_text()
    &&& post.buffer_idx() == pre.buffer_idx()
    &&& exists|listed: RenderState|
        {
            &&& #[trigger] help_listing_relation(
                help_listing_start(pre, has_help_entry),
                entries,
                listed,
            )
            &&& post.cursor_row() == advanced_row(
                listed.row,
                span_rows(1, listed.cols),
                listed.rows,
            )
            &&& post.actions() == listed.acts + scroll_then_move(
                advance_scroll_count(listed.row, span_rows(1, listed.cols), listed.rows),
                0,
                advanced_row(listed.row, span_rows(1, listed.cols), listed.rows),
            )
        }
}

/// Packaging the witness: a state that closes the listing relation, with
/// the closing advance on top, is the whole help-listing output.
proof fn lemma_help_listing_output_intro<H>(
    pre: PrinterTerm,
    post: PrinterTerm,
    has_help_entry: bool,
    entries: Seq<(Seq<char>, CommandSlot<H>)>,
    listed: RenderState,
)
    requires
        help_listing_relation(help_listing_start(pre, has_help_entry), entries, listed),
        post.cursor_col() == 0,
        post.cursor_row() == advanced_row(listed.row, span_rows(1, listed.cols), listed.rows),
        post.cols() == pre.cols(),
        post.rows() == pre.rows(),
        post.buffer_text() == pre.buffer_text(),
        post.buffer_idx() == pre.buffer_idx(),
        post.actions() == listed.acts + scroll_then_move(
            advance_scroll_count(listed.row, span_rows(1, listed.cols), listed.rows),
            0,
            advanced_row(listed.row, span_rows(1, listed.cols), listed.rows),
        ),
    ensures
        help_listing_output(pre, post, has_help_entry, entries),
{
}

/// Prints each line of `help` — split on line breaks — indented by one tab.
fn print_help_lines(printer: &mut PrinterTerm, help: &str)
    ensures
        render_state_of(*final(printer)) == state_after_tabbed_lines(
            render_state_of(*old(printer)),
            lines_from(help@, 0),
        ),
        old(printer).actions().is_prefix_of(final(printer).actions()),
        final(printer).buffer_text() == old(printer).buffer_text(),
        final(printer).buffer_idx() == old(printer).buffer_idx(),
        final(printer).cols() == old(printer).cols(),
        final(printer).rows() == old(printer).rows(),
{
    let ghost target = state_after_tabbed_lines(render_state_of(*printer), lines_from(help@, 0));
    let n = help.unicode_len();
    let mut i: usize = 0;
    let mut start: usize = 0;
    loop
        invariant_except_break
            start <= i <= n,
            n == help@.len(),
            forall|k: int| start <= k < i ==> help@[k] != '\n',
            state_after_tabbed_lines(render_state_of(*printer), lines_from(help@, start as int))
                == target,
            old(printer).actions().is_prefix_of(printer.actions()),
            printer.buffer_text() == old(printer).buffer_text(),
            printer.buffer_idx() == old(printer).buffer_idx(),
            printer.cols() == old(printer).cols(),
            printer.rows() == old(printer).rows(),
        ensures
            render_state_of(*printer) == target,
            old(printer).actions().is_prefix_of(printer.actions()),
            printer.buffer_text() == old(printer).buffer_text(),
            printer.buffer_idx() == old(printer).buffer_idx(),
            printer.cols() == old(printer).cols(),
            printer.rows() == old(printer).rows(),
        decreases n - i,
    {
        if i == n {
            proof {
                lemma_line_break_at(help@, start as int, i as int);
            }
            let ghost pre = render_state_of(*printer);
            let ghost line = help@.subrange(start as int, n as int);
            let ghost before = printer.actions();
            let mut tabbed = "\t".to_owned();
            tabbed.append(help.substring_char(start, i));
            printer.print_wrapped(tabbed.as_str());
            proof {
                lemma_prefix_chain(old(printer).actions(), before, printer.actions());
                reveal_strlit("\t");
                assert(tabbed@ == "\t"@ + line);
                assert(lines_from(help@, start as int) == seq![line]);
                assert(render_state_of(*printer) == state_after_print(pre, "\t"@ + line));
                assert(seq![line].skip(1) =~= Seq::<Seq<char>>::empty());
                assert(state_after_tabbed_lines(render_state_of(*printer), Seq::<Seq<char>>::empty())
                    == render_state_of(*printer));
                assert(state_after_tabbed_lines(pre, seq![line]) == render_state_of(*printer));
            }
            break;
        }
        let c = help.get_char(i);
        if c == '\n' {
            proof {
                lemma_line_break_at(help@, start as int, i as int);
            }
            let ghost pre = render_state_of(*printer);
            let ghost line = help@.subrange(start as int, i as int);
            let ghost rest = lines_from(help@, i + 1);
            let ghost before = printer.actions();
            let mut tabbed = "\t".to_owned();
            tabbed.append(help.substring_char(start, i));
            printer.print_wrapped(tabbed.as_str());
            proof {
                lemma_prefix_chain(old(printer).actions(), before, printer.actions());
                reveal_strlit("\t");
                assert(tabbed@ == "\t"@ + line);
                assert(lines_from(help@, start as int) == seq![line] + rest);
                assert(render_state_of(*printer) == state_after_print(pre, "\t"@ + line));
                assert((seq![line] + rest).skip(1) =~= rest);
                assert((seq![line] + rest)[0] == line);
                assert(state_after_tabbed_lines(pre, seq![line] + rest)
                    == state_after_tabbed_lines(render_state_of(*printer), rest));
            }
            start = i + 1;
            i = i + 1;
        } else {
            i = i + 1;
        }
    }
}

/// A prefix survives appending: `a` is a prefix of anything `b` — which `a`
/// prefixes — grew into by appending.
proof fn lemma_prefix_grow(a: Seq<ActionView>, b: Seq<ActionView>)
    requires
        a.len() <= b.len(),
        forall|k: int| 0 <= k < a.len() ==> a[k] == b[k],
    ensures
        a.is_prefix_of(b),
{
    assert(a =~= b.subrange(0, a.len() as int));
}

/// Prefixes chain: `a` prefixes `b` and `b` prefixes `c`, so `a` prefixes
/// `c`.
proof fn lemma_prefix_chain(a: Seq<ActionView>, b: Seq<ActionView>, c: Seq<ActionView>)
    requires
        a.is_prefix_of(b),
        b.is_prefix_of(c),
    ensures
        a.is_prefix_of(c),
{
    assert(a =~= c.subrange(0, a.len() as int));
}

} // verus!
