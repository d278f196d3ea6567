use rusty_cmd::buffer::LineBuffer;
use rusty_cmd::printerterm::{InputEvent, KeyCode, OutputAction, PrinterTerm, ReadStep};
use rusty_cmd::{CmdLoop, CommandHandler, LoopSignal};

/// A handler that does nothing; its help text is the trait's default.
struct NoopCommand;

impl CommandHandler for NoopCommand {
    fn execute(&self, _line: Option<String>, _printer: &mut PrinterTerm) {}
}

/// Two distinguishable handlers of one type, for registry-overwrite checks.
enum TaggedCommand {
    First,
    Second,
}

impl CommandHandler for TaggedCommand {
    fn execute(&self, _line: Option<String>, printer: &mut PrinterTerm) {
        match self {
            TaggedCommand::First => printer.print_wrapped("first"),
            TaggedCommand::Second => printer.print_wrapped("second"),
        }
    }

    fn get_help_string(&self) -> &'static str {
        "A tagged test command"
    }
}

/// A handler that echoes the remainder it was dispatched with.
struct EchoCommand;

impl CommandHandler for EchoCommand {
    fn execute(&self, line: Option<String>, printer: &mut PrinterTerm) {
        match line {
            Some(rest) => printer.print_wrapped(&rest),
            None => printer.print_wrapped("<no remainder>"),
        }
    }
}

/// A stand-in for the process-wide terminal resource: the embedding program
/// must clear `raw` exactly once before exiting, on every exit path.
struct MockGuard {
    raw: bool,
}

fn printed_texts(actions: &[OutputAction]) -> Vec<String> {
    let mut out = Vec::new();
    for a in actions {
        if let OutputAction::Print(s) = a {
            out.push(s.clone());
        }
    }
    out
}

#[test]
fn test_change_prompt() {
    let mut cmd: CmdLoop<NoopCommand> = CmdLoop::new();
    cmd.change_prompt("[My New Prompt] # ");
    assert_eq!(cmd.get_prompt().eq("[My New Prompt] # "), true);
}

#[test]
fn test_default_prompt() {
    let cmd: CmdLoop<NoopCommand> = CmdLoop::new();
    assert_eq!(cmd.get_prompt(), "rusty_cmd $ ");
}

#[test]
fn test_parse_command_single_token() {
    let cmd: CmdLoop<NoopCommand> = CmdLoop::new();
    let (name, rest) = cmd.parse_command("simple");
    assert_eq!(name, "simple");
    assert!(rest.is_none());
}

#[test]
fn test_parse_command_rejoins_remainder() {
    let cmd: CmdLoop<NoopCommand> = CmdLoop::new();
    let (name, rest) = cmd.parse_command("  simple \t hello \r\n  world  ");
    assert_eq!(name, "simple");
    assert_eq!(rest, Some(String::from("hello world")));
}

#[test]
fn test_parse_command_all_whitespace() {
    let cmd: CmdLoop<NoopCommand> = CmdLoop::new();
    let (name, rest) = cmd.parse_command(" \t ");
    assert_eq!(name, "");
    assert!(rest.is_none());
}

#[test]
fn test_parse_command_unicode_whitespace() {
    let cmd: CmdLoop<NoopCommand> = CmdLoop::new();
    let (name, rest) = cmd.parse_command("a\u{000B}b");
    assert_eq!(name, "a");
    assert_eq!(rest, Some(String::from("b")));
    let (name, rest) = cmd.parse_command("one\u{00A0}two\u{2003}three");
    assert_eq!(name, "one");
    assert_eq!(rest, Some(String::from("two three")));
}

#[test]
fn test_unicode_whitespace_only_line_queues_newline() {
    let mut cmd: CmdLoop<NoopCommand> = CmdLoop::new();
    cmd.take_actions();
    let sig = cmd.handle_line("\u{000C}\u{2028}");
    assert!(matches!(sig, LoopSignal::Continue));
    let actions = cmd.take_actions();
    assert_eq!(actions.len(), 1);
    assert!(matches!(actions[0], OutputAction::Newline));
}

#[test]
fn test_buffer_round_trip() {
    let mut buf = LineBuffer::new();
    buf.insert('a');
    buf.insert('b');
    buf.insert('c');
    buf.delete_back();
    buf.delete_back();
    buf.delete_back();
    assert_eq!(buf.len(), 0);
    assert_eq!(buf.index(), 0);
}

#[test]
fn test_buffer_moves_clamp() {
    let mut buf = LineBuffer::new();
    buf.move_left();
    assert_eq!(buf.index(), 0);
    assert_eq!(buf.len(), 0);
    buf.insert('x');
    buf.move_right();
    assert_eq!(buf.index(), 1);
    assert_eq!(buf.len(), 1);
    assert_eq!(buf.char_at(0), 'x');
    buf.delete_back();
    buf.delete_back();
    assert_eq!(buf.index(), 0);
    assert_eq!(buf.len(), 0);
}

#[test]
fn test_registry_overwrite() {
    let mut cmd: CmdLoop<TaggedCommand> = CmdLoop::new();
    cmd.add_command("simple", TaggedCommand::First);
    cmd.add_command("simple", TaggedCommand::Second);
    cmd.take_actions();
    let sig = cmd.handle_line("simple");
    assert!(matches!(sig, LoopSignal::Continue));
    let texts = printed_texts(&cmd.take_actions());
    assert!(texts.iter().any(|t| t == "second"));
    assert!(!texts.iter().any(|t| t == "first"));
}

#[test]
fn test_dispatch_remainder() {
    let mut cmd: CmdLoop<EchoCommand> = CmdLoop::new();
    cmd.add_command("simple", EchoCommand);
    cmd.take_actions();
    let sig = cmd.handle_line("simple hello world");
    assert!(matches!(sig, LoopSignal::Continue));
    let texts = printed_texts(&cmd.take_actions());
    assert!(texts.iter().any(|t| t == "hello world"));
}

#[test]
fn test_dispatch_no_remainder() {
    let mut cmd: CmdLoop<EchoCommand> = CmdLoop::new();
    cmd.add_command("simple", EchoCommand);
    cmd.take_actions();
    cmd.handle_line("simple");
    let texts = printed_texts(&cmd.take_actions());
    assert!(texts.iter().any(|t| t == "<no remainder>"));
}

#[test]
fn test_unknown_command() {
    let mut cmd: CmdLoop<NoopCommand> = CmdLoop::new();
    cmd.take_actions();
    let sig = cmd.handle_line("bogus");
    assert!(matches!(sig, LoopSignal::Continue));
    let texts = printed_texts(&cmd.take_actions());
    assert!(texts.iter().any(|t| t == "Unknown command: bogus"));
}

#[test]
fn test_empty_line_queues_newline() {
    let mut cmd: CmdLoop<NoopCommand> = CmdLoop::new();
    cmd.take_actions();
    let sig = cmd.handle_line("   ");
    assert!(matches!(sig, LoopSignal::Continue));
    let actions = cmd.take_actions();
    assert_eq!(actions.len(), 1);
    assert!(matches!(actions[0], OutputAction::Newline));
}

#[test]
fn test_wrap_advances_rows() {
    let mut p = PrinterTerm::new(10, 24);
    p.take_actions();
    p.print_wrapped("aaaaaaaaaaaaaaaaaaaaaaaaa");
    assert_eq!(p.get_cursor(), (0, 3));
}

#[test]
fn test_span_shorter_than_width_advances_one_row() {
    let mut p = PrinterTerm::new(10, 24);
    p.print_wrapped("aaaaaaaaa");
    assert_eq!(p.get_cursor(), (0, 1));
}

#[test]
fn test_exact_multiple_span() {
    let mut p = PrinterTerm::new(10, 24);
    p.print_wrapped("aaaaaaaaaa");
    assert_eq!(p.get_cursor(), (0, 2));
}

#[test]
fn test_scroll_on_overflow() {
    let mut p = PrinterTerm::new(10, 2);
    p.take_actions();
    p.print_wrapped("aaaaaaaaaaaaaaaaaaaaaaaaa");
    assert_eq!(p.get_cursor(), (0, 1));
    let actions = p.take_actions();
    assert!(actions.iter().any(|a| matches!(a, OutputAction::ScrollUp(2))));
}

#[test]
fn test_enter_returns_line() {
    let mut p = PrinterTerm::new(80, 24);
    p.handle_event(InputEvent::Key(KeyCode::Char('h')));
    p.handle_event(InputEvent::Key(KeyCode::Char('i')));
    let step = p.handle_event(InputEvent::Key(KeyCode::Enter));
    match step {
        ReadStep::Line(l) => assert_eq!(l, "hi"),
        _ => panic!("expected a completed line"),
    }
}

#[test]
fn test_backspace_edits_line() {
    let mut p = PrinterTerm::new(80, 24);
    p.handle_event(InputEvent::Key(KeyCode::Char('a')));
    p.handle_event(InputEvent::Key(KeyCode::Char('b')));
    p.handle_event(InputEvent::Key(KeyCode::Backspace));
    let step = p.handle_event(InputEvent::Key(KeyCode::Enter));
    match step {
        ReadStep::Line(l) => assert_eq!(l, "a"),
        _ => panic!("expected a completed line"),
    }
}

#[test]
fn test_backspace_at_start_is_noop() {
    let mut p = PrinterTerm::new(80, 24);
    let step = p.handle_event(InputEvent::Key(KeyCode::Backspace));
    assert!(matches!(step, ReadStep::Pending));
    let step = p.handle_event(InputEvent::Key(KeyCode::Enter));
    match step {
        ReadStep::Line(l) => assert_eq!(l, ""),
        _ => panic!("expected a completed line"),
    }
}

#[test]
fn test_left_then_insert_in_middle() {
    let mut p = PrinterTerm::new(80, 24);
    p.handle_event(InputEvent::Key(KeyCode::Char('a')));
    p.handle_event(InputEvent::Key(KeyCode::Char('c')));
    p.handle_event(InputEvent::Key(KeyCode::Left));
    p.handle_event(InputEvent::Key(KeyCode::Char('b')));
    let step = p.handle_event(InputEvent::Key(KeyCode::Enter));
    match step {
        ReadStep::Line(l) => assert_eq!(l, "abc"),
        _ => panic!("expected a completed line"),
    }
}

#[test]
fn test_escape_terminates() {
    let mut p = PrinterTerm::new(80, 24);
    let step = p.handle_event(InputEvent::Key(KeyCode::Esc));
    assert!(matches!(step, ReadStep::Terminate));
}

#[test]
fn test_resize_replaces_geometry() {
    let mut p = PrinterTerm::new(80, 24);
    let step = p.handle_event(InputEvent::Resize(100, 40));
    assert!(matches!(step, ReadStep::Pending));
    assert_eq!(p.get_size(), (100, 40));
}

#[test]
fn test_flush_resize_events_keeps_first_and_last() {
    let later = vec![(100, 40), (90, 30)];
    let (first, last) = PrinterTerm::flush_resize_events((80, 24), &later);
    assert_eq!(first, (80, 24));
    assert_eq!(last, (90, 30));
    let none: Vec<(u16, u16)> = Vec::new();
    let (first, last) = PrinterTerm::flush_resize_events((80, 24), &none);
    assert_eq!(first, (80, 24));
    assert_eq!(last, (80, 24));
}

#[test]
fn test_help_listing() {
    let mut cmd: CmdLoop<TaggedCommand> = CmdLoop::new();
    cmd.add_command("simple", TaggedCommand::First);
    cmd.take_actions();
    let sig = cmd.handle_line("help");
    assert!(matches!(sig, LoopSignal::Continue));
    let texts = printed_texts(&cmd.take_actions());
    assert!(texts.iter().any(|t| t == "help:\n\tThis help menu"));
    assert!(texts.iter().any(|t| t == "quit:\n"));
    assert!(texts.iter().any(|t| t == "\tQuit with exit code 0"));
    assert!(texts.iter().any(|t| t == "simple:\n"));
    assert!(texts.iter().any(|t| t == "\tA tagged test command"));
}

/// Drives a session over the given events the way the embedding shell
/// does: feeds each event to the editor, dispatches completed lines, and
/// releases the guard at the single point where the session ends. Returns
/// whether the session ended within the events.
fn run_mock_session(
    cmd: &mut CmdLoop<NoopCommand>,
    guard: &mut MockGuard,
    events: &[InputEvent],
) -> bool {
    for ev in events {
        match cmd.handle_event(*ev) {
            ReadStep::Terminate => {
                guard.raw = false;
                return true;
            }
            ReadStep::Line(line) => {
                if let LoopSignal::Quit = cmd.handle_line(&line) {
                    guard.raw = false;
                    return true;
                }
            }
            ReadStep::Pending => {}
        }
    }
    false
}

#[test]
fn test_registered_help_overrides_listing() {
    let mut cmd: CmdLoop<TaggedCommand> = CmdLoop::new();
    cmd.add_command("help", TaggedCommand::First);
    cmd.take_actions();
    let sig = cmd.handle_line("help");
    assert!(matches!(sig, LoopSignal::Continue));
    let texts = printed_texts(&cmd.take_actions());
    assert!(texts.iter().any(|t| t == "first"));
    assert!(!texts.iter().any(|t| t == "help:\n\tThis help menu"));
    assert!(!texts.iter().any(|t| t == "quit:\n"));
}

#[test]
fn test_quit_releases_terminal() {
    let mut guard = MockGuard { raw: true };
    let mut cmd: CmdLoop<NoopCommand> = CmdLoop::new();
    let events = [
        InputEvent::Key(KeyCode::Char('q')),
        InputEvent::Key(KeyCode::Char('u')),
        InputEvent::Key(KeyCode::Char('i')),
        InputEvent::Key(KeyCode::Char('t')),
        InputEvent::Key(KeyCode::Enter),
    ];
    let ended = run_mock_session(&mut cmd, &mut guard, &events);
    assert!(ended);
    assert!(!guard.raw);
    let texts = printed_texts(&cmd.take_actions());
    assert!(texts.iter().any(|t| t == "Quitting..."));
}

#[test]
fn test_escape_releases_terminal() {
    let mut guard = MockGuard { raw: true };
    let mut cmd: CmdLoop<NoopCommand> = CmdLoop::new();
    let events = [
        InputEvent::Key(KeyCode::Char('x')),
        InputEvent::Key(KeyCode::Esc),
    ];
    let ended = run_mock_session(&mut cmd, &mut guard, &events);
    assert!(ended);
    assert!(!guard.raw);
}

#[test]
fn test_unended_session_keeps_terminal() {
    let mut guard = MockGuard { raw: true };
    let mut cmd: CmdLoop<NoopCommand> = CmdLoop::new();
    let events = [
        InputEvent::Key(KeyCode::Char('h')),
        InputEvent::Key(KeyCode::Enter),
    ];
    let ended = run_mock_session(&mut cmd, &mut guard, &events);
    assert!(!ended);
    assert!(guard.raw);
}

#[test]
fn test_prompt_renders_after_change() {
    let mut cmd: CmdLoop<NoopCommand> = CmdLoop::new();
    cmd.change_prompt("[My New Prompt] # ");
    cmd.take_actions();
    cmd.render_prompt();
    let texts = printed_texts(&cmd.take_actions());
    assert!(texts.iter().any(|t| t == "[My New Prompt] # "));
}
