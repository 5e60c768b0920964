use argus::browser_state::{CommandKey, CommandKeyOutcome, CommandLine};
use argus::commands::{run_command_line, CommandRun, CommandState};

#[test]
fn test_execute_command_empty() {
    let mut line = CommandLine::new();
    let mut state = CommandState::new();
    line.input = "  ".to_string();
    let r = run_command_line(&mut line, &mut state, "  ");
    assert!(matches!(r, CommandRun::Nothing));
    assert!(line.input.is_empty());
}

#[test]
fn test_execute_command_unknown_command() {
    let mut line = CommandLine::new();
    let mut state = CommandState::new();
    let r = run_command_line(&mut line, &mut state, "xyzzy");
    match r {
        CommandRun::Show(msg, secs) => {
            assert!(msg.contains("unknown command"));
            assert_eq!(secs, 4);
        }
        _ => panic!("expected an error message"),
    }
    assert_eq!(line.history, vec!["xyzzy".to_string()]);
}

#[test]
fn test_command_key_char_input() {
    let mut line = CommandLine::new();
    let r = line.handle_command_key(CommandKey::Char('s'));
    assert!(matches!(r, CommandKeyOutcome::Editing));
    assert_eq!(line.input, "s");
}

#[test]
fn test_command_key_backspace() {
    let mut line = CommandLine::new();
    line.input = "sc".to_string();
    line.handle_command_key(CommandKey::Backspace);
    assert_eq!(line.input, "s");
}

#[test]
fn test_command_key_esc_clears_and_exits() {
    let mut line = CommandLine::new();
    line.input = "scan".to_string();
    line.matches = vec!["Scan"];
    line.selected = 0;
    let r = line.handle_command_key(CommandKey::Esc);
    assert!(line.input.is_empty());
    assert!(line.matches.is_empty());
    assert!(matches!(r, CommandKeyOutcome::Closed));
}

#[test]
fn test_command_key_char_limited_to_200() {
    let mut line = CommandLine::new();
    line.input = "x".repeat(200);
    line.handle_command_key(CommandKey::Char('y'));
    assert_eq!(line.input.len(), 200);
}

#[test]
fn command_key_tab_and_history() {
    let mut line = CommandLine::new();
    line.handle_command_key(CommandKey::Char('s'));
    assert_eq!(line.matches, vec!["Consolidate", "Scan", "Sort", "Uninstall"]);
    line.handle_command_key(CommandKey::Tab);
    assert_eq!(line.selected, 1);
    assert_eq!(line.input, "Scan");
    line.handle_command_key(CommandKey::BackTab);
    assert_eq!(line.input, "Consolidate");
    match line.handle_command_key(CommandKey::Enter) {
        CommandKeyOutcome::Run(cmd) => assert_eq!(cmd, "Consolidate"),
        _ => panic!("expected a command to run"),
    }

    let mut line = CommandLine::new();
    line.history = vec!["help".to_string(), "sort n".to_string()];
    line.handle_command_key(CommandKey::Up);
    assert_eq!(line.input, "sort n");
    assert_eq!(line.history_idx, Some(1));
    line.handle_command_key(CommandKey::Up);
    assert_eq!(line.input, "help");
    line.handle_command_key(CommandKey::Up);
    assert_eq!(line.input, "help");
    line.handle_command_key(CommandKey::Down);
    assert_eq!(line.input, "sort n");
    line.handle_command_key(CommandKey::Down);
    assert_eq!(line.input, "");
    assert_eq!(line.history_idx, None);
    // 'k' types a letter while there is room
    line.handle_command_key(CommandKey::Char('k'));
    assert_eq!(line.input, "k");
}

#[test]
fn run_command_line_hands_over_scan_and_consolidate() {
    let mut line = CommandLine::new();
    let mut state = CommandState::new();
    assert!(matches!(run_command_line(&mut line, &mut state, " SCAN "), CommandRun::StartScan));
    match run_command_line(&mut line, &mut state, "consolidate") {
        CommandRun::Show(m, 3) => assert_eq!(m, "not in server mode"),
        _ => panic!("expected the server-mode error"),
    }
    state.server_mode = true;
    assert!(matches!(run_command_line(&mut line, &mut state, "Consolidate"), CommandRun::Consolidate));
    match run_command_line(&mut line, &mut state, "help") {
        CommandRun::Show(m, 3) => assert_eq!(m, "help opened"),
        _ => panic!("expected the help message"),
    }
    assert_eq!(line.history, vec!["SCAN".to_string(), "consolidate".to_string(), "Consolidate".to_string(), "help".to_string()]);
}
