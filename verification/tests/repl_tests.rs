use yushi::repl::{
    agent_file_content, agent_file_name, console_step, format_response, handle_slash_command, help_text,
    multiline_line, parse_agents_command, pin_name, split_first_word, strip_line_ending, AgentsCommand,
    ConsoleAction, Mode, SlashCommand,
};

#[test]
fn slash_commands_by_first_word() {
    assert_eq!(handle_slash_command("   "), SlashCommand::Hint);
    assert_eq!(handle_slash_command("help me"), SlashCommand::Help);
    assert_eq!(handle_slash_command(" pin"), SlashCommand::Pin);
    assert_eq!(handle_slash_command("agents"), SlashCommand::Agents);
    assert_eq!(handle_slash_command("config"), SlashCommand::Config);
    assert_eq!(handle_slash_command("clear"), SlashCommand::Clear);
    assert_eq!(handle_slash_command("quit"), SlashCommand::Quit);
    assert_eq!(handle_slash_command("exit now"), SlashCommand::Quit);
    assert_eq!(handle_slash_command("dance"), SlashCommand::Unknown("dance".to_string()));
    assert!(help_text().starts_with("Built-in commands:\n/help   - this help\n"));
}

#[test]
fn agents_subcommands() {
    assert_eq!(parse_agents_command("list"), AgentsCommand::List);
    assert_eq!(parse_agents_command(" create  bob  x"), AgentsCommand::Create("bob".to_string()));
    assert_eq!(parse_agents_command("create"), AgentsCommand::CreateUsage);
    assert_eq!(parse_agents_command("delete bob"), AgentsCommand::Delete("bob".to_string()));
    assert_eq!(parse_agents_command("delete "), AgentsCommand::DeleteUsage);
    assert_eq!(parse_agents_command("rename"), AgentsCommand::Usage);
    assert_eq!(parse_agents_command(""), AgentsCommand::Usage);
    assert_eq!(split_first_word("  a b "), Some(("a".to_string(), " b ".to_string())));
    assert_eq!(split_first_word(" \t "), None);
}

#[test]
fn pins_and_agent_files() {
    assert_eq!(pin_name("  helper "), Some("helper".to_string()));
    assert_eq!(pin_name("   "), None);
    assert_eq!(agent_file_name("helper"), "helper.md");
    assert_eq!(agent_file_content("helper"), "# Agent: helper\n\n");
}

#[test]
fn dialog_lines() {
    assert_eq!(console_step(Mode::Dialog, " / "), (Mode::Dialog, ConsoleAction::Chat(" / ".to_string())));
    assert_eq!(console_step(Mode::Dialog, "/ "), (Mode::Slash, ConsoleAction::SwitchMode));
    assert_eq!(console_step(Mode::Dialog, "/help"), (Mode::Dialog, ConsoleAction::Slash("help".to_string())));
    assert_eq!(console_step(Mode::Dialog, "#"), (Mode::Memory, ConsoleAction::SwitchMode));
    assert_eq!(console_step(Mode::Dialog, "#  note"), (Mode::Dialog, ConsoleAction::AppendMemory("note".to_string())));
    assert_eq!(console_step(Mode::Dialog, "#x "), (Mode::Dialog, ConsoleAction::AppendMemory("x ".to_string())));
    assert_eq!(console_step(Mode::Dialog, "\\"), (Mode::Multiline, ConsoleAction::SwitchMode));
    assert_eq!(console_step(Mode::Dialog, "first\\"), (Mode::Dialog, ConsoleAction::ReadMore("first\\".to_string())));
    assert_eq!(console_step(Mode::Dialog, "   "), (Mode::Dialog, ConsoleAction::Skip));
    assert_eq!(console_step(Mode::Dialog, "hello"), (Mode::Dialog, ConsoleAction::Chat("hello".to_string())));
}

#[test]
fn other_modes_return_to_dialog() {
    assert_eq!(console_step(Mode::Memory, "remember"), (Mode::Dialog, ConsoleAction::AppendMemory("remember".to_string())));
    assert_eq!(console_step(Mode::Memory, " "), (Mode::Dialog, ConsoleAction::NothingToAppend));
    assert_eq!(console_step(Mode::Slash, "quit"), (Mode::Dialog, ConsoleAction::Slash("quit".to_string())));
    assert_eq!(console_step(Mode::Multiline, "a b"), (Mode::Dialog, ConsoleAction::ChatWhole("a b".to_string())));
    assert_eq!(console_step(Mode::Multiline, ""), (Mode::Dialog, ConsoleAction::EmptyMultiline));
}

#[test]
fn multiline_reading() {
    let mut acc = String::new();
    assert!(multiline_line(&mut acc, "one \\"));
    assert!(!multiline_line(&mut acc, "two"));
    assert_eq!(acc, "one two");
    assert_eq!(strip_line_ending("x\r\n\n"), "x");
}

#[test]
fn answers_are_shown_with_a_bullet() {
    assert_eq!(format_response("a\nb\nc"), vec!["● a".to_string(), "  b".to_string(), "  c".to_string()]);
    assert!(format_response("").is_empty());
}
