use simpledb_rs::client::{classify_command, client_step, trim_text, ClientStep, CommandKind, InputEvent};

#[test]
fn client_commands_are_classified() {
    assert_eq!(
        classify_command("  select A from T  "),
        (CommandKind::Query, "select A from T".to_string())
    );
    assert_eq!(classify_command(""), (CommandKind::Skip, String::new()));
    assert_eq!(classify_command("   \t"), (CommandKind::Skip, String::new()));
    assert_eq!(classify_command("exit"), (CommandKind::Exit, "exit".to_string()));
    assert_eq!(classify_command("exit now").0, CommandKind::Exit);
    assert_eq!(classify_command("show tables").0, CommandKind::ShowTables);
    assert_eq!(classify_command(" Show Tables ").0, CommandKind::ShowTables);
    assert_eq!(classify_command("show tables x").0, CommandKind::Update);
    assert_eq!(classify_command("SELECT x FROM y").0, CommandKind::Query);
    assert_eq!(
        classify_command("insert into T(A) values (1)"),
        (CommandKind::Update, "insert into T(A) values (1)".to_string())
    );
    assert_eq!(classify_command("EXIT").0, CommandKind::Update);
}

#[test]
fn client_trims_white_space() {
    assert_eq!(trim_text("  a b \n"), "a b");
    assert_eq!(trim_text("\u{a0}x\u{3000}"), "x");
    assert_eq!(trim_text("abc"), "abc");
    assert_eq!(trim_text(" "), "");
}

#[test]
fn white_space_is_what_std_calls_white_space() {
    for n in 0u32..=0x3100 {
        if let Some(c) = char::from_u32(n) {
            let text = c.to_string();
            assert_eq!(trim_text(&text).is_empty(), c.is_whitespace(), "U+{:04X}", n);
        }
    }
    assert_eq!(trim_text("\u{10FFFF}"), "\u{10FFFF}");
}

#[test]
fn client_steps_follow_the_input() {
    assert_eq!(client_step(InputEvent::Interrupted), ClientStep::Prompt);
    assert_eq!(client_step(InputEvent::EndOfInput), ClientStep::Stop);
    assert_eq!(client_step(InputEvent::Line("   ".to_string())), ClientStep::Prompt);
    assert_eq!(client_step(InputEvent::Line(" exit ".to_string())), ClientStep::Stop);
    assert_eq!(
        client_step(InputEvent::Line(" select A from T ".to_string())),
        ClientStep::Run(CommandKind::Query, "select A from T".to_string())
    );
    assert_eq!(
        client_step(InputEvent::Line("show tables".to_string())),
        ClientStep::Run(CommandKind::ShowTables, "show tables".to_string())
    );
    assert_eq!(
        client_step(InputEvent::Line("delete from T".to_string())),
        ClientStep::Run(CommandKind::Update, "delete from T".to_string())
    );
}
