use todo_list::command::{command, command_for, force_flag, verb, Command, Verb};
use todo_list::text::same_text;

fn item(text: &str) -> Option<String> {
    Some(String::from(text))
}

fn text(s: &str) -> String {
    String::from(s)
}

#[test]
fn add_has_three_names() {
    for action in ["-n", "-a", "add", "ADD", "Add", "-N", "-A"] {
        assert_eq!(command(action, item("x")), Command::Add { item: text("x") });
    }
}

#[test]
fn add_without_item_shows_its_usage() {
    assert_eq!(
        command("add", None),
        Command::Usage { message: text("Error: A second argument is required to add") }
    );
}

#[test]
fn clear_is_forced_by_its_flag_only() {
    assert_eq!(command("clear", None), Command::Clear { force: false });
    assert_eq!(command("CLEAR", None), Command::Clear { force: false });
    assert_eq!(command("clear", item("-f")), Command::Clear { force: true });
    assert_eq!(command("clear", item("-F")), Command::Clear { force: true });
    assert_eq!(command("clear", item("--force")), Command::Clear { force: true });
    assert_eq!(command("clear", item("--FORCE")), Command::Clear { force: true });
    assert_eq!(command("clear", item("force")), Command::Clear { force: false });
    assert_eq!(command("clear", item("-force")), Command::Clear { force: false });
}

#[test]
fn capital_c_clears_and_small_c_checks() {
    assert_eq!(command("-C", None), Command::Clear { force: false });
    assert_eq!(command("-C", item("-f")), Command::Clear { force: true });
    assert_eq!(command("-c", item("x")), Command::Update { item: text("x"), is_done: true });
}

#[test]
fn remove_has_three_names() {
    for action in ["r", "remove", "delete", "R", "Remove", "DELETE"] {
        assert_eq!(command(action, item("x")), Command::Remove { item: text("x") });
    }
    assert_eq!(
        command("remove", None),
        Command::Usage { message: text("remove/delete requires a second argument.") }
    );
}

#[test]
fn check_has_three_names() {
    for action in ["-c", "check", "finish", "Check", "FINISH"] {
        assert_eq!(
            command(action, item("x")),
            Command::Update { item: text("x"), is_done: true }
        );
    }
    assert_eq!(
        command("check", None),
        Command::Usage { message: text("check/finish requires a second argument.") }
    );
}

#[test]
fn uncheck_has_three_names() {
    for action in ["-u", "uncheck", "undo", "-U", "Undo", "UNCHECK"] {
        assert_eq!(
            command(action, item("x")),
            Command::Update { item: text("x"), is_done: false }
        );
    }
    assert_eq!(
        command("undo", None),
        Command::Usage { message: text("uncheck/undo requires a second argument.") }
    );
}

#[test]
fn the_listings_take_no_item() {
    assert_eq!(command("-p", None), Command::Print);
    assert_eq!(command("print", None), Command::Print);
    assert_eq!(command("PRINT", item("x")), Command::Print);
    assert_eq!(command("done", None), Command::PrintDone);
    assert_eq!(command("Done", None), Command::PrintDone);
    assert_eq!(command("todo", None), Command::PrintNotDone);
    assert_eq!(command("TODO", item("x")), Command::PrintNotDone);
}

#[test]
fn any_other_word_is_not_a_valid_action() {
    assert_eq!(
        command("bogus", None),
        Command::Unknown { message: text("\"bogus\" is not a valid action.") }
    );
    assert_eq!(
        command("Say \"hi\"", item("x")),
        Command::Unknown { message: text("\"Say \\\"hi\\\"\" is not a valid action.") }
    );
    assert_eq!(
        command("", None),
        Command::Unknown { message: text("\"\" is not a valid action.") }
    );
    assert_eq!(
        command("-r", item("x")),
        Command::Unknown { message: text("\"-r\" is not a valid action.") }
    );
}

#[test]
fn the_item_keeps_its_case() {
    assert_eq!(command("ADD", item("Buy Milk")), Command::Add { item: text("Buy Milk") });
}

#[test]
fn a_verb_is_read_from_lower_case_only() {
    assert_eq!(verb("add"), Verb::Add);
    assert_eq!(verb("-n"), Verb::Add);
    assert_eq!(verb("-a"), Verb::Add);
    assert_eq!(verb("clear"), Verb::Clear);
    assert_eq!(verb("r"), Verb::Remove);
    assert_eq!(verb("remove"), Verb::Remove);
    assert_eq!(verb("delete"), Verb::Remove);
    assert_eq!(verb("-c"), Verb::Check);
    assert_eq!(verb("check"), Verb::Check);
    assert_eq!(verb("finish"), Verb::Check);
    assert_eq!(verb("-u"), Verb::Uncheck);
    assert_eq!(verb("uncheck"), Verb::Uncheck);
    assert_eq!(verb("undo"), Verb::Uncheck);
    assert_eq!(verb("-p"), Verb::Print);
    assert_eq!(verb("print"), Verb::Print);
    assert_eq!(verb("done"), Verb::PrintDone);
    assert_eq!(verb("todo"), Verb::PrintNotDone);
    assert_eq!(verb("ADD"), Verb::Unknown);
    assert_eq!(verb("-C"), Verb::Unknown);
    assert_eq!(verb("addd"), Verb::Unknown);
    assert_eq!(verb(""), Verb::Unknown);
}

#[test]
fn a_force_flag_is_read_from_lower_case_only() {
    assert!(force_flag("-f"));
    assert!(force_flag("--force"));
    assert!(!force_flag("-F"));
    assert!(!force_flag("--forc"));
    assert!(!force_flag(""));
}

#[test]
fn a_command_is_made_of_verb_and_item() {
    assert_eq!(
        command_for(Verb::Add, item("x"), true, text("u")),
        Command::Add { item: text("x") }
    );
    assert_eq!(command_for(Verb::Clear, item("x"), true, text("u")), Command::Clear { force: true });
    assert_eq!(command_for(Verb::Clear, None, false, text("u")), Command::Clear { force: false });
    assert_eq!(
        command_for(Verb::Unknown, item("x"), true, text("u")),
        Command::Unknown { message: text("u") }
    );
    assert_eq!(
        command_for(Verb::Uncheck, None, false, text("u")),
        Command::Usage { message: text("uncheck/undo requires a second argument.") }
    );
    assert_eq!(command_for(Verb::PrintDone, None, false, text("u")), Command::PrintDone);
}

#[test]
fn texts_are_the_same_character_by_character() {
    assert!(same_text("", ""));
    assert!(same_text("abc", "abc"));
    assert!(same_text("caf\u{e9}", "caf\u{e9}"));
    assert!(!same_text("abc", "abd"));
    assert!(!same_text("abc", "ab"));
    assert!(!same_text("ab", "abc"));
    assert!(!same_text("", "a"));
    assert!(!same_text("a", "A"));
}
