//! The command line: from the action word and the optional second word to
//! the command that is carried out.

use crate::text::{lowercase_of, quote, quoted, same_text, to_lowercase};
use vstd::prelude::*;
use vstd::string::StringExecFns;

verus! {

/// What an action word asks for.
#[derive(Clone, Copy, Debug, PartialEq, Eq, Structural)]
pub enum Verb {
    Add,
    Clear,
    Remove,
    Check,
    Uncheck,
    Print,
    PrintDone,
    PrintNotDone,
    Unknown,
}

/// A command, over the type `T` of its texts: `String` in a running program,
/// `Seq<char>` in contracts.
#[derive(Debug, PartialEq, Eq)]
pub enum Command<T> {
    /// Add the item and persist the list.
    Add { item: T },
    /// Clear the list, without asking where `force` is set.
    Clear { force: bool },
    /// Remove the item and persist the list.
    Remove { item: T },
    /// Mark the item as done or as not done.
    Update { item: T, is_done: bool },
    /// Show all items.
    Print,
    /// Show the items that are done.
    PrintDone,
    /// Show the items that are not done.
    PrintNotDone,
    /// The action needs an item and none was given: show `message`.
    Usage { message: T },
    /// The action word is none of the known ones: show `message`.
    Unknown { message: T },
}

impl View for Command<String> {
    type V = Command<Seq<char>>;

    open spec fn view(&self) -> Command<Seq<char>> {
        match *self {
            Command::Add { item } => Command::Add { item: item@ },
            Command::Clear { force } => Command::Clear { force },
            Command::Remove { item } => Command::Remove { item: item@ },
            Command::Update { item, is_done } => Command::Update { item: item@, is_done },
            Command::Print => Command::Print,
            Command::PrintDone => Command::PrintDone,
            Command::PrintNotDone => Command::PrintNotDone,
            Command::Usage { message } => Command::Usage { message: message@ },
            Command::Unknown { message } => Command::Unknown { message: message@ },
        }
    }
}

/// What the action word `lowered`, given in lower case, asks for.
pub open spec fn verb_of(lowered: Seq<char>) -> Verb {
    if lowered == "-n"@ || lowered == "-a"@ || lowered == "add"@ {
        Verb::Add
    } else if lowered == "clear"@ {
        Verb::Clear
    } else if lowered == "r"@ || lowered == "remove"@ || lowered == "delete"@ {
        Verb::Remove
    } else if lowered == "-c"@ || lowered == "check"@ || lowered == "finish"@ {
        Verb::Check
    } else if lowered == "-u"@ || lowered == "uncheck"@ || lowered == "undo"@ {
        Verb::Uncheck
    } else if lowered == "-p"@ || lowered == "print"@ {
        Verb::Print
    } else if lowered == "done"@ {
        Verb::PrintDone
    } else if lowered == "todo"@ {
        Verb::PrintNotDone
    } else {
        Verb::Unknown
    }
}

/// What the action word `action` asks for. The word counts whatever its
/// case, but for the short form with a capital C, which asks to clear while
/// the one with a small c asks to check.
pub open spec fn verb_for(action: Seq<char>) -> Verb {
    if action == "-C"@ {
        Verb::Clear
    } else {
        verb_of(lowercase_of(action))
    }
}

/// Whether `lowered`, the second word in lower case, asks to clear without
/// confirmation.
pub open spec fn is_force(lowered: Seq<char>) -> bool {
    lowered == "-f"@ || lowered == "--force"@
}

/// What is shown where the action `verb` got no item.
pub open spec fn usage_text(verb: Verb) -> Seq<char> {
    match verb {
        Verb::Add => "Error: A second argument is required to add"@,
        Verb::Remove => "remove/delete requires a second argument."@,
        Verb::Check => "check/finish requires a second argument."@,
        _ => "uncheck/undo requires a second argument."@,
    }
}

/// The command that `verb` and the second word give. `force` says whether
/// the second word asks to clear without confirmation, and `unknown` is
/// what to show for an action word that is not known.
pub open spec fn command_of(
    verb: Verb,
    item: Option<Seq<char>>,
    force: bool,
    unknown: Seq<char>,
) -> Command<Seq<char>> {
    match verb {
        Verb::Clear => Command::Clear { force },
        Verb::Print => Command::Print,
        Verb::PrintDone => Command::PrintDone,
        Verb::PrintNotDone => Command::PrintNotDone,
        Verb::Unknown => Command::Unknown { message: unknown },
        _ => match item {
            None => Command::Usage { message: usage_text(verb) },
            Some(text) => match verb {
                Verb::Add => Command::Add { item: text },
                Verb::Remove => Command::Remove { item: text },
                Verb::Check => Command::Update { item: text, is_done: true },
                _ => Command::Update { item: text, is_done: false },
            },
        },
    }
}

/// The text of the second word, if there is one.
pub open spec fn text_of_item(item: Option<String>) -> Option<Seq<char>> {
    match item {
        Some(text) => Some(text@),
        None => None,
    }
}

/// What is shown for the action word `action` where it is not known.
pub open spec fn unknown_text(action: Seq<char>) -> Seq<char> {
    quoted(action) + " is not a valid action."@
}

/// Whether the second word `item` asks to clear without confirmation: it
/// does where it is, whatever its case, one of the two force flags.
pub open spec fn forced(item: Option<Seq<char>>) -> bool {
    match item {
        Some(text) => is_force(lowercase_of(text)),
        None => false,
    }
}

/// What the action word `lowered`, given in lower case, asks for.
pub fn verb(lowered: &str) -> (v: Verb)
    ensures
        v == verb_of(lowered@),
{
    if same_text(lowered, "-n") || same_text(lowered, "-a") || same_text(lowered, "add") {
        Verb::Add
    } else if same_text(lowered, "clear") {
        Verb::Clear
    } else if same_text(lowered, "r") || same_text(lowered, "remove") || same_text(
        lowered,
        "delete",
    ) {
        Verb::Remove
    } else if same_text(lowered, "-c") || same_text(lowered, "check") || same_text(
        lowered,
        "finish",
    ) {
        Verb::Check
    } else if same_text(lowered, "-u") || same_text(lowered, "uncheck") || same_text(
        lowered,
        "undo",
    ) {
        Verb::Uncheck
    } else if same_text(lowered, "-p") || same_text(lowered, "print") {
        Verb::Print
    } else if same_text(lowered, "done") {
        Verb::PrintDone
    } else if same_text(lowered, "todo") {
        Verb::PrintNotDone
    } else {
        Verb::Unknown
    }
}

/// Whether `lowered`, the second word in lower case, is a force flag.
pub fn force_flag(lowered: &str) -> (force: bool)
    ensures
        force == is_force(lowered@),
{
    same_text(lowered, "-f") || same_text(lowered, "--force")
}

/// The command that `verb` and the second word give; see `command_of`.
pub fn command_for(verb: Verb, item: Option<String>, force: bool, unknown: String) -> (c: Command<
    String,
>)
    ensures
        c@ == command_of(verb, text_of_item(item), force, unknown@),
{
    match verb {
        Verb::Clear => Command::Clear { force },
        Verb::Print => Command::Print,
        Verb::PrintDone => Command::PrintDone,
        Verb::PrintNotDone => Command::PrintNotDone,
        Verb::Unknown => Command::Unknown { message: unknown },
        Verb::Add => match item {
            Some(text) => Command::Add { item: text },
            None => Command::Usage {
                message: String::from_str("Error: A second argument is required to add"),
            },
        },
        Verb::Remove => match item {
            Some(text) => Command::Remove { item: text },
            None => Command::Usage {
                message: String::from_str("remove/delete requires a second argument."),
            },
        },
        Verb::Check => match item {
            Some(text) => Command::Update { item: text, is_done: true },
            None => Command::Usage {
                message: String::from_str("check/finish requires a second argument."),
            },
        },
        Verb::Uncheck => match item {
            Some(text) => Command::Update { item: text, is_done: false },
            None => Command::Usage {
                message: String::from_str("uncheck/undo requires a second argument."),
            },
        },
    }
}

/// The command that the action word and the optional second word of the
/// command line give.
pub fn command(action: &str, item: Option<String>) -> (c: Command<String>)
    ensures
        c@ == command_of(
            verb_for(action@),
            text_of_item(item),
            forced(text_of_item(item)),
            unknown_text(action@),
        ),
{
    let v = if same_text(action, "-C") {
        Verb::Clear
    } else {
        let lowered = to_lowercase(action);
        verb(lowered.as_str())
    };
    let force = match (v, &item) {
        (Verb::Clear, Some(text)) => {
            let lowered = to_lowercase(text.as_str());
            force_flag(lowered.as_str())
        },
        _ => false,
    };
    let unknown = match v {
        Verb::Unknown => {
            let mut text = quote(action);
            text.append(" is not a valid action.");
            text
        },
        _ => String::new(),
    };
    command_for(v, item, force, unknown)
}

} // verus!
