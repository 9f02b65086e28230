//! Clearing the list: the decisions between the request and the removal of
//! the persisted file. The caller asks the user and removes the file; what
//! to do next is decided here.

use crate::store::Todo;
use crate::text::{lowercase_of, same_text, to_lowercase, trim, trimmed};
use vstd::prelude::*;

verus! {

/// What the user said when asked to confirm.
#[derive(Clone, Copy, Debug, PartialEq, Eq, Structural)]
pub enum Answer {
    Yes,
    No,
    Neither,
}

/// What the caller of a clearing step has to do next.
#[derive(Clone, Copy, Debug, PartialEq, Eq)]
pub enum ClearStep {
    /// Show `prompt`, read one line and hand it to `Todo::confirm`.
    Ask { prompt: &'static str },
    /// Remove the persisted file and hand the outcome to
    /// `Todo::_delete_data_file`.
    Delete,
    /// Nothing is removed; `error` says why.
    Stop { error: &'static str },
}

/// The question put to the user before the list is cleared.
pub open spec fn prompt_text() -> Seq<char> {
    "YOU ARE ABOUT TO CLEAR ALL OF YOUR TODOS! ARE YOU SURE YOU WANT TO? (yes/no): "@
}

/// The error after the user declined.
pub open spec fn abort_text() -> Seq<char> {
    "Aborting clear operation"@
}

/// The error after an answer that is neither yes nor no.
pub open spec fn invalid_text() -> Seq<char> {
    "Invalid Input"@
}

/// The message after the persisted file was removed.
pub open spec fn cleared_text() -> Seq<char> {
    "All notes cleared!"@
}

/// The error where the persisted file could not be removed.
pub open spec fn delete_failed_text() -> Seq<char> {
    "There was an error deleting your notes ):"@
}

/// The answer that a text in lower case gives: the words yes and no, or
/// their first letters.
pub open spec fn answer_of(lowered: Seq<char>) -> Answer {
    if lowered == "y"@ || lowered == "yes"@ {
        Answer::Yes
    } else if lowered == "n"@ || lowered == "no"@ {
        Answer::No
    } else {
        Answer::Neither
    }
}

/// Whether `step` is the step that follows the answer `answer`.
pub open spec fn follows(step: ClearStep, answer: Answer) -> bool {
    match answer {
        Answer::Yes => step is Delete,
        Answer::No => (step matches ClearStep::Stop { error } && error@ == abort_text()),
        Answer::Neither => (step matches ClearStep::Stop { error } && error@ == invalid_text()),
    }
}

/// The answer that `lowered`, a text in lower case, gives.
pub fn answer(lowered: &str) -> (a: Answer)
    ensures
        a == answer_of(lowered@),
{
    if same_text(lowered, "y") || same_text(lowered, "yes") {
        Answer::Yes
    } else if same_text(lowered, "n") || same_text(lowered, "no") {
        Answer::No
    } else {
        Answer::Neither
    }
}

/// The step that follows the answer `a`.
pub fn step_after(a: Answer) -> (step: ClearStep)
    ensures
        follows(step, a),
{
    match a {
        Answer::Yes => ClearStep::Delete,
        Answer::No => ClearStep::Stop { error: "Aborting clear operation" },
        Answer::Neither => ClearStep::Stop { error: "Invalid Input" },
    }
}

impl Todo {
    /// Starts clearing the list. With `force` the persisted file is to be
    /// removed at once; without it the user is to be asked first. The list
    /// in memory is not touched.
    pub fn clear(&self, force: bool) -> (step: ClearStep)
        ensures
            match step {
                ClearStep::Delete => force,
                ClearStep::Ask { prompt } => !force && prompt@ == prompt_text(),
                ClearStep::Stop { .. } => false,
            },
    {
        if force {
            ClearStep::Delete
        } else {
            ClearStep::Ask {
                prompt:
                    "YOU ARE ABOUT TO CLEAR ALL OF YOUR TODOS! ARE YOU SURE YOU WANT TO? (yes/no): ",
            }
        }
    }

    /// Decides on the line that the user gave when asked: the line, without
    /// the white space around it and in lower case, is read as an answer.
    /// Yes leads to the removal of the file, no and everything else stop
    /// with an error.
    pub fn confirm(&self, line: &str) -> (step: ClearStep)
        ensures
            follows(step, answer_of(lowercase_of(trimmed(line@)))),
    {
        let lowered = to_lowercase(trim(line));
        step_after(answer(lowered.as_str()))
    }

    /// The result of clearing, given whether the persisted file was removed.
    pub fn _delete_data_file(&self, deleted: bool) -> (r: Result<&'static str, &'static str>)
        ensures
            match r {
                Ok(message) => deleted && message@ == cleared_text(),
                Err(error) => !deleted && error@ == delete_failed_text(),
            },
    {
        if deleted {
            Ok("All notes cleared!")
        } else {
            Err("There was an error deleting your notes ):")
        }
    }
}

} // verus!
