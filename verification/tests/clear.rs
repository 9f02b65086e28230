use todo_list::clear::{answer, step_after, Answer, ClearStep};
use todo_list::store::Todo;

const PROMPT: &str =
    "YOU ARE ABOUT TO CLEAR ALL OF YOUR TODOS! ARE YOU SURE YOU WANT TO? (yes/no): ";

#[test]
fn forced_clear_removes_the_file_at_once() {
    let todo = Todo::new("a\ttrue\n").unwrap();
    assert_eq!(todo.clear(true), ClearStep::Delete);
    assert_eq!(todo.len(), 1);
}

#[test]
fn clear_without_force_asks_first() {
    let todo = Todo::empty();
    assert_eq!(todo.clear(false), ClearStep::Ask { prompt: PROMPT });
}

#[test]
fn after_a_forced_clear_a_new_file_gives_the_empty_list() {
    let todo = Todo::new("a\ttrue\n").unwrap();
    assert_eq!(todo.clear(true), ClearStep::Delete);
    assert_eq!(todo._delete_data_file(true), Ok("All notes cleared!"));
    let fresh = Todo::new("").unwrap();
    assert_eq!(fresh.len(), 0);
    assert_eq!(fresh.get("a"), None);
}

#[test]
fn the_answer_no_aborts() {
    let todo = Todo::new("a\ttrue\n").unwrap();
    assert_eq!(todo.clear(false), ClearStep::Ask { prompt: PROMPT });
    assert_eq!(todo.confirm("no"), ClearStep::Stop { error: "Aborting clear operation" });
    assert_eq!(todo.save(), "a\ttrue\n");
}

#[test]
fn yes_in_any_case_leads_to_the_removal() {
    let todo = Todo::empty();
    assert_eq!(todo.confirm("yes"), ClearStep::Delete);
    assert_eq!(todo.confirm("y"), ClearStep::Delete);
    assert_eq!(todo.confirm("YES"), ClearStep::Delete);
    assert_eq!(todo.confirm("Yes"), ClearStep::Delete);
    assert_eq!(todo.confirm("Y"), ClearStep::Delete);
}

#[test]
fn no_in_any_case_aborts() {
    let todo = Todo::empty();
    let abort = ClearStep::Stop { error: "Aborting clear operation" };
    assert_eq!(todo.confirm("n"), abort);
    assert_eq!(todo.confirm("N"), abort);
    assert_eq!(todo.confirm("NO"), abort);
    assert_eq!(todo.confirm("nO"), abort);
}

#[test]
fn white_space_around_the_answer_does_not_count() {
    let todo = Todo::empty();
    assert_eq!(todo.confirm("  yes \n"), ClearStep::Delete);
    assert_eq!(todo.confirm("y\r\n"), ClearStep::Delete);
    assert_eq!(todo.confirm("\tno\n"), ClearStep::Stop { error: "Aborting clear operation" });
}

#[test]
fn any_other_answer_is_invalid() {
    let todo = Todo::empty();
    let invalid = ClearStep::Stop { error: "Invalid Input" };
    assert_eq!(todo.confirm(""), invalid);
    assert_eq!(todo.confirm("\n"), invalid);
    assert_eq!(todo.confirm("maybe"), invalid);
    assert_eq!(todo.confirm("yess"), invalid);
    assert_eq!(todo.confirm("ye"), invalid);
    assert_eq!(todo.confirm("y es"), invalid);
    assert_eq!(todo.confirm("nope"), invalid);
}

#[test]
fn an_answer_is_read_from_lower_case_only() {
    assert_eq!(answer("yes"), Answer::Yes);
    assert_eq!(answer("y"), Answer::Yes);
    assert_eq!(answer("no"), Answer::No);
    assert_eq!(answer("n"), Answer::No);
    assert_eq!(answer("YES"), Answer::Neither);
    assert_eq!(answer(" yes"), Answer::Neither);
    assert_eq!(answer(""), Answer::Neither);
}

#[test]
fn each_answer_has_its_step() {
    assert_eq!(step_after(Answer::Yes), ClearStep::Delete);
    assert_eq!(step_after(Answer::No), ClearStep::Stop { error: "Aborting clear operation" });
    assert_eq!(step_after(Answer::Neither), ClearStep::Stop { error: "Invalid Input" });
}

#[test]
fn the_outcome_of_the_removal_decides_the_result() {
    let todo = Todo::empty();
    assert_eq!(todo._delete_data_file(true), Ok("All notes cleared!"));
    assert_eq!(todo._delete_data_file(false), Err("There was an error deleting your notes ):"));
}
