//! What a line that the user typed means at each question of the menu.

use crate::text::{same, trim, trimmed};
use vstd::prelude::*;
use vstd::string::*;

verus! {

/// What the user chose at the main menu.
#[derive(Clone, Copy, Debug, PartialEq, Eq, Structural)]
pub enum Choice {
    AddType,
    RemoveType,
    AddEffectiveness,
    ShowType,
    ShowTypes,
    Quit,
    Incorrect,
}

/// What an answer to a question amounts to.
#[derive(Debug, PartialEq, Eq)]
pub enum Answer<T> {
    /// The user wants to leave.
    Quit,
    /// The user gave this.
    Given(T),
    /// The line is no answer: the question is asked again.
    Again,
}

/// The text in lower case, as `str::to_lowercase` gives it.
pub uninterp spec fn lowercased(s: Seq<char>) -> Seq<char>;

/// `str::to_lowercase`. The contract only names what it returns.
#[verifier::external_body]
fn lowercase(s: &str) -> (r: String)
    ensures
        r@ == lowercased(s@),
{
    s.to_lowercase()
}

/// What a trimmed line chooses at the main menu.
pub open spec fn choice_of(line: Seq<char>) -> Choice {
    if line == "1"@ {
        Choice::AddType
    } else if line == "2"@ {
        Choice::RemoveType
    } else if line == "3"@ {
        Choice::AddEffectiveness
    } else if line == "4"@ {
        Choice::ShowType
    } else if line == "5"@ {
        Choice::ShowTypes
    } else if line == "6"@ || line == "quit"@ || line == "Quit"@ {
        Choice::Quit
    } else {
        Choice::Incorrect
    }
}

/// What a line chooses at the main menu: the white space round it does not
/// count.
pub fn menu_choice(line: &str) -> (choice: Choice)
    ensures
        choice == choice_of(trimmed(line@)),
{
    let text = trim(line);
    let text = text.as_str();
    if same(text, "1") {
        Choice::AddType
    } else if same(text, "2") {
        Choice::RemoveType
    } else if same(text, "3") {
        Choice::AddEffectiveness
    } else if same(text, "4") {
        Choice::ShowType
    } else if same(text, "5") {
        Choice::ShowTypes
    } else if same(text, "6") || same(text, "quit") || same(text, "Quit") {
        Choice::Quit
    } else {
        Choice::Incorrect
    }
}

/// What a trimmed line, with its lower-case form, answers where a name is
/// asked for: `quit` in any case leaves, an empty line is no answer, and
/// anything else is the name.
pub open spec fn name_of(text: Seq<char>, lowered: Seq<char>) -> Answer<Seq<char>> {
    if lowered == "quit"@ {
        Answer::Quit
    } else if text.len() > 0 {
        Answer::Given(text)
    } else {
        Answer::Again
    }
}

/// The texts of an answer that holds a string.
pub open spec fn answer_text(answer: Answer<String>) -> Answer<Seq<char>> {
    match answer {
        Answer::Quit => Answer::Quit,
        Answer::Given(text) => Answer::Given(text@),
        Answer::Again => Answer::Again,
    }
}

/// What a trimmed line, with its lower-case form, answers where a name is
/// asked for.
pub fn name_answer_of(text: &str, lowered: &str) -> (answer: Answer<String>)
    ensures
        answer_text(answer) == name_of(text@, lowered@),
{
    if same(lowered, "quit") {
        Answer::Quit
    } else if text.unicode_len() > 0 {
        Answer::Given(String::from_str(text))
    } else {
        Answer::Again
    }
}

/// What a line answers where a name is asked for. The name is given trimmed.
pub fn name_answer(line: &str) -> (answer: Answer<String>)
    ensures
        answer_text(answer) == name_of(trimmed(line@), lowercased(trimmed(line@))),
{
    let text = trim(line);
    let lowered = lowercase(text.as_str());
    name_answer_of(text.as_str(), lowered.as_str())
}

/// What the lower-case form of a trimmed line answers to a question of yes
/// or no.
pub open spec fn yes_or_no_of(lowered: Seq<char>) -> Answer<bool> {
    if lowered == "quit"@ {
        Answer::Quit
    } else if lowered == "true"@ || lowered == "yes"@ || lowered == "y"@ {
        Answer::Given(true)
    } else if lowered == "false"@ || lowered == "no"@ || lowered == "n"@ {
        Answer::Given(false)
    } else {
        Answer::Again
    }
}

/// What the lower-case form of a trimmed line answers to a question of yes
/// or no.
pub fn bool_answer_of(lowered: &str) -> (answer: Answer<bool>)
    ensures
        answer == yes_or_no_of(lowered@),
{
    if same(lowered, "quit") {
        Answer::Quit
    } else if same(lowered, "true") || same(lowered, "yes") || same(lowered, "y") {
        Answer::Given(true)
    } else if same(lowered, "false") || same(lowered, "no") || same(lowered, "n") {
        Answer::Given(false)
    } else {
        Answer::Again
    }
}

/// What a line answers to a question of yes or no.
pub fn bool_answer(line: &str) -> (answer: Answer<bool>)
    ensures
        answer == yes_or_no_of(lowercased(trimmed(line@))),
{
    let text = trim(line);
    let lowered = lowercase(text.as_str());
    bool_answer_of(lowered.as_str())
}

/// What the lower-case form of a trimmed line answers when the user is asked
/// whether to save before leaving.
pub open spec fn save_of(lowered: Seq<char>) -> Option<bool> {
    if lowered == "y"@ || lowered == "yes"@ {
        Some(true)
    } else if lowered == "n"@ || lowered == "no"@ {
        Some(false)
    } else {
        None
    }
}

/// What the lower-case form of a trimmed line answers when the user is asked
/// whether to save before leaving: `None` where the line is no answer.
pub fn save_answer_of(lowered: &str) -> (answer: Option<bool>)
    ensures
        answer == save_of(lowered@),
{
    if same(lowered, "y") || same(lowered, "yes") {
        Some(true)
    } else if same(lowered, "n") || same(lowered, "no") {
        Some(false)
    } else {
        None
    }
}

/// What a line answers when the user is asked whether to save before
/// leaving.
pub fn save_answer(line: &str) -> (answer: Option<bool>)
    ensures
        answer == save_of(lowercased(trimmed(line@))),
{
    let text = trim(line);
    let lowered = lowercase(text.as_str());
    save_answer_of(lowered.as_str())
}

/// What a trimmed line answers where an effectiveness is asked for: the
/// label that a number or a short form stands for, or one of the four labels
/// on offer written out.
pub open spec fn effectiveness_of(line: Seq<char>) -> Answer<Seq<char>> {
    if line == "1"@ || line == "SE"@ || line == "Super Effective"@ {
        Answer::Given("Super Effective"@)
    } else if line == "2"@ || line == "Neutral"@ {
        Answer::Given("Neutral"@)
    } else if line == "3"@ || line == "NVE"@ || line == "Not Very Effective"@ {
        Answer::Given("Not Very Effective"@)
    } else if line == "4"@ || line == "Immune"@ {
        Answer::Given("Immune"@)
    } else if line == "Quit"@ || line == "quit"@ {
        Answer::Quit
    } else {
        Answer::Again
    }
}

/// What a line answers where an effectiveness is asked for.
pub fn effectiveness_answer(line: &str) -> (answer: Answer<String>)
    ensures
        answer_text(answer) == effectiveness_of(trimmed(line@)),
{
    let text = trim(line);
    let text = text.as_str();
    if same(text, "1") || same(text, "SE") || same(text, "Super Effective") {
        Answer::Given(String::from_str("Super Effective"))
    } else if same(text, "2") || same(text, "Neutral") {
        Answer::Given(String::from_str("Neutral"))
    } else if same(text, "3") || same(text, "NVE") || same(text, "Not Very Effective") {
        Answer::Given(String::from_str("Not Very Effective"))
    } else if same(text, "4") || same(text, "Immune") {
        Answer::Given(String::from_str("Immune"))
    } else if same(text, "Quit") || same(text, "quit") {
        Answer::Quit
    } else {
        Answer::Again
    }
}

/// A further type by its name, where `none` stands for no further type.
pub fn further_type(name: &str) -> (further: Option<String>)
    ensures
        match further {
            Some(given) => given@ == trimmed(name@) && trimmed(name@) != "none"@,
            None => trimmed(name@) == "none"@,
        },
{
    let text = trim(name);
    if same(text.as_str(), "none") {
        None
    } else {
        Some(text)
    }
}

} // verus!
