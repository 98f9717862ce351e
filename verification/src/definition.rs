//! The decisions taken when a definition of a network to watch is added.
//! Whoever adds it does the work in between: parsing a key, looking up a
//! name, reaching out to the network.

use vstd::prelude::*;

verus! {

/// What is to be done next.
#[derive(Debug, PartialEq, Eq)]
pub enum Action {
    /// Parse the public key that came with the definition.
    ParseKey,
    /// Find out whether a definition of that name exists.
    FindName,
    /// Find out whether the network of the definition can be reached.
    Ping,
    /// Install the definition and answer with success.
    Install,
    /// Answer that the request is refused, with this message.
    Refuse { message: String },
}

/// The answer to whoever asked: a status and a text.
#[derive(Debug, PartialEq, Eq)]
pub struct Answer {
    pub status: u16,
    pub text: String,
}

/// The message for a name that is taken.
pub open spec fn name_taken() -> Seq<char> {
    "Definition with this name already exists"@
}

/// The message for a network that cannot be reached.
pub open spec fn unreachable() -> Seq<char> {
    "Couldn't ping nns of that definition"@
}

/// The first step: a key that came with the definition is parsed before
/// anything else.
pub fn first_step(has_key: bool) -> (action: Action)
    ensures
        has_key ==> action == Action::ParseKey,
        !has_key ==> action == Action::FindName,
{
    if has_key {
        Action::ParseKey
    } else {
        Action::FindName
    }
}

/// The step after the key was parsed: a key that does not parse refuses the
/// request, with the parser's words.
pub fn after_key(error: Option<String>) -> (action: Action)
    ensures
        match error {
            Some(words) => action matches Action::Refuse { message } && message@ == words@,
            None => action == Action::FindName,
        },
{
    match error {
        Some(words) => Action::Refuse { message: words },
        None => Action::FindName,
    }
}

/// The step after the name was looked up: a name that is taken refuses the
/// request.
pub fn after_name(taken: bool) -> (action: Action)
    ensures
        taken ==> (action matches Action::Refuse { message } && message@ == name_taken()),
        !taken ==> action == Action::Ping,
{
    if taken {
        Action::Refuse { message: "Definition with this name already exists".to_owned() }
    } else {
        Action::Ping
    }
}

/// The step after the network was tried: one that cannot be reached refuses
/// the request.
pub fn after_ping(reachable: bool) -> (action: Action)
    ensures
        reachable ==> action == Action::Install,
        !reachable ==> (action matches Action::Refuse { message } && message@ == unreachable()),
{
    if reachable {
        Action::Install
    } else {
        Action::Refuse { message: "Couldn't ping nns of that definition".to_owned() }
    }
}

/// The answer that an action amounts to: 400 with its message for a
/// refusal, 200 with "success" for an installation, none for a step in
/// between.
pub fn answer_of(action: &Action) -> (answer: Option<Answer>)
    ensures
        match *action {
            Action::Refuse { message } => answer matches Some(a) && a.status == 400 && a.text@
                == message@,
            Action::Install => answer matches Some(a) && a.status == 200 && a.text@ == "success"@,
            _ => answer.is_none(),
        },
{
    match action {
        Action::Refuse { message } => Some(Answer { status: 400, text: message.clone() }),
        Action::Install => Some(Answer { status: 200, text: "success".to_owned() }),
        _ => None,
    }
}

} // verus!
