//! Registering the commands with Discord again after each interaction.
use crate::text::{decimal, push_decimal};
use vstd::prelude::*;

verus! {

broadcast use vstd::string::group_string_axioms;

/// Where the commands of a guild are registered.
pub open spec fn commands_address(app_id: nat, guild_id: nat) -> Seq<char> {
    "https://discord.com/api/v10/applications/"@ + decimal(app_id) + "/guilds/"@ + decimal(guild_id)
        + "/commands"@
}

/// The address at which the commands of a guild are registered.
pub fn commands_url(app_id: u64, guild_id: u64) -> (r: String)
    ensures
        r@ == commands_address(app_id as nat, guild_id as nat),
{
    let mut r = "https://discord.com/api/v10/applications/".to_owned();
    push_decimal(&mut r, app_id);
    r.append("/guilds/");
    push_decimal(&mut r, guild_id);
    r.append("/commands");
    r
}

/// What follows an attempt to register the commands.
#[derive(Clone, Copy, PartialEq, Eq, Structural, Debug)]
pub enum RegistrationStep {
    /// There was no answer: nothing more is tried.
    GiveUp,
    /// They are registered: register them once more, after a pause.
    Confirm,
    /// There were too many requests: try again when Discord allows it.
    RetryLater,
    /// The answer was another one: nothing more is tried.
    Unexpected,
}

/// What follows an attempt, given the HTTP status of the answer, if there was one.
pub open spec fn step_after(status: Option<u16>) -> RegistrationStep {
    match status {
        None => RegistrationStep::GiveUp,
        Some(code) => if 200 <= code < 300 {
            RegistrationStep::Confirm
        } else if code == 429 {
            RegistrationStep::RetryLater
        } else {
            RegistrationStep::Unexpected
        },
    }
}

/// Decides what follows an attempt, given the HTTP status of the answer, if there was
/// one.
pub fn after_attempt(status: Option<u16>) -> (r: RegistrationStep)
    ensures
        r == step_after(status),
{
    match status {
        None => RegistrationStep::GiveUp,
        Some(code) => {
            if 200 <= code && code < 300 {
                RegistrationStep::Confirm
            } else if code == 429 {
                RegistrationStep::RetryLater
            } else {
                RegistrationStep::Unexpected
            }
        },
    }
}

/// How many milliseconds pass before the commands are registered, given what the last
/// attempt led to, if there was one. Where Discord says how long to wait, or nothing
/// more is tried, there is no such number.
pub open spec fn pause_millis(last: Option<RegistrationStep>) -> Option<u64> {
    match last {
        None => Some(800),
        Some(RegistrationStep::Confirm) => Some(4000),
        Some(RegistrationStep::RetryLater) => None,
        Some(RegistrationStep::GiveUp) => None,
        Some(RegistrationStep::Unexpected) => None,
    }
}

/// Tells how many milliseconds to wait before the commands are registered, given what
/// the last attempt led to, if there was one.
pub fn pause_before(last: Option<RegistrationStep>) -> (r: Option<u64>)
    ensures
        r == pause_millis(last),
{
    match last {
        None => Some(800),
        Some(step) => {
            if step == RegistrationStep::Confirm {
                Some(4000)
            } else {
                None
            }
        },
    }
}

/// What is logged of a command that failed.
pub open spec fn failure_text(command: Seq<char>, error: Seq<char>) -> Seq<char> {
    "Erreur dans `"@ + command + "` : "@ + error
}

/// Writes what is logged of a command that failed.
pub fn command_failure(command: &str, error: &str) -> (r: String)
    ensures
        r@ == failure_text(command@, error@),
{
    let mut r = "Erreur dans `".to_owned();
    r.append(command);
    r.append("` : ");
    r.append(error);
    r
}

/// Writes what the user is told of a command that failed, given what is logged.
pub fn failure_reply(failure: &str) -> (r: String)
    ensures
        r@ == ":x: "@ + failure@,
{
    let mut r = ":x: ".to_owned();
    r.append(failure);
    r
}

} // verus!
