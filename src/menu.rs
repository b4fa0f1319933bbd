//! The decisions of the program around a session: what the command line asks
//! for, and which screen a menu choice leads to.
use crate::text::str_eq;
use vstd::prelude::*;

verus! {

/// The refusal of a command line with more than one argument.
pub const TOO_MANY_ARGUMENTS: &'static str = "To many arguments, not supported.";

/// The screens of the program.
#[derive(Clone, Copy, Debug, PartialEq, Eq, Structural)]
pub enum GameState {
    StartUpScreen,
    SingleExamination,
    GameShow,
    QuitGame,
}

/// What the command line asks for: nothing (start at the menu) or the path of
/// a save file to resume; `args[0]` is the program's name.
pub fn read_args(args: &[String]) -> (r: Result<Option<String>, String>)
    ensures
        args@.len() == 1 ==> r == Ok::<Option<String>, String>(None),
        args@.len() == 2 ==> r == Ok::<Option<String>, String>(Some(args@[1])),
        args@.len() != 1 && args@.len() != 2 ==> (r matches Err(m) && m@ == TOO_MANY_ARGUMENTS@),
{
    if args.len() == 1 {
        Ok(None)
    } else if args.len() == 2 {
        Ok(Some(args[1].clone()))
    } else {
        Err(String::from_str(TOO_MANY_ARGUMENTS))
    }
}

/// The screen that a (normalised) menu choice names.
pub open spec fn action_for(input: Seq<char>) -> Option<GameState> {
    if input == "exit"@ {
        Some(GameState::QuitGame)
    } else if input == "start up screen"@ {
        Some(GameState::StartUpScreen)
    } else if input == "single examination"@ {
        Some(GameState::SingleExamination)
    } else if input == "game show"@ {
        Some(GameState::GameShow)
    } else {
        None
    }
}

/// Reads a menu choice; `None` means that it names no screen and the menu is
/// shown again.
pub fn handle_user_action(input: &str) -> (r: Option<GameState>)
    ensures
        r == action_for(input@),
{
    if str_eq(input, "exit") {
        Some(GameState::QuitGame)
    } else if str_eq(input, "start up screen") {
        Some(GameState::StartUpScreen)
    } else if str_eq(input, "single examination") {
        Some(GameState::SingleExamination)
    } else if str_eq(input, "game show") {
        Some(GameState::GameShow)
    } else {
        None
    }
}

} // verus!
