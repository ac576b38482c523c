//! The main-menu state machine: one recurring state and one terminal one.

use vstd::prelude::*;

use crate::text::trim_spec;
use crate::text::trim_str;

verus! {

/// What the user selected at the main menu.
#[derive(Clone, Copy, PartialEq, Eq, Structural, Debug)]
pub enum MenuChoice {
    /// "1": run the add-employee flow.
    AddEmployee,
    /// "2": list everyone, flattened, sorted within each department.
    ListAll,
    /// "3": list every department paired with each of its employees.
    ListPerDepartment,
    /// "4": list one department's employees in insertion order.
    ListDepartment,
    /// "q" or "Q": leave the menu loop.
    Quit,
    /// Anything else: no operation, show the menu again.
    Other,
}

/// The two states of the menu loop.
#[derive(Clone, Copy, PartialEq, Eq, Structural, Debug)]
pub enum MenuState {
    MainMenu,
    Quit,
}

/// The selection a line of input stands for, after trimming.
pub open spec fn choice_of(s: Seq<char>) -> MenuChoice {
    let t = trim_spec(s);
    if t.len() != 1 {
        MenuChoice::Other
    } else if t[0] == '1' {
        MenuChoice::AddEmployee
    } else if t[0] == '2' {
        MenuChoice::ListAll
    } else if t[0] == '3' {
        MenuChoice::ListPerDepartment
    } else if t[0] == '4' {
        MenuChoice::ListDepartment
    } else if t[0] == 'q' || t[0] == 'Q' {
        MenuChoice::Quit
    } else {
        MenuChoice::Other
    }
}

pub fn parse_menu_choice(input: &str) -> (r: MenuChoice)
    ensures
        r == choice_of(input@),
{
    let t = trim_str(input);
    if t.unicode_len() != 1 {
        return MenuChoice::Other;
    }
    let c = t.get_char(0);
    if c == '1' {
        MenuChoice::AddEmployee
    } else if c == '2' {
        MenuChoice::ListAll
    } else if c == '3' {
        MenuChoice::ListPerDepartment
    } else if c == '4' {
        MenuChoice::ListDepartment
    } else if c == 'q' || c == 'Q' {
        MenuChoice::Quit
    } else {
        MenuChoice::Other
    }
}

/// The next state of the loop: only the quit selection leaves the main
/// menu, and the terminal state is never left.
pub open spec fn step_spec(state: MenuState, choice: MenuChoice) -> MenuState {
    match state {
        MenuState::Quit => MenuState::Quit,
        MenuState::MainMenu => if choice is Quit {
            MenuState::Quit
        } else {
            MenuState::MainMenu
        },
    }
}

/// Advances the menu loop by one selection. From the main menu, the loop
/// ends exactly on the quit selection; every other selection returns to
/// the main menu, so further prompts appear only before quitting.
pub fn menu_step(state: MenuState, choice: MenuChoice) -> (r: MenuState)
    ensures
        r == step_spec(state, choice),
        state is MainMenu ==> (r is Quit <==> choice is Quit),
{
    match state {
        MenuState::Quit => MenuState::Quit,
        MenuState::MainMenu => match choice {
            MenuChoice::Quit => MenuState::Quit,
            _ => MenuState::MainMenu,
        },
    }
}

} // verus!
