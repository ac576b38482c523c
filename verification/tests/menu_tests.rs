use employee_directory::menu::menu_step;
use employee_directory::menu::parse_menu_choice;
use employee_directory::menu::MenuChoice;
use employee_directory::menu::MenuState;
use employee_directory::presenter::department_header;
use employee_directory::presenter::department_line;
use employee_directory::presenter::enter_any_key;
use employee_directory::presenter::header_border;
use employee_directory::text::strip_trailing_newline;
use employee_directory::text::trim_str;

#[test]
fn selections_map_to_choices() {
    assert_eq!(parse_menu_choice("1"), MenuChoice::AddEmployee);
    assert_eq!(parse_menu_choice("2"), MenuChoice::ListAll);
    assert_eq!(parse_menu_choice("3"), MenuChoice::ListPerDepartment);
    assert_eq!(parse_menu_choice("4"), MenuChoice::ListDepartment);
    assert_eq!(parse_menu_choice("q"), MenuChoice::Quit);
    assert_eq!(parse_menu_choice("Q"), MenuChoice::Quit);
    assert_eq!(parse_menu_choice("5"), MenuChoice::Other);
    assert_eq!(parse_menu_choice("quit"), MenuChoice::Other);
    assert_eq!(parse_menu_choice(""), MenuChoice::Other);
}

#[test]
fn selections_are_trimmed_before_matching() {
    assert_eq!(parse_menu_choice(" 1 \n"), MenuChoice::AddEmployee);
    assert_eq!(parse_menu_choice("\tq\n"), MenuChoice::Quit);
}

#[test]
fn quit_selection_terminates_the_loop() {
    let state = menu_step(MenuState::MainMenu, MenuChoice::Quit);
    assert_eq!(state, MenuState::Quit);
}

#[test]
fn other_selections_return_to_the_menu() {
    for choice in [
        MenuChoice::AddEmployee,
        MenuChoice::ListAll,
        MenuChoice::ListPerDepartment,
        MenuChoice::ListDepartment,
        MenuChoice::Other,
    ] {
        assert_eq!(menu_step(MenuState::MainMenu, choice), MenuState::MainMenu);
    }
}

#[test]
fn header_border_is_38_equals_signs() {
    assert_eq!(header_border(), "=".repeat(38));
}

#[test]
fn department_line_joins_with_fixed_separator() {
    assert_eq!(department_line("Sales", "Amy"), "Sales   --   Amy");
}

#[test]
fn department_header_is_a_literal() {
    assert_eq!(department_header(), "Employees in {department} department");
}

#[test]
fn pause_prompt_text() {
    assert_eq!(enter_any_key(), "Press enter to continue");
}

#[test]
fn trim_removes_surrounding_whitespace() {
    assert_eq!(trim_str("  Sally \t"), "Sally");
    assert_eq!(trim_str("Sally"), "Sally");
    assert_eq!(trim_str("   "), "");
}

#[test]
fn strip_trailing_newline_drops_one_newline() {
    assert_eq!(strip_trailing_newline("Add Sally\n"), "Add Sally");
    assert_eq!(strip_trailing_newline("Add Sally"), "Add Sally");
    assert_eq!(strip_trailing_newline("\n"), "");
    assert_eq!(strip_trailing_newline(""), "");
}
