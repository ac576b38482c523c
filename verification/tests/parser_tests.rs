use employee_directory::directory::Directory;
use employee_directory::parser::apply_add_command;
use employee_directory::parser::parse_add_command;
use employee_directory::parser::tokenize;

#[test]
fn tokenize_splits_on_whitespace_and_drops_empties() {
    let toks = tokenize("  Add   Sally \t to  Engineering \n");
    let toks: Vec<&str> = toks.iter().map(|t| t.as_str()).collect();
    assert_eq!(toks, vec!["Add", "Sally", "to", "Engineering"]);
}

#[test]
fn tokenize_of_blank_line_is_empty() {
    assert!(tokenize("").is_empty());
    assert!(tokenize("   \t  ").is_empty());
}

#[test]
fn well_formed_command_is_accepted() {
    let cmd = parse_add_command("Add Sally to Engineering").expect("four tokens are well-formed");
    assert_eq!(cmd.employee, "Sally");
    assert_eq!(cmd.department, "Engineering");
}

#[test]
fn verb_and_preposition_are_not_validated() {
    let cmd = parse_add_command("Move Amir into Sales").expect("only position and count matter");
    assert_eq!(cmd.employee, "Amir");
    assert_eq!(cmd.department, "Sales");
}

#[test]
fn three_tokens_are_rejected() {
    assert!(parse_add_command("Add Sally Engineering").is_none());
}

#[test]
fn five_tokens_are_rejected() {
    assert!(parse_add_command("Add Sally Jones to Engineering").is_none());
}

#[test]
fn malformed_command_does_not_mutate_directory() {
    let mut d = Directory::new();
    d.add_employee("Sales", "Amir");
    let accepted = apply_add_command(&mut d, "Add Sally Engineering");
    assert!(!accepted);
    assert!(d.employees_of("Engineering").is_empty());
    assert_eq!(d.all_people_sorted().len(), 1);
}

#[test]
fn well_formed_command_adds_exactly_one_entry() {
    let mut d = Directory::new();
    let accepted = apply_add_command(&mut d, "Add Sally to Engineering");
    assert!(accepted);
    let listed = d.employees_of("Engineering");
    let listed: Vec<&str> = listed.iter().map(|s| s.as_str()).collect();
    assert_eq!(listed, vec!["Sally"]);
    assert_eq!(d.all_people_sorted().len(), 1);
}
