use employee_directory::directory::Directory;

fn views(v: &Vec<String>) -> Vec<&str> {
    v.iter().map(|s| s.as_str()).collect()
}

#[test]
fn add_then_query_includes_employee() {
    let mut d = Directory::new();
    d.add_employee("Engineering", "Sally");
    let listed = d.employees_of("Engineering");
    assert!(listed.iter().any(|e| e == "Sally"));
}

#[test]
fn total_count_equals_number_of_adds() {
    let mut d = Directory::new();
    let adds = [
        ("Engineering", "Sally"),
        ("Sales", "Amir"),
        ("Engineering", "Sally"),
        ("Engineering", "Bob"),
        ("HR", "Dana"),
    ];
    for (dept, name) in adds {
        d.add_employee(dept, name);
    }
    assert_eq!(d.all_people_sorted().len(), adds.len());
    assert_eq!(d.people_per_department().len(), adds.len());
}

#[test]
fn duplicate_adds_are_kept() {
    let mut d = Directory::new();
    d.add_employee("Engineering", "Sally");
    d.add_employee("Engineering", "Sally");
    assert_eq!(views(&d.employees_of("Engineering")), vec!["Sally", "Sally"]);
}

#[test]
fn case_insensitive_alphabetical_order() {
    let mut d = Directory::new();
    d.add_employee("Engineering", "bob");
    d.add_employee("Engineering", "Alice");
    d.add_employee("Engineering", "carol");
    assert_eq!(views(&d.all_people_sorted()), vec!["Alice", "bob", "carol"]);
    let pairs = d.people_per_department();
    let names: Vec<&str> = pairs.iter().map(|(_, e)| e.as_str()).collect();
    assert_eq!(names, vec!["Alice", "bob", "carol"]);
}

#[test]
fn sorting_is_idempotent_across_listings() {
    let mut d = Directory::new();
    d.add_employee("Engineering", "bob");
    d.add_employee("Engineering", "Alice");
    d.add_employee("Sales", "zed");
    d.add_employee("Sales", "Amy");
    let first = d.all_people_sorted();
    let second = d.all_people_sorted();
    assert_eq!(first, second);
    let pairs_first = d.people_per_department();
    let pairs_second = d.people_per_department();
    assert_eq!(pairs_first, pairs_second);
}

#[test]
fn department_listing_keeps_insertion_order() {
    let mut d = Directory::new();
    d.add_employee("Sales", "Zed");
    d.add_employee("Sales", "Amy");
    assert_eq!(views(&d.employees_of("Sales")), vec!["Zed", "Amy"]);
}

#[test]
fn sorted_listings_do_not_disturb_insertion_order() {
    let mut d = Directory::new();
    d.add_employee("Sales", "Zed");
    d.add_employee("Sales", "Amy");
    let _ = d.all_people_sorted();
    let _ = d.people_per_department();
    assert_eq!(views(&d.employees_of("Sales")), vec!["Zed", "Amy"]);
}

#[test]
fn unknown_department_lists_nothing() {
    let d = Directory::new();
    assert!(d.employees_of("Warehouse").is_empty());
    let mut d = Directory::new();
    d.add_employee("Engineering", "Sally");
    assert!(d.employees_of("Warehouse").is_empty());
}

#[test]
fn department_keys_are_case_sensitive() {
    let mut d = Directory::new();
    d.add_employee("Sales", "Amy");
    assert!(d.employees_of("sales").is_empty());
    assert_eq!(views(&d.employees_of("Sales")), vec!["Amy"]);
}

#[test]
fn per_department_listing_repeats_department() {
    let mut d = Directory::new();
    d.add_employee("Sales", "Zed");
    d.add_employee("Sales", "Amy");
    d.add_employee("HR", "Bea");
    let pairs = d.people_per_department();
    let as_strs: Vec<(&str, &str)> = pairs.iter().map(|(a, b)| (a.as_str(), b.as_str())).collect();
    assert_eq!(as_strs, vec![("Sales", "Amy"), ("Sales", "Zed"), ("HR", "Bea")]);
}

#[test]
fn sorting_trims_before_comparing() {
    let mut d = Directory::new();
    d.add_employee("Engineering", "  zoe");
    d.add_employee("Engineering", "adam");
    // "  zoe" is compared as "zoe", so it sorts after "adam" despite the
    // leading spaces.
    assert_eq!(views(&d.all_people_sorted()), vec!["adam", "  zoe"]);
}

#[test]
fn lowercasing_decides_the_order() {
    let mut d = Directory::new();
    d.add_employee("Engineering", "Bob");
    d.add_employee("Engineering", "alice");
    // Compared case-insensitively "alice" < "bob"; compared by raw code
    // points "Bob" would come first.
    assert_eq!(views(&d.all_people_sorted()), vec!["alice", "Bob"]);
}
