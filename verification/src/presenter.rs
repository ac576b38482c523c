//! The fixed texts of the interface and the shape of the printed lines.

use vstd::prelude::*;

verus! {

/// The separator printed under every listing header: a fixed-width line
/// of 38 equals signs.
pub fn header_border() -> (r: &'static str)
    ensures
        r@.len() == 38,
        forall|i: int| 0 <= i < r@.len() ==> r@[i] == '=',
{
    let r = "======================================";
    proof {
        reveal_strlit("======================================");
        assert forall|i: int| 0 <= i < r@.len() implies r@[i] == '=' by {
            reveal_strlit("=");
            assert(r@.subrange(i, i + 1) =~= seq![r@[i]]);
        }
    }
    r
}

/// One line of the per-department listing: the department, a fixed
/// separator, then the employee.
pub fn department_line(department: &str, employee: &str) -> (r: String)
    ensures
        r@ == department@ + "   --   "@ + employee@,
{
    let mut r = department.to_owned();
    r.append("   --   ");
    r.append(employee);
    r
}

/// The prompt shown before the loop pauses for a keystroke; reading the
/// line that answers it is the caller's to do.
pub fn enter_any_key() -> (r: &'static str)
    ensures
        r@ == "Press enter to continue"@,
{
    "Press enter to continue"
}

/// The prompt of the add-employee flow.
pub fn add_command_prompt() -> (r: &'static str)
    ensures
        r@ == "Run a command using the following format: \"Add <employee_name> to <department>\""@,
{
    "Run a command using the following format: \"Add <employee_name> to <department>\""
}

/// The line printed when an add-command is rejected.
pub fn incorrect_format_line() -> (r: &'static str)
    ensures
        r@ == "Incorrect format."@,
{
    "Incorrect format."
}

/// The header of the single-department listing. The braces are literal
/// text, kept as the interface has always shown it: the header is not
/// interpolated with the department that was asked for.
pub fn department_header() -> (r: &'static str)
    ensures
        r@ == "Employees in {department} department"@,
{
    "Employees in {department} department"
}

/// The header of the flattened company-wide listing.
pub fn all_employees_header() -> (r: &'static str)
    ensures
        r@ == "All employees"@,
{
    "All employees"
}

/// The header of the per-department listing.
pub fn per_department_header() -> (r: &'static str)
    ensures
        r@ == "All employees per department"@,
{
    "All employees per department"
}

/// The main menu, as one block of text.
pub fn menu_text() -> (r: &'static str)
    ensures
        r@
            == "\n    Select an option:\n\n    1. Add an employee to a department\n    2. List all people\n    3. List all people per department\n    4. List all people in a Department\n    q. Quit\n    "@,
{
    "\n    Select an option:\n\n    1. Add an employee to a department\n    2. List all people\n    3. List all people per department\n    4. List all people in a Department\n    q. Quit\n    "
}

} // verus!
