//! The free-text add-command grammar: four whitespace-separated tokens,
//! `<verb> <name> <preposition> <department>`. Only position and count
//! matter; the verb and the preposition are not checked.

use vstd::prelude::*;

use crate::directory::add_view;
use crate::directory::dir_wf;
use crate::directory::Directory;
use crate::sorting::names_of;
use crate::text::char_is_space;
use crate::text::is_space_char;

verus! {

/// The tokens still to come in `s`, with `cur` the token begun just
/// before: whitespace ends a token, other characters extend it, and an
/// empty token is never kept.
pub open spec fn tokens_from(s: Seq<char>, cur: Seq<char>) -> Seq<Seq<char>>
    decreases s.len(),
{
    if s.len() == 0 {
        if cur.len() == 0 {
            Seq::empty()
        } else {
            seq![cur]
        }
    } else if is_space_char(s[0]) {
        if cur.len() == 0 {
            tokens_from(s.drop_first(), Seq::empty())
        } else {
            seq![cur] + tokens_from(s.drop_first(), Seq::empty())
        }
    } else {
        tokens_from(s.drop_first(), cur.push(s[0]))
    }
}

/// The whitespace-separated tokens of a line, empty tokens discarded.
pub open spec fn tokens_of(s: Seq<char>) -> Seq<Seq<char>> {
    tokens_from(s, Seq::empty())
}

pub fn tokenize(s: &str) -> (r: Vec<String>)
    ensures
        names_of(r@) == tokens_of(s@),
{
    let n = s.unicode_len();
    let mut r: Vec<String> = Vec::new();
    let mut i: usize = 0;
    let mut start: usize = 0;
    let mut in_tok = false;
    proof {
        assert(s@.skip(0) =~= s@);
        assert(names_of(r@) =~= Seq::<Seq<char>>::empty());
        assert(Seq::<Seq<char>>::empty() + tokens_of(s@) =~= tokens_of(s@));
    }
    while i < n
        invariant
            i <= n,
            n == s@.len(),
            in_tok ==> start < i,
            tokens_of(s@) == names_of(r@) + tokens_from(
                s@.skip(i as int),
                if in_tok {
                    s@.subrange(start as int, i as int)
                } else {
                    Seq::<char>::empty()
                },
            ),
        decreases n - i,
    {
        let ghost cur: Seq<char> = if in_tok {
            s@.subrange(start as int, i as int)
        } else {
            Seq::<char>::empty()
        };
        let c = s.get_char(i);
        proof {
            assert(s@.skip(i as int)[0] == c);
            assert(s@.skip(i as int).drop_first() =~= s@.skip(i as int + 1));
        }
        if char_is_space(c) {
            if in_tok {
                let tok = s.substring_char(start, i).to_owned();
                let ghost r0 = r@;
                r.push(tok);
                proof {
                    assert(tok@ == cur);
                    assert(names_of(r0).len() == r0.len());
                    assert(names_of(r@) =~= names_of(r0).push(cur));
                    assert(names_of(r0).push(cur) + tokens_from(
                        s@.skip(i as int + 1),
                        Seq::<char>::empty(),
                    ) =~= names_of(r0) + (seq![cur] + tokens_from(
                        s@.skip(i as int + 1),
                        Seq::<char>::empty(),
                    )));
                }
                in_tok = false;
            }
        } else {
            if !in_tok {
                start = i;
                in_tok = true;
                proof {
                    assert(s@.subrange(i as int, i as int + 1) =~= Seq::<char>::empty().push(c));
                }
            } else {
                proof {
                    assert(s@.subrange(start as int, i as int + 1) =~= cur.push(c));
                }
            }
        }
        i = i + 1;
    }
    proof {
        assert(s@.skip(n as int) =~= Seq::<char>::empty());
    }
    if in_tok {
        let tok = s.substring_char(start, n).to_owned();
        let ghost r0 = r@;
        let ghost cur = s@.subrange(start as int, n as int);
        r.push(tok);
        proof {
            assert(tok@ == cur);
            assert(names_of(r0).len() == r0.len());
            assert(names_of(r@) =~= names_of(r0).push(cur));
            assert(tokens_from(Seq::<char>::empty(), cur) =~= seq![cur]);
            assert(names_of(r0) + seq![cur] =~= names_of(r0).push(cur));
        }
    } else {
        proof {
            assert(tokens_from(Seq::<char>::empty(), Seq::<char>::empty()) =~= Seq::<
                Seq<char>,
            >::empty());
            assert(names_of(r@) + Seq::<Seq<char>>::empty() =~= names_of(r@));
        }
    }
    r
}

/// A well-formed add-command: the employee and the department to add.
pub struct AddCommand {
    pub employee: String,
    pub department: String,
}

/// Accepts a line exactly when it splits into four tokens, and then
/// reads the employee name from the second and the department from the
/// fourth; the verb and the preposition are ignored.
pub fn parse_add_command(line: &str) -> (r: Option<AddCommand>)
    ensures
        match r {
            Some(cmd) => tokens_of(line@).len() == 4 && cmd.employee@ == tokens_of(line@)[1]
                && cmd.department@ == tokens_of(line@)[3],
            None => tokens_of(line@).len() != 4,
        },
{
    let tokens = tokenize(line);
    proof {
        assert(names_of(tokens@).len() == tokens@.len());
    }
    if tokens.len() != 4 {
        return None;
    }
    let employee = tokens[1].clone();
    let department = tokens[3].clone();
    proof {
        assert(employee@ == names_of(tokens@)[1]);
        assert(department@ == names_of(tokens@)[3]);
    }
    Some(AddCommand { employee, department })
}

/// Runs one line of the add flow against the directory: a well-formed
/// command adds exactly one entry and reports success; a malformed one
/// reports failure and leaves the directory untouched.
pub fn apply_add_command(dir: &mut Directory, line: &str) -> (r: bool)
    ensures
        r == (tokens_of(line@).len() == 4),
        r ==> final(dir)@ == add_view(old(dir)@, tokens_of(line@)[3], tokens_of(line@)[1]),
        !r ==> final(dir)@ == old(dir)@,
        dir_wf(old(dir)@) ==> dir_wf(final(dir)@),
{
    match parse_add_command(line) {
        Some(cmd) => {
            dir.add_employee(cmd.department.as_str(), cmd.employee.as_str());
            true
        },
        None => false,
    }
}

} // verus!
