//! The in-memory store mapping department names to their employees.

use vstd::prelude::*;

use crate::sorting::names_of;
use crate::sorting::sort_views;
use crate::sorting::sorted_copy;
use crate::text::str_eq;

verus! {

/// One department: its name and its employees in insertion order.
pub struct Dept {
    pub name: String,
    pub employees: Vec<String>,
}

/// The directory's abstract state: the departments in the order first
/// written to, each with the views of its name and of its employee names.
pub type DirSnapshot = Seq<(Seq<char>, Seq<Seq<char>>)>;

/// The index of the first department named `d`, or -1 where none is.
pub open spec fn find_dept(v: DirSnapshot, d: Seq<char>) -> int
    decreases v.len(),
{
    if v.len() == 0 {
        -1
    } else if v[0].0 == d {
        0
    } else {
        let r = find_dept(v.drop_first(), d);
        if r < 0 {
            -1
        } else {
            r + 1
        }
    }
}

pub open spec fn has_dept(v: DirSnapshot, d: Seq<char>) -> bool {
    find_dept(v, d) >= 0
}

/// The employees of department `d`, in insertion order; empty where the
/// department was never written to.
pub open spec fn employees_view(v: DirSnapshot, d: Seq<char>) -> Seq<Seq<char>> {
    if has_dept(v, d) {
        v[find_dept(v, d)].1
    } else {
        Seq::empty()
    }
}

/// The state after one employee `n` is added to department `d`: the name
/// is appended to the department's list, which is created on first use.
pub open spec fn add_view(v: DirSnapshot, d: Seq<char>, n: Seq<char>) -> DirSnapshot {
    let i = find_dept(v, d);
    if i >= 0 {
        v.update(i, (v[i].0, v[i].1.push(n)))
    } else {
        v.push((d, seq![n]))
    }
}

/// How many employees the directory holds in all, over every department.
pub open spec fn total_of(v: DirSnapshot) -> nat
    decreases v.len(),
{
    if v.len() == 0 {
        0
    } else {
        v[0].1.len() + total_of(v.drop_first())
    }
}

/// The directory's invariant: department names are distinct, and a
/// department stands in the directory only if an employee was added to it.
pub open spec fn dir_wf(v: DirSnapshot) -> bool {
    &&& forall|i: int, j: int| 0 <= i < j < v.len() ==> v[i].0 != v[j].0
    &&& forall|i: int| 0 <= i < v.len() ==> #[trigger] v[i].1.len() > 0
}


/// The flattened listing of everyone in the company: each department's
/// employees sorted case-insensitively, departments in stored order.
pub open spec fn all_people_view(v: DirSnapshot) -> Seq<Seq<char>>
    decreases v.len(),
{
    if v.len() == 0 {
        Seq::empty()
    } else {
        all_people_view(v.drop_last()) + sort_views(v.last().1)
    }
}

/// The views of a sequence of (department, employee) string pairs.
pub open spec fn pair_views(s: Seq<(String, String)>) -> Seq<(Seq<char>, Seq<char>)> {
    Seq::new(s.len(), |i: int| (s[i].0@, s[i].1@))
}

/// One line per employee of one department, the department repeated.
pub open spec fn dept_pairs(d: Seq<char>, emps: Seq<Seq<char>>) -> Seq<(Seq<char>, Seq<char>)> {
    Seq::new(emps.len(), |i: int| (d, emps[i]))
}

/// The listing of every department paired with each of its employees,
/// employees sorted case-insensitively within their department.
pub open spec fn dept_lines_view(v: DirSnapshot) -> Seq<(Seq<char>, Seq<char>)>
    decreases v.len(),
{
    if v.len() == 0 {
        Seq::empty()
    } else {
        dept_lines_view(v.drop_last()) + dept_pairs(v.last().0, sort_views(v.last().1))
    }
}

pub proof fn lemma_find_dept(v: DirSnapshot, d: Seq<char>)
    ensures
        find_dept(v, d) < 0 ==> forall|i: int| 0 <= i < v.len() ==> #[trigger] v[i].0 != d,
        find_dept(v, d) >= 0 ==> find_dept(v, d) < v.len() && v[find_dept(v, d)].0 == d && forall|
            i: int,
        | 0 <= i < find_dept(v, d) ==> #[trigger] v[i].0 != d,
    decreases v.len(),
{
    if v.len() > 0 && v[0].0 != d {
        lemma_find_dept(v.drop_first(), d);
        assert(forall|i: int|
            1 <= i < v.len() ==> v.drop_first()[i - 1] == #[trigger] v[i]);
    }
}

/// Where a department stands at index `i` and none before it bears the
/// same name, the lookup finds exactly that index.
pub proof fn lemma_find_dept_at(v: DirSnapshot, d: Seq<char>, i: int)
    requires
        0 <= i < v.len(),
        v[i].0 == d,
        forall|k: int| 0 <= k < i ==> (#[trigger] v[k].0) != d,
    ensures
        find_dept(v, d) == i,
    decreases v.len(),
{
    if i > 0 {
        lemma_find_dept_at(v.drop_first(), d, i - 1);
        assert(forall|k: int| 0 <= k < v.drop_first().len() ==> v.drop_first()[k] == #[trigger] v[k
            + 1]);
    }
}

pub proof fn lemma_total_push(v: DirSnapshot, e: (Seq<char>, Seq<Seq<char>>))
    ensures
        total_of(v.push(e)) == total_of(v) + e.1.len(),
    decreases v.len(),
{
    if v.len() == 0 {
        assert(total_of(v) == 0);
        assert(total_of(Seq::<(Seq<char>, Seq<Seq<char>>)>::empty()) == 0);
        assert(v.push(e)[0] == e);
        assert(v.push(e).drop_first() =~= Seq::<(Seq<char>, Seq<Seq<char>>)>::empty());
    } else {
        assert(v.push(e)[0] == v[0]);
        assert(v.push(e).drop_first() =~= v.drop_first().push(e));
        lemma_total_push(v.drop_first(), e);
    }
}

pub proof fn lemma_total_update(v: DirSnapshot, i: int, e: (Seq<char>, Seq<Seq<char>>))
    requires
        0 <= i < v.len(),
    ensures
        total_of(v.update(i, e)) + v[i].1.len() == total_of(v) + e.1.len(),
    decreases v.len(),
{
    if i == 0 {
        assert(v.update(0, e)[0] == e);
        assert(v.update(0, e).drop_first() =~= v.drop_first());
    } else {
        assert(v.update(i, e)[0] == v[0]);
        assert(v.update(i, e).drop_first() =~= v.drop_first().update(i - 1, e));
        lemma_total_update(v.drop_first(), i - 1, e);
        assert(v.drop_first()[i - 1] == v[i]);
    }
}

/// One add grows the total employee count by exactly one: no silent
/// drops and no deduplication.
pub proof fn lemma_add_total(v: DirSnapshot, d: Seq<char>, n: Seq<char>)
    ensures
        total_of(add_view(v, d, n)) == total_of(v) + 1,
{
    lemma_find_dept(v, d);
    let i = find_dept(v, d);
    if i >= 0 {
        lemma_total_update(v, i, (v[i].0, v[i].1.push(n)));
    } else {
        lemma_total_push(v, (d, seq![n]));
    }
}

/// The state after a whole sequence of add-commands, each a pair of a
/// department name and an employee name, applied in order.
pub open spec fn apply_adds(v: DirSnapshot, cmds: Seq<(Seq<char>, Seq<char>)>) -> DirSnapshot
    decreases cmds.len(),
{
    if cmds.len() == 0 {
        v
    } else {
        apply_adds(add_view(v, cmds[0].0, cmds[0].1), cmds.drop_first())
    }
}

/// For every sequence of well-formed add-commands, the total employee
/// count across all departments grows by exactly the number of adds.
pub proof fn lemma_apply_adds_total(v: DirSnapshot, cmds: Seq<(Seq<char>, Seq<char>)>)
    ensures
        total_of(apply_adds(v, cmds)) == total_of(v) + cmds.len(),
    decreases cmds.len(),
{
    if cmds.len() > 0 {
        lemma_add_total(v, cmds[0].0, cmds[0].1);
        lemma_apply_adds_total(add_view(v, cmds[0].0, cmds[0].1), cmds.drop_first());
    }
}

pub proof fn lemma_find_dept_same_keys(v1: DirSnapshot, v2: DirSnapshot, d: Seq<char>)
    requires
        v1.len() == v2.len(),
        forall|k: int| 0 <= k < v1.len() ==> (#[trigger] v1[k].0) == v2[k].0,
    ensures
        find_dept(v1, d) == find_dept(v2, d),
    decreases v1.len(),
{
    if v1.len() > 0 {
        assert(v1[0].0 == v2[0].0);
        lemma_find_dept_same_keys(v1.drop_first(), v2.drop_first(), d);
        assert(forall|k: int|
            0 <= k < v1.drop_first().len() ==> v1.drop_first()[k] == #[trigger] v1[k + 1]
                && v2.drop_first()[k] == v2[k + 1]);
    }
}

pub proof fn lemma_find_dept_push(v: DirSnapshot, e: (Seq<char>, Seq<Seq<char>>), d: Seq<char>)
    requires
        e.0 != d,
    ensures
        find_dept(v.push(e), d) == find_dept(v, d),
    decreases v.len(),
{
    if v.len() == 0 {
        assert(find_dept(v, d) == -1);
        assert(find_dept(Seq::<(Seq<char>, Seq<Seq<char>>)>::empty(), d) == -1);
        assert(v.push(e)[0] == e);
        assert(v.push(e).drop_first() =~= Seq::<(Seq<char>, Seq<Seq<char>>)>::empty());
    } else {
        assert(v.push(e)[0] == v[0]);
        assert(v.push(e).drop_first() =~= v.drop_first().push(e));
        lemma_find_dept_push(v.drop_first(), e, d);
    }
}

/// An add appends the new employee to exactly the department named, and
/// leaves every other department's listing as it stood.
pub proof fn lemma_add_appends(v: DirSnapshot, d: Seq<char>, n: Seq<char>)
    ensures
        employees_view(add_view(v, d, n), d) == employees_view(v, d).push(n),
        forall|d2: Seq<char>|
            d2 != d ==> employees_view(add_view(v, d, n), d2) == employees_view(v, d2),
{
    lemma_find_dept(v, d);
    let i = find_dept(v, d);
    let w = add_view(v, d, n);
    if i >= 0 {
        assert(forall|k: int| 0 <= k < v.len() ==> (#[trigger] w[k].0) == v[k].0);
        lemma_find_dept_same_keys(w, v, d);
        assert(employees_view(w, d) == employees_view(v, d).push(n));
        assert forall|d2: Seq<char>| d2 != d implies employees_view(w, d2) == employees_view(
            v,
            d2,
        ) by {
            lemma_find_dept_same_keys(w, v, d2);
            lemma_find_dept(v, d2);
            if find_dept(v, d2) >= 0 {
                assert(v[find_dept(v, d2)].0 == d2);
                assert(find_dept(v, d2) != i);
            }
        }
    } else {
        assert(w == v.push((d, seq![n])));
        lemma_find_dept_at(w, d, v.len() as int);
        assert(employees_view(v, d).push(n) =~= seq![n]);
        assert(w[v.len() as int].1 == seq![n]);
        assert forall|d2: Seq<char>| d2 != d implies employees_view(w, d2) == employees_view(
            v,
            d2,
        ) by {
            lemma_find_dept_push(v, (d, seq![n]), d2);
            lemma_find_dept(v, d2);
            if find_dept(v, d2) >= 0 {
                assert(w[find_dept(v, d2)] == v[find_dept(v, d2)]);
            }
        }
    }
}

/// A department never written to lists no employees, and is no error.
pub proof fn lemma_unknown_dept_empty(v: DirSnapshot, d: Seq<char>)
    requires
        forall|i: int| 0 <= i < v.len() ==> (#[trigger] v[i].0) != d,
    ensures
        employees_view(v, d) == Seq::<Seq<char>>::empty(),
{
    lemma_find_dept(v, d);
    if find_dept(v, d) >= 0 {
        assert(v[find_dept(v, d)].0 == d);
        assert(false);
    }
}

/// The flattened company-wide listing holds one line per employee: its
/// length is the total employee count.
pub proof fn lemma_all_people_len(v: DirSnapshot)
    ensures
        all_people_view(v).len() == total_of(v),
    decreases v.len(),
{
    if v.len() > 0 {
        lemma_all_people_len(v.drop_last());
        crate::sorting::lemma_sort_views_multiset(v.last().1);
        lemma_total_push(v.drop_last(), v.last());
        assert(v.drop_last().push(v.last()) =~= v);
    }
}

pub struct Directory {
    entries: Vec<Dept>,
}

impl View for Directory {
    type V = DirSnapshot;

    closed spec fn view(&self) -> DirSnapshot {
        Seq::new(
            self.entries@.len(),
            |i: int| (self.entries@[i].name@, names_of(self.entries@[i].employees@)),
        )
    }
}

impl Directory {
    /// A directory with no departments and no employees.
    pub fn new() -> (r: Directory)
        ensures
            r@ == Seq::<(Seq<char>, Seq<Seq<char>>)>::empty(),
            dir_wf(r@),
    {
        let r = Directory { entries: Vec::new() };
        proof {
            assert(r@ =~= Seq::<(Seq<char>, Seq<Seq<char>>)>::empty());
        }
        r
    }

    /// The position of `department` among the entries, where it stands.
    fn find_index(&self, department: &str) -> (r: Option<usize>)
        ensures
            match r {
                Some(i) => find_dept(self@, department@) == i as int,
                None => !has_dept(self@, department@),
            },
    {
        let ghost v = self@;
        let n = self.entries.len();
        proof {
            assert(v.len() == n as int);
        }
        let mut i: usize = 0;
        while i < n
            invariant
                i <= n,
                n == self.entries.len(),
                v == self@,
                v.len() == n,
                forall|k: int| 0 <= k < i ==> (#[trigger] v[k].0) != department@,
            decreases n - i,
        {
            proof {
                assert(v[i as int].0 == self.entries@[i as int].name@);
            }
            if str_eq(self.entries[i].name.as_str(), department) {
                proof {
                    lemma_find_dept_at(v, department@, i as int);
                }
                return Some(i);
            }
            i = i + 1;
        }
        proof {
            lemma_find_dept(v, department@);
            if find_dept(v, department@) >= 0 {
                assert(v[find_dept(v, department@)].0 == department@);
                assert(false);
            }
        }
        None
    }

    /// Appends `name` to `department`'s list, creating the department on
    /// its first employee. Never fails and never deduplicates.
    pub fn add_employee(&mut self, department: &str, name: &str)
        ensures
            final(self)@ == add_view(old(self)@, department@, name@),
            dir_wf(old(self)@) ==> dir_wf(final(self)@),
    {
        let ghost v0 = self@;
        proof {
            lemma_find_dept(v0, department@);
        }
        match self.find_index(department) {
            Some(i) => {
                let ghost fi = i as int;
                proof {
                    assert(0 <= fi < v0.len());
                }
                let mut d = self.entries.remove(i);
                d.employees.push(name.to_owned());
                proof {
                    assert(names_of(d.employees@) =~= v0[fi].1.push(name@));
                }
                self.entries.insert(i, d);
                proof {
                    assert(self@ =~= v0.update(fi, (v0[fi].0, v0[fi].1.push(name@))));
                }
            },
            None => {
                let employees = vec![name.to_owned()];
                proof {
                    assert(names_of(employees@) =~= seq![name@]);
                }
                self.entries.push(Dept { name: department.to_owned(), employees });
                proof {
                    assert(self@ =~= v0.push((department@, seq![name@])));
                }
            },
        }
        proof {
            if dir_wf(v0) {
                assert(dir_wf(self@));
            }
        }
    }

    /// The employees of `department` in insertion order, or nothing where
    /// the department is unknown; unknown departments are no error.
    pub fn employees_of(&self, department: &str) -> (r: Vec<String>)
        ensures
            names_of(r@) == employees_view(self@, department@),
    {
        let ghost v = self@;
        match self.find_index(department) {
            Some(i) => {
                proof {
                    lemma_find_dept(v, department@);
                    assert(names_of(self.entries@[i as int].employees@) == v[i as int].1);
                }
                let src = &self.entries[i].employees;
                let mut r: Vec<String> = Vec::new();
                let mut j: usize = 0;
                proof {
                    assert(names_of(r@) =~= names_of(src@).take(0));
                }
                while j < src.len()
                    invariant
                        j <= src.len(),
                        names_of(r@) == names_of(src@).take(j as int),
                        src == &self.entries@[i as int].employees,
                    decreases src.len() - j,
                {
                    let ghost r0 = r@;
                    proof {
                        assert(names_of(r0).len() == r0.len());
                    }
                    let x = src[j].clone();
                    r.push(x);
                    proof {
                        assert(r@ == r0.push(x));
                        assert(names_of(r@) =~= names_of(src@).take(j as int + 1));
                    }
                    j = j + 1;
                }
                proof {
                    assert(names_of(src@).take(src@.len() as int) =~= names_of(src@));
                }
                r
            },
            None => {
                proof {
                    assert(names_of(Seq::<String>::empty()) =~= Seq::<Seq<char>>::empty());
                }
                Vec::new()
            },
        }
    }

    /// Everyone in the company, flattened across departments in stored
    /// order, each department's employees sorted case-insensitively.
    pub fn all_people_sorted(&self) -> (r: Vec<String>)
        ensures
            names_of(r@) == all_people_view(self@),
    {
        let ghost v = self@;
        let mut r: Vec<String> = Vec::new();
        let mut i: usize = 0;
        proof {
            assert(v.len() == self.entries@.len());
            assert(v.take(0) =~= Seq::<(Seq<char>, Seq<Seq<char>>)>::empty());
            assert(names_of(r@) =~= all_people_view(v.take(0)));
        }
        while i < self.entries.len()
            invariant
                i <= self.entries@.len(),
                v == self@,
                v.len() == self.entries@.len(),
                names_of(r@) == all_people_view(v.take(i as int)),
            decreases self.entries@.len() - i,
        {
            proof {
                assert(v[i as int].1 == names_of(self.entries@[i as int].employees@));
            }
            let sorted = sorted_copy(&self.entries[i].employees);
            r = extended_with(r, &sorted);
            proof {
                assert(v.take(i as int + 1).drop_last() =~= v.take(i as int));
                assert(v.take(i as int + 1).last() == v[i as int]);
                assert(names_of(r@) == all_people_view(v.take(i as int + 1)));
            }
            i = i + 1;
        }
        proof {
            assert(v.take(v.len() as int) =~= v);
        }
        r
    }

    /// Every department paired with each of its employees, one pair per
    /// line, employees sorted case-insensitively within their department.
    pub fn people_per_department(&self) -> (r: Vec<(String, String)>)
        ensures
            pair_views(r@) == dept_lines_view(self@),
    {
        let ghost v = self@;
        let mut r: Vec<(String, String)> = Vec::new();
        let mut i: usize = 0;
        proof {
            assert(v.len() == self.entries@.len());
            assert(v.take(0) =~= Seq::<(Seq<char>, Seq<Seq<char>>)>::empty());
            assert(pair_views(r@) =~= dept_lines_view(v.take(0)));
        }
        while i < self.entries.len()
            invariant
                i <= self.entries@.len(),
                v == self@,
                v.len() == self.entries@.len(),
                pair_views(r@) == dept_lines_view(v.take(i as int)),
            decreases self.entries@.len() - i,
        {
            proof {
                assert(v[i as int].1 == names_of(self.entries@[i as int].employees@));
                assert(v[i as int].0 == self.entries@[i as int].name@);
            }
            let sorted = sorted_copy(&self.entries[i].employees);
            let ghost pairs = dept_pairs(v[i as int].0, names_of(sorted@));
            let mut j: usize = 0;
            proof {
                assert(pair_views(r@) + pairs.take(0) =~= pair_views(r@));
            }
            while j < sorted.len()
                invariant
                    j <= sorted@.len(),
                    v == self@,
                    v.len() == self.entries@.len(),
                    i < self.entries@.len(),
                    v[i as int].0 == self.entries@[i as int].name@,
                    pairs == dept_pairs(v[i as int].0, names_of(sorted@)),
                    pairs.len() == sorted@.len(),
                    pair_views(r@) == dept_lines_view(v.take(i as int)) + pairs.take(j as int),
                decreases sorted@.len() - j,
            {
                let ghost r0 = r@;
                proof {
                    assert(pair_views(r0).len() == r0.len());
                }
                let dname = self.entries[i].name.clone();
                let emp = sorted[j].clone();
                r.push((dname, emp));
                proof {
                    assert(r@ == r0.push((dname, emp)));
                    assert(dname@ == v[i as int].0);
                    assert(emp@ == sorted@[j as int]@);
                    assert(names_of(sorted@)[j as int] == sorted@[j as int]@);
                    assert(pairs[j as int] == (v[i as int].0, names_of(sorted@)[j as int]));
                    assert(pair_views(r0).len() == r0.len());
                    assert(pair_views(r@).len() == r@.len());
                    let lhs = pair_views(r@);
                    let rhs = dept_lines_view(v.take(i as int)) + pairs.take(j as int + 1);
                    assert(r0.len() == dept_lines_view(v.take(i as int)).len() + j);
                    assert forall|k: int| 0 <= k < lhs.len() implies lhs[k] == rhs[k] by {
                        assert(lhs[k] == (r@[k].0@, r@[k].1@));
                        if k < r0.len() {
                            assert(r@[k] == r0[k]);
                            assert(pair_views(r0)[k] == (r0[k].0@, r0[k].1@));
                            assert(pair_views(r0)[k] == (dept_lines_view(v.take(i as int))
                                + pairs.take(j as int))[k]);
                        } else {
                            assert(r@[k] == (dname, emp));
                            assert(rhs[k] == pairs[j as int]);
                        }
                    }
                    assert(lhs =~= rhs);
                }
                j = j + 1;
            }
            proof {
                assert(pairs.take(sorted@.len() as int) =~= pairs);
                assert(v.take(i as int + 1).drop_last() =~= v.take(i as int));
                assert(v.take(i as int + 1).last() == v[i as int]);
                assert(pair_views(r@) == dept_lines_view(v.take(i as int + 1)));
            }
            i = i + 1;
        }
        proof {
            assert(v.take(v.len() as int) =~= v);
        }
        r
    }
}

/// `r` with a copy of every name of `src` appended, in order.
fn extended_with(r: Vec<String>, src: &Vec<String>) -> (out: Vec<String>)
    ensures
        names_of(out@) == names_of(r@) + names_of(src@),
{
    let ghost r0 = r@;
    let mut out = r;
    let mut j: usize = 0;
    proof {
        assert(names_of(out@) =~= names_of(r0) + names_of(src@).take(0));
    }
    while j < src.len()
        invariant
            j <= src@.len(),
            names_of(out@) == names_of(r0) + names_of(src@).take(j as int),
        decreases src@.len() - j,
    {
        let ghost o0 = out@;
        proof {
            assert(names_of(o0).len() == o0.len());
        }
        let x = src[j].clone();
        out.push(x);
        proof {
            assert(out@ == o0.push(x));
            assert(x@ == src@[j as int]@);
            assert(names_of(r0).len() == r0.len());
            assert(names_of(src@).len() == src@.len());
            assert(names_of(o0).len() == o0.len());
            assert(names_of(out@).len() == out@.len());
            let lhs = names_of(out@);
            let rhs = names_of(r0) + names_of(src@).take(j as int + 1);
            assert(o0.len() == r0.len() + j);
            assert forall|k: int| 0 <= k < lhs.len() implies lhs[k] == rhs[k] by {
                assert(lhs[k] == out@[k]@);
                if k < o0.len() {
                    assert(out@[k] == o0[k]);
                    assert(names_of(o0)[k] == o0[k]@);
                    assert(names_of(o0)[k] == (names_of(r0) + names_of(src@).take(j as int))[k]);
                } else {
                    assert(out@[k] == x);
                    assert(rhs[k] == names_of(src@)[j as int]);
                    assert(names_of(src@)[j as int] == src@[j as int]@);
                }
            }
            assert(lhs =~= rhs);
        }
        j = j + 1;
    }
    proof {
        assert(names_of(src@).take(src@.len() as int) =~= names_of(src@));
    }
    out
}

} // verus!
