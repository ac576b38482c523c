//! Stable insertion sort of employee names, ordered case-insensitively.

use vstd::prelude::*;

use crate::text::key_le;
use crate::text::key_le_exec;
use crate::text::seq_le;

verus! {

/// The views of a sequence of owned strings.
pub open spec fn names_of(s: Seq<String>) -> Seq<Seq<char>> {
    Seq::new(s.len(), |i: int| s[i]@)
}

/// Inserts `x` into `s` before the first element whose key is strictly
/// greater, so that equal keys keep their earlier-first order.
pub open spec fn insert_views(x: Seq<char>, s: Seq<Seq<char>>) -> Seq<Seq<char>>
    decreases s.len(),
{
    if s.len() == 0 {
        seq![x]
    } else if !key_le(s[0], x) {
        seq![x] + s
    } else {
        seq![s[0]] + insert_views(x, s.drop_first())
    }
}

/// The stable insertion sort of `s` under the case-insensitive key order.
pub open spec fn sort_views(s: Seq<Seq<char>>) -> Seq<Seq<char>>
    decreases s.len(),
{
    if s.len() == 0 {
        Seq::empty()
    } else {
        insert_views(s.last(), sort_views(s.drop_last()))
    }
}

/// Whether the names stand in ascending key order.
pub open spec fn sorted_by_key(s: Seq<Seq<char>>) -> bool {
    forall|i: int, j: int| 0 <= i < j < s.len() ==> key_le(s[i], s[j])
}

pub proof fn lemma_seq_le_total(a: Seq<char>, b: Seq<char>)
    ensures
        seq_le(a, b) || seq_le(b, a),
    decreases a.len(),
{
    if a.len() == 0 || b.len() == 0 {
    } else if a[0] == b[0] {
        lemma_seq_le_total(a.drop_first(), b.drop_first());
    }
}

pub proof fn lemma_seq_le_trans(a: Seq<char>, b: Seq<char>, c: Seq<char>)
    requires
        seq_le(a, b),
        seq_le(b, c),
    ensures
        seq_le(a, c),
    decreases a.len(),
{
    if a.len() == 0 {
    } else if b.len() == 0 {
    } else if c.len() == 0 {
    } else if a[0] == b[0] && b[0] == c[0] {
        lemma_seq_le_trans(a.drop_first(), b.drop_first(), c.drop_first());
    }
}

/// Where every key before `j` is at most `x`'s and `j` is the first place
/// whose key is greater, the insertion lands exactly at `j`.
pub proof fn lemma_insert_views_at(x: Seq<char>, s: Seq<Seq<char>>, j: int)
    requires
        0 <= j <= s.len(),
        forall|i: int| 0 <= i < j ==> key_le(#[trigger] s[i], x),
        j < s.len() ==> !key_le(s[j], x),
    ensures
        insert_views(x, s) == s.insert(j, x),
    decreases s.len(),
{
    if s.len() == 0 {
        assert(insert_views(x, s) =~= s.insert(0, x));
    } else if j == 0 {
        assert(insert_views(x, s) =~= s.insert(0, x));
    } else {
        lemma_insert_views_at(x, s.drop_first(), j - 1);
        assert(seq![s[0]] + s.drop_first().insert(j - 1, x) =~= s.insert(j, x));
    }
}

pub proof fn lemma_insert_views_sorted(x: Seq<char>, s: Seq<Seq<char>>)
    requires
        sorted_by_key(s),
    ensures
        sorted_by_key(insert_views(x, s)),
        insert_views(x, s).len() == s.len() + 1,
    decreases s.len(),
{
    if s.len() == 0 {
    } else if !key_le(s[0], x) {
        let r = seq![x] + s;
        assert forall|i: int, j: int| 0 <= i < j < r.len() implies key_le(r[i], r[j]) by {
            if i == 0 {
                lemma_seq_le_total(crate::text::sort_key(x), crate::text::sort_key(s[0]));
                if j > 1 {
                    assert(r[j] == s[j - 1]);
                    assert(key_le(s[0], s[j - 1]));
                    lemma_seq_le_trans(
                        crate::text::sort_key(x),
                        crate::text::sort_key(s[0]),
                        crate::text::sort_key(s[j - 1]),
                    );
                }
            } else {
                assert(r[i] == s[i - 1]);
                assert(r[j] == s[j - 1]);
            }
        }
    } else {
        assert(sorted_by_key(s.drop_first())) by {
            assert(forall|i: int, j: int|
                0 <= i < j < s.drop_first().len() ==> s.drop_first()[i] == s[i + 1]
                    && s.drop_first()[j] == s[j + 1]);
        }
        lemma_insert_views_sorted(x, s.drop_first());
        let t = insert_views(x, s.drop_first());
        let r = seq![s[0]] + t;
        assert forall|i: int, j: int| 0 <= i < j < r.len() implies key_le(r[i], r[j]) by {
            if i == 0 {
                // s[0]'s key is at most x's and at most every key of s's tail,
                // and every element of t is x or an element of the tail.
                lemma_insert_views_membership(x, s.drop_first(), j - 1);
                if t[j - 1] == x {
                } else {
                    let k = choose|k: int|
                        0 <= k < s.drop_first().len() && t[j - 1] == s.drop_first()[k];
                    assert(s.drop_first()[k] == s[k + 1]);
                }
            }
        }
    }
}

/// Every element of an insertion's result is the inserted name or one
/// already present.
pub proof fn lemma_insert_views_membership(x: Seq<char>, s: Seq<Seq<char>>, j: int)
    requires
        0 <= j < insert_views(x, s).len(),
    ensures
        insert_views(x, s).len() == s.len() + 1,
        insert_views(x, s)[j] == x || exists|k: int| 0 <= k < s.len() && insert_views(x, s)[j] == s[k],
    decreases s.len(),
{
    lemma_insert_views_len(x, s);
    if s.len() == 0 {
    } else if !key_le(s[0], x) {
        if j > 0 {
            assert((seq![x] + s)[j] == s[j - 1]);
        }
    } else {
        if j > 0 {
            lemma_insert_views_membership(x, s.drop_first(), j - 1);
            let t = insert_views(x, s.drop_first());
            assert((seq![s[0]] + t)[j] == t[j - 1]);
            if t[j - 1] != x {
                let k = choose|k: int| 0 <= k < s.drop_first().len() && t[j - 1] == s.drop_first()[k];
                assert(s.drop_first()[k] == s[k + 1]);
            }
        }
    }
}

pub proof fn lemma_insert_views_len(x: Seq<char>, s: Seq<Seq<char>>)
    ensures
        insert_views(x, s).len() == s.len() + 1,
    decreases s.len(),
{
    if s.len() > 0 && key_le(s[0], x) {
        lemma_insert_views_len(x, s.drop_first());
    }
}

/// Sorting keeps every name: the result holds the same names, as a
/// multiset, as the input, and in particular as many of them.
pub proof fn lemma_insert_views_multiset(x: Seq<char>, s: Seq<Seq<char>>)
    ensures
        insert_views(x, s).to_multiset() =~= s.to_multiset().insert(x),
    decreases s.len(),
{
    broadcast use vstd::seq_lib::group_to_multiset_ensures;

    if s.len() == 0 {
        assert(seq![x] =~= Seq::<Seq<char>>::empty().push(x));
        assert(Seq::<Seq<char>>::empty().push(x).to_multiset() =~= Seq::<
            Seq<char>,
        >::empty().to_multiset().insert(x));
    } else if !key_le(s[0], x) {
        vstd::seq_lib::lemma_multiset_commutative(seq![x], s);
        assert(seq![x].to_multiset() =~= Seq::<Seq<char>>::empty().push(x).to_multiset()) by {
            assert(seq![x] =~= Seq::<Seq<char>>::empty().push(x));
        }
        assert((seq![x] + s).to_multiset() =~= s.to_multiset().insert(x));
    } else {
        lemma_insert_views_multiset(x, s.drop_first());
        let t = insert_views(x, s.drop_first());
        vstd::seq_lib::lemma_multiset_commutative(seq![s[0]], t);
        vstd::seq_lib::lemma_multiset_commutative(seq![s[0]], s.drop_first());
        assert(seq![s[0]] + s.drop_first() =~= s);
        assert(seq![s[0]].to_multiset() =~= Seq::<Seq<char>>::empty().push(s[0]).to_multiset()) by {
            assert(seq![s[0]] =~= Seq::<Seq<char>>::empty().push(s[0]));
        }
    }
}

/// The sorted listing is a permutation of the stored names: nothing is
/// dropped, duplicated or invented.
pub proof fn lemma_sort_views_multiset(s: Seq<Seq<char>>)
    ensures
        sort_views(s).to_multiset() =~= s.to_multiset(),
        sort_views(s).len() == s.len(),
    decreases s.len(),
{
    broadcast use vstd::seq_lib::group_to_multiset_ensures;

    if s.len() == 0 {
        assert(sort_views(s).to_multiset() =~= s.to_multiset());
    } else {
        lemma_sort_views_multiset(s.drop_last());
        lemma_insert_views_multiset(s.last(), sort_views(s.drop_last()));
        lemma_insert_views_len(s.last(), sort_views(s.drop_last()));
        assert(s.drop_last().push(s.last()) =~= s);
        assert(s.drop_last().push(s.last()).to_multiset() =~= s.drop_last().to_multiset().insert(
            s.last(),
        ));
    }
}

/// The sorted listing stands in ascending key order.
pub proof fn lemma_sort_views_sorted(s: Seq<Seq<char>>)
    ensures
        sorted_by_key(sort_views(s)),
    decreases s.len(),
{
    if s.len() > 0 {
        lemma_sort_views_sorted(s.drop_last());
        lemma_insert_views_sorted(s.last(), sort_views(s.drop_last()));
    }
}

/// A listing that is already in order is left exactly as it stands.
pub proof fn lemma_sorted_fixed(s: Seq<Seq<char>>)
    requires
        sorted_by_key(s),
    ensures
        sort_views(s) == s,
    decreases s.len(),
{
    if s.len() > 0 {
        assert(sorted_by_key(s.drop_last())) by {
            assert(forall|i: int, j: int|
                0 <= i < j < s.drop_last().len() ==> s.drop_last()[i] == s[i]
                    && s.drop_last()[j] == s[j]);
        }
        lemma_sorted_fixed(s.drop_last());
        lemma_insert_views_at(s.last(), s.drop_last(), s.len() - 1);
        assert(s.drop_last().insert(s.len() - 1, s.last()) =~= s);
    }
}

/// Sorting is idempotent: listing the same names twice, with nothing
/// added in between, yields the same order both times.
pub proof fn lemma_sort_views_idempotent(s: Seq<Seq<char>>)
    ensures
        sort_views(sort_views(s)) == sort_views(s),
{
    lemma_sort_views_sorted(s);
    lemma_sorted_fixed(sort_views(s));
}

/// A copy of the names in `v`, sorted by the case-insensitive key order.
pub fn sorted_copy(v: &Vec<String>) -> (r: Vec<String>)
    ensures
        names_of(r@) == sort_views(names_of(v@)),
{
    let ghost nv = names_of(v@);
    let mut r: Vec<String> = Vec::new();
    let mut i: usize = 0;
    proof {
        assert(names_of(r@) =~= sort_views(nv.take(0)));
    }
    while i < v.len()
        invariant
            i <= v.len(),
            nv == names_of(v@),
            names_of(r@) == sort_views(nv.take(i as int)),
        decreases v.len() - i,
    {
        let x = v[i].clone();
        let mut j: usize = 0;
        while j < r.len()
            invariant
                j <= r.len(),
                x@ == v@[i as int]@,
                i < v.len(),
                nv == names_of(v@),
                names_of(r@) == sort_views(nv.take(i as int)),
                forall|k: int| 0 <= k < j ==> key_le(#[trigger] names_of(r@)[k], x@),
            ensures
                j <= r.len(),
                forall|k: int| 0 <= k < j ==> key_le(#[trigger] names_of(r@)[k], x@),
                j < r.len() ==> !key_le(names_of(r@)[j as int], x@),
            decreases r.len() - j,
        {
            if !key_le_exec(r[j].as_str(), x.as_str()) {
                break;
            }
            j = j + 1;
        }
        proof {
            lemma_insert_views_at(x@, names_of(r@), j as int);
        }
        let ghost r_before = r@;
        r.insert(j, x);
        proof {
            assert(names_of(r@) =~= names_of(r_before).insert(j as int, x@));
            assert(nv.take(i as int + 1).drop_last() =~= nv.take(i as int));
            assert(nv.take(i as int + 1).last() == x@);
            assert(names_of(r@) == sort_views(nv.take(i as int + 1)));
        }
        i = i + 1;
    }
    proof {
        assert(nv.take(v@.len() as int) =~= nv);
    }
    r
}

} // verus!
