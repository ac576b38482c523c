//! Characters, trimming and case-insensitive ordering of names.

use vstd::prelude::*;

verus! {

/// The whitespace characters on which commands are split and names trimmed.
pub open spec fn is_space_char(c: char) -> bool {
    c == ' ' || c == '\t' || c == '\n' || c == '\r'
}

pub fn char_is_space(c: char) -> (r: bool)
    ensures
        r == is_space_char(c),
{
    c == ' ' || c == '\t' || c == '\n' || c == '\r'
}

/// Lexicographic order on character sequences, by code point.
pub open spec fn seq_le(a: Seq<char>, b: Seq<char>) -> bool
    decreases a.len(),
{
    if a.len() == 0 {
        true
    } else if b.len() == 0 {
        false
    } else if a[0] == b[0] {
        seq_le(a.drop_first(), b.drop_first())
    } else {
        a[0] < b[0]
    }
}

pub fn str_seq_le(a: &str, b: &str) -> (r: bool)
    ensures
        r == seq_le(a@, b@),
{
    let alen = a.unicode_len();
    let blen = b.unicode_len();
    let mut k: usize = 0;
    proof {
        assert(a@.skip(0) =~= a@);
        assert(b@.skip(0) =~= b@);
    }
    loop
        invariant
            k <= alen,
            k <= blen,
            alen == a@.len(),
            blen == b@.len(),
            seq_le(a@, b@) == seq_le(a@.skip(k as int), b@.skip(k as int)),
        decreases alen - k,
    {
        if k == alen {
            return true;
        }
        if k == blen {
            return false;
        }
        let ca = a.get_char(k);
        let cb = b.get_char(k);
        if ca == cb {
            proof {
                assert(a@.skip(k as int).drop_first() =~= a@.skip(k as int + 1));
                assert(b@.skip(k as int).drop_first() =~= b@.skip(k as int + 1));
            }
            k = k + 1;
        } else {
            return ca < cb;
        }
    }
}

pub fn str_eq(a: &str, b: &str) -> (r: bool)
    ensures
        r == (a@ == b@),
{
    let alen = a.unicode_len();
    let blen = b.unicode_len();
    if alen != blen {
        return false;
    }
    let mut k: usize = 0;
    while k < alen
        invariant
            k <= alen,
            alen == a@.len(),
            alen == b@.len(),
            forall|i: int| 0 <= i < k ==> a@[i] == b@[i],
        decreases alen - k,
    {
        if a.get_char(k) != b.get_char(k) {
            return false;
        }
        k = k + 1;
    }
    proof {
        assert(a@ =~= b@);
    }
    true
}

pub open spec fn drop_leading_spaces(s: Seq<char>) -> Seq<char>
    decreases s.len(),
{
    if s.len() == 0 {
        s
    } else if is_space_char(s[0]) {
        drop_leading_spaces(s.drop_first())
    } else {
        s
    }
}

pub open spec fn drop_trailing_spaces(s: Seq<char>) -> Seq<char>
    decreases s.len(),
{
    if s.len() == 0 {
        s
    } else if is_space_char(s.last()) {
        drop_trailing_spaces(s.drop_last())
    } else {
        s
    }
}

/// A name with its surrounding whitespace removed.
pub open spec fn trim_spec(s: Seq<char>) -> Seq<char> {
    drop_trailing_spaces(drop_leading_spaces(s))
}

pub fn trim_str(s: &str) -> (r: &str)
    ensures
        r@ == trim_spec(s@),
{
    let n = s.unicode_len();
    let mut lo: usize = 0;
    proof {
        assert(s@.skip(0) =~= s@);
    }
    loop
        invariant
            lo <= n,
            n == s@.len(),
            drop_leading_spaces(s@) == drop_leading_spaces(s@.skip(lo as int)),
        ensures
            lo <= n,
            drop_leading_spaces(s@) == drop_leading_spaces(s@.skip(lo as int)),
            lo == n || (lo < n && !is_space_char(s@[lo as int])),
        decreases n - lo,
    {
        if lo == n {
            break;
        }
        if !char_is_space(s.get_char(lo)) {
            break;
        }
        proof {
            assert(s@.skip(lo as int).drop_first() =~= s@.skip(lo as int + 1));
        }
        lo = lo + 1;
    }
    // Here drop_leading_spaces(s@) == s@.skip(lo), either because lo == n
    // (everything was whitespace) or because s@[lo] is not whitespace.
    proof {
        if lo == n {
            assert(s@.skip(lo as int) =~= Seq::<char>::empty());
        }
        assert(drop_leading_spaces(s@) =~= s@.skip(lo as int));
        assert(s@.skip(lo as int) =~= s@.subrange(lo as int, n as int));
    }
    let mut hi: usize = n;
    loop
        invariant
            lo <= hi <= n,
            n == s@.len(),
            drop_leading_spaces(s@) == s@.skip(lo as int),
            drop_trailing_spaces(s@.skip(lo as int)) == drop_trailing_spaces(
                s@.subrange(lo as int, hi as int),
            ),
        ensures
            lo <= hi <= n,
            drop_trailing_spaces(s@.skip(lo as int)) == drop_trailing_spaces(
                s@.subrange(lo as int, hi as int),
            ),
            hi == lo || !is_space_char(s@[hi as int - 1]),
        decreases hi,
    {
        if hi == lo {
            break;
        }
        if !char_is_space(s.get_char(hi - 1)) {
            break;
        }
        proof {
            assert(s@.subrange(lo as int, hi as int).drop_last() =~= s@.subrange(
                lo as int,
                hi as int - 1,
            ));
        }
        hi = hi - 1;
    }
    proof {
        if hi == lo {
            assert(s@.subrange(lo as int, hi as int) =~= Seq::<char>::empty());
        }
        assert(trim_spec(s@) == s@.subrange(lo as int, hi as int));
    }
    s.substring_char(lo, hi)
}

pub fn strip_trailing_newline(s: &str) -> (r: &str)
    ensures
        s@.len() > 0 && s@.last() == '\n' ==> r@ == s@.drop_last(),
        !(s@.len() > 0 && s@.last() == '\n') ==> r@ == s@,
{
    let n = s.unicode_len();
    if n > 0 && s.get_char(n - 1) == '\n' {
        let r = s.substring_char(0, n - 1);
        proof {
            assert(s@.subrange(0, n as int - 1) =~= s@.drop_last());
        }
        r
    } else {
        s
    }
}

/// The lowercase form of a string: a name for what str::to_lowercase
/// returns, which depends on the characters alone.
pub uninterp spec fn lowered(s: Seq<char>) -> Seq<char>;

/// Relies on str::to_lowercase, which maps a string to its Unicode
/// lowercase equivalent.
#[verifier::external_body]
pub(crate) fn lower_str(s: &str) -> (r: String)
    ensures
        r@ == lowered(s@),
{
    s.to_lowercase()
}

/// The key under which listings order an employee name: the name trimmed
/// of surrounding whitespace, then lower-cased.
pub open spec fn sort_key(s: Seq<char>) -> Seq<char> {
    lowered(trim_spec(s))
}

/// Whether name `a` sorts no later than name `b`.
pub open spec fn key_le(a: Seq<char>, b: Seq<char>) -> bool {
    seq_le(sort_key(a), sort_key(b))
}

pub fn key_le_exec(a: &str, b: &str) -> (r: bool)
    ensures
        r == key_le(a@, b@),
{
    let ta = trim_str(a);
    let tb = trim_str(b);
    let la = lower_str(ta);
    let lb = lower_str(tb);
    str_seq_le(la.as_str(), lb.as_str())
}

} // verus!
