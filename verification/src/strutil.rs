//! Character-level search and comparison primitives over `&str`, with the
//! spec functions that the parsing contracts are stated over.

use vstd::prelude::*;

verus! {

/// First index `i >= from` with `s[i] == c`, if any.
pub open spec fn find_from(s: Seq<char>, c: char, from: int) -> Option<int>
    decreases s.len() - from,
{
    if from < 0 || from >= s.len() {
        None
    } else if s[from] == c {
        Some(from)
    } else {
        find_from(s, c, from + 1)
    }
}

pub proof fn lemma_find_from_none(s: Seq<char>, c: char, from: int)
    requires
        forall|j: int| from <= j < s.len() ==> s[j] != c,
    ensures
        find_from(s, c, from) is None,
    decreases s.len() - from,
{
    if 0 <= from && from < s.len() {
        lemma_find_from_none(s, c, from + 1);
    }
}

pub proof fn lemma_find_from_some(s: Seq<char>, c: char, from: int, i: int)
    requires
        0 <= from <= i < s.len(),
        s[i] == c,
        forall|j: int| from <= j < i ==> s[j] != c,
    ensures
        find_from(s, c, from) == Some(i),
    decreases i - from,
{
    if from < i {
        lemma_find_from_some(s, c, from + 1, i);
    }
}

pub proof fn lemma_find_from_props(s: Seq<char>, c: char, from: int)
    requires
        0 <= from,
    ensures
        match find_from(s, c, from) {
            Some(i) => from <= i < s.len() && s[i] == c && (forall|j: int|
                from <= j < i ==> s[j] != c),
            None => forall|j: int| from <= j < s.len() ==> s[j] != c,
        },
    decreases s.len() - from,
{
    if from < s.len() && s[from] != c {
        lemma_find_from_props(s, c, from + 1);
    }
}

/// Executable counterpart of `find_from`.
pub fn find_char(s: &str, c: char, from: usize) -> (r: Option<usize>)
    requires
        from <= s@.len(),
    ensures
        match r {
            Some(i) => find_from(s@, c, from as int) == Some(i as int) && from <= i < s@.len(),
            None => find_from(s@, c, from as int) is None,
        },
{
    let n = s.unicode_len();
    let mut i: usize = from;
    while i < n
        invariant
            from <= i <= n,
            n == s@.len(),
            forall|j: int| from <= j < i ==> s@[j] != c,
        decreases n - i,
    {
        if s.get_char(i) == c {
            proof {
                lemma_find_from_some(s@, c, from as int, i as int);
            }
            return Some(i);
        }
        i = i + 1;
    }
    proof {
        lemma_find_from_none(s@, c, from as int);
    }
    None
}

/// Last index `i <= from` with `s[i] == c`, if any.
pub open spec fn rfind_from(s: Seq<char>, c: char, from: int) -> Option<int>
    decreases from + 1,
{
    if from < 0 || from >= s.len() {
        None
    } else if s[from] == c {
        Some(from)
    } else {
        rfind_from(s, c, from - 1)
    }
}

pub proof fn lemma_rfind_from_none(s: Seq<char>, c: char, from: int)
    requires
        from < s.len(),
        forall|j: int| 0 <= j <= from ==> s[j] != c,
    ensures
        rfind_from(s, c, from) is None,
    decreases from + 1,
{
    if 0 <= from {
        lemma_rfind_from_none(s, c, from - 1);
    }
}

pub proof fn lemma_rfind_from_some(s: Seq<char>, c: char, from: int, i: int)
    requires
        0 <= i <= from < s.len(),
        s[i] == c,
        forall|j: int| i < j <= from ==> s[j] != c,
    ensures
        rfind_from(s, c, from) == Some(i),
    decreases from - i,
{
    if i < from {
        lemma_rfind_from_some(s, c, from - 1, i);
    }
}

/// Executable counterpart of `rfind_from`, searching the whole string.
pub fn rfind_char(s: &str, c: char) -> (r: Option<usize>)
    ensures
        match r {
            Some(i) => rfind_from(s@, c, s@.len() - 1) == Some(i as int) && i < s@.len(),
            None => rfind_from(s@, c, s@.len() - 1) is None,
        },
{
    let n = s.unicode_len();
    let mut i: usize = n;
    while i > 0
        invariant
            i <= n,
            n == s@.len(),
            forall|j: int| i <= j < n ==> s@[j] != c,
        decreases i,
    {
        i = i - 1;
        if s.get_char(i) == c {
            proof {
                lemma_rfind_from_some(s@, c, n as int - 1, i as int);
            }
            return Some(i);
        }
    }
    proof {
        if n > 0 {
            lemma_rfind_from_none(s@, c, n as int - 1);
        }
    }
    None
}

/// Character-for-character string equality.
pub fn eq_str(a: &str, b: &str) -> (r: bool)
    ensures
        r == (a@ == b@),
{
    let an = a.unicode_len();
    let bn = b.unicode_len();
    if an != bn {
        return false;
    }
    let mut i: usize = 0;
    while i < an
        invariant
            i <= an,
            an == a@.len(),
            an == b@.len(),
            forall|j: int| 0 <= j < i ==> a@[j] == b@[j],
        decreases an - i,
    {
        if a.get_char(i) != b.get_char(i) {
            return false;
        }
        i = i + 1;
    }
    proof {
        assert(a@ =~= b@);
    }
    true
}

} // verus!
