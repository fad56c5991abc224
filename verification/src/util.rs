//! Name normalization: the "nice name" of a loaded object is its base name
//! with everything from the first `.` on stripped.

use vstd::prelude::*;

verus! {

/// The path separator that delimits the base name of an object's path.
pub const PATH_SEPARATOR: u8 = 47;

/// The byte at which an object's suffix (`.so`, `.so.6`, ...) begins.
pub const SUFFIX_DOT: u8 = 46;

/// Everything after the last occurrence of `c` in `s`; all of `s` when `c`
/// does not occur.
pub open spec fn after_last(s: Seq<u8>, c: u8) -> Seq<u8>
    decreases s.len(),
{
    if s.len() == 0 {
        s
    } else if s.last() == c {
        Seq::empty()
    } else {
        after_last(s.drop_last(), c).push(s.last())
    }
}

/// Everything before the first occurrence of `c` in `s`; all of `s` when `c`
/// does not occur.
pub open spec fn before_first(s: Seq<u8>, c: u8) -> Seq<u8>
    decreases s.len(),
{
    if s.len() == 0 {
        s
    } else if s[0] == c {
        Seq::empty()
    } else {
        seq![s[0]] + before_first(s.drop_first(), c)
    }
}

/// The canonical short name of a raw object name: the part after the last
/// path separator, truncated at the first dot. Purely textual.
pub open spec fn nice_name(s: Seq<u8>) -> Seq<u8> {
    before_first(after_last(s, PATH_SEPARATOR), SUFFIX_DOT)
}

/// A loaded object whose raw name is `lib` answers a lookup for `target`
/// when the names are equal outright or after normalizing `lib`.
pub open spec fn lib_name_matches(lib: Seq<u8>, target: Seq<u8>) -> bool {
    lib == target || nice_name(lib) == target
}

proof fn lemma_after_last_no_occurrence(s: Seq<u8>, c: u8)
    ensures
        !after_last(s, c).contains(c),
    decreases s.len(),
{
    if s.len() == 0 {
    } else if s.last() == c {
    } else {
        lemma_after_last_no_occurrence(s.drop_last(), c);
        let r = after_last(s, c);
        let r0 = after_last(s.drop_last(), c);
        assert forall|i: int| 0 <= i < r.len() implies r[i] != c by {
            if i < r0.len() {
                assert(!r0.contains(c));
                assert(r0[i] != c);
            }
        }
        if r.contains(c) {
            let i = choose|i: int| 0 <= i < r.len() && r[i] == c;
            assert(false);
        }
    }
}

proof fn lemma_before_first_no_occurrence(s: Seq<u8>, c: u8)
    ensures
        !before_first(s, c).contains(c),
    decreases s.len(),
{
    if s.len() == 0 {
    } else if s[0] == c {
    } else {
        lemma_before_first_no_occurrence(s.drop_first(), c);
        let r = before_first(s, c);
        let r0 = before_first(s.drop_first(), c);
        assert forall|i: int| 0 <= i < r.len() implies r[i] != c by {
            if i >= 1 {
                assert(!r0.contains(c));
                assert(r[i] == r0[i - 1]);
                assert(r0[i - 1] != c);
            }
        }
        if r.contains(c) {
            let i = choose|i: int| 0 <= i < r.len() && r[i] == c;
            assert(false);
        }
    }
}

proof fn lemma_after_last_absent(s: Seq<u8>, c: u8)
    requires
        !s.contains(c),
    ensures
        after_last(s, c) == s,
    decreases s.len(),
{
    if s.len() == 0 {
    } else {
        assert(s[s.len() - 1] != c);
        assert(!s.drop_last().contains(c)) by {
            if s.drop_last().contains(c) {
                let i = choose|i: int| 0 <= i < s.drop_last().len() && s.drop_last()[i] == c;
                assert(s[i] == c);
            }
        }
        lemma_after_last_absent(s.drop_last(), c);
        assert(after_last(s, c) =~= s);
    }
}

proof fn lemma_before_first_absent(s: Seq<u8>, c: u8)
    requires
        !s.contains(c),
    ensures
        before_first(s, c) == s,
    decreases s.len(),
{
    if s.len() == 0 {
    } else {
        assert(s[0] != c);
        assert(!s.drop_first().contains(c)) by {
            if s.drop_first().contains(c) {
                let i = choose|i: int|
                    0 <= i < s.drop_first().len() && s.drop_first()[i] == c;
                assert(s[i + 1] == c);
            }
        }
        lemma_before_first_absent(s.drop_first(), c);
        assert(before_first(s, c) =~= s);
    }
}

proof fn lemma_before_first_preserves_absent(s: Seq<u8>, c: u8, d: u8)
    requires
        !s.contains(d),
    ensures
        !before_first(s, c).contains(d),
    decreases s.len(),
{
    if s.len() == 0 {
    } else if s[0] == c {
    } else {
        assert(!s.drop_first().contains(d)) by {
            if s.drop_first().contains(d) {
                let i = choose|i: int|
                    0 <= i < s.drop_first().len() && s.drop_first()[i] == d;
                assert(s[i + 1] == d);
            }
        }
        lemma_before_first_preserves_absent(s.drop_first(), c, d);
        let r = before_first(s, c);
        let r0 = before_first(s.drop_first(), c);
        assert(s[0] != d);
        if r.contains(d) {
            let i = choose|i: int| 0 <= i < r.len() && r[i] == d;
            if i >= 1 {
                assert(r[i] == r0[i - 1]);
                assert(r0.contains(d));
            }
            assert(false);
        }
    }
}

proof fn lemma_after_last_at(s: Seq<u8>, c: u8, i: int)
    requires
        0 <= i < s.len(),
        s[i] == c,
        forall|k: int| i < k < s.len() ==> s[k] != c,
    ensures
        after_last(s, c) == s.subrange(i + 1, s.len() as int),
    decreases s.len(),
{
    if i == s.len() - 1 {
        assert(s.last() == c);
        assert(after_last(s, c) =~= s.subrange(i + 1, s.len() as int));
    } else {
        assert(s.last() != c);
        let d = s.drop_last();
        assert(d[i] == c);
        lemma_after_last_at(d, c, i);
        assert(after_last(s, c) =~= s.subrange(i + 1, s.len() as int));
    }
}

proof fn lemma_after_last_none(s: Seq<u8>, c: u8)
    requires
        forall|k: int| 0 <= k < s.len() ==> s[k] != c,
    ensures
        after_last(s, c) == s,
{
    assert(!s.contains(c)) by {
        if s.contains(c) {
            let i = choose|i: int| 0 <= i < s.len() && s[i] == c;
            assert(false);
        }
    }
    lemma_after_last_absent(s, c);
}

proof fn lemma_before_first_at(s: Seq<u8>, c: u8, j: int)
    requires
        0 <= j < s.len(),
        s[j] == c,
        forall|k: int| 0 <= k < j ==> s[k] != c,
    ensures
        before_first(s, c) == s.subrange(0, j),
    decreases s.len(),
{
    if j == 0 {
        assert(before_first(s, c) =~= s.subrange(0, 0));
    } else {
        assert(s[0] != c);
        let d = s.drop_first();
        assert(d[j - 1] == c);
        assert(forall|k: int| 0 <= k < j - 1 ==> d[k] == s[k + 1] && d[k] != c);
        lemma_before_first_at(d, c, j - 1);
        assert(before_first(s, c) =~= s.subrange(0, j));
    }
}

proof fn lemma_before_first_none(s: Seq<u8>, c: u8)
    requires
        forall|k: int| 0 <= k < s.len() ==> s[k] != c,
    ensures
        before_first(s, c) == s,
{
    assert(!s.contains(c)) by {
        if s.contains(c) {
            let i = choose|i: int| 0 <= i < s.len() && s[i] == c;
            assert(false);
        }
    }
    lemma_before_first_absent(s, c);
}

/// Index of the last occurrence of `c` in `s`, if any.
fn last_index_of(s: &[u8], c: u8) -> (r: Option<usize>)
    ensures
        match r {
            Some(i) => {
                &&& i < s@.len()
                &&& s@[i as int] == c
                &&& forall|k: int| i < k < s@.len() ==> s@[k] != c
            },
            None => forall|k: int| 0 <= k < s@.len() ==> s@[k] != c,
        },
{
    let mut i: usize = s.len();
    while i > 0
        invariant
            i <= s@.len(),
            forall|k: int| i <= k < s@.len() ==> s@[k] != c,
        decreases i,
    {
        i = i - 1;
        if s[i] == c {
            return Some(i);
        }
    }
    None
}

/// Index of the first occurrence of `c` in `s`, if any.
fn first_index_of(s: &[u8], c: u8) -> (r: Option<usize>)
    ensures
        match r {
            Some(j) => {
                &&& j < s@.len()
                &&& s@[j as int] == c
                &&& forall|k: int| 0 <= k < j ==> s@[k] != c
            },
            None => forall|k: int| 0 <= k < s@.len() ==> s@[k] != c,
        },
{
    let mut j: usize = 0;
    while j < s.len()
        invariant
            j <= s@.len(),
            forall|k: int| 0 <= k < j ==> s@[k] != c,
        decreases s@.len() - j,
    {
        if s[j] == c {
            return Some(j);
        }
        j = j + 1;
    }
    None
}

/// The canonical short form of a raw object name: the base name without
/// its suffix, as a subslice of `name`.
pub fn to_nice_name(name: &[u8]) -> (r: &[u8])
    ensures
        r@ == nice_name(name@),
{
    let n = name.len();
    let base = match last_index_of(name, PATH_SEPARATOR) {
        Some(i) => {
            assert(i < n);
            proof {
                lemma_after_last_at(name@, PATH_SEPARATOR, i as int);
            }
            vstd::slice::slice_subrange(name, i + 1, n)
        },
        None => {
            proof {
                lemma_after_last_none(name@, PATH_SEPARATOR);
            }
            vstd::slice::slice_subrange(name, 0, n)
        },
    };
    assert(base@ =~= after_last(name@, PATH_SEPARATOR));
    match first_index_of(base, SUFFIX_DOT) {
        Some(j) => {
            proof {
                lemma_before_first_at(base@, SUFFIX_DOT, j as int);
            }
            vstd::slice::slice_subrange(base, 0, j)
        },
        None => {
            proof {
                lemma_before_first_none(base@, SUFFIX_DOT);
            }
            base
        },
    }
}

/// Byte-for-byte equality of two slices.
pub fn bytes_eq(a: &[u8], b: &[u8]) -> (r: bool)
    ensures
        r == (a@ == b@),
{
    if a.len() != b.len() {
        return false;
    }
    let mut i: usize = 0;
    while i < a.len()
        invariant
            a@.len() == b@.len(),
            i <= a@.len(),
            forall|k: int| 0 <= k < i ==> a@[k] == b@[k],
        decreases a@.len() - i,
    {
        if a[i] != b[i] {
            return false;
        }
        i = i + 1;
    }
    proof {
        assert(a@ =~= b@);
    }
    true
}

/// Does the loaded object named `lib` answer a lookup for `target`?
/// Raw equality is tried first, then the normalized name of `lib`.
pub fn check_lib_name(lib: &[u8], target: &[u8]) -> (r: bool)
    ensures
        r == lib_name_matches(lib@, target@),
{
    bytes_eq(lib, target) || bytes_eq(to_nice_name(lib), target)
}

/// Normalization is idempotent: a nice name has no separator and no dot
/// left in it, so normalizing it again changes nothing.
pub proof fn lemma_nice_name_idempotent(s: Seq<u8>)
    ensures
        nice_name(nice_name(s)) == nice_name(s),
{
    let a = after_last(s, PATH_SEPARATOR);
    let n = before_first(a, SUFFIX_DOT);
    lemma_after_last_no_occurrence(s, PATH_SEPARATOR);
    lemma_before_first_preserves_absent(a, SUFFIX_DOT, PATH_SEPARATOR);
    lemma_before_first_no_occurrence(a, SUFFIX_DOT);
    lemma_after_last_absent(n, PATH_SEPARATOR);
    lemma_before_first_absent(n, SUFFIX_DOT);
}

} // verus!

