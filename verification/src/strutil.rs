//! Executable string helpers over `Vec<char>`, with exact contracts stated
//! over `Seq<char>` views: equality, prefix and substring search, splitting
//! on a separator, and conversions between `&str`, `Vec<char>` and `String`.

use vstd::prelude::*;
use vstd::string::StrSliceExecFns;

verus! {

/// `p` is a prefix of `s`.
pub open spec fn seq_starts_with(s: Seq<char>, p: Seq<char>) -> bool {
    p.len() <= s.len() && s.subrange(0, p.len() as int) == p
}

/// `p` occurs in `s` at position `i`.
pub open spec fn contains_at(s: Seq<char>, p: Seq<char>, i: int) -> bool {
    0 <= i && i + p.len() <= s.len() && s.subrange(i, i + p.len() as int) == p
}

/// `p` occurs somewhere in `s`.
pub open spec fn seq_contains(s: Seq<char>, p: Seq<char>) -> bool {
    exists|i: int| contains_at(s, p, i)
}

/// Position of the first occurrence of `sep` in `s` at or after `from`,
/// or a negative value when there is none.
pub open spec fn spec_find(s: Seq<char>, sep: Seq<char>, from: int) -> int
    decreases s.len() - from + 1 when 0 <= from
{
    if from + sep.len() > s.len() {
        -1
    } else if s.subrange(from, from + sep.len() as int) == sep {
        from
    } else {
        spec_find(s, sep, from + 1)
    }
}

/// The segments of `s` from position `pos` on, split on `sep`.
pub open spec fn spec_split_from(s: Seq<char>, sep: Seq<char>, pos: int) -> Seq<Seq<char>>
    decreases s.len() - pos when sep.len() > 0 && 0 <= pos <= s.len()
{
    let i = spec_find(s, sep, pos);
    if pos <= i && i + sep.len() <= s.len() {
        seq![s.subrange(pos, i)] + spec_split_from(s, sep, i + sep.len() as int)
    } else {
        seq![s.subrange(pos, s.len() as int)]
    }
}

/// The segments of `s`, split on the separator `sep` left to right.
pub open spec fn spec_split(s: Seq<char>, sep: Seq<char>) -> Seq<Seq<char>> {
    spec_split_from(s, sep, 0)
}

/// A found position is a real occurrence, the first one at or after `from`.
pub proof fn lemma_spec_find_ok(s: Seq<char>, sep: Seq<char>, from: int)
    requires
        0 <= from,
        spec_find(s, sep, from) >= 0,
    ensures
        from <= spec_find(s, sep, from),
        contains_at(s, sep, spec_find(s, sep, from)),
        forall|j: int| from <= j < spec_find(s, sep, from) ==> !contains_at(s, sep, j),
    decreases s.len() - from + 1,
{
    if from + sep.len() > s.len() {
    } else if s.subrange(from, from + sep.len() as int) == sep {
    } else {
        lemma_spec_find_ok(s, sep, from + 1);
    }
}

/// A negative result means no occurrence at or after `from`.
pub proof fn lemma_spec_find_none(s: Seq<char>, sep: Seq<char>, from: int)
    requires
        0 <= from,
        spec_find(s, sep, from) < 0,
    ensures
        forall|j: int| from <= j ==> !contains_at(s, sep, j),
    decreases s.len() - from + 1,
{
    if from + sep.len() > s.len() {
    } else if s.subrange(from, from + sep.len() as int) == sep {
    } else {
        lemma_spec_find_none(s, sep, from + 1);
    }
}

/// A sequence with no occurrence of a nonempty `sep` splits into itself alone.
pub proof fn lemma_split_no_sep(s: Seq<char>, sep: Seq<char>)
    requires
        sep.len() > 0,
        !seq_contains(s, sep),
    ensures
        spec_split(s, sep) == seq![s],
{
    if spec_find(s, sep, 0) >= 0 {
        lemma_spec_find_ok(s, sep, 0);
        assert(contains_at(s, sep, spec_find(s, sep, 0)));
    }
    assert(s.subrange(0, s.len() as int) =~= s);
}

/// A sequence contains itself.
pub proof fn lemma_contains_self(s: Seq<char>)
    ensures
        seq_contains(s, s),
{
    assert(s.subrange(0, s.len() as int) =~= s);
    assert(contains_at(s, s, 0));
}

/// The characters of `s`, as a vector.
pub fn str_chars(s: &str) -> (r: Vec<char>)
    ensures
        r@ == s@,
{
    let n = s.unicode_len();
    let mut v: Vec<char> = Vec::new();
    let mut i: usize = 0;
    while i < n
        invariant
            n == s@.len(),
            i <= n,
            v@ == s@.subrange(0, i as int),
        decreases n - i,
    {
        let c = s.get_char(i);
        v.push(c);
        i = i + 1;
        proof {
            assert(v@ =~= s@.subrange(0, i as int));
        }
    }
    proof {
        assert(v@ =~= s@);
    }
    v
}

/// Relies on `String::push`: it appends exactly the one character.
pub assume_specification[ String::push ](s: &mut String, c: char)
    ensures
        final(s)@ == old(s)@.push(c),
;

/// A `String` whose characters are exactly `v`.
pub fn chars_string(v: &Vec<char>) -> (r: String)
    ensures
        r@ == v@,
{
    let mut s = String::new();
    let mut i: usize = 0;
    while i < v.len()
        invariant
            i <= v@.len(),
            s@ == v@.subrange(0, i as int),
        decreases v@.len() - i,
    {
        s.push(v[i]);
        i = i + 1;
        proof {
            assert(s@ =~= v@.subrange(0, i as int));
        }
    }
    proof {
        assert(s@ =~= v@);
    }
    s
}

/// Element-wise equality of two character vectors.
pub fn chars_eq(a: &Vec<char>, b: &Vec<char>) -> (r: bool)
    ensures
        r == (a@ == b@),
{
    if a.len() != b.len() {
        proof {
            assert(a@ != b@);
        }
        return false;
    }
    let mut i: usize = 0;
    while i < a.len()
        invariant
            a@.len() == b@.len(),
            i <= a@.len(),
            forall|j: int| 0 <= j < i ==> a@[j] == b@[j],
        decreases a@.len() - i,
    {
        if a[i] != b[i] {
            return false;
        }
        i = i + 1;
    }
    proof {
        assert(a@ =~= b@);
    }
    true
}

/// Whether two `&str` values have the same characters.
pub fn str_eq(a: &str, b: &str) -> (r: bool)
    ensures
        r == (a@ == b@),
{
    let va = str_chars(a);
    let vb = str_chars(b);
    chars_eq(&va, &vb)
}

/// The characters of `s` from `a` (inclusive) to `b` (exclusive).
pub fn chars_subrange(s: &Vec<char>, a: usize, b: usize) -> (r: Vec<char>)
    requires
        a <= b <= s@.len(),
    ensures
        r@ == s@.subrange(a as int, b as int),
{
    let mut v: Vec<char> = Vec::new();
    let mut i: usize = a;
    while i < b
        invariant
            a <= i <= b <= s@.len(),
            v@ == s@.subrange(a as int, i as int),
        decreases b - i,
    {
        v.push(s[i]);
        i = i + 1;
        proof {
            assert(v@ =~= s@.subrange(a as int, i as int));
        }
    }
    v
}

/// Whether `p` occurs in `s` exactly at position `at`.
pub fn chars_matches_at(s: &Vec<char>, p: &Vec<char>, at: usize) -> (r: bool)
    requires
        at + p@.len() <= s@.len(),
    ensures
        r == contains_at(s@, p@, at as int),
{
    let slen = s.len();
    let mut i: usize = 0;
    while i < p.len()
        invariant
            at + p@.len() <= s@.len(),
            slen == s@.len(),
            i <= p@.len(),
            forall|j: int| 0 <= j < i ==> s@[at + j] == p@[j],
        decreases p@.len() - i,
    {
        proof {
            assert(at + i < s@.len());
        }
        if s[at + i] != p[i] {
            proof {
                assert(s@.subrange(at as int, at + p@.len())[i as int] != p@[i as int]);
            }
            return false;
        }
        i = i + 1;
    }
    proof {
        assert(s@.subrange(at as int, at + p@.len()) =~= p@);
    }
    true
}

/// Position of the first occurrence of `sep` in `s` at or after `from`.
pub fn chars_find(s: &Vec<char>, sep: &Vec<char>, from: usize) -> (r: Option<usize>)
    requires
        from <= s@.len(),
    ensures
        match r {
            Some(i) => from <= i && i + sep@.len() <= s@.len() && i as int == spec_find(
                s@,
                sep@,
                from as int,
            ),
            None => spec_find(s@, sep@, from as int) < 0,
        },
{
    let mut i: usize = from;
    loop
        invariant
            from <= i <= s@.len(),
            spec_find(s@, sep@, from as int) == spec_find(s@, sep@, i as int),
        decreases s@.len() - i,
    {
        if sep.len() > s.len() || i > s.len() - sep.len() {
            proof {
                assert(spec_find(s@, sep@, i as int) < 0);
            }
            return None;
        }
        if chars_matches_at(s, sep, i) {
            proof {
                assert(s@.subrange(i as int, i as int + sep@.len()) == sep@);
                assert(spec_find(s@, sep@, i as int) == i as int);
            }
            return Some(i);
        }
        proof {
            if sep@.len() == 0 {
                assert(s@.subrange(i as int, i as int) =~= sep@);
                assert(contains_at(s@, sep@, i as int));
            }
            assert(sep@.len() > 0);
            assert(s@.subrange(i as int, i as int + sep@.len()) != sep@);
            assert(spec_find(s@, sep@, i as int) == spec_find(s@, sep@, i as int + 1));
        }
        i = i + 1;
    }
}

/// Whether `p` occurs anywhere in `s`.
pub fn chars_contains(s: &Vec<char>, p: &Vec<char>) -> (r: bool)
    ensures
        r == seq_contains(s@, p@),
{
    match chars_find(s, p, 0) {
        Some(i) => {
            proof {
                lemma_spec_find_ok(s@, p@, 0);
            }
            true
        },
        None => {
            proof {
                lemma_spec_find_none(s@, p@, 0);
            }
            false
        },
    }
}

/// Whether `p` is a prefix of `s`.
pub fn chars_starts_with(s: &Vec<char>, p: &Vec<char>) -> (r: bool)
    ensures
        r == seq_starts_with(s@, p@),
{
    if p.len() > s.len() {
        return false;
    }
    chars_matches_at(s, p, 0)
}

/// The segments of `s` split on the nonempty separator `sep`.
pub fn chars_split(s: &Vec<char>, sep: &Vec<char>) -> (r: Vec<Vec<char>>)
    requires
        sep@.len() > 0,
    ensures
        r.deep_view() == spec_split(s@, sep@),
        r@.len() >= 1,
{
    let mut r: Vec<Vec<char>> = Vec::new();
    let mut pos: usize = 0;
    proof {
        assert(r.deep_view() + spec_split_from(s@, sep@, 0) =~= spec_split_from(s@, sep@, 0));
    }
    loop
        invariant
            sep@.len() > 0,
            pos <= s@.len(),
            spec_split(s@, sep@) == r.deep_view() + spec_split_from(s@, sep@, pos as int),
        decreases s@.len() - pos,
    {
        match chars_find(s, sep, pos) {
            Some(i) => {
                let seg = chars_subrange(s, pos, i);
                let ghost prev = r.deep_view();
                proof {
                    assert(spec_split_from(s@, sep@, pos as int) == seq![s@.subrange(
                        pos as int,
                        i as int,
                    )] + spec_split_from(s@, sep@, i as int + sep@.len()));
                }
                r.push(seg);
                proof {
                    assert(r.deep_view() =~~= prev.push(seg@));
                    assert(r.deep_view() + spec_split_from(s@, sep@, i as int + sep@.len())
                        =~~= spec_split(s@, sep@));
                }
                let slen = s.len();
                proof {
                    assert(i + sep@.len() <= slen);
                }
                pos = i + sep.len();
            },
            None => {
                let seg = chars_subrange(s, pos, s.len());
                let ghost prev = r.deep_view();
                proof {
                    assert(spec_split_from(s@, sep@, pos as int) == seq![s@.subrange(
                        pos as int,
                        s@.len() as int,
                    )]);
                }
                r.push(seg);
                proof {
                    assert(r.deep_view() =~~= prev.push(seg@));
                    assert(spec_split(s@, sep@) =~~= r.deep_view());
                }
                return r;
            },
        }
    }
}

/// Append the characters of `b` to `a`.
pub fn chars_append(a: &mut Vec<char>, b: &Vec<char>)
    ensures
        final(a)@ == old(a)@ + b@,
{
    let ghost base = a@;
    let mut i: usize = 0;
    while i < b.len()
        invariant
            i <= b@.len(),
            a@ == base + b@.take(i as int),
        decreases b@.len() - i,
    {
        a.push(b[i]);
        i = i + 1;
        proof {
            assert(a@ =~= base + b@.take(i as int));
        }
    }
    proof {
        assert(a@ =~= base + b@);
    }
}

} // verus!
