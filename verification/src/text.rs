//! Character-sequence utilities shared by the masking and format-detection logic.

use vstd::prelude::*;
use vstd::string::StringExecFns;

verus! {

/// ASCII upper-case letters lowered; every other character unchanged.
pub open spec fn ascii_lower(c: char) -> char {
    if 'A' <= c && c <= 'Z' {
        ((c as u32) + 32) as char
    } else {
        c
    }
}

/// `p` occurs in `t` starting at position `i`.
pub open spec fn occurs_at(t: Seq<char>, p: Seq<char>, i: int) -> bool {
    &&& 0 <= i
    &&& i + p.len() <= t.len()
    &&& t.subrange(i, i + p.len()) == p
}

/// `p` occurs somewhere in `t`.
pub open spec fn contains_seq(t: Seq<char>, p: Seq<char>) -> bool {
    exists|i: int| occurs_at(t, p, i)
}

/// The characters of a string slice, one by one.
pub fn chars_of(s: &str) -> (v: Vec<char>)
    ensures
        v@ == s@,
{
    let mut v: Vec<char> = Vec::new();
    for c in it: s.chars()
        invariant
            v@ == it.seq().take(it.index() as int),
    {
        v.push(c);
    }
    v
}


/// `p` occurs in `t` starting at position `i`, as an executable check.
pub fn matches_at(t: &Vec<char>, p: &Vec<char>, i: usize) -> (b: bool)
    ensures
        b == occurs_at(t@, p@, i as int),
{
    if i > t.len() || p.len() > t.len() - i {
        return false;
    }
    let mut k: usize = 0;
    while k < p.len()
        invariant
            i + p.len() <= t.len(),
            k <= p.len(),
            forall|j: int| 0 <= j < k ==> t@[i + j] == p@[j],
        decreases p.len() - k,
    {
        if t[i + k] != p[k] {
            assert(t@.subrange(i as int, i + p.len())[k as int] != p@[k as int]);
            return false;
        }
        k = k + 1;
    }
    assert(t@.subrange(i as int, i + p.len()) =~= p@);
    true
}

/// Whether `p` occurs anywhere in `t`.
pub fn contains_chars(t: &Vec<char>, p: &Vec<char>) -> (b: bool)
    ensures
        b == contains_seq(t@, p@),
{
    if p.len() == 0 {
        assert(t@.subrange(0, 0) =~= p@);
        assert(occurs_at(t@, p@, 0));
        return true;
    }
    if p.len() > t.len() {
        return false;
    }
    let last = t.len() - p.len();
    let mut i: usize = 0;
    while i <= last
        invariant
            last == t.len() - p.len(),
            1 <= p.len() <= t.len(),
            i <= last + 1,
            forall|j: int| 0 <= j < i ==> !occurs_at(t@, p@, j),
        decreases last + 1 - i,
    {
        if matches_at(t, p, i) {
            return true;
        }
        i = i + 1;
    }
    false
}

/// The text `t` with every occurrence of a non-empty `p`, found from left to
/// right without overlap, replaced by `r`.
pub open spec fn replace_all(t: Seq<char>, p: Seq<char>, r: Seq<char>) -> Seq<char>
    decreases t.len(),
{
    if p.len() == 0 || t.len() < p.len() {
        t
    } else if t.take(p.len() as int) == p {
        r + replace_all(t.skip(p.len() as int), p, r)
    } else {
        seq![t[0]] + replace_all(t.skip(1), p, r)
    }
}

/// Replaces every left-to-right, non-overlapping occurrence of `p` in `t` with `r`.
pub fn replace_chars(t: &Vec<char>, p: &Vec<char>, r: &Vec<char>) -> (out: Vec<char>)
    requires
        p@.len() > 0,
    ensures
        out@ == replace_all(t@, p@, r@),
{
    let mut out: Vec<char> = Vec::new();
    let mut i: usize = 0;
    assert(t@.skip(0) =~= t@);
    while i < t.len()
        invariant
            p@.len() > 0,
            i <= t.len(),
            out@ + replace_all(t@.skip(i as int), p@, r@) == replace_all(t@, p@, r@),
        decreases t.len() - i,
    {
        let ghost rest = t@.skip(i as int);
        if matches_at(t, p, i) {
            assert(rest.take(p@.len() as int) =~= t@.subrange(i as int, i + p@.len()));
            assert(rest.skip(p@.len() as int) =~= t@.skip(i + p@.len()));
            let mut k: usize = 0;
            let ghost out0 = out@;
            while k < r.len()
                invariant
                    k <= r.len(),
                    out@ == out0 + r@.take(k as int),
                decreases r.len() - k,
            {
                out.push(r[k]);
                k = k + 1;
                assert(out0 + r@.take(k as int) =~= out0 + r@.take(k - 1) + seq![r@[k - 1]]);
            }
            assert(r@.take(r@.len() as int) =~= r@);
            assert(out@ + replace_all(t@.skip(i + p@.len()), p@, r@) =~= out0 + replace_all(rest, p@, r@));
            i = i + p.len();
        } else {
            if p.len() <= t.len() - i {
                assert(rest.take(p@.len() as int) != p@) by {
                    if rest.take(p@.len() as int) == p@ {
                        assert(t@.subrange(i as int, i + p@.len()) =~= rest.take(p@.len() as int));
                    }
                }
                assert(rest.skip(1) =~= t@.skip(i + 1));
                assert(out@.push(t@[i as int]) + replace_all(t@.skip(i + 1), p@, r@) =~= out@ + replace_all(rest, p@, r@));
            } else {
                assert(replace_all(rest, p@, r@) == rest);
                assert(rest =~= seq![t@[i as int]] + t@.skip(i + 1));
                assert(t@.skip(i + 1).len() < p@.len());
                assert(replace_all(t@.skip(i + 1), p@, r@) == t@.skip(i + 1));
                assert(out@.push(t@[i as int]) + replace_all(t@.skip(i + 1), p@, r@) =~= out@ + replace_all(rest, p@, r@));
            }
            out.push(t[i]);
            i = i + 1;
        }
    }
    assert(t@.skip(i as int) =~= Seq::<char>::empty());
    assert(out@ =~= out@ + replace_all(t@.skip(i as int), p@, r@));
    out
}

/// No character of `a` occurs in `b`.
pub open spec fn shares_no_char(a: Seq<char>, b: Seq<char>) -> bool {
    forall|i: int, j: int| 0 <= i < a.len() && 0 <= j < b.len() ==> a[i] != b[j]
}

/// An occurrence in a suffix of `t` is an occurrence in `t`.
pub proof fn lemma_occurs_in_skip(t: Seq<char>, q: Seq<char>, k: int, i: int)
    requires
        0 <= k <= t.len(),
        occurs_at(t.skip(k), q, i),
    ensures
        occurs_at(t, q, i + k),
{
    assert(t.skip(k).subrange(i, i + q.len()) =~= t.subrange(i + k, i + k + q.len()));
}

/// A prefix of the replaced text holding no character of `r` is the same
/// prefix of the original text.
pub proof fn lemma_replace_prefix(s: Seq<char>, p: Seq<char>, r: Seq<char>, k: int)
    requires
        p.len() > 0,
        r.len() > 0,
        0 <= k <= replace_all(s, p, r).len(),
        shares_no_char(replace_all(s, p, r).take(k), r),
    ensures
        k <= s.len(),
        replace_all(s, p, r).take(k) == s.take(k),
    decreases s.len(),
{
    let big = replace_all(s, p, r);
    if k == 0 {
        assert(big.take(0) =~= s.take(0));
    } else if s.len() < p.len() {
    } else if s.take(p.len() as int) == p {
        assert(big.take(k)[0] == r[0]);
    } else {
        let rest = replace_all(s.skip(1), p, r);
        assert(big == seq![s[0]] + rest);
        assert(rest.take(k - 1) =~= big.take(k).skip(1));
        lemma_replace_prefix(s.skip(1), p, r, k - 1);
        assert(big.take(k) =~= seq![s[0]] + rest.take(k - 1));
        assert(s.take(k) =~= seq![s[0]] + s.skip(1).take(k - 1));
    }
}

/// Replacing a pattern that is absent leaves the text as it was.
pub proof fn lemma_replace_absent(t: Seq<char>, p: Seq<char>, r: Seq<char>)
    requires
        p.len() > 0,
        !contains_seq(t, p),
    ensures
        replace_all(t, p, r) == t,
    decreases t.len(),
{
    if t.len() >= p.len() {
        if t.take(p.len() as int) == p {
            assert(t.subrange(0, p.len() as int) =~= t.take(p.len() as int));
            assert(occurs_at(t, p, 0));
        }
        assert forall|i: int| !occurs_at(t.skip(1), p, i) by {
            if occurs_at(t.skip(1), p, i) {
                lemma_occurs_in_skip(t, p, 1, i);
            }
        }
        lemma_replace_absent(t.skip(1), p, r);
        assert(t =~= seq![t[0]] + t.skip(1));
    }
}

/// Replacement works from the leftmost occurrence: the text before it is
/// kept, that occurrence becomes `r`, and the rest of the text after it is
/// replaced the same way.
pub proof fn lemma_replace_at_leftmost(t: Seq<char>, p: Seq<char>, r: Seq<char>, i: int)
    requires
        p.len() > 0,
        occurs_at(t, p, i),
        forall|j: int| 0 <= j < i ==> !occurs_at(t, p, j),
    ensures
        replace_all(t, p, r) == t.take(i) + r + replace_all(t.skip(i + p.len()), p, r),
    decreases i,
{
    if i == 0 {
        assert(t.take(p.len() as int) =~= t.subrange(0, p.len() as int));
        assert(t.take(0) + r =~= r);
    } else {
        assert(t.take(p.len() as int) =~= t.subrange(0, p.len() as int));
        assert(!occurs_at(t, p, 0));
        let rest = t.skip(1);
        assert(rest.subrange(i - 1, i - 1 + p.len()) =~= t.subrange(i, i + p.len()));
        assert forall|j: int| 0 <= j < i - 1 implies !occurs_at(rest, p, j) by {
            if occurs_at(rest, p, j) {
                lemma_occurs_in_skip(t, p, 1, j);
            }
        }
        lemma_replace_at_leftmost(rest, p, r, i - 1);
        assert(rest.skip(i - 1 + p.len()) =~= t.skip(i + p.len()));
        assert(seq![t[0]] + rest.take(i - 1) =~= t.take(i));
        assert(seq![t[0]] + (rest.take(i - 1) + r + replace_all(t.skip(i + p.len()), p, r))
            =~= t.take(i) + r + replace_all(t.skip(i + p.len()), p, r));
    }
}

/// After replacing `p` by a text that shares no character with it, `p` no
/// longer occurs.
pub proof fn lemma_replace_removes(t: Seq<char>, p: Seq<char>, r: Seq<char>)
    requires
        p.len() > 0,
        r.len() > 0,
        shares_no_char(p, r),
    ensures
        !contains_seq(replace_all(t, p, r), p),
    decreases t.len(),
{
    let big = replace_all(t, p, r);
    if t.len() < p.len() {
        assert forall|i: int| !occurs_at(big, p, i) by {}
    } else if t.take(p.len() as int) == p {
        let rest = replace_all(t.skip(p.len() as int), p, r);
        lemma_replace_removes(t.skip(p.len() as int), p, r);
        assert forall|i: int| !occurs_at(big, p, i) by {
            if occurs_at(big, p, i) {
                if i < r.len() {
                    assert(big.subrange(i, i + p.len())[0] == big[i]);
                    assert(big[i] == r[i]);
                } else {
                    assert(big.subrange(i, i + p.len()) =~= rest.subrange(
                        i - r.len(),
                        i - r.len() + p.len(),
                    ));
                    assert(occurs_at(rest, p, i - r.len()));
                }
            }
        }
    } else {
        let rest = replace_all(t.skip(1), p, r);
        lemma_replace_removes(t.skip(1), p, r);
        assert forall|i: int| !occurs_at(big, p, i) by {
            if occurs_at(big, p, i) {
                if i >= 1 {
                    assert(big.subrange(i, i + p.len()) =~= rest.subrange(i - 1, i - 1 + p.len()));
                    assert(occurs_at(rest, p, i - 1));
                } else {
                    let k = p.len() - 1;
                    assert(rest.take(k) =~= p.skip(1));
                    assert(shares_no_char(rest.take(k), r));
                    lemma_replace_prefix(t.skip(1), p, r, k);
                    assert(t.take(p.len() as int) =~= seq![t[0]] + t.skip(1).take(k));
                    assert(big[0] == t[0]);
                    assert(p =~= seq![p[0]] + p.skip(1));
                    assert(t.take(p.len() as int) =~= p);
                }
            }
        }
    }
}

/// Replacing `p` by a text that shares no character with `q` introduces no
/// occurrence of `q`.
pub proof fn lemma_replace_adds_nothing(t: Seq<char>, p: Seq<char>, r: Seq<char>, q: Seq<char>)
    requires
        p.len() > 0,
        r.len() > 0,
        q.len() > 0,
        shares_no_char(q, r),
        !contains_seq(t, q),
    ensures
        !contains_seq(replace_all(t, p, r), q),
    decreases t.len(),
{
    let big = replace_all(t, p, r);
    if t.len() < p.len() {
    } else if t.take(p.len() as int) == p {
        let rest = replace_all(t.skip(p.len() as int), p, r);
        assert forall|i: int| !occurs_at(t.skip(p.len() as int), q, i) by {
            if occurs_at(t.skip(p.len() as int), q, i) {
                lemma_occurs_in_skip(t, q, p.len() as int, i);
            }
        }
        lemma_replace_adds_nothing(t.skip(p.len() as int), p, r, q);
        assert forall|i: int| !occurs_at(big, q, i) by {
            if occurs_at(big, q, i) {
                if i < r.len() {
                    assert(big.subrange(i, i + q.len())[0] == big[i]);
                    assert(big[i] == r[i]);
                } else {
                    assert(big.subrange(i, i + q.len()) =~= rest.subrange(
                        i - r.len(),
                        i - r.len() + q.len(),
                    ));
                    assert(occurs_at(rest, q, i - r.len()));
                }
            }
        }
    } else {
        let rest = replace_all(t.skip(1), p, r);
        assert forall|i: int| !occurs_at(t.skip(1), q, i) by {
            if occurs_at(t.skip(1), q, i) {
                lemma_occurs_in_skip(t, q, 1, i);
            }
        }
        lemma_replace_adds_nothing(t.skip(1), p, r, q);
        assert forall|i: int| !occurs_at(big, q, i) by {
            if occurs_at(big, q, i) {
                if i >= 1 {
                    assert(big.subrange(i, i + q.len()) =~= rest.subrange(i - 1, i - 1 + q.len()));
                    assert(occurs_at(rest, q, i - 1));
                } else {
                    let k = q.len() - 1;
                    assert(rest.take(k) =~= q.skip(1));
                    assert(shares_no_char(rest.take(k), r));
                    lemma_replace_prefix(t.skip(1), p, r, k);
                    assert(big[0] == t[0]);
                    assert(q =~= seq![q[0]] + q.skip(1));
                    assert(t.subrange(0, q.len() as int) =~= seq![t[0]] + t.skip(1).take(k));
                    assert(occurs_at(t, q, 0));
                }
            }
        }
    }
}

/// Calls `String::push`, which appends one character to the end of the string.
#[verifier::external_body]
fn push_char(s: &mut String, c: char)
    ensures
        final(s)@ == old(s)@.push(c),
{
    s.push(c);
}

/// The string `prefix` followed by `rest`.
pub fn prefixed(prefix: &str, rest: &str) -> (s: String)
    ensures
        s@ == prefix@ + rest@,
{
    let mut s = prefix.to_owned();
    s.append(rest);
    s
}

/// A string holding the given characters.
pub fn string_from_chars(v: &Vec<char>) -> (s: String)
    ensures
        s@ == v@,
{
    let mut s = String::new();
    let mut i: usize = 0;
    while i < v.len()
        invariant
            i <= v.len(),
            s@ == v@.take(i as int),
        decreases v.len() - i,
    {
        push_char(&mut s, v[i]);
        i = i + 1;
        assert(v@.take(i as int) =~= v@.take(i - 1).push(v@[i - 1]));
    }
    assert(v@.take(v@.len() as int) =~= v@);
    s
}

} // verus!
