//! Byte-level text helpers shared by both protocol sessions: whitespace
//! trimming and splitting a line into exactly two tokens at a separator.

use vstd::prelude::*;

verus! {

/// The ASCII whitespace bytes that are stripped from the ends of a line
/// before it is parsed.
pub open spec fn is_space_byte(b: u8) -> bool {
    b == 0x09 || b == 0x0a || b == 0x0b || b == 0x0c || b == 0x0d || b == 0x20
}

/// `s` with its leading whitespace bytes removed.
pub open spec fn trim_front(s: Seq<u8>) -> Seq<u8>
    decreases s.len(),
{
    if s.len() > 0 && is_space_byte(s[0]) {
        trim_front(s.drop_first())
    } else {
        s
    }
}

/// `s` with its trailing whitespace bytes removed.
pub open spec fn trim_back(s: Seq<u8>) -> Seq<u8>
    decreases s.len(),
{
    if s.len() > 0 && is_space_byte(s.last()) {
        trim_back(s.drop_last())
    } else {
        s
    }
}

/// `s` with whitespace removed from both ends; every line is trimmed this
/// way before it is parsed.
pub open spec fn trimmed(s: Seq<u8>) -> Seq<u8> {
    trim_back(trim_front(s))
}

/// Index `i` is the sole occurrence of `sep` in `s`, so splitting on `sep`
/// yields exactly the two tokens on either side of `i`.
pub open spec fn splits_in_two_at(s: Seq<u8>, i: int, sep: u8) -> bool {
    &&& 0 <= i < s.len()
    &&& s[i] == sep
    &&& forall|k: int| 0 <= k < s.len() && k != i ==> s[k] != sep
}

/// `s` splits into exactly two tokens on `sep`, that is, `sep` occurs
/// exactly once in `s`.
pub open spec fn splits_in_two(s: Seq<u8>, sep: u8) -> bool {
    exists|i: int| splits_in_two_at(s, i, sep)
}

/// The index of the sole occurrence of `sep` in `s`.
pub open spec fn sep_index(s: Seq<u8>, sep: u8) -> int {
    choose|i: int| splits_in_two_at(s, i, sep)
}

/// The token before the sole occurrence of `sep`.
pub open spec fn left_of(s: Seq<u8>, sep: u8) -> Seq<u8> {
    s.subrange(0, sep_index(s, sep))
}

/// The token after the sole occurrence of `sep`.
pub open spec fn right_of(s: Seq<u8>, sep: u8) -> Seq<u8> {
    s.subrange(sep_index(s, sep) + 1, s.len() as int)
}

fn is_space(b: u8) -> (r: bool)
    ensures
        r == is_space_byte(b),
{
    b == 0x09 || b == 0x0a || b == 0x0b || b == 0x0d || b == 0x0c || b == 0x20
}

/// A copy of `s[from..to]` as a fresh vector.
pub fn subvec(s: &Vec<u8>, from: usize, to: usize) -> (t: Vec<u8>)
    requires
        from <= to <= s@.len(),
    ensures
        t@ == s@.subrange(from as int, to as int),
{
    let mut t: Vec<u8> = Vec::new();
    assert(t@ =~= s@.subrange(from as int, from as int));
    let mut i: usize = from;
    while i < to
        invariant
            from <= i <= to <= s@.len(),
            t@ == s@.subrange(from as int, i as int),
        decreases to - i,
    {
        t.push(s[i]);
        assert(t@ =~= s@.subrange(from as int, i + 1 as int));
        i = i + 1;
    }
    t
}

proof fn lemma_trim_front_exact(s: Seq<u8>, lo: int)
    requires
        0 <= lo <= s.len(),
        forall|k: int| 0 <= k < lo ==> is_space_byte(s[k]),
        lo == s.len() || !is_space_byte(s[lo]),
    ensures
        trim_front(s) == s.subrange(lo, s.len() as int),
    decreases lo,
{
    if lo == 0 {
        assert(s.subrange(0, s.len() as int) =~= s);
    } else {
        let s1 = s.drop_first();
        assert(forall|k: int| 0 <= k < lo - 1 ==> is_space_byte(#[trigger] s1[k]));
        lemma_trim_front_exact(s1, lo - 1);
        assert(s1.subrange(lo - 1, s1.len() as int) =~= s.subrange(lo, s.len() as int));
    }
}

proof fn lemma_trim_back_exact(s: Seq<u8>, hi: int)
    requires
        0 <= hi <= s.len(),
        forall|k: int| hi <= k < s.len() ==> is_space_byte(s[k]),
        hi == 0 || !is_space_byte(s[hi - 1]),
    ensures
        trim_back(s) == s.subrange(0, hi),
    decreases s.len() - hi,
{
    if hi == s.len() {
        assert(s.subrange(0, hi) =~= s);
    } else {
        let s1 = s.drop_last();
        assert(is_space_byte(s.last()));
        assert(forall|k: int| hi <= k < s1.len() ==> is_space_byte(#[trigger] s1[k]));
        lemma_trim_back_exact(s1, hi);
        assert(s1.subrange(0, hi) =~= s.subrange(0, hi));
    }
}

/// Strips whitespace from both ends of a line, as every line is stripped
/// before parsing.
pub fn trim(s: &Vec<u8>) -> (t: Vec<u8>)
    ensures
        t@ == trimmed(s@),
{
    let n = s.len();
    let mut lo: usize = 0;
    while lo < n && is_space(s[lo])
        invariant
            lo <= n,
            n == s@.len(),
            forall|k: int| 0 <= k < lo ==> is_space_byte(s@[k]),
        decreases n - lo,
    {
        lo = lo + 1;
    }
    let mut hi: usize = n;
    while hi > lo && is_space(s[hi - 1])
        invariant
            lo <= hi <= n,
            n == s@.len(),
            forall|k: int| hi <= k < n ==> is_space_byte(s@[k]),
        decreases hi,
    {
        hi = hi - 1;
    }
    let t = subvec(s, lo, hi);
    proof {
        lemma_trim_front_exact(s@, lo as int);
        let f = s@.subrange(lo as int, n as int);
        assert(forall|k: int|
            hi - lo <= k < f.len() ==> is_space_byte(#[trigger] f[k]));
        lemma_trim_back_exact(f, hi - lo);
        assert(f.subrange(0, hi - lo) =~= s@.subrange(lo as int, hi as int));
    }
    t
}

/// Splits a line into exactly two tokens on the single occurrence of
/// `sep`, or reports that no such two-token split exists (no occurrence,
/// or more than one).
pub fn split_two(s: &Vec<u8>, sep: u8) -> (r: Option<(Vec<u8>, Vec<u8>)>)
    ensures
        r is Some <==> splits_in_two(s@, sep),
        (r matches Some(p) ==> p.0@ == left_of(s@, sep) && p.1@ == right_of(s@, sep)),
{
    let n = s.len();
    let mut i: usize = 0;
    while i < n && s[i] != sep
        invariant
            i <= n,
            n == s@.len(),
            forall|k: int| 0 <= k < i ==> s@[k] != sep,
        decreases n - i,
    {
        i = i + 1;
    }
    if i == n {
        proof {
            assert forall|m: int| !splits_in_two_at(s@, m, sep) by {
                if 0 <= m < s@.len() {
                    assert(s@[m] != sep);
                }
            }
        }
        return None;
    }
    let mut j: usize = i + 1;
    while j < n && s[j] != sep
        invariant
            i < j <= n,
            n == s@.len(),
            s@[i as int] == sep,
            forall|k: int| i < k < j ==> s@[k] != sep,
        decreases n - j,
    {
        j = j + 1;
    }
    if j < n {
        proof {
            assert(s@[j as int] == sep);
            assert forall|m: int| !splits_in_two_at(s@, m, sep) by {
                if splits_in_two_at(s@, m, sep) {
                    if m != i as int {
                        assert(s@[i as int] != sep);
                    } else {
                        assert(s@[j as int] != sep);
                    }
                }
            }
        }
        return None;
    }
    proof {
        assert(splits_in_two_at(s@, i as int, sep));
        let i0 = sep_index(s@, sep);
        assert(splits_in_two_at(s@, i0, sep));
        if i0 != i as int {
            assert(s@[i as int] != sep);
        }
    }
    let a = subvec(s, 0, i);
    let b = subvec(s, i + 1, n);
    Some((a, b))
}

} // verus!
