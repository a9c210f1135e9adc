//! Recipient address classification.
//!
//! An address is a byte string of the form `local-part@domain`. It is
//! classified against a fixed set of exact domains and one fixed wildcard
//! pattern (an alphanumeric subdomain label under two fixed second-level
//! domains). The classification decides whether a remote lookup is made,
//! and with which query: the bare local part for an exact domain, the
//! full address for a wildcard match, nothing otherwise.

use vstd::prelude::*;
use crate::text::{splits_in_two, splits_in_two_at, sep_index, left_of, right_of, split_two, subvec};

verus! {

/// The bytes of the exact domain `menhera.org`.
pub open spec fn menhera_org() -> Seq<u8> {
    seq![
        'm' as u8, 'e' as u8, 'n' as u8, 'h' as u8, 'e' as u8, 'r' as u8, 'a' as u8,
        '.' as u8, 'o' as u8, 'r' as u8, 'g' as u8,
    ]
}

/// The bytes of `h09.eu`: both an exact domain and one of the two
/// second-level domains accepted under the wildcard pattern.
pub open spec fn h09_eu() -> Seq<u8> {
    seq!['h' as u8, '0' as u8, '9' as u8, '.' as u8, 'e' as u8, 'u' as u8]
}

/// The bytes of `mnhr.org`, the other wildcard second-level domain.
pub open spec fn mnhr_org() -> Seq<u8> {
    seq!['m' as u8, 'n' as u8, 'h' as u8, 'r' as u8, '.' as u8, 'o' as u8, 'r' as u8, 'g' as u8]
}

/// A domain that is matched by literal equality against the fixed set.
pub open spec fn is_exact_domain(d: Seq<u8>) -> bool {
    d == menhera_org() || d == h09_eu()
}

/// A byte the wildcard pattern accepts in the local part:
/// `-`, letters, digits, `.` or `_`.
pub open spec fn is_local_byte(b: u8) -> bool {
    ||| b == '-' as u8
    ||| 'a' as u8 <= b <= 'z' as u8
    ||| 'A' as u8 <= b <= 'Z' as u8
    ||| '0' as u8 <= b <= '9' as u8
    ||| b == '.' as u8
    ||| b == '_' as u8
}

/// A byte the wildcard pattern accepts in the subdomain label:
/// a lower-case letter or a digit.
pub open spec fn is_label_byte(b: u8) -> bool {
    ('a' as u8 <= b <= 'z' as u8) || ('0' as u8 <= b <= '9' as u8)
}

/// The address `s` decomposes for the wildcard pattern with `@` at `i` and
/// the dot after the subdomain label at `j`: a non-empty local part, a
/// non-empty alphanumeric label, and one of the two fixed second-level
/// domains after the dot.
pub open spec fn wildcard_parts(s: Seq<u8>, i: int, j: int) -> bool {
    &&& 1 <= i
    &&& i + 1 < j < s.len()
    &&& (forall|k: int| 0 <= k < i ==> is_local_byte(#[trigger] s[k]))
    &&& s[i] == '@' as u8
    &&& (forall|k: int| i < k < j ==> is_label_byte(#[trigger] s[k]))
    &&& s[j] == '.' as u8
    &&& (s.subrange(j + 1, s.len() as int) == h09_eu()
        || s.subrange(j + 1, s.len() as int) == mnhr_org())
}

/// The full address matches the wildcard subdomain pattern.
pub open spec fn wildcard_matches(s: Seq<u8>) -> bool {
    exists|i: int, j: int| wildcard_parts(s, i, j)
}

/// The address contains exactly one `@`.
pub open spec fn has_one_at(s: Seq<u8>) -> bool {
    splits_in_two(s, '@' as u8)
}

/// The substring before the sole `@`.
pub open spec fn local_of(s: Seq<u8>) -> Seq<u8> {
    left_of(s, '@' as u8)
}

/// The substring after the sole `@`.
pub open spec fn domain_of(s: Seq<u8>) -> Seq<u8> {
    right_of(s, '@' as u8)
}

/// A well-formed address: exactly one `@`, with a non-empty local part
/// and a non-empty domain on either side.
pub open spec fn well_formed(s: Seq<u8>) -> bool {
    has_one_at(s) && local_of(s).len() > 0 && domain_of(s).len() > 0
}

/// What classification yields, at the specification level.
pub enum ClassificationModel {
    Exact(Seq<u8>),
    Wildcard(Seq<u8>),
    Unmatched,
}

/// The classification of an address, with the query the lookup would be
/// made with. The exact-domain check is tried first; the wildcard pattern
/// only if it fails. An exact-domain address carries its local part, a
/// wildcard address carries the full address.
pub open spec fn classification_of(s: Seq<u8>) -> ClassificationModel {
    if well_formed(s) && is_exact_domain(domain_of(s)) {
        ClassificationModel::Exact(local_of(s))
    } else if well_formed(s) && wildcard_matches(s) {
        ClassificationModel::Wildcard(s)
    } else {
        ClassificationModel::Unmatched
    }
}

/// The query string a remote lookup is made with, if any.
pub open spec fn lookup_key(s: Seq<u8>) -> Option<Seq<u8>> {
    match classification_of(s) {
        ClassificationModel::Exact(l) => Some(l),
        ClassificationModel::Wildcard(a) => Some(a),
        ClassificationModel::Unmatched => None,
    }
}

/// The result of classifying one address. `ExactDomain` and
/// `WildcardDomain` carry the query for the remote lookup: the local part
/// for an exact domain, the full address for a wildcard match.
pub enum Classification {
    ExactDomain(Vec<u8>),
    WildcardDomain(Vec<u8>),
    Unclassified,
}

impl View for Classification {
    type V = ClassificationModel;

    open spec fn view(&self) -> ClassificationModel {
        match self {
            Classification::ExactDomain(l) => ClassificationModel::Exact(l@),
            Classification::WildcardDomain(a) => ClassificationModel::Wildcard(a@),
            Classification::Unclassified => ClassificationModel::Unmatched,
        }
    }
}

fn is_local_byte_exec(b: u8) -> (r: bool)
    ensures
        r == is_local_byte(b),
{
    b == '-' as u8 || ('a' as u8 <= b && b <= 'z' as u8) || ('A' as u8 <= b && b <= 'Z' as u8)
        || ('0' as u8 <= b && b <= '9' as u8) || b == '.' as u8 || b == '_' as u8
}

fn is_label_byte_exec(b: u8) -> (r: bool)
    ensures
        r == is_label_byte(b),
{
    ('a' as u8 <= b && b <= 'z' as u8) || ('0' as u8 <= b && b <= '9' as u8)
}

fn suffix_is_h09_eu(s: &Vec<u8>, off: usize) -> (r: bool)
    requires
        off <= s@.len(),
    ensures
        r == (s@.subrange(off as int, s@.len() as int) == h09_eu()),
{
    let n = s.len();
    let ghost suf = s@.subrange(off as int, n as int);
    if n - off != 6 {
        proof {
            if suf == h09_eu() {
                assert(suf.len() == 6);
            }
        }
        return false;
    }
    if s[off] == 'h' as u8 && s[off + 1] == '0' as u8 && s[off + 2] == '9' as u8
        && s[off + 3] == '.' as u8 && s[off + 4] == 'e' as u8 && s[off + 5] == 'u' as u8 {
        proof {
            assert(suf =~= h09_eu());
        }
        true
    } else {
        proof {
            if suf == h09_eu() {
                assert(s@[off as int] == suf[0]);
                assert(s@[off + 1] == suf[1]);
                assert(s@[off + 2] == suf[2]);
                assert(s@[off + 3] == suf[3]);
                assert(s@[off + 4] == suf[4]);
                assert(s@[off + 5] == suf[5]);
            }
        }
        false
    }
}

fn suffix_is_mnhr_org(s: &Vec<u8>, off: usize) -> (r: bool)
    requires
        off <= s@.len(),
    ensures
        r == (s@.subrange(off as int, s@.len() as int) == mnhr_org()),
{
    let n = s.len();
    let ghost suf = s@.subrange(off as int, n as int);
    if n - off != 8 {
        proof {
            if suf == mnhr_org() {
                assert(suf.len() == 8);
            }
        }
        return false;
    }
    if s[off] == 'm' as u8 && s[off + 1] == 'n' as u8 && s[off + 2] == 'h' as u8
        && s[off + 3] == 'r' as u8 && s[off + 4] == '.' as u8 && s[off + 5] == 'o' as u8
        && s[off + 6] == 'r' as u8 && s[off + 7] == 'g' as u8 {
        proof {
            assert(suf =~= mnhr_org());
        }
        true
    } else {
        proof {
            if suf == mnhr_org() {
                assert(s@[off as int] == suf[0]);
                assert(s@[off + 1] == suf[1]);
                assert(s@[off + 2] == suf[2]);
                assert(s@[off + 3] == suf[3]);
                assert(s@[off + 4] == suf[4]);
                assert(s@[off + 5] == suf[5]);
                assert(s@[off + 6] == suf[6]);
                assert(s@[off + 7] == suf[7]);
            }
        }
        false
    }
}

fn is_menhera_org(d: &Vec<u8>) -> (r: bool)
    ensures
        r == (d@ == menhera_org()),
{
    let n = d.len();
    if n != 11 {
        proof {
            if d@ == menhera_org() {
                assert(d@.len() == 11);
            }
        }
        return false;
    }
    if d[0] == 'm' as u8 && d[1] == 'e' as u8 && d[2] == 'n' as u8 && d[3] == 'h' as u8
        && d[4] == 'e' as u8 && d[5] == 'r' as u8 && d[6] == 'a' as u8 && d[7] == '.' as u8
        && d[8] == 'o' as u8 && d[9] == 'r' as u8 && d[10] == 'g' as u8 {
        proof {
            assert(d@ =~= menhera_org());
        }
        true
    } else {
        proof {
            if d@ == menhera_org() {
                assert(d@[0] == menhera_org()[0]);
                assert(d@[1] == menhera_org()[1]);
                assert(d@[2] == menhera_org()[2]);
                assert(d@[3] == menhera_org()[3]);
                assert(d@[4] == menhera_org()[4]);
                assert(d@[5] == menhera_org()[5]);
                assert(d@[6] == menhera_org()[6]);
                assert(d@[7] == menhera_org()[7]);
                assert(d@[8] == menhera_org()[8]);
                assert(d@[9] == menhera_org()[9]);
                assert(d@[10] == menhera_org()[10]);
            }
        }
        false
    }
}

/// Decides membership in the fixed exact-domain set.
pub fn is_exact_domain_exec(d: &Vec<u8>) -> (r: bool)
    ensures
        r == is_exact_domain(d@),
{
    proof {
        assert(d@.subrange(0, d@.len() as int) =~= d@);
    }
    is_menhera_org(d) || suffix_is_h09_eu(d, 0)
}

/// Any valid wildcard decomposition of `s` puts `@` at the position of the
/// first `@` and the label-ending dot at the first dot after it.
proof fn lemma_wildcard_parts_pinned(s: Seq<u8>, a: int, b: int, at_pos: int, dot_pos: int)
    requires
        wildcard_parts(s, a, b),
        0 <= at_pos < s.len(),
        s[at_pos] == '@' as u8,
        forall|k: int| 0 <= k < at_pos ==> is_local_byte(#[trigger] s[k]),
        at_pos < dot_pos < s.len(),
        s[dot_pos] == '.' as u8,
        forall|k: int| at_pos < k < dot_pos ==> is_label_byte(#[trigger] s[k]),
    ensures
        a == at_pos,
        b == dot_pos,
{
    if a < at_pos {
        assert(is_local_byte(s[a]));
        assert(false);
    }
    if a > at_pos {
        assert(is_local_byte(s[at_pos]));
        assert(false);
    }
    if b < dot_pos {
        assert(is_label_byte(s[b]));
        assert(false);
    }
    if b > dot_pos {
        assert(is_label_byte(s[dot_pos]));
        assert(false);
    }
}

/// Decides whether the full address matches the wildcard pattern.
pub fn wildcard_match(s: &Vec<u8>) -> (r: bool)
    ensures
        r == wildcard_matches(s@),
{
    let n = s.len();
    let mut i: usize = 0;
    while i < n && s[i] != '@' as u8
        invariant
            i <= n,
            n == s@.len(),
            forall|k: int| 0 <= k < i ==> s@[k] != '@' as u8,
            forall|k: int| 0 <= k < i ==> is_local_byte(#[trigger] s@[k]),
        decreases n - i,
    {
        if !is_local_byte_exec(s[i]) {
            proof {
                assert forall|a: int, b: int| !wildcard_parts(s@, a, b) by {
                    if wildcard_parts(s@, a, b) {
                        if a < i {
                            assert(s@[a] != '@' as u8);
                        } else if a == i {
                            assert(s@[a] == '@' as u8);
                        } else {
                            assert(is_local_byte(s@[i as int]));
                        }
                    }
                }
            }
            return false;
        }
        i = i + 1;
    }
    if i == n {
        proof {
            assert forall|a: int, b: int| !wildcard_parts(s@, a, b) by {
                if wildcard_parts(s@, a, b) {
                    assert(s@[a] != '@' as u8);
                }
            }
        }
        return false;
    }
    if i == 0 {
        proof {
            assert forall|a: int, b: int| !wildcard_parts(s@, a, b) by {
                if wildcard_parts(s@, a, b) {
                    assert(is_local_byte(s@[0]));
                    assert(s@[0] == '@' as u8);
                }
            }
        }
        return false;
    }
    let at_pos = i;
    let mut j: usize = at_pos + 1;
    while j < n && s[j] != '.' as u8
        invariant
            at_pos < j <= n,
            n == s@.len(),
            s@[at_pos as int] == '@' as u8,
            1 <= at_pos,
            forall|k: int| 0 <= k < at_pos ==> is_local_byte(#[trigger] s@[k]),
            forall|k: int| at_pos < k < j ==> s@[k] != '.' as u8,
            forall|k: int| at_pos < k < j ==> is_label_byte(#[trigger] s@[k]),
        decreases n - j,
    {
        if !is_label_byte_exec(s[j]) {
            proof {
                assert forall|a: int, b: int| !wildcard_parts(s@, a, b) by {
                    if wildcard_parts(s@, a, b) {
                        if a < at_pos {
                            assert(is_local_byte(s@[a]));
                            assert(false);
                        }
                        if a > at_pos {
                            assert(is_local_byte(s@[at_pos as int]));
                            assert(false);
                        }
                        if b < j {
                            assert(s@[b] != '.' as u8);
                            assert(false);
                        }
                        if b == j {
                            assert(s@[b] == '.' as u8);
                            assert(false);
                        }
                        assert(is_label_byte(s@[j as int]));
                        assert(false);
                    }
                }
            }
            return false;
        }
        j = j + 1;
    }
    if j == n {
        proof {
            assert forall|a: int, b: int| !wildcard_parts(s@, a, b) by {
                if wildcard_parts(s@, a, b) {
                    if a < at_pos {
                        assert(is_local_byte(s@[a]));
                        assert(false);
                    }
                    if a > at_pos {
                        assert(is_local_byte(s@[at_pos as int]));
                        assert(false);
                    }
                    assert(s@[b] != '.' as u8);
                    assert(false);
                }
            }
        }
        return false;
    }
    if j == at_pos + 1 {
        proof {
            assert forall|a: int, b: int| !wildcard_parts(s@, a, b) by {
                if wildcard_parts(s@, a, b) {
                    if a < at_pos {
                        assert(is_local_byte(s@[a]));
                        assert(false);
                    }
                    if a > at_pos {
                        assert(is_local_byte(s@[at_pos as int]));
                        assert(false);
                    }
                    assert(b > a + 1);
                    assert(is_label_byte(s@[j as int]));
                    assert(false);
                }
            }
        }
        return false;
    }
    let dot_pos = j;
    let h = suffix_is_h09_eu(s, dot_pos + 1);
    let m = suffix_is_mnhr_org(s, dot_pos + 1);
    if h || m {
        proof {
            assert(wildcard_parts(s@, at_pos as int, dot_pos as int));
        }
        true
    } else {
        proof {
            assert forall|a: int, b: int| !wildcard_parts(s@, a, b) by {
                if wildcard_parts(s@, a, b) {
                    lemma_wildcard_parts_pinned(s@, a, b, at_pos as int, dot_pos as int);
                }
            }
        }
        false
    }
}

/// Classifies one address: exact-domain equality first, the wildcard
/// pattern only if that fails, `Unclassified` for anything else, in
/// particular for an address that does not split into two non-empty
/// parts on a single `@`.
pub fn classify(addr: &Vec<u8>) -> (c: Classification)
    ensures
        c@ == classification_of(addr@),
{
    match split_two(addr, '@' as u8) {
        None => Classification::Unclassified,
        Some((local, domain)) => {
            if local.len() == 0 || domain.len() == 0 {
                Classification::Unclassified
            } else if is_exact_domain_exec(&domain) {
                Classification::ExactDomain(local)
            } else if wildcard_match(addr) {
                let full = subvec(addr, 0, addr.len());
                proof {
                    assert(full@ =~= addr@);
                }
                Classification::WildcardDomain(full)
            } else {
                Classification::Unclassified
            }
        },
    }
}

/// Neither fixed second-level domain contains an `@`.
proof fn lemma_suffix_byte_not_at(suf: Seq<u8>, idx: int)
    requires
        suf == h09_eu() || suf == mnhr_org(),
        0 <= idx < suf.len(),
    ensures
        suf[idx] != '@' as u8,
{
    if suf == h09_eu() {
        if idx == 0 {
            assert(suf[0] == 'h' as u8);
        } else if idx == 1 {
            assert(suf[1] == '0' as u8);
        } else if idx == 2 {
            assert(suf[2] == '9' as u8);
        } else if idx == 3 {
            assert(suf[3] == '.' as u8);
        } else if idx == 4 {
            assert(suf[4] == 'e' as u8);
        } else {
            assert(suf[5] == 'u' as u8);
        }
    } else {
        if idx == 0 {
            assert(suf[0] == 'm' as u8);
        } else if idx == 1 {
            assert(suf[1] == 'n' as u8);
        } else if idx == 2 {
            assert(suf[2] == 'h' as u8);
        } else if idx == 3 {
            assert(suf[3] == 'r' as u8);
        } else if idx == 4 {
            assert(suf[4] == '.' as u8);
        } else if idx == 5 {
            assert(suf[5] == 'o' as u8);
        } else if idx == 6 {
            assert(suf[6] == 'r' as u8);
        } else {
            assert(suf[7] == 'g' as u8);
        }
    }
}

/// An address in one of the exact domains is looked up by its local part
/// alone, never by the full address.
pub proof fn lemma_exact_domain_uses_local_part(s: Seq<u8>)
    requires
        well_formed(s),
        is_exact_domain(domain_of(s)),
    ensures
        lookup_key(s) == Some(local_of(s)),
{
}

/// A wildcard-matching address contains exactly one `@` with non-empty
/// parts on either side, and its domain is never in the exact-domain set:
/// the two classification branches cannot both apply.
pub proof fn lemma_wildcard_implies_well_formed(s: Seq<u8>)
    requires
        wildcard_matches(s),
    ensures
        well_formed(s),
        !is_exact_domain(domain_of(s)),
{
    let (i, j) = choose|i: int, j: int| wildcard_parts(s, i, j);
    let suf = s.subrange(j + 1, s.len() as int);
    assert forall|k: int| 0 <= k < s.len() && k != i implies s[k] != '@' as u8 by {
        if k < i {
            assert(is_local_byte(s[k]));
        } else if i < k < j {
            assert(is_label_byte(s[k]));
        } else if k > j {
            assert(s[k] == suf[k - j - 1]);
            lemma_suffix_byte_not_at(suf, k - j - 1);
        }
    }
    assert(splits_in_two_at(s, i, '@' as u8));
    let i0 = sep_index(s, '@' as u8);
    assert(splits_in_two_at(s, i0, '@' as u8));
    if i0 != i {
        assert(s[i] != '@' as u8);
    }
    assert(local_of(s).len() == i);
    let d = domain_of(s);
    assert(d.len() == s.len() - i - 1);
    assert(d.len() >= j - i + suf.len() >= 8);
    assert(d[j - i - 1] == s[j]);
    if is_exact_domain(d) {
        assert(d != h09_eu());
        assert(d == menhera_org());
        assert(d.len() == 11);
        if suf == h09_eu() {
            assert(j - i - 1 == 4);
            assert(menhera_org()[4] == 'e' as u8);
            assert(false);
        } else {
            assert(suf == mnhr_org());
            assert(j - i - 1 == 2);
            assert(menhera_org()[2] == 'n' as u8);
            assert(false);
        }
    }
}

/// A wildcard-matching address is looked up by the full address string,
/// never by the local part alone.
pub proof fn lemma_wildcard_uses_full_address(s: Seq<u8>)
    requires
        wildcard_matches(s),
    ensures
        lookup_key(s) == Some(s),
{
    lemma_wildcard_implies_well_formed(s);
}

/// An address whose domain is neither an exact domain nor
/// wildcard-matching is never looked up.
pub proof fn lemma_unmatched_address_has_no_key(s: Seq<u8>)
    requires
        !is_exact_domain(domain_of(s)),
        !wildcard_matches(s),
    ensures
        lookup_key(s) is None,
{
}

} // verus!
