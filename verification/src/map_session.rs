//! The TCP-map lookup session.
//!
//! One request per line, `get <address>`, answered on the same connection
//! with `200 <values joined by single spaces>` or `500 error`, each
//! newline-terminated. A line that does not split into exactly two tokens
//! on a single space closes the connection with no reply; a line whose
//! first token is not `get`, or whose address does not split into two
//! parts on a single `@`, is dropped silently and the session keeps
//! reading. The session carries no state from one request to the next.

use vstd::prelude::*;
use crate::text::{splits_in_two, left_of, right_of, trimmed, split_two, trim};
use crate::classify::{classify, lookup_key, Classification, has_one_at};
use crate::lookup::{LookupOutcome, LookupOutcomeModel};

verus! {

/// The bytes of the request keyword `get`.
pub open spec fn get_keyword() -> Seq<u8> {
    seq!['g' as u8, 'e' as u8, 't' as u8]
}

/// What the session does with one request line, at the specification
/// level.
pub enum MapActionModel {
    Close,
    Silent,
    Resolve(Seq<u8>),
    Refuse,
}

/// What the session does with one request line: close the connection
/// without a reply, drop the line silently and keep reading, resolve the
/// carried query remotely and reply with the outcome, or reply with the
/// failure line without any lookup.
pub enum MapAction {
    Close,
    Silent,
    Resolve(Vec<u8>),
    Refuse,
}

impl View for MapAction {
    type V = MapActionModel;

    open spec fn view(&self) -> MapActionModel {
        match self {
            MapAction::Close => MapActionModel::Close,
            MapAction::Silent => MapActionModel::Silent,
            MapAction::Resolve(q) => MapActionModel::Resolve(q@),
            MapAction::Refuse => MapActionModel::Refuse,
        }
    }
}

/// The action for one request line: the trimmed line must split into
/// exactly two tokens on a single space, else the connection closes; a
/// first token other than `get` is ignored; an address without a single
/// `@` is ignored; otherwise classification decides between a lookup and
/// the failure reply.
pub open spec fn map_action_of(line: Seq<u8>) -> MapActionModel {
    let t = trimmed(line);
    if !splits_in_two(t, ' ' as u8) {
        MapActionModel::Close
    } else if left_of(t, ' ' as u8) != get_keyword() {
        MapActionModel::Silent
    } else if !has_one_at(right_of(t, ' ' as u8)) {
        MapActionModel::Silent
    } else {
        match lookup_key(right_of(t, ' ' as u8)) {
            Some(q) => MapActionModel::Resolve(q),
            None => MapActionModel::Refuse,
        }
    }
}

fn is_get_keyword(k: &Vec<u8>) -> (r: bool)
    ensures
        r == (k@ == get_keyword()),
{
    if k.len() != 3 {
        proof {
            if k@ == get_keyword() {
                assert(k@.len() == 3);
            }
        }
        return false;
    }
    if k[0] == 'g' as u8 && k[1] == 'e' as u8 && k[2] == 't' as u8 {
        proof {
            assert(k@ =~= get_keyword());
        }
        true
    } else {
        proof {
            if k@ == get_keyword() {
                assert(k@[0] == get_keyword()[0]);
                assert(k@[1] == get_keyword()[1]);
                assert(k@[2] == get_keyword()[2]);
            }
        }
        false
    }
}

/// Parses one request line and decides the session's next step. The
/// session is stateless across lines: the action depends on the line
/// alone.
pub fn map_request(line: &Vec<u8>) -> (a: MapAction)
    ensures
        a@ == map_action_of(line@),
{
    let t = trim(line);
    match split_two(&t, ' ' as u8) {
        None => MapAction::Close,
        Some((key, value)) => {
            if !is_get_keyword(&key) {
                MapAction::Silent
            } else {
                match split_two(&value, '@' as u8) {
                    None => MapAction::Silent,
                    Some(_) => {
                        match classify(&value) {
                            Classification::ExactDomain(l) => MapAction::Resolve(l),
                            Classification::WildcardDomain(f) => MapAction::Resolve(f),
                            Classification::Unclassified => MapAction::Refuse,
                        }
                    },
                }
            }
        },
    }
}

/// The values joined by single spaces, in order.
pub open spec fn join_with_spaces(vs: Seq<Seq<u8>>) -> Seq<u8>
    decreases vs.len(),
{
    if vs.len() == 0 {
        Seq::empty()
    } else if vs.len() == 1 {
        vs[0]
    } else {
        join_with_spaces(vs.drop_last()) + seq![' ' as u8] + vs.last()
    }
}

/// The success reply: `200 `, the joined values, a newline.
pub open spec fn map_success_reply(vs: Seq<Seq<u8>>) -> Seq<u8> {
    seq!['2' as u8, '0' as u8, '0' as u8, ' ' as u8] + join_with_spaces(vs) + seq!['\n' as u8]
}

/// The failure reply, `500 error` with a newline, sent for a failed
/// lookup and for an unclassifiable address alike.
pub open spec fn map_failure_reply() -> Seq<u8> {
    seq![
        '5' as u8, '0' as u8, '0' as u8, ' ' as u8, 'e' as u8, 'r' as u8, 'r' as u8,
        'o' as u8, 'r' as u8, '\n' as u8,
    ]
}

/// The reply for a lookup outcome.
pub open spec fn map_reply_of(o: LookupOutcomeModel) -> Seq<u8> {
    match o {
        LookupOutcomeModel::Resolved(vs) => map_success_reply(vs),
        LookupOutcomeModel::Failed => map_failure_reply(),
    }
}

/// Formats the reply line for one lookup outcome.
pub fn map_reply(outcome: &LookupOutcome) -> (r: Vec<u8>)
    ensures
        r@ == map_reply_of(outcome@),
{
    match outcome {
        LookupOutcome::Failed => {
            let mut r: Vec<u8> = Vec::new();
            r.push('5' as u8);
            r.push('0' as u8);
            r.push('0' as u8);
            r.push(' ' as u8);
            r.push('e' as u8);
            r.push('r' as u8);
            r.push('r' as u8);
            r.push('o' as u8);
            r.push('r' as u8);
            r.push('\n' as u8);
            proof {
                assert(r@ =~= map_failure_reply());
            }
            r
        },
        LookupOutcome::Resolved(vs) => {
            let ghost vss = vs.deep_view();
            let mut r: Vec<u8> = Vec::new();
            r.push('2' as u8);
            r.push('0' as u8);
            r.push('0' as u8);
            r.push(' ' as u8);
            let ghost prefix = r@;
            proof {
                assert(vss.take(0) =~= Seq::<Seq<u8>>::empty());
                assert(r@ =~= prefix + join_with_spaces(vss.take(0)));
            }
            let n = vs.len();
            let mut i: usize = 0;
            while i < n
                invariant
                    i <= n,
                    n == vs@.len(),
                    vss == vs.deep_view(),
                    r@ == prefix + join_with_spaces(vss.take(i as int)),
                decreases n - i,
            {
                if i > 0 {
                    r.push(' ' as u8);
                }
                let w = &vs[i];
                proof {
                    assert(vss[i as int] =~= w@);
                }
                let m = w.len();
                let ghost mid = r@;
                let mut k: usize = 0;
                while k < m
                    invariant
                        k <= m,
                        m == w@.len(),
                        r@ == mid + w@.take(k as int),
                    decreases m - k,
                {
                    r.push(w[k]);
                    proof {
                        assert(r@ =~= mid + w@.take(k + 1 as int));
                    }
                    k = k + 1;
                }
                proof {
                    assert(w@.take(m as int) =~= w@);
                    let t1 = vss.take(i + 1 as int);
                    assert(t1.drop_last() =~= vss.take(i as int));
                    assert(t1.last() == vss[i as int]);
                    if i == 0 {
                        assert(join_with_spaces(t1) == vss[0]);
                        assert(r@ =~= prefix + join_with_spaces(t1));
                    } else {
                        assert(join_with_spaces(t1) == join_with_spaces(vss.take(i as int))
                            + seq![' ' as u8] + vss[i as int]);
                        assert(r@ =~= prefix + join_with_spaces(t1));
                    }
                }
                i = i + 1;
            }
            r.push('\n' as u8);
            proof {
                assert(vss.take(n as int) =~= vss);
                assert(r@ =~= map_success_reply(vss));
            }
            r
        },
    }
}

/// The Map session carries no state from one request to the next: two
/// identical request lines on the same connection are handled
/// identically, whatever came between them.
pub proof fn lemma_map_request_stateless(l1: Seq<u8>, l2: Seq<u8>)
    requires
        l1 == l2,
    ensures
        map_action_of(l1) == map_action_of(l2),
{
}

} // verus!
