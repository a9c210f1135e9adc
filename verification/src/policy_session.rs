//! The policy-delegation session.
//!
//! One request block per connection: `key=value` lines, terminated by any
//! line that does not split into exactly two tokens on a single `=` (in
//! particular a blank line). Each `recipient=` line records one boolean —
//! whether the recipient resolved to a known account. The terminating
//! line triggers the decision: the block is valid only if at least one
//! recipient was recorded and every recorded boolean is true. A valid
//! block is answered with the permit reply, anything else with the defer
//! reply; the session state is cleared either way.

use vstd::prelude::*;
use crate::text::{splits_in_two, left_of, right_of, trimmed, split_two, trim};
use crate::classify::{classify, lookup_key, Classification};

verus! {

/// The bytes of the request key `recipient`.
pub open spec fn recipient_keyword() -> Seq<u8> {
    seq![
        'r' as u8, 'e' as u8, 'c' as u8, 'i' as u8, 'p' as u8, 'i' as u8, 'e' as u8,
        'n' as u8, 't' as u8,
    ]
}

/// The reply for a valid block: `action=permit Ok`, then a blank line.
pub open spec fn permit_reply() -> Seq<u8> {
    seq![
        'a' as u8, 'c' as u8, 't' as u8, 'i' as u8, 'o' as u8, 'n' as u8, '=' as u8,
        'p' as u8, 'e' as u8, 'r' as u8, 'm' as u8, 'i' as u8, 't' as u8, ' ' as u8,
        'O' as u8, 'k' as u8, '\n' as u8, '\n' as u8,
    ]
}

/// The reply for an invalid or empty block:
/// `action=defer_if_permit Service temporarily unavailable`, then a
/// blank line.
pub open spec fn defer_reply() -> Seq<u8> {
    seq![
        'a' as u8, 'c' as u8, 't' as u8, 'i' as u8, 'o' as u8, 'n' as u8, '=' as u8,
        'd' as u8, 'e' as u8, 'f' as u8, 'e' as u8, 'r' as u8, '_' as u8, 'i' as u8,
        'f' as u8, '_' as u8, 'p' as u8, 'e' as u8, 'r' as u8, 'm' as u8, 'i' as u8,
        't' as u8, ' ' as u8, 'S' as u8, 'e' as u8, 'r' as u8, 'v' as u8, 'i' as u8,
        'c' as u8, 'e' as u8, ' ' as u8, 't' as u8, 'e' as u8, 'm' as u8, 'p' as u8,
        'o' as u8, 'r' as u8, 'a' as u8, 'r' as u8, 'i' as u8, 'l' as u8, 'y' as u8,
        ' ' as u8, 'u' as u8, 'n' as u8, 'a' as u8, 'v' as u8, 'a' as u8, 'i' as u8,
        'l' as u8, 'a' as u8, 'b' as u8, 'l' as u8, 'e' as u8, '\n' as u8, '\n' as u8,
    ]
}

/// A request block is valid only if it recorded at least one recipient
/// and every recorded boolean is true; an empty block is never valid.
pub open spec fn block_valid(rs: Seq<bool>) -> bool {
    rs.len() > 0 && (forall|k: int| 0 <= k < rs.len() ==> rs[k])
}

/// The reply a block with the recorded booleans `rs` is answered with.
pub open spec fn policy_reply_of(rs: Seq<bool>) -> Seq<u8> {
    if block_valid(rs) {
        permit_reply()
    } else {
        defer_reply()
    }
}

/// What the session does with one line, at the specification level.
pub enum PolicyActionModel {
    Continue,
    Resolve(Seq<u8>),
    Reply(Seq<u8>),
}

/// What the session does with one line: keep reading, resolve the carried
/// query remotely and record the outcome, or write the carried reply and
/// close the connection.
pub enum PolicyAction {
    Continue,
    Resolve(Vec<u8>),
    Reply(Vec<u8>),
}

impl View for PolicyAction {
    type V = PolicyActionModel;

    open spec fn view(&self) -> PolicyActionModel {
        match self {
            PolicyAction::Continue => PolicyActionModel::Continue,
            PolicyAction::Resolve(q) => PolicyActionModel::Resolve(q@),
            PolicyAction::Reply(r) => PolicyActionModel::Reply(r@),
        }
    }
}

/// The action for one line, given the booleans recorded so far: a line
/// without a two-token `=` split ends the block and is answered from
/// `rs`; a key other than `recipient` is ignored; a recipient that
/// classification gives a query for is resolved remotely; any other
/// recipient needs no action beyond the recorded `false`.
pub open spec fn policy_action_of(rs: Seq<bool>, line: Seq<u8>) -> PolicyActionModel {
    let t = trimmed(line);
    if !splits_in_two(t, '=' as u8) {
        PolicyActionModel::Reply(policy_reply_of(rs))
    } else if left_of(t, '=' as u8) != recipient_keyword() {
        PolicyActionModel::Continue
    } else {
        match lookup_key(right_of(t, '=' as u8)) {
            Some(q) => PolicyActionModel::Resolve(q),
            None => PolicyActionModel::Continue,
        }
    }
}

/// The recorded booleans after one line: cleared by the terminating
/// line, extended by `false` for a recipient that gets no lookup
/// (malformed or unclassifiable address), unchanged otherwise. A
/// recipient that does get a lookup is recorded separately, once its
/// outcome is known.
pub open spec fn policy_state_after(rs: Seq<bool>, line: Seq<u8>) -> Seq<bool> {
    let t = trimmed(line);
    if !splits_in_two(t, '=' as u8) {
        Seq::empty()
    } else if left_of(t, '=' as u8) == recipient_keyword()
        && lookup_key(right_of(t, '=' as u8)) is None {
        rs.push(false)
    } else {
        rs
    }
}

fn is_recipient_keyword(k: &Vec<u8>) -> (r: bool)
    ensures
        r == (k@ == recipient_keyword()),
{
    if k.len() != 9 {
        proof {
            if k@ == recipient_keyword() {
                assert(k@.len() == 9);
            }
        }
        return false;
    }
    if k[0] == 'r' as u8 && k[1] == 'e' as u8 && k[2] == 'c' as u8 && k[3] == 'i' as u8
        && k[4] == 'p' as u8 && k[5] == 'i' as u8 && k[6] == 'e' as u8 && k[7] == 'n' as u8
        && k[8] == 't' as u8 {
        proof {
            assert(k@ =~= recipient_keyword());
        }
        true
    } else {
        proof {
            if k@ == recipient_keyword() {
                assert(k@[0] == recipient_keyword()[0]);
                assert(k@[1] == recipient_keyword()[1]);
                assert(k@[2] == recipient_keyword()[2]);
                assert(k@[3] == recipient_keyword()[3]);
                assert(k@[4] == recipient_keyword()[4]);
                assert(k@[5] == recipient_keyword()[5]);
                assert(k@[6] == recipient_keyword()[6]);
                assert(k@[7] == recipient_keyword()[7]);
                assert(k@[8] == recipient_keyword()[8]);
            }
        }
        false
    }
}

fn build_permit_reply() -> (r: Vec<u8>)
    ensures
        r@ == permit_reply(),
{
    let mut r: Vec<u8> = Vec::new();
    r.push('a' as u8);
    r.push('c' as u8);
    r.push('t' as u8);
    r.push('i' as u8);
    r.push('o' as u8);
    r.push('n' as u8);
    r.push('=' as u8);
    r.push('p' as u8);
    r.push('e' as u8);
    r.push('r' as u8);
    r.push('m' as u8);
    r.push('i' as u8);
    r.push('t' as u8);
    r.push(' ' as u8);
    r.push('O' as u8);
    r.push('k' as u8);
    r.push('\n' as u8);
    r.push('\n' as u8);
    proof {
        assert(r@ =~= permit_reply());
    }
    r
}

fn build_defer_reply() -> (r: Vec<u8>)
    ensures
        r@ == defer_reply(),
{
    let mut r: Vec<u8> = Vec::new();
    r.push('a' as u8);
    r.push('c' as u8);
    r.push('t' as u8);
    r.push('i' as u8);
    r.push('o' as u8);
    r.push('n' as u8);
    r.push('=' as u8);
    r.push('d' as u8);
    r.push('e' as u8);
    r.push('f' as u8);
    r.push('e' as u8);
    r.push('r' as u8);
    r.push('_' as u8);
    r.push('i' as u8);
    r.push('f' as u8);
    r.push('_' as u8);
    r.push('p' as u8);
    r.push('e' as u8);
    r.push('r' as u8);
    r.push('m' as u8);
    r.push('i' as u8);
    r.push('t' as u8);
    r.push(' ' as u8);
    r.push('S' as u8);
    r.push('e' as u8);
    r.push('r' as u8);
    r.push('v' as u8);
    r.push('i' as u8);
    r.push('c' as u8);
    r.push('e' as u8);
    r.push(' ' as u8);
    r.push('t' as u8);
    r.push('e' as u8);
    r.push('m' as u8);
    r.push('p' as u8);
    r.push('o' as u8);
    r.push('r' as u8);
    r.push('a' as u8);
    r.push('r' as u8);
    r.push('i' as u8);
    r.push('l' as u8);
    r.push('y' as u8);
    r.push(' ' as u8);
    r.push('u' as u8);
    r.push('n' as u8);
    r.push('a' as u8);
    r.push('v' as u8);
    r.push('a' as u8);
    r.push('i' as u8);
    r.push('l' as u8);
    r.push('a' as u8);
    r.push('b' as u8);
    r.push('l' as u8);
    r.push('e' as u8);
    r.push('\n' as u8);
    r.push('\n' as u8);
    proof {
        assert(r@ =~= defer_reply());
    }
    r
}

fn block_all_valid(rs: &Vec<bool>) -> (r: bool)
    ensures
        r == block_valid(rs@),
{
    let n = rs.len();
    if n == 0 {
        return false;
    }
    let mut i: usize = 0;
    while i < n
        invariant
            i <= n,
            n == rs@.len(),
            forall|k: int| 0 <= k < i ==> rs@[k],
        decreases n - i,
    {
        if !rs[i] {
            return false;
        }
        i = i + 1;
    }
    true
}

/// The per-connection state of one policy session: the booleans recorded
/// for the recipients of the current request block, in order.
pub struct PolicyState {
    results: Vec<bool>,
}

impl View for PolicyState {
    type V = Seq<bool>;

    closed spec fn view(&self) -> Seq<bool> {
        self.results@
    }
}

impl PolicyState {
    /// A fresh session with no recipients recorded.
    pub fn new() -> (s: Self)
        ensures
            s@ == Seq::<bool>::empty(),
    {
        PolicyState { results: Vec::new() }
    }

    /// Feeds one line to the session and decides its next step. When the
    /// action is `Resolve`, the caller performs the lookup and hands the
    /// outcome back through `record`.
    pub fn handle_line(&mut self, line: &Vec<u8>) -> (a: PolicyAction)
        ensures
            a@ == policy_action_of(old(self)@, line@),
            final(self)@ == policy_state_after(old(self)@, line@),
    {
        let t = trim(line);
        match split_two(&t, '=' as u8) {
            None => {
                let valid = block_all_valid(&self.results);
                let r = if valid {
                    build_permit_reply()
                } else {
                    build_defer_reply()
                };
                self.results = Vec::new();
                PolicyAction::Reply(r)
            },
            Some((key, value)) => {
                if !is_recipient_keyword(&key) {
                    PolicyAction::Continue
                } else {
                    match classify(&value) {
                        Classification::ExactDomain(l) => PolicyAction::Resolve(l),
                        Classification::WildcardDomain(f) => PolicyAction::Resolve(f),
                        Classification::Unclassified => {
                            self.results.push(false);
                            PolicyAction::Continue
                        },
                    }
                }
            },
        }
    }

    /// Records the outcome of one recipient's lookup.
    pub fn record(&mut self, permit: bool)
        ensures
            final(self)@ == old(self)@.push(permit),
    {
        self.results.push(permit);
    }

    /// How many recipients the current block has recorded so far.
    pub fn recorded(&self) -> (n: usize)
        ensures
            n == self@.len(),
    {
        self.results.len()
    }
}

/// A block with no recorded recipients is never valid: it is always
/// answered with the defer reply, never with permit.
pub proof fn lemma_empty_block_defers(rs: Seq<bool>)
    requires
        rs.len() == 0,
    ensures
        policy_reply_of(rs) == defer_reply(),
{
}

/// One failed recipient makes the whole block defer, whatever the others
/// resolved to.
pub proof fn lemma_failed_recipient_defers(rs: Seq<bool>, k: int)
    requires
        0 <= k < rs.len(),
        !rs[k],
    ensures
        policy_reply_of(rs) == defer_reply(),
{
}

/// A block in which at least one recipient was recorded and every
/// recipient resolved is answered with the permit reply.
pub proof fn lemma_all_resolved_permits(rs: Seq<bool>)
    requires
        rs.len() > 0,
        forall|k: int| 0 <= k < rs.len() ==> rs[k],
    ensures
        policy_reply_of(rs) == permit_reply(),
{
}

} // verus!
