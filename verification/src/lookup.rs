//! The outcome of one remote account lookup.
//!
//! The lookup itself is a single outbound HTTP call made outside the
//! library; every failure mode of that call (transport error, bad status,
//! bad payload) collapses into the one `Failed` outcome. On success the
//! decoded record carries a username and a member list, and this module
//! turns the record into the resolved identifier list: an empty member
//! list falls back to the single username, a non-empty one is taken
//! verbatim.

use vstd::prelude::*;

verus! {

/// What a lookup yields, at the specification level. A `Resolved` list is
/// never empty.
pub enum LookupOutcomeModel {
    Resolved(Seq<Seq<u8>>),
    Failed,
}

/// The outcome of one remote lookup: a non-empty list of resolved account
/// identifiers, or the single collapsed failure.
pub enum LookupOutcome {
    Resolved(Vec<Vec<u8>>),
    Failed,
}

impl View for LookupOutcome {
    type V = LookupOutcomeModel;

    open spec fn view(&self) -> LookupOutcomeModel {
        match self {
            LookupOutcome::Resolved(vs) => LookupOutcomeModel::Resolved(vs.deep_view()),
            LookupOutcome::Failed => LookupOutcomeModel::Failed,
        }
    }
}

/// The identifier list resolved from a decoded lookup record: the members
/// verbatim, or the username alone when the member list is empty.
pub open spec fn resolved_values(username: Seq<u8>, members: Seq<Seq<u8>>) -> Seq<Seq<u8>> {
    if members.len() == 0 {
        seq![username]
    } else {
        members
    }
}

/// Builds the successful outcome from the two fields of a decoded lookup
/// record.
pub fn outcome_from_record(username: Vec<u8>, members: Vec<Vec<u8>>) -> (o: LookupOutcome)
    ensures
        o@ == LookupOutcomeModel::Resolved(
            resolved_values(username@, members.deep_view()),
        ),
        o@ matches LookupOutcomeModel::Resolved(vs) && vs.len() > 0,
{
    if members.len() == 0 {
        let ghost u = username@;
        let mut vs: Vec<Vec<u8>> = Vec::new();
        vs.push(username);
        proof {
            assert(vs.deep_view() =~~= seq![u]);
        }
        LookupOutcome::Resolved(vs)
    } else {
        LookupOutcome::Resolved(members)
    }
}

} // verus!
