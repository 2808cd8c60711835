//! Guarantees that span several operations or whole call histories.
//!
//! [`step`] and [`run`] interpret a sequence of ledger operations at the
//! specification level, exactly as the executable methods behave (their
//! contracts equate each call with the matching transition function). The
//! lemmas below state the ledger's global laws over such histories.

use vstd::prelude::*;

use crate::state::{
    lemma_add_crowdfund_wf, lemma_add_donation_wf, lemma_add_vote_wf, lemma_reconcile_donation_wf,
    spec_add_crowdfund, spec_add_donation, spec_add_vote, spec_reconcile_donation, ContractError,
    ContractView, Outcome,
};

verus! {

/// One ledger operation, at the specification level.
pub enum Op {
    AddCrowdfund { title: Seq<char>, target: u128, description: Seq<char> },
    AddVote { id: int, voter: Seq<char> },
    AddDonation { id: int, amount: u128, donor: Seq<char> },
    ReconcileDonation { index: int, success: bool },
}

/// The state after one operation. A refused operation leaves the state as it
/// was, so this is total.
pub open spec fn step(s: ContractView, op: Op) -> ContractView {
    match op {
        Op::AddCrowdfund { title, target, description } => spec_add_crowdfund(
            s,
            title,
            target,
            description,
        ).0,
        Op::AddVote { id, voter } => spec_add_vote(s, id, voter).0,
        Op::AddDonation { id, amount, donor } => spec_add_donation(s, id, amount, donor).0,
        Op::ReconcileDonation { index, success } => spec_reconcile_donation(s, index, success).0,
    }
}

/// Whether the operation reports success on `s`.
pub open spec fn step_ok(s: ContractView, op: Op) -> bool {
    match op {
        Op::AddCrowdfund { title, target, description } => spec_add_crowdfund(
            s,
            title,
            target,
            description,
        ).1 is Ok,
        Op::AddVote { id, voter } => spec_add_vote(s, id, voter).1 is Ok,
        Op::AddDonation { id, amount, donor } => spec_add_donation(s, id, amount, donor).1 is Ok,
        Op::ReconcileDonation { index, success } => spec_reconcile_donation(s, index, success).1
            is Ok,
    }
}

/// The state after a whole sequence of operations, applied left to right.
pub open spec fn run(s: ContractView, ops: Seq<Op>) -> ContractView
    decreases ops.len(),
{
    if ops.len() == 0 {
        s
    } else {
        run(step(s, ops.first()), ops.drop_first())
    }
}

/// How many campaign registrations in `ops` report success when run from `s`.
pub open spec fn successful_adds(s: ContractView, ops: Seq<Op>) -> int
    decreases ops.len(),
{
    if ops.len() == 0 {
        0
    } else {
        (if ops.first() is AddCrowdfund && step_ok(s, ops.first()) {
            1int
        } else {
            0int
        }) + successful_adds(step(s, ops.first()), ops.drop_first())
    }
}

/// Every operation preserves the state invariant.
pub proof fn lemma_step_wf(s: ContractView, op: Op)
    requires
        s.wf(),
    ensures
        step(s, op).wf(),
{
    match op {
        Op::AddCrowdfund { title, target, description } => lemma_add_crowdfund_wf(
            s,
            title,
            target,
            description,
        ),
        Op::AddVote { id, voter } => lemma_add_vote_wf(s, id, voter),
        Op::AddDonation { id, amount, donor } => lemma_add_donation_wf(s, id, amount, donor),
        Op::ReconcileDonation { index, success } => lemma_reconcile_donation_wf(s, index, success),
    }
}

/// Any history starting from a well-formed state stays well formed; in
/// particular every campaign total always equals the settled sum of the
/// donations targeting it.
pub proof fn lemma_run_wf(s: ContractView, ops: Seq<Op>)
    requires
        s.wf(),
    ensures
        run(s, ops).wf(),
    decreases ops.len(),
{
    if ops.len() > 0 {
        lemma_step_wf(s, ops.first());
        lemma_run_wf(step(s, ops.first()), ops.drop_first());
    }
}

/// One operation changes the campaign count exactly when it is a successful
/// registration, and then by one.
pub proof fn lemma_step_count(s: ContractView, op: Op)
    ensures
        step(s, op).crowdfunds.len() == s.crowdfunds.len() + (if op is AddCrowdfund && step_ok(
            s,
            op,
        ) {
            1int
        } else {
            0int
        }),
{
}

/// The campaign count after any history equals the count before plus the
/// number of registrations that reported success.
pub proof fn lemma_campaign_count(s: ContractView, ops: Seq<Op>)
    ensures
        run(s, ops).crowdfunds.len() == s.crowdfunds.len() + successful_adds(s, ops),
    decreases ops.len(),
{
    if ops.len() > 0 {
        lemma_step_count(s, ops.first());
        lemma_campaign_count(step(s, ops.first()), ops.drop_first());
    }
}

/// No operation removes a campaign or lowers its settled total; the only
/// rise comes from reconciling a pending donation successfully, and is then
/// exactly that donation's settlement amount.
pub proof fn lemma_step_total_monotonic(s: ContractView, op: Op, i: int)
    requires
        0 <= i < s.crowdfunds.len(),
    ensures
        step(s, op).crowdfunds.len() >= s.crowdfunds.len(),
        step(s, op).crowdfunds[i].total_donations >= s.crowdfunds[i].total_donations,
        step(s, op).crowdfunds[i].total_donations > s.crowdfunds[i].total_donations ==> (
        op matches Op::ReconcileDonation { index, success } && success && 0 <= index
            < s.donations.len() && s.donations[index].outcome is Pending
            && s.donations[index].crowdfund_id == i && step(s, op).crowdfunds[i].total_donations
            == s.crowdfunds[i].total_donations + s.donations[index].settlement && step(
            s,
            op,
        ).donations[index].outcome is Settled),
{
}

/// Over any history, a campaign's settled total never decreases.
pub proof fn lemma_run_total_monotonic(s: ContractView, ops: Seq<Op>, i: int)
    requires
        0 <= i < s.crowdfunds.len(),
    ensures
        run(s, ops).crowdfunds.len() >= s.crowdfunds.len(),
        run(s, ops).crowdfunds[i].total_donations >= s.crowdfunds[i].total_donations,
    decreases ops.len(),
{
    if ops.len() > 0 {
        lemma_step_total_monotonic(s, ops.first(), i);
        lemma_run_total_monotonic(step(s, ops.first()), ops.drop_first(), i);
    }
}

/// A vote on a valid campaign succeeds, appends the voter, and raises the
/// tally by exactly one; the tally equals the voter count before and after.
/// (The one input left out is a voter list already holding `u64::MAX`
/// entries, which no machine can build.)
pub proof fn lemma_add_vote_effect(s: ContractView, id: int, voter: Seq<char>)
    requires
        s.wf(),
        0 <= id < s.crowdfunds.len(),
        s.crowdfunds[id].votes.len() < u64::MAX,
    ensures
        spec_add_vote(s, id, voter).1 == Ok::<(), ContractError>(()),
        spec_add_vote(s, id, voter).0.crowdfunds[id].votes == s.crowdfunds[id].votes.push(voter),
        spec_add_vote(s, id, voter).0.crowdfunds[id].total_votes == s.crowdfunds[id].total_votes
            + 1,
        s.crowdfunds[id].total_votes == s.crowdfunds[id].votes.len(),
        spec_add_vote(s, id, voter).0.crowdfunds[id].total_votes == spec_add_vote(
            s,
            id,
            voter,
        ).0.crowdfunds[id].votes.len(),
{
}

/// An invalid campaign identifier is refused with `NotFound` and the state
/// is left exactly as it was, so its byte encoding is unchanged too.
pub proof fn lemma_invalid_id_rejected(
    s: ContractView,
    id: int,
    voter: Seq<char>,
    amount: u128,
    donor: Seq<char>,
)
    requires
        !(0 <= id < s.crowdfunds.len()),
    ensures
        spec_add_vote(s, id, voter) == (s, Err::<(), ContractError>(ContractError::NotFound)),
        spec_add_donation(s, id, amount, donor) == (
            s,
            Err::<(int, u128), ContractError>(ContractError::NotFound),
        ),
        crate::codec::enc_contract(spec_add_vote(s, id, voter).0) == crate::codec::enc_contract(s),
        crate::codec::enc_contract(spec_add_donation(s, id, amount, donor).0)
            == crate::codec::enc_contract(s),
{
}

/// A failed transfer is recorded and contained: the donation's outcome
/// becomes `Failed`, every campaign (and every other donation) is untouched,
/// and the failure is surfaced as `TransferFailure`.
pub proof fn lemma_failed_transfer(s: ContractView, index: int)
    requires
        s.wf(),
        0 <= index < s.donations.len(),
        s.donations[index].outcome is Pending,
    ensures
        spec_reconcile_donation(s, index, false).0.crowdfunds == s.crowdfunds,
        spec_reconcile_donation(s, index, false).0.donations[index].outcome is Failed,
        forall|j: int|
            0 <= j < s.donations.len() && j != index ==> spec_reconcile_donation(
                s,
                index,
                false,
            ).0.donations[j] == s.donations[j],
        spec_reconcile_donation(s, index, false).1 == Err::<(), ContractError>(
            ContractError::TransferFailure,
        ),
{
}

} // verus!
