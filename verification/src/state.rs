//! The ledger state and its operations.
//!
//! A [`Contract`] owns the ordered campaign collection and the flat donation
//! history. Each operation is specified against an abstract [`ContractView`]
//! by a spec-level transition function, so the exact effect of every call is
//! pinned down, error cases included.

use vstd::prelude::*;

verus! {

/// Settlement units in one native currency unit: donations are requested in
/// whole native units and settled in these indivisible units.
pub const ONE_NEAR: u128 = 1_000_000_000_000_000_000_000_000;

/// Why an operation was refused (or, for a donation, why it did not settle).
#[derive(Clone, Copy, Debug, PartialEq, Eq, Structural)]
pub enum ContractError {
    /// Malformed creation arguments, or a collection at its machine bound.
    InvalidInput,
    /// The identifier is outside the valid range.
    NotFound,
    /// Unit conversion or accumulation would exceed the representable range.
    ArithmeticOverflow,
    /// The external transfer did not complete; recorded on the donation,
    /// never fatal to the rest of the state.
    TransferFailure,
}

/// Where a donation stands relative to its external transfer.
#[derive(Clone, Copy, Debug, PartialEq, Eq, Structural)]
pub enum Outcome {
    /// The transfer was requested and its result is not yet known.
    Pending,
    /// The transfer succeeded and the campaign total includes this amount.
    Settled,
    /// The transfer failed; the record is kept for auditability.
    Failed,
}

/// One crowdfunding campaign.
#[derive(Debug, PartialEq)]
pub struct Crowdfund {
    /// Position in the registry; unique, stable, never reused.
    pub id: u64,
    pub title: String,
    /// Funding target, in settlement units.
    pub target: u128,
    pub description: String,
    /// Always equal to the length of `votes`.
    pub total_votes: u64,
    /// Voter identities, append-only; duplicates are accepted.
    pub votes: Vec<String>,
    /// Sum of the settlement amounts of this campaign's settled donations.
    pub total_donations: u128,
}

/// One donation attempt, kept whatever its outcome.
#[derive(Debug, PartialEq)]
pub struct Donation {
    pub crowdfund_id: u64,
    pub donor: String,
    /// The amount the caller asked to donate, in native units.
    pub requested: u128,
    /// `requested` converted to settlement units.
    pub settlement: u128,
    pub outcome: Outcome,
}

/// The root aggregate: owner identity, campaigns, and the donation history.
#[derive(Debug, PartialEq)]
pub struct Contract {
    /// Set once at initialization, immutable afterwards.
    pub owner: String,
    pub crowdfunds: Vec<Crowdfund>,
    pub donations: Vec<Donation>,
}

/// Abstract value of a [`Crowdfund`].
#[verifier::ext_equal]
pub struct CrowdfundView {
    pub id: u64,
    pub title: Seq<char>,
    pub target: u128,
    pub description: Seq<char>,
    pub total_votes: u64,
    pub votes: Seq<Seq<char>>,
    pub total_donations: u128,
}

/// Abstract value of a [`Donation`].
#[verifier::ext_equal]
pub struct DonationView {
    pub crowdfund_id: u64,
    pub donor: Seq<char>,
    pub requested: u128,
    pub settlement: u128,
    pub outcome: Outcome,
}

/// Abstract value of a [`Contract`].
#[verifier::ext_equal]
pub struct ContractView {
    pub owner: Seq<char>,
    pub crowdfunds: Seq<CrowdfundView>,
    pub donations: Seq<DonationView>,
}

impl View for Crowdfund {
    type V = CrowdfundView;

    open spec fn view(&self) -> CrowdfundView {
        CrowdfundView {
            id: self.id,
            title: self.title@,
            target: self.target,
            description: self.description@,
            total_votes: self.total_votes,
            votes: self.votes.deep_view(),
            total_donations: self.total_donations,
        }
    }
}

impl DeepView for Crowdfund {
    type V = CrowdfundView;

    open spec fn deep_view(&self) -> CrowdfundView {
        self.view()
    }
}

impl View for Donation {
    type V = DonationView;

    open spec fn view(&self) -> DonationView {
        DonationView {
            crowdfund_id: self.crowdfund_id,
            donor: self.donor@,
            requested: self.requested,
            settlement: self.settlement,
            outcome: self.outcome,
        }
    }
}

impl DeepView for Donation {
    type V = DonationView;

    open spec fn deep_view(&self) -> DonationView {
        self.view()
    }
}

impl View for Contract {
    type V = ContractView;

    open spec fn view(&self) -> ContractView {
        ContractView {
            owner: self.owner@,
            crowdfunds: self.crowdfunds.deep_view(),
            donations: self.donations.deep_view(),
        }
    }
}

/// What donation `d` contributes to the settled total of campaign `id`:
/// its settlement amount if it targets `id` and has settled, zero otherwise.
pub open spec fn donation_contrib(d: DonationView, id: u64) -> int {
    if d.crowdfund_id == id && d.outcome is Settled {
        d.settlement as int
    } else {
        0
    }
}

/// Sum of the settlement amounts of the settled donations targeting `id`.
pub open spec fn settled_sum(ds: Seq<DonationView>, id: u64) -> int
    decreases ds.len(),
{
    if ds.len() == 0 {
        0
    } else {
        settled_sum(ds.drop_last(), id) + donation_contrib(ds.last(), id)
    }
}

impl CrowdfundView {
    /// The vote tally is exactly the number of recorded voters.
    pub open spec fn wf(self) -> bool {
        self.total_votes == self.votes.len()
    }
}

impl DonationView {
    /// The donation targets an existing campaign and its settlement amount
    /// is its requested amount converted at the fixed factor.
    pub open spec fn wf(self, n_crowdfunds: nat) -> bool {
        &&& self.crowdfund_id < n_crowdfunds
        &&& self.settlement == self.requested * ONE_NEAR
    }
}

impl ContractView {
    /// The state invariant: identifiers are positions, every campaign's
    /// tally matches its voter list, every donation is well formed, and
    /// every campaign total is exactly the sum of its settled donations.
    pub open spec fn wf(self) -> bool {
        &&& forall|i: int|
            0 <= i < self.crowdfunds.len() ==> (#[trigger] self.crowdfunds[i]).id == i
                && self.crowdfunds[i].wf()
        &&& forall|j: int|
            0 <= j < self.donations.len() ==> (#[trigger] self.donations[j]).wf(
                self.crowdfunds.len(),
            )
        &&& forall|i: int|
            0 <= i < self.crowdfunds.len() ==> (#[trigger] self.crowdfunds[i]).total_donations
                == settled_sum(self.donations, i as u64)
    }
}

/// Effect of `Contract::add_crowdfund` on the abstract state. An empty
/// title or description is refused, as is a registry already holding
/// `u64::MAX` campaigns — the identifier type's machine bound.
pub open spec fn spec_add_crowdfund(
    s: ContractView,
    title: Seq<char>,
    target: u128,
    description: Seq<char>,
) -> (ContractView, Result<u64, ContractError>) {
    if title.len() == 0 || description.len() == 0 || s.crowdfunds.len() >= u64::MAX {
        (s, Err(ContractError::InvalidInput))
    } else {
        let cf = CrowdfundView {
            id: s.crowdfunds.len() as u64,
            title: title,
            target: target,
            description: description,
            total_votes: 0,
            votes: Seq::empty(),
            total_donations: 0,
        };
        (
            ContractView { crowdfunds: s.crowdfunds.push(cf), ..s },
            Ok(s.crowdfunds.len() as u64),
        )
    }
}

/// Effect of `Contract::add_vote` on the abstract state. A voter list
/// already holding `u64::MAX` entries — the tally's machine bound — is
/// refused rather than overflowed.
pub open spec fn spec_add_vote(s: ContractView, id: int, voter: Seq<char>) -> (
    ContractView,
    Result<(), ContractError>,
) {
    if !(0 <= id < s.crowdfunds.len()) {
        (s, Err(ContractError::NotFound))
    } else if s.crowdfunds[id].votes.len() >= u64::MAX {
        (s, Err(ContractError::InvalidInput))
    } else {
        let cf = s.crowdfunds[id];
        let cf2 = CrowdfundView {
            total_votes: (cf.votes.len() + 1) as u64,
            votes: cf.votes.push(voter),
            ..cf
        };
        (ContractView { crowdfunds: s.crowdfunds.update(id, cf2), ..s }, Ok(()))
    }
}

/// Effect of `Contract::add_donation` on the abstract state: on success the
/// result carries the new donation's position in the history and the amount,
/// in settlement units, that the caller must hand to the transfer facility.
pub open spec fn spec_add_donation(s: ContractView, id: int, amount: u128, donor: Seq<char>) -> (
    ContractView,
    Result<(int, u128), ContractError>,
) {
    if !(0 <= id < s.crowdfunds.len()) {
        (s, Err(ContractError::NotFound))
    } else if amount * ONE_NEAR > u128::MAX {
        (s, Err(ContractError::ArithmeticOverflow))
    } else {
        let d = DonationView {
            crowdfund_id: id as u64,
            donor: donor,
            requested: amount,
            settlement: (amount * ONE_NEAR) as u128,
            outcome: Outcome::Pending,
        };
        (
            ContractView { donations: s.donations.push(d), ..s },
            Ok((s.donations.len() as int, (amount * ONE_NEAR) as u128)),
        )
    }
}

/// Effect of `Contract::reconcile_donation` on the abstract state.
pub open spec fn spec_reconcile_donation(s: ContractView, index: int, success: bool) -> (
    ContractView,
    Result<(), ContractError>,
) {
    if !(0 <= index < s.donations.len()) || !(s.donations[index].outcome is Pending) {
        (s, Err(ContractError::NotFound))
    } else {
        let d = s.donations[index];
        if !success {
            let d2 = DonationView { outcome: Outcome::Failed, ..d };
            (
                ContractView { donations: s.donations.update(index, d2), ..s },
                Err(ContractError::TransferFailure),
            )
        } else if !(d.crowdfund_id < s.crowdfunds.len()) {
            (s, Err(ContractError::NotFound))
        } else if s.crowdfunds[d.crowdfund_id as int].total_donations + d.settlement
            > u128::MAX {
            (s, Err(ContractError::ArithmeticOverflow))
        } else {
            let d2 = DonationView { outcome: Outcome::Settled, ..d };
            let cf = s.crowdfunds[d.crowdfund_id as int];
            let cf2 = CrowdfundView {
                total_donations: (cf.total_donations + d.settlement) as u128,
                ..cf
            };
            (
                ContractView {
                    crowdfunds: s.crowdfunds.update(d.crowdfund_id as int, cf2),
                    donations: s.donations.update(index, d2),
                    ..s
                },
                Ok(()),
            )
        }
    }
}

/// Appending a donation adds exactly its contribution to every campaign's
/// settled sum.
pub proof fn lemma_settled_sum_push(ds: Seq<DonationView>, d: DonationView, id: u64)
    ensures
        settled_sum(ds.push(d), id) == settled_sum(ds, id) + donation_contrib(d, id),
{
    assert(ds.push(d).drop_last() =~= ds);
}

/// Replacing one donation record shifts every campaign's settled sum by the
/// difference of the old and new contributions.
pub proof fn lemma_settled_sum_update(ds: Seq<DonationView>, j: int, d2: DonationView, id: u64)
    requires
        0 <= j < ds.len(),
    ensures
        settled_sum(ds.update(j, d2), id) == settled_sum(ds, id) - donation_contrib(ds[j], id)
            + donation_contrib(d2, id),
    decreases ds.len(),
{
    let ds2 = ds.update(j, d2);
    if j == ds.len() - 1 {
        assert(ds2.drop_last() =~= ds.drop_last());
        assert(ds2.last() == d2);
    } else {
        assert(ds2.drop_last() =~= ds.drop_last().update(j, d2));
        lemma_settled_sum_update(ds.drop_last(), j, d2, id);
        assert(ds2.last() == ds.last());
        assert(ds.drop_last()[j] == ds[j]);
    }
}

/// A campaign that no donation targets has a settled sum of zero.
pub proof fn lemma_settled_sum_absent(ds: Seq<DonationView>, id: u64)
    requires
        forall|k: int| 0 <= k < ds.len() ==> (#[trigger] ds[k]).crowdfund_id != id,
    ensures
        settled_sum(ds, id) == 0,
    decreases ds.len(),
{
    if ds.len() > 0 {
        lemma_settled_sum_absent(ds.drop_last(), id);
    }
}

/// Registering a campaign preserves the state invariant.
pub proof fn lemma_add_crowdfund_wf(
    s: ContractView,
    title: Seq<char>,
    target: u128,
    description: Seq<char>,
)
    requires
        s.wf(),
    ensures
        spec_add_crowdfund(s, title, target, description).0.wf(),
{
    let s1 = spec_add_crowdfund(s, title, target, description).0;
    if !(title.len() == 0 || description.len() == 0 || s.crowdfunds.len() >= u64::MAX) {
        assert forall|k: int| 0 <= k < s1.donations.len() implies (#[trigger] s1.donations[k]).wf(
            s1.crowdfunds.len(),
        ) by {
            assert(s.donations[k].wf(s.crowdfunds.len()));
        }
        assert forall|i: int| 0 <= i < s1.crowdfunds.len() implies (
        #[trigger] s1.crowdfunds[i]).total_donations == settled_sum(s1.donations, i as u64) by {
            if i < s.crowdfunds.len() {
                assert(s.crowdfunds[i].total_donations == settled_sum(s.donations, i as u64));
            } else {
                assert forall|k: int| 0 <= k < s1.donations.len() implies (
                #[trigger] s1.donations[k]).crowdfund_id != (i as u64) by {
                    assert(s.donations[k].wf(s.crowdfunds.len()));
                }
                lemma_settled_sum_absent(s1.donations, i as u64);
            }
        }
    }
}

/// Recording a vote preserves the state invariant.
pub proof fn lemma_add_vote_wf(s: ContractView, id: int, voter: Seq<char>)
    requires
        s.wf(),
    ensures
        spec_add_vote(s, id, voter).0.wf(),
{
    let s1 = spec_add_vote(s, id, voter).0;
    if 0 <= id < s.crowdfunds.len() && s.crowdfunds[id].votes.len() < u64::MAX {
        assert forall|i: int| 0 <= i < s1.crowdfunds.len() implies (
        #[trigger] s1.crowdfunds[i]).total_donations == settled_sum(s1.donations, i as u64) by {
            assert(s.crowdfunds[i].total_donations == settled_sum(s.donations, i as u64));
        }
    }
}

/// Accepting a donation preserves the state invariant: the new record is
/// `Pending` and contributes nothing to any settled sum yet.
pub proof fn lemma_add_donation_wf(s: ContractView, id: int, amount: u128, donor: Seq<char>)
    requires
        s.wf(),
    ensures
        spec_add_donation(s, id, amount, donor).0.wf(),
{
    let s1 = spec_add_donation(s, id, amount, donor).0;
    if 0 <= id < s.crowdfunds.len() && amount * ONE_NEAR <= u128::MAX {
        assert(s.crowdfunds[id].id == id);
        let d = s1.donations.last();
        assert forall|i: int| 0 <= i < s1.crowdfunds.len() implies (
        #[trigger] s1.crowdfunds[i]).total_donations == settled_sum(s1.donations, i as u64) by {
            lemma_settled_sum_push(s.donations, d, i as u64);
            assert(s.crowdfunds[i].total_donations == settled_sum(s.donations, i as u64));
        }
    }
}

/// Reconciling a donation preserves the state invariant: on success the
/// campaign's total and the donation's contribution rise together; on
/// failure neither changes.
pub proof fn lemma_reconcile_donation_wf(s: ContractView, index: int, success: bool)
    requires
        s.wf(),
    ensures
        spec_reconcile_donation(s, index, success).0.wf(),
{
    let s1 = spec_reconcile_donation(s, index, success).0;
    if 0 <= index < s.donations.len() && s.donations[index].outcome is Pending {
        let d = s.donations[index];
        assert(d.wf(s.crowdfunds.len()));
        if !success {
            let d2 = s1.donations[index];
            assert forall|i: int| 0 <= i < s1.crowdfunds.len() implies (
            #[trigger] s1.crowdfunds[i]).total_donations == settled_sum(s1.donations, i as u64) by {
                lemma_settled_sum_update(s.donations, index, d2, i as u64);
                assert(s.crowdfunds[i].total_donations == settled_sum(s.donations, i as u64));
            }
        } else if d.crowdfund_id < s.crowdfunds.len() && s.crowdfunds[
            d.crowdfund_id as int].total_donations + d.settlement <= u128::MAX {
            let d2 = s1.donations[index];
            assert forall|i: int| 0 <= i < s1.crowdfunds.len() implies (
            #[trigger] s1.crowdfunds[i]).total_donations == settled_sum(s1.donations, i as u64) by {
                lemma_settled_sum_update(s.donations, index, d2, i as u64);
                assert(s.crowdfunds[i].total_donations == settled_sum(s.donations, i as u64));
            }
        }
    }
}

impl Crowdfund {
    /// An independent copy with the same abstract value.
    pub fn snapshot(&self) -> (r: Crowdfund)
        ensures
            r@ == self@,
    {
        let mut votes: Vec<String> = Vec::new();
        let mut k: usize = 0;
        while k < self.votes.len()
            invariant
                k <= self.votes@.len(),
                votes@ == self.votes@.take(k as int),
            decreases self.votes@.len() - k,
        {
            votes.push(self.votes[k].clone());
            proof {
                assert(votes@ =~= self.votes@.take(k + 1));
            }
            k = k + 1;
        }
        proof {
            assert(votes@ =~= self.votes@);
        }
        let r = Crowdfund {
            id: self.id,
            title: self.title.clone(),
            target: self.target,
            description: self.description.clone(),
            total_votes: self.total_votes,
            votes,
            total_donations: self.total_donations,
        };
        proof {
            assert(r@ =~= self@);
        }
        r
    }
}

impl Contract {
    /// Create the ledger: the given owner, no campaigns, no donations.
    pub fn init(owner: String) -> (c: Contract)
        ensures
            c@ == (ContractView {
                owner: owner@,
                crowdfunds: Seq::<CrowdfundView>::empty(),
                donations: Seq::<DonationView>::empty(),
            }),
            c@.wf(),
    {
        let crowdfunds: Vec<Crowdfund> = Vec::new();
        let donations: Vec<Donation> = Vec::new();
        let c = Contract { owner, crowdfunds, donations };
        proof {
            assert(c@.crowdfunds =~= Seq::<CrowdfundView>::empty());
            assert(c@.donations =~= Seq::<DonationView>::empty());
        }
        c
    }

    /// How many campaigns exist.
    pub fn crowdfund_count(&self) -> (n: usize)
        ensures
            n == self@.crowdfunds.len(),
    {
        self.crowdfunds.len()
    }

    /// The accumulated settled donations for campaign `id`, or `NotFound`
    /// when `id` is outside the valid range.
    pub fn get_total_donations(&self, id: usize) -> (r: Result<u128, ContractError>)
        ensures
            id < self@.crowdfunds.len() ==> r == Ok::<u128, ContractError>(
                self@.crowdfunds[id as int].total_donations,
            ),
            id >= self@.crowdfunds.len() ==> r == Err::<u128, ContractError>(
                ContractError::NotFound,
            ),
    {
        if id < self.crowdfunds.len() {
            Ok(self.crowdfunds[id].total_donations)
        } else {
            Err(ContractError::NotFound)
        }
    }

    /// Register a campaign: the next sequential identifier, zero votes, zero
    /// donations. Rejects an empty title or description with `InvalidInput`
    /// and leaves the state untouched then.
    pub fn add_crowdfund(&mut self, title: String, donate: u128, description: String) -> (r:
        Result<u64, ContractError>)
        requires
            old(self)@.wf(),
        ensures
            final(self)@.wf(),
            final(self)@ == spec_add_crowdfund(old(self)@, title@, donate, description@).0,
            r == spec_add_crowdfund(old(self)@, title@, donate, description@).1,
    {
        if title.as_str().is_empty() || description.as_str().is_empty() {
            return Err(ContractError::InvalidInput);
        }
        let n: usize = self.crowdfunds.len();
        let id: u64 = n as u64;
        if id == u64::MAX {
            return Err(ContractError::InvalidInput);
        }
        let ghost s0 = old(self)@;
        let ghost tv = title@;
        let ghost dv = description@;
        let cf = Crowdfund {
            id,
            title,
            target: donate,
            description,
            total_votes: 0,
            votes: Vec::new(),
            total_donations: 0,
        };
        let ghost cfv = cf@;
        self.crowdfunds.push(cf);
        proof {
            assert(cfv.votes =~= Seq::<Seq<char>>::empty());
            let s1 = self@;
            assert(s1.crowdfunds =~= s0.crowdfunds.push(cfv));
            assert(s1 =~= spec_add_crowdfund(s0, tv, donate, dv).0);
            lemma_add_crowdfund_wf(s0, tv, donate, dv);
        }
        Ok(id)
    }

    /// An immutable snapshot of the campaign collection, in registry order.
    pub fn list_crowdfunds(&self) -> (r: Vec<Crowdfund>)
        ensures
            r.deep_view() == self@.crowdfunds,
    {
        let mut r: Vec<Crowdfund> = Vec::new();
        let mut k: usize = 0;
        while k < self.crowdfunds.len()
            invariant
                k <= self.crowdfunds@.len(),
                r.deep_view() == self@.crowdfunds.take(k as int),
            decreases self.crowdfunds@.len() - k,
        {
            let ghost pre = r.deep_view();
            r.push(self.crowdfunds[k].snapshot());
            proof {
                assert forall|i: int| 0 <= i < pre.len() + 1 implies r.deep_view()[i]
                    == self@.crowdfunds.take(k + 1)[i] by {
                    if i < pre.len() {
                        assert(r.deep_view()[i] == pre[i]);
                    } else {
                        assert(r.deep_view()[i] == r@[i].deep_view());
                    }
                }
                assert(r.deep_view() =~= self@.crowdfunds.take(k + 1));
            }
            k = k + 1;
        }
        proof {
            assert(r.deep_view() =~= self@.crowdfunds);
        }
        r
    }

    /// Record a vote: appends `voter` to campaign `id` and raises the tally
    /// by exactly one, atomically. Fails with `NotFound` for an invalid id
    /// and leaves the state untouched then.
    pub fn add_vote(&mut self, id: usize, voter: String) -> (r: Result<(), ContractError>)
        requires
            old(self)@.wf(),
        ensures
            final(self)@.wf(),
            final(self)@ == spec_add_vote(old(self)@, id as int, voter@).0,
            r == spec_add_vote(old(self)@, id as int, voter@).1,
    {
        if id >= self.crowdfunds.len() {
            return Err(ContractError::NotFound);
        }
        let n_votes: usize = self.crowdfunds[id].votes.len();
        if n_votes as u64 == u64::MAX {
            return Err(ContractError::InvalidInput);
        }
        let ghost s0 = old(self)@;
        let ghost vv = voter@;
        let cf = &mut self.crowdfunds[id];
        cf.votes.push(voter);
        cf.total_votes = (n_votes as u64) + 1;
        proof {
            let s1 = self@;
            let cf2 = spec_add_vote(s0, id as int, vv).0.crowdfunds[id as int];
            assert(s1.crowdfunds[id as int].votes =~= s0.crowdfunds[id as int].votes.push(vv));
            assert(s1.crowdfunds[id as int] =~= cf2);
            assert(s1.crowdfunds =~= s0.crowdfunds.update(id as int, cf2));
            assert(s1 =~= spec_add_vote(s0, id as int, vv).0);
            assert(s1.donations =~= s0.donations);
        }
        Ok(())
    }

    /// Accept a donation for campaign `id`: converts `amount` to settlement
    /// units at the fixed factor, appends a `Pending` record for `donor`,
    /// and returns the record's position in the history together with the
    /// amount the caller must hand to the external transfer facility. The
    /// campaign total is not touched until `reconcile_donation` confirms the
    /// transfer. Fails with `NotFound` for an invalid id and with
    /// `ArithmeticOverflow` when the conversion does not fit; the state is
    /// untouched then.
    pub fn add_donation(&mut self, id: usize, amount: u128, donor: String) -> (r: Result<
        (usize, u128),
        ContractError,
    >)
        requires
            old(self)@.wf(),
        ensures
            final(self)@.wf(),
            final(self)@ == spec_add_donation(old(self)@, id as int, amount, donor@).0,
            (match r {
                Ok(p) => spec_add_donation(old(self)@, id as int, amount, donor@).1 == Ok::<
                    (int, u128),
                    ContractError,
                >((p.0 as int, p.1)),
                Err(e) => spec_add_donation(old(self)@, id as int, amount, donor@).1 == Err::<
                    (int, u128),
                    ContractError,
                >(e),
            }),
    {
        if id >= self.crowdfunds.len() {
            return Err(ContractError::NotFound);
        }
        let settlement: u128 = match amount.checked_mul(ONE_NEAR) {
            Some(v) => v,
            None => {
                return Err(ContractError::ArithmeticOverflow);
            },
        };
        let ghost s0 = old(self)@;
        let ghost dnv = donor@;
        let d = Donation {
            crowdfund_id: id as u64,
            donor,
            requested: amount,
            settlement,
            outcome: Outcome::Pending,
        };
        let ghost dv = d@;
        let index: usize = self.donations.len();
        self.donations.push(d);
        proof {
            let s1 = self@;
            assert(s1.donations =~= s0.donations.push(dv));
            assert(s1 =~= spec_add_donation(s0, id as int, amount, dnv).0);
            lemma_add_donation_wf(s0, id as int, amount, dnv);
        }
        Ok((index, settlement))
    }

    /// Apply the outcome of the external transfer for the pending donation at
    /// `index`, atomically: on success its outcome becomes `Settled` and its
    /// campaign's total rises by exactly its settlement amount; on failure
    /// its outcome becomes `Failed`, no total changes, and the failure is
    /// surfaced as `TransferFailure`. An index that does not name a pending
    /// donation fails with `NotFound` and leaves the state untouched.
    pub fn reconcile_donation(&mut self, index: usize, success: bool) -> (r: Result<
        (),
        ContractError,
    >)
        requires
            old(self)@.wf(),
        ensures
            final(self)@.wf(),
            final(self)@ == spec_reconcile_donation(old(self)@, index as int, success).0,
            r == spec_reconcile_donation(old(self)@, index as int, success).1,
    {
        if index >= self.donations.len() {
            return Err(ContractError::NotFound);
        }
        let is_pending = match self.donations[index].outcome {
            Outcome::Pending => true,
            _ => false,
        };
        if !is_pending {
            return Err(ContractError::NotFound);
        }
        let ghost s0 = old(self)@;
        if !success {
            let d = &mut self.donations[index];
            d.outcome = Outcome::Failed;
            proof {
                let s1 = self@;
                let d2 = spec_reconcile_donation(s0, index as int, success).0.donations[
                    index as int];
                assert(s1.donations[index as int] =~= d2);
                assert(s1.donations =~= s0.donations.update(index as int, d2));
                assert(s1 =~= spec_reconcile_donation(s0, index as int, success).0);
                lemma_reconcile_donation_wf(s0, index as int, success);
            }
            return Err(ContractError::TransferFailure);
        }
        let cid_u64: u64 = self.donations[index].crowdfund_id;
        let n_cf: usize = self.crowdfunds.len();
        proof {
            assert(s0.donations[index as int].wf(s0.crowdfunds.len()));
            assert((cid_u64 as int) < (n_cf as int));
        }
        let cid: usize = cid_u64 as usize;
        let settlement: u128 = self.donations[index].settlement;
        let total: u128 = self.crowdfunds[cid].total_donations;
        match total.checked_add(settlement) {
            None => Err(ContractError::ArithmeticOverflow),
            Some(new_total) => {
                let cf = &mut self.crowdfunds[cid];
                cf.total_donations = new_total;
                let d = &mut self.donations[index];
                d.outcome = Outcome::Settled;
                proof {
                    let s1 = self@;
                    let spec_s1 = spec_reconcile_donation(s0, index as int, success).0;
                    let d2 = spec_s1.donations[index as int];
                    let cf2 = spec_s1.crowdfunds[cid as int];
                    assert(s1.donations[index as int] =~= d2);
                    assert(s1.donations =~= s0.donations.update(index as int, d2));
                    assert(s1.crowdfunds[cid as int] =~= cf2);
                    assert(s1.crowdfunds =~= s0.crowdfunds.update(cid as int, cf2));
                    assert(s1 =~= spec_s1);
                    lemma_reconcile_donation_wf(s0, index as int, success);
                }
                Ok(())
            },
        }
    }
}

} // verus!
