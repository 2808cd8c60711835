//! A stable, versioned binary form for the ledger state.
//!
//! Every integer is fixed-width little-endian; a string is its UTF-8 byte
//! length (as `u64`) followed by its UTF-8 bytes; a collection is its element
//! count (as `u64`) followed by its elements; the whole state is a schema
//! version followed by owner, campaigns, and donation history. Decoding is
//! proved to invert encoding: see [`lemma_codec_roundtrip`].

use vstd::bytes::*;
use vstd::prelude::*;
use vstd::slice::{slice_subrange, slice_to_vec};
use vstd::string::StrSliceExecFns;
use vstd::utf8::{decode_utf8, encode_utf8, encode_utf8_decode_utf8, encode_utf8_valid_utf8, valid_utf8};

use crate::state::{Contract, ContractView, Crowdfund, CrowdfundView, Donation, DonationView, Outcome};

verus! {

/// Schema version written at the head of every encoding.
pub const SCHEMA_VERSION: u64 = 1;

// ---------------------------------------------------------------------------
// Byte form of each component, at the specification level.
// ---------------------------------------------------------------------------

pub open spec fn enc_u64(x: u64) -> Seq<u8> {
    spec_u64_to_le_bytes(x)
}

pub open spec fn enc_u128(x: u128) -> Seq<u8> {
    spec_u128_to_le_bytes(x)
}

pub open spec fn enc_str(s: Seq<char>) -> Seq<u8> {
    enc_u64(encode_utf8(s).len() as u64) + encode_utf8(s)
}

pub open spec fn enc_outcome(o: Outcome) -> Seq<u8> {
    match o {
        Outcome::Pending => enc_u64(0),
        Outcome::Settled => enc_u64(1),
        Outcome::Failed => enc_u64(2),
    }
}

pub open spec fn enc_strs(ss: Seq<Seq<char>>) -> Seq<u8>
    decreases ss.len(),
{
    if ss.len() == 0 {
        Seq::empty()
    } else {
        enc_str(ss.first()) + enc_strs(ss.drop_first())
    }
}

pub open spec fn enc_crowdfund(c: CrowdfundView) -> Seq<u8> {
    enc_u64(c.id) + enc_str(c.title) + enc_u128(c.target) + enc_str(c.description) + enc_u64(
        c.total_votes,
    ) + enc_u64(c.votes.len() as u64) + enc_strs(c.votes) + enc_u128(c.total_donations)
}

pub open spec fn enc_crowdfunds(cs: Seq<CrowdfundView>) -> Seq<u8>
    decreases cs.len(),
{
    if cs.len() == 0 {
        Seq::empty()
    } else {
        enc_crowdfund(cs.first()) + enc_crowdfunds(cs.drop_first())
    }
}

pub open spec fn enc_donation(d: DonationView) -> Seq<u8> {
    enc_u64(d.crowdfund_id) + enc_str(d.donor) + enc_u128(d.requested) + enc_u128(d.settlement)
        + enc_outcome(d.outcome)
}

pub open spec fn enc_donations(ds: Seq<DonationView>) -> Seq<u8>
    decreases ds.len(),
{
    if ds.len() == 0 {
        Seq::empty()
    } else {
        enc_donation(ds.first()) + enc_donations(ds.drop_first())
    }
}

pub open spec fn enc_contract(s: ContractView) -> Seq<u8> {
    enc_u64(SCHEMA_VERSION) + enc_str(s.owner) + enc_u64(s.crowdfunds.len() as u64)
        + enc_crowdfunds(s.crowdfunds) + enc_u64(s.donations.len() as u64) + enc_donations(
        s.donations,
    )
}

// ---------------------------------------------------------------------------
// Machine bounds under which a value has a faithful byte form. Every value
// built by executable code satisfies them; the encoder certifies as much.
// ---------------------------------------------------------------------------

pub open spec fn str_encodable(s: Seq<char>) -> bool {
    encode_utf8(s).len() <= u64::MAX
}

pub open spec fn crowdfund_encodable(c: CrowdfundView) -> bool {
    &&& str_encodable(c.title)
    &&& str_encodable(c.description)
    &&& c.votes.len() <= u64::MAX
    &&& forall|i: int| 0 <= i < c.votes.len() ==> str_encodable(#[trigger] c.votes[i])
}

pub open spec fn donation_encodable(d: DonationView) -> bool {
    str_encodable(d.donor)
}

pub open spec fn view_encodable(s: ContractView) -> bool {
    &&& str_encodable(s.owner)
    &&& s.crowdfunds.len() <= u64::MAX
    &&& s.donations.len() <= u64::MAX
    &&& forall|i: int| 0 <= i < s.crowdfunds.len() ==> crowdfund_encodable(#[trigger] s.crowdfunds[i])
    &&& forall|j: int| 0 <= j < s.donations.len() ==> donation_encodable(#[trigger] s.donations[j])
}

// ---------------------------------------------------------------------------
// The byte form of a collection grows one element at a time.
// ---------------------------------------------------------------------------

proof fn lemma_enc_strs_snoc(ss: Seq<Seq<char>>, x: Seq<char>)
    ensures
        enc_strs(ss.push(x)) == enc_strs(ss) + enc_str(x),
    decreases ss.len(),
{
    if ss.len() == 0 {
        reveal_with_fuel(enc_strs, 2);
        assert(ss.push(x).drop_first() =~= Seq::<Seq<char>>::empty());
        assert(enc_strs(ss.push(x)) =~= enc_strs(ss) + enc_str(x));
    } else {
        assert(ss.push(x).drop_first() =~= ss.drop_first().push(x));
        lemma_enc_strs_snoc(ss.drop_first(), x);
        assert(enc_str(ss.first()) + (enc_strs(ss.drop_first()) + enc_str(x)) =~= (enc_str(
            ss.first(),
        ) + enc_strs(ss.drop_first())) + enc_str(x));
    }
}

proof fn lemma_enc_crowdfunds_snoc(cs: Seq<CrowdfundView>, x: CrowdfundView)
    ensures
        enc_crowdfunds(cs.push(x)) == enc_crowdfunds(cs) + enc_crowdfund(x),
    decreases cs.len(),
{
    if cs.len() == 0 {
        reveal_with_fuel(enc_crowdfunds, 2);
        assert(cs.push(x).drop_first() =~= Seq::<CrowdfundView>::empty());
        assert(enc_crowdfunds(cs.push(x)) =~= enc_crowdfunds(cs) + enc_crowdfund(x));
    } else {
        assert(cs.push(x).drop_first() =~= cs.drop_first().push(x));
        lemma_enc_crowdfunds_snoc(cs.drop_first(), x);
        assert(enc_crowdfund(cs.first()) + (enc_crowdfunds(cs.drop_first()) + enc_crowdfund(x))
            =~= (enc_crowdfund(cs.first()) + enc_crowdfunds(cs.drop_first())) + enc_crowdfund(x));
    }
}

proof fn lemma_enc_donations_snoc(ds: Seq<DonationView>, x: DonationView)
    ensures
        enc_donations(ds.push(x)) == enc_donations(ds) + enc_donation(x),
    decreases ds.len(),
{
    if ds.len() == 0 {
        reveal_with_fuel(enc_donations, 2);
        assert(ds.push(x).drop_first() =~= Seq::<DonationView>::empty());
        assert(enc_donations(ds.push(x)) =~= enc_donations(ds) + enc_donation(x));
    } else {
        assert(ds.push(x).drop_first() =~= ds.drop_first().push(x));
        lemma_enc_donations_snoc(ds.drop_first(), x);
        assert(enc_donation(ds.first()) + (enc_donations(ds.drop_first()) + enc_donation(x)) =~= (
        enc_donation(ds.first()) + enc_donations(ds.drop_first())) + enc_donation(x));
    }
}

// ---------------------------------------------------------------------------
// Encoders.
// ---------------------------------------------------------------------------

fn encode_u64(out: &mut Vec<u8>, x: u64)
    ensures
        final(out)@ == old(out)@ + enc_u64(x),
{
    let mut bs = u64_to_le_bytes(x);
    out.append(&mut bs);
}

fn encode_u128(out: &mut Vec<u8>, x: u128)
    ensures
        final(out)@ == old(out)@ + enc_u128(x),
{
    let mut bs = u128_to_le_bytes(x);
    out.append(&mut bs);
}

fn encode_str(out: &mut Vec<u8>, s: &String)
    ensures
        final(out)@ == old(out)@ + enc_str(s@),
        str_encodable(s@),
{
    let mut bs = s.as_str().as_bytes_vec();
    let n: u64 = bs.len() as u64;
    encode_u64(out, n);
    out.append(&mut bs);
    proof {
        assert(final(out)@ =~= old(out)@ + enc_str(s@));
    }
}

fn encode_outcome(out: &mut Vec<u8>, o: &Outcome)
    ensures
        final(out)@ == old(out)@ + enc_outcome(*o),
{
    match o {
        Outcome::Pending => encode_u64(out, 0),
        Outcome::Settled => encode_u64(out, 1),
        Outcome::Failed => encode_u64(out, 2),
    }
}

fn encode_strs(out: &mut Vec<u8>, ss: &Vec<String>)
    ensures
        final(out)@ == old(out)@ + enc_strs(ss.deep_view()),
        forall|i: int| 0 <= i < ss.deep_view().len() ==> str_encodable(#[trigger] ss.deep_view()[i]),
{
    let ghost base = out@;
    let mut k: usize = 0;
    while k < ss.len()
        invariant
            k <= ss@.len(),
            out@ == base + enc_strs(ss.deep_view().take(k as int)),
            forall|i: int| 0 <= i < k ==> str_encodable(#[trigger] ss.deep_view()[i]),
        decreases ss@.len() - k,
    {
        encode_str(out, &ss[k]);
        proof {
            let vs = ss.deep_view();
            assert(vs.take(k + 1) =~= vs.take(k as int).push(vs[k as int]));
            lemma_enc_strs_snoc(vs.take(k as int), vs[k as int]);
            assert(base + enc_strs(vs.take(k as int)) + enc_str(vs[k as int]) =~= base + enc_strs(
                vs.take(k + 1),
            ));
        }
        k = k + 1;
    }
    proof {
        assert(ss.deep_view().take(k as int) =~= ss.deep_view());
    }
}

fn encode_crowdfund(out: &mut Vec<u8>, c: &Crowdfund)
    ensures
        final(out)@ == old(out)@ + enc_crowdfund(c@),
        crowdfund_encodable(c@),
{
    encode_u64(out, c.id);
    encode_str(out, &c.title);
    encode_u128(out, c.target);
    encode_str(out, &c.description);
    encode_u64(out, c.total_votes);
    let m: u64 = c.votes.len() as u64;
    encode_u64(out, m);
    encode_strs(out, &c.votes);
    encode_u128(out, c.total_donations);
    proof {
        assert(final(out)@ =~= old(out)@ + enc_crowdfund(c@));
    }
}

fn encode_donation(out: &mut Vec<u8>, d: &Donation)
    ensures
        final(out)@ == old(out)@ + enc_donation(d@),
        donation_encodable(d@),
{
    encode_u64(out, d.crowdfund_id);
    encode_str(out, &d.donor);
    encode_u128(out, d.requested);
    encode_u128(out, d.settlement);
    encode_outcome(out, &d.outcome);
    proof {
        assert(final(out)@ =~= old(out)@ + enc_donation(d@));
    }
}

fn encode_crowdfunds(out: &mut Vec<u8>, cs: &Vec<Crowdfund>)
    ensures
        final(out)@ == old(out)@ + enc_crowdfunds(cs.deep_view()),
        forall|i: int|
            0 <= i < cs.deep_view().len() ==> crowdfund_encodable(#[trigger] cs.deep_view()[i]),
{
    let ghost base = out@;
    let mut k: usize = 0;
    while k < cs.len()
        invariant
            k <= cs@.len(),
            out@ == base + enc_crowdfunds(cs.deep_view().take(k as int)),
            forall|i: int| 0 <= i < k ==> crowdfund_encodable(#[trigger] cs.deep_view()[i]),
        decreases cs@.len() - k,
    {
        encode_crowdfund(out, &cs[k]);
        proof {
            let vs = cs.deep_view();
            assert(vs.take(k + 1) =~= vs.take(k as int).push(vs[k as int]));
            lemma_enc_crowdfunds_snoc(vs.take(k as int), vs[k as int]);
            assert(base + enc_crowdfunds(vs.take(k as int)) + enc_crowdfund(vs[k as int]) =~= base
                + enc_crowdfunds(vs.take(k + 1)));
        }
        k = k + 1;
    }
    proof {
        assert(cs.deep_view().take(k as int) =~= cs.deep_view());
    }
}

fn encode_donations(out: &mut Vec<u8>, ds: &Vec<Donation>)
    ensures
        final(out)@ == old(out)@ + enc_donations(ds.deep_view()),
        forall|i: int|
            0 <= i < ds.deep_view().len() ==> donation_encodable(#[trigger] ds.deep_view()[i]),
{
    let ghost base = out@;
    let mut k: usize = 0;
    while k < ds.len()
        invariant
            k <= ds@.len(),
            out@ == base + enc_donations(ds.deep_view().take(k as int)),
            forall|i: int| 0 <= i < k ==> donation_encodable(#[trigger] ds.deep_view()[i]),
        decreases ds@.len() - k,
    {
        encode_donation(out, &ds[k]);
        proof {
            let vs = ds.deep_view();
            assert(vs.take(k + 1) =~= vs.take(k as int).push(vs[k as int]));
            lemma_enc_donations_snoc(vs.take(k as int), vs[k as int]);
            assert(base + enc_donations(vs.take(k as int)) + enc_donation(vs[k as int]) =~= base
                + enc_donations(vs.take(k + 1)));
        }
        k = k + 1;
    }
    proof {
        assert(ds.deep_view().take(k as int) =~= ds.deep_view());
    }
}

/// Serialize the whole ledger state.
pub fn encode_contract(c: &Contract) -> (out: Vec<u8>)
    ensures
        out@ == enc_contract(c@),
        view_encodable(c@),
{
    let mut out: Vec<u8> = Vec::new();
    encode_u64(&mut out, SCHEMA_VERSION);
    encode_str(&mut out, &c.owner);
    let n_cf: u64 = c.crowdfunds.len() as u64;
    encode_u64(&mut out, n_cf);
    encode_crowdfunds(&mut out, &c.crowdfunds);
    let n_d: u64 = c.donations.len() as u64;
    encode_u64(&mut out, n_d);
    encode_donations(&mut out, &c.donations);
    proof {
        assert(out@ =~= enc_contract(c@));
    }
    out
}

// ---------------------------------------------------------------------------
// What a decoder yields on arbitrary bytes, at the specification level: the
// value read at a position and the position after it, or nothing when the
// bytes there do not form a valid encoding.
// ---------------------------------------------------------------------------

pub open spec fn sdec_u64(b: Seq<u8>, pos: int) -> Option<(u64, int)> {
    if 0 <= pos && pos + 8 <= b.len() {
        Some((spec_u64_from_le_bytes(b.subrange(pos, pos + 8)), pos + 8))
    } else {
        None
    }
}

pub open spec fn sdec_u128(b: Seq<u8>, pos: int) -> Option<(u128, int)> {
    if 0 <= pos && pos + 16 <= b.len() {
        Some((spec_u128_from_le_bytes(b.subrange(pos, pos + 16)), pos + 16))
    } else {
        None
    }
}

pub open spec fn sdec_str(b: Seq<u8>, pos: int) -> Option<(Seq<char>, int)> {
    match sdec_u64(b, pos) {
        Option::None => None,
        Option::Some((n, p)) => if p + n <= b.len() && valid_utf8(b.subrange(p, p + n)) {
            Some((decode_utf8(b.subrange(p, p + n)), p + n))
        } else {
            None
        },
    }
}

pub open spec fn sdec_outcome(b: Seq<u8>, pos: int) -> Option<(Outcome, int)> {
    match sdec_u64(b, pos) {
        Option::None => None,
        Option::Some((t, p)) => if t == 0 {
            Some((Outcome::Pending, p))
        } else if t == 1 {
            Some((Outcome::Settled, p))
        } else if t == 2 {
            Some((Outcome::Failed, p))
        } else {
            None
        },
    }
}

pub open spec fn sdec_strs(b: Seq<u8>, pos: int, n: nat) -> Option<(Seq<Seq<char>>, int)>
    decreases n,
{
    if n == 0 {
        Some((Seq::empty(), pos))
    } else {
        match sdec_str(b, pos) {
            Option::None => None,
            Option::Some((s, p)) => match sdec_strs(b, p, (n - 1) as nat) {
                Option::None => None,
                Option::Some((ss, q)) => Some((seq![s] + ss, q)),
            },
        }
    }
}

pub open spec fn sdec_crowdfund(b: Seq<u8>, pos: int) -> Option<(CrowdfundView, int)> {
    match sdec_u64(b, pos) {
        Option::None => None,
        Option::Some((id, p1)) => match sdec_str(b, p1) {
            Option::None => None,
            Option::Some((title, p2)) => match sdec_u128(b, p2) {
                Option::None => None,
                Option::Some((target, p3)) => match sdec_str(b, p3) {
                    Option::None => None,
                    Option::Some((description, p4)) => match sdec_u64(b, p4) {
                        Option::None => None,
                        Option::Some((total_votes, p5)) => match sdec_u64(b, p5) {
                            Option::None => None,
                            Option::Some((m, p6)) => match sdec_strs(b, p6, m as nat) {
                                Option::None => None,
                                Option::Some((votes, p7)) => match sdec_u128(b, p7) {
                                    Option::None => None,
                                    Option::Some((total_donations, p8)) => Some(
                                        (
                                            CrowdfundView {
                                                id,
                                                title,
                                                target,
                                                description,
                                                total_votes,
                                                votes,
                                                total_donations,
                                            },
                                            p8,
                                        ),
                                    ),
                                },
                            },
                        },
                    },
                },
            },
        },
    }
}

pub open spec fn sdec_crowdfunds(b: Seq<u8>, pos: int, n: nat) -> Option<(Seq<CrowdfundView>, int)>
    decreases n,
{
    if n == 0 {
        Some((Seq::empty(), pos))
    } else {
        match sdec_crowdfund(b, pos) {
            Option::None => None,
            Option::Some((c, p)) => match sdec_crowdfunds(b, p, (n - 1) as nat) {
                Option::None => None,
                Option::Some((cs, q)) => Some((seq![c] + cs, q)),
            },
        }
    }
}

pub open spec fn sdec_donation(b: Seq<u8>, pos: int) -> Option<(DonationView, int)> {
    match sdec_u64(b, pos) {
        Option::None => None,
        Option::Some((crowdfund_id, p1)) => match sdec_str(b, p1) {
            Option::None => None,
            Option::Some((donor, p2)) => match sdec_u128(b, p2) {
                Option::None => None,
                Option::Some((requested, p3)) => match sdec_u128(b, p3) {
                    Option::None => None,
                    Option::Some((settlement, p4)) => match sdec_outcome(b, p4) {
                        Option::None => None,
                        Option::Some((outcome, p5)) => Some(
                            (DonationView { crowdfund_id, donor, requested, settlement, outcome }, p5),
                        ),
                    },
                },
            },
        },
    }
}

pub open spec fn sdec_donations(b: Seq<u8>, pos: int, n: nat) -> Option<(Seq<DonationView>, int)>
    decreases n,
{
    if n == 0 {
        Some((Seq::empty(), pos))
    } else {
        match sdec_donation(b, pos) {
            Option::None => None,
            Option::Some((d, p)) => match sdec_donations(b, p, (n - 1) as nat) {
                Option::None => None,
                Option::Some((ds, q)) => Some((seq![d] + ds, q)),
            },
        }
    }
}

pub open spec fn sdec_contract(b: Seq<u8>, pos: int) -> Option<(ContractView, int)> {
    match sdec_u64(b, pos) {
        Option::None => None,
        Option::Some((version, p0)) => if version != SCHEMA_VERSION {
            None
        } else {
            match sdec_str(b, p0) {
                Option::None => None,
                Option::Some((owner, p1)) => match sdec_u64(b, p1) {
                    Option::None => None,
                    Option::Some((n_cf, p2)) => match sdec_crowdfunds(b, p2, n_cf as nat) {
                        Option::None => None,
                        Option::Some((crowdfunds, p3)) => match sdec_u64(b, p3) {
                            Option::None => None,
                            Option::Some((n_d, p4)) => match sdec_donations(b, p4, n_d as nat) {
                                Option::None => None,
                                Option::Some((donations, p5)) => Some(
                                    (ContractView { owner, crowdfunds, donations }, p5),
                                ),
                            },
                        },
                    },
                },
            }
        },
    }
}

// ---------------------------------------------------------------------------
// Decoding inverts encoding.
// ---------------------------------------------------------------------------

/// A byte region known to hold `x + y` holds `x` then `y`.
proof fn lemma_split_prefix(b: Seq<u8>, pos: int, x: Seq<u8>, y: Seq<u8>)
    requires
        0 <= pos,
        pos + x.len() + y.len() <= b.len(),
        b.subrange(pos, pos + x.len() + y.len()) == x + y,
    ensures
        b.subrange(pos, pos + x.len()) == x,
        b.subrange(pos + x.len(), pos + x.len() + y.len()) == y,
{
    assert(b.subrange(pos, pos + x.len()) =~= x);
    assert forall|j: int| 0 <= j < y.len() implies b[pos + x.len() + j] == y[j] by {
        assert(b.subrange(pos, pos + x.len() + y.len())[x.len() + j] == b[pos + x.len() + j]);
        assert((x + y)[x.len() + j] == y[j]);
    }
    assert(b.subrange(pos + x.len(), pos + x.len() + y.len()) =~= y);
}

proof fn lemma_dec_u64(b: Seq<u8>, pos: int, x: u64)
    requires
        0 <= pos,
        pos + 8 <= b.len(),
        b.subrange(pos, pos + 8) == enc_u64(x),
    ensures
        sdec_u64(b, pos) == Some((x, pos + 8)),
{
    lemma_auto_spec_u64_to_from_le_bytes();
}

proof fn lemma_dec_u128(b: Seq<u8>, pos: int, x: u128)
    requires
        0 <= pos,
        pos + 16 <= b.len(),
        b.subrange(pos, pos + 16) == enc_u128(x),
    ensures
        sdec_u128(b, pos) == Some((x, pos + 16)),
{
    lemma_auto_spec_u128_to_from_le_bytes();
    assert(spec_u128_to_le_bytes(x).len() == 16);
}

proof fn lemma_dec_str(b: Seq<u8>, pos: int, s: Seq<char>)
    requires
        str_encodable(s),
        0 <= pos,
        pos + enc_str(s).len() <= b.len(),
        b.subrange(pos, pos + enc_str(s).len()) == enc_str(s),
    ensures
        sdec_str(b, pos) == Some((s, pos + enc_str(s).len())),
{
    let u = encode_utf8(s);
    lemma_auto_spec_u64_to_from_le_bytes();
    lemma_split_prefix(b, pos, enc_u64(u.len() as u64), u);
    lemma_dec_u64(b, pos, u.len() as u64);
    encode_utf8_valid_utf8(s);
    encode_utf8_decode_utf8(s);
    assert(b.subrange(pos + 8, pos + 8 + u.len()) == u);
}

proof fn lemma_dec_outcome(b: Seq<u8>, pos: int, o: Outcome)
    requires
        0 <= pos,
        pos + enc_outcome(o).len() <= b.len(),
        b.subrange(pos, pos + enc_outcome(o).len()) == enc_outcome(o),
    ensures
        sdec_outcome(b, pos) == Some((o, pos + enc_outcome(o).len())),
{
    lemma_auto_spec_u64_to_from_le_bytes();
    match o {
        Outcome::Pending => lemma_dec_u64(b, pos, 0),
        Outcome::Settled => lemma_dec_u64(b, pos, 1),
        Outcome::Failed => lemma_dec_u64(b, pos, 2),
    }
}

proof fn lemma_dec_strs(b: Seq<u8>, pos: int, ss: Seq<Seq<char>>)
    requires
        forall|i: int| 0 <= i < ss.len() ==> str_encodable(#[trigger] ss[i]),
        0 <= pos,
        pos + enc_strs(ss).len() <= b.len(),
        b.subrange(pos, pos + enc_strs(ss).len()) == enc_strs(ss),
    ensures
        sdec_strs(b, pos, ss.len()) == Some((ss, pos + enc_strs(ss).len())),
    decreases ss.len(),
{
    lemma_auto_spec_u64_to_from_le_bytes();
    lemma_auto_spec_u128_to_from_le_bytes();
    if ss.len() == 0 {
        assert(sdec_strs(b, pos, 0) == Some((Seq::<Seq<char>>::empty(), pos)));
        assert(ss =~= Seq::<Seq<char>>::empty());
    } else {
        let head = enc_str(ss.first());
        let tail = enc_strs(ss.drop_first());
        lemma_split_prefix(b, pos, head, tail);
        lemma_dec_str(b, pos, ss.first());
        assert forall|i: int| 0 <= i < ss.drop_first().len() implies str_encodable(
            #[trigger] ss.drop_first()[i],
        ) by {
            assert(ss.drop_first()[i] == ss[i + 1]);
        }
        lemma_dec_strs(b, pos + head.len(), ss.drop_first());
        assert(seq![ss.first()] + ss.drop_first() =~= ss);
    }
}

proof fn lemma_dec_crowdfund(b: Seq<u8>, pos: int, c: CrowdfundView)
    requires
        crowdfund_encodable(c),
        0 <= pos,
        pos + enc_crowdfund(c).len() <= b.len(),
        b.subrange(pos, pos + enc_crowdfund(c).len()) == enc_crowdfund(c),
    ensures
        sdec_crowdfund(b, pos) == Some((c, pos + enc_crowdfund(c).len())),
{
    lemma_auto_spec_u64_to_from_le_bytes();
    lemma_auto_spec_u128_to_from_le_bytes();
    let a1 = enc_u64(c.id);
    let a2 = enc_str(c.title);
    let a3 = enc_u128(c.target);
    let a4 = enc_str(c.description);
    let a5 = enc_u64(c.total_votes);
    let a6 = enc_u64(c.votes.len() as u64);
    let a7 = enc_strs(c.votes);
    let a8 = enc_u128(c.total_donations);
    lemma_split_prefix(b, pos, a1 + a2 + a3 + a4 + a5 + a6 + a7, a8);
    lemma_split_prefix(b, pos, a1 + a2 + a3 + a4 + a5 + a6, a7);
    lemma_split_prefix(b, pos, a1 + a2 + a3 + a4 + a5, a6);
    lemma_split_prefix(b, pos, a1 + a2 + a3 + a4, a5);
    lemma_split_prefix(b, pos, a1 + a2 + a3, a4);
    lemma_split_prefix(b, pos, a1 + a2, a3);
    lemma_split_prefix(b, pos, a1, a2);
    let o1 = pos + a1.len();
    let o2 = o1 + a2.len();
    let o3 = o2 + a3.len();
    let o4 = o3 + a4.len();
    let o5 = o4 + a5.len();
    let o6 = o5 + a6.len();
    let o7 = o6 + a7.len();
    lemma_dec_u64(b, pos, c.id);
    lemma_dec_str(b, o1, c.title);
    lemma_dec_u128(b, o2, c.target);
    lemma_dec_str(b, o3, c.description);
    lemma_dec_u64(b, o4, c.total_votes);
    lemma_dec_u64(b, o5, c.votes.len() as u64);
    lemma_dec_strs(b, o6, c.votes);
    lemma_dec_u128(b, o7, c.total_donations);
    assert((c.votes.len() as u64) as nat == c.votes.len());
}

proof fn lemma_dec_crowdfunds(b: Seq<u8>, pos: int, cs: Seq<CrowdfundView>)
    requires
        forall|i: int| 0 <= i < cs.len() ==> crowdfund_encodable(#[trigger] cs[i]),
        0 <= pos,
        pos + enc_crowdfunds(cs).len() <= b.len(),
        b.subrange(pos, pos + enc_crowdfunds(cs).len()) == enc_crowdfunds(cs),
    ensures
        sdec_crowdfunds(b, pos, cs.len()) == Some((cs, pos + enc_crowdfunds(cs).len())),
    decreases cs.len(),
{
    lemma_auto_spec_u64_to_from_le_bytes();
    lemma_auto_spec_u128_to_from_le_bytes();
    if cs.len() == 0 {
        assert(sdec_crowdfunds(b, pos, 0) == Some((Seq::<CrowdfundView>::empty(), pos)));
        assert(cs =~= Seq::<CrowdfundView>::empty());
    } else {
        let head = enc_crowdfund(cs.first());
        let tail = enc_crowdfunds(cs.drop_first());
        lemma_split_prefix(b, pos, head, tail);
        lemma_dec_crowdfund(b, pos, cs.first());
        assert forall|i: int| 0 <= i < cs.drop_first().len() implies crowdfund_encodable(
            #[trigger] cs.drop_first()[i],
        ) by {
            assert(cs.drop_first()[i] == cs[i + 1]);
        }
        lemma_dec_crowdfunds(b, pos + head.len(), cs.drop_first());
        assert(seq![cs.first()] + cs.drop_first() =~= cs);
    }
}

proof fn lemma_dec_donation(b: Seq<u8>, pos: int, d: DonationView)
    requires
        donation_encodable(d),
        0 <= pos,
        pos + enc_donation(d).len() <= b.len(),
        b.subrange(pos, pos + enc_donation(d).len()) == enc_donation(d),
    ensures
        sdec_donation(b, pos) == Some((d, pos + enc_donation(d).len())),
{
    lemma_auto_spec_u64_to_from_le_bytes();
    lemma_auto_spec_u128_to_from_le_bytes();
    let a1 = enc_u64(d.crowdfund_id);
    let a2 = enc_str(d.donor);
    let a3 = enc_u128(d.requested);
    let a4 = enc_u128(d.settlement);
    let a5 = enc_outcome(d.outcome);
    lemma_split_prefix(b, pos, a1 + a2 + a3 + a4, a5);
    lemma_split_prefix(b, pos, a1 + a2 + a3, a4);
    lemma_split_prefix(b, pos, a1 + a2, a3);
    lemma_split_prefix(b, pos, a1, a2);
    let o1 = pos + a1.len();
    let o2 = o1 + a2.len();
    let o3 = o2 + a3.len();
    let o4 = o3 + a4.len();
    lemma_dec_u64(b, pos, d.crowdfund_id);
    lemma_dec_str(b, o1, d.donor);
    lemma_dec_u128(b, o2, d.requested);
    lemma_dec_u128(b, o3, d.settlement);
    lemma_dec_outcome(b, o4, d.outcome);
}

proof fn lemma_dec_donations(b: Seq<u8>, pos: int, ds: Seq<DonationView>)
    requires
        forall|i: int| 0 <= i < ds.len() ==> donation_encodable(#[trigger] ds[i]),
        0 <= pos,
        pos + enc_donations(ds).len() <= b.len(),
        b.subrange(pos, pos + enc_donations(ds).len()) == enc_donations(ds),
    ensures
        sdec_donations(b, pos, ds.len()) == Some((ds, pos + enc_donations(ds).len())),
    decreases ds.len(),
{
    lemma_auto_spec_u64_to_from_le_bytes();
    lemma_auto_spec_u128_to_from_le_bytes();
    if ds.len() == 0 {
        assert(sdec_donations(b, pos, 0) == Some((Seq::<DonationView>::empty(), pos)));
        assert(ds =~= Seq::<DonationView>::empty());
    } else {
        let head = enc_donation(ds.first());
        let tail = enc_donations(ds.drop_first());
        lemma_split_prefix(b, pos, head, tail);
        lemma_dec_donation(b, pos, ds.first());
        assert forall|i: int| 0 <= i < ds.drop_first().len() implies donation_encodable(
            #[trigger] ds.drop_first()[i],
        ) by {
            assert(ds.drop_first()[i] == ds[i + 1]);
        }
        lemma_dec_donations(b, pos + head.len(), ds.drop_first());
        assert(seq![ds.first()] + ds.drop_first() =~= ds);
    }
}

/// Decoding inverts encoding: the bytes of any encodable state decode to
/// exactly that state, consuming exactly those bytes.
pub proof fn lemma_codec_roundtrip(v: ContractView)
    requires
        view_encodable(v),
    ensures
        sdec_contract(enc_contract(v), 0) == Some((v, enc_contract(v).len() as int)),
{
    lemma_auto_spec_u64_to_from_le_bytes();
    lemma_auto_spec_u128_to_from_le_bytes();
    let b = enc_contract(v);
    let a1 = enc_u64(SCHEMA_VERSION);
    let a2 = enc_str(v.owner);
    let a3 = enc_u64(v.crowdfunds.len() as u64);
    let a4 = enc_crowdfunds(v.crowdfunds);
    let a5 = enc_u64(v.donations.len() as u64);
    let a6 = enc_donations(v.donations);
    assert(b.subrange(0, b.len() as int) =~= b);
    lemma_split_prefix(b, 0, a1 + a2 + a3 + a4 + a5, a6);
    lemma_split_prefix(b, 0, a1 + a2 + a3 + a4, a5);
    lemma_split_prefix(b, 0, a1 + a2 + a3, a4);
    lemma_split_prefix(b, 0, a1 + a2, a3);
    lemma_split_prefix(b, 0, a1, a2);
    let o1 = a1.len() as int;
    let o2 = o1 + a2.len();
    let o3 = o2 + a3.len();
    let o4 = o3 + a4.len();
    let o5 = o4 + a5.len();
    lemma_dec_u64(b, 0, SCHEMA_VERSION);
    lemma_dec_str(b, o1, v.owner);
    lemma_dec_u64(b, o2, v.crowdfunds.len() as u64);
    lemma_dec_crowdfunds(b, o3, v.crowdfunds);
    lemma_dec_u64(b, o4, v.donations.len() as u64);
    lemma_dec_donations(b, o5, v.donations);
    assert((v.crowdfunds.len() as u64) as nat == v.crowdfunds.len());
    assert((v.donations.len() as u64) as nat == v.donations.len());
}

// ---------------------------------------------------------------------------
// Decoders.
// ---------------------------------------------------------------------------

/// Relies on `String::from_utf8`: it succeeds exactly on valid UTF-8 input,
/// and the returned string then views exactly the given bytes.
#[verifier::external_body]
fn string_from_utf8(bytes: Vec<u8>) -> (r: Option<String>)
    ensures
        r is Some <==> valid_utf8(bytes@),
        (match r {
            Option::Some(s) => encode_utf8(s@) == bytes@,
            Option::None => true,
        }),
{
    match String::from_utf8(bytes) {
        Ok(s) => Some(s),
        Err(_) => None,
    }
}

fn decode_u64(b: &Vec<u8>, pos: usize) -> (r: Option<(u64, usize)>)
    ensures
        (match r {
            Option::Some((x, p)) => sdec_u64(b@, pos as int) == Some((x, p as int)),
            Option::None => sdec_u64(b@, pos as int) is None,
        }),
{
    if b.len() < 8 || pos > b.len() - 8 {
        return None;
    }
    let s = slice_subrange(b.as_slice(), pos, pos + 8);
    let x = u64_from_le_bytes(s);
    Some((x, pos + 8))
}

fn decode_u128(b: &Vec<u8>, pos: usize) -> (r: Option<(u128, usize)>)
    ensures
        (match r {
            Option::Some((x, p)) => sdec_u128(b@, pos as int) == Some((x, p as int)),
            Option::None => sdec_u128(b@, pos as int) is None,
        }),
{
    if b.len() < 16 || pos > b.len() - 16 {
        return None;
    }
    let s = slice_subrange(b.as_slice(), pos, pos + 16);
    let x = u128_from_le_bytes(s);
    Some((x, pos + 16))
}

fn decode_str(b: &Vec<u8>, pos: usize) -> (r: Option<(String, usize)>)
    ensures
        (match r {
            Option::Some((s, p)) => sdec_str(b@, pos as int) == Some((s@, p as int)),
            Option::None => sdec_str(b@, pos as int) is None,
        }),
{
    let (n, p) = match decode_u64(b, pos) {
        Option::Some(v) => v,
        Option::None => {
            return None;
        },
    };
    let avail: usize = b.len() - p;
    if n > avail as u64 {
        return None;
    }
    let m: usize = n as usize;
    let bytes = slice_to_vec(slice_subrange(b.as_slice(), p, p + m));
    match string_from_utf8(bytes) {
        Option::Some(s) => {
            proof {
                encode_utf8_decode_utf8(s@);
            }
            Some((s, p + m))
        },
        Option::None => None,
    }
}

fn decode_outcome(b: &Vec<u8>, pos: usize) -> (r: Option<(Outcome, usize)>)
    ensures
        (match r {
            Option::Some((o, p)) => sdec_outcome(b@, pos as int) == Some((o, p as int)),
            Option::None => sdec_outcome(b@, pos as int) is None,
        }),
{
    let (t, p) = match decode_u64(b, pos) {
        Option::Some(v) => v,
        Option::None => {
            return None;
        },
    };
    if t == 0 {
        Some((Outcome::Pending, p))
    } else if t == 1 {
        Some((Outcome::Settled, p))
    } else if t == 2 {
        Some((Outcome::Failed, p))
    } else {
        None
    }
}

fn decode_strs(b: &Vec<u8>, pos: usize, n: u64) -> (r: Option<(Vec<String>, usize)>)
    ensures
        (match r {
            Option::Some((ss, p)) => sdec_strs(b@, pos as int, n as nat) == Some(
                (ss.deep_view(), p as int),
            ),
            Option::None => sdec_strs(b@, pos as int, n as nat) is None,
        }),
{
    let mut acc: Vec<String> = Vec::new();
    let mut cur: usize = pos;
    let mut k: u64 = 0;
    proof {
        assert(acc.deep_view() =~= Seq::<Seq<char>>::empty());
    }
    while k < n
        invariant
            k <= n,
            (match sdec_strs(b@, cur as int, (n - k) as nat) {
                Option::Some((rest, end)) => sdec_strs(b@, pos as int, n as nat) == Some(
                    (acc.deep_view() + rest, end),
                ),
                Option::None => sdec_strs(b@, pos as int, n as nat) is None,
            }),
        decreases n - k,
    {
        let ghost pre = acc.deep_view();
        let (s, p) = match decode_str(b, cur) {
            Option::Some(v) => v,
            Option::None => {
                return None;
            },
        };
        acc.push(s);
        proof {
            assert(acc.deep_view() =~= pre.push(s@));
            let m = (n - k) as nat;
            match sdec_strs(b@, p as int, (m - 1) as nat) {
                Option::Some((rest2, end2)) => {
                    assert(sdec_strs(b@, cur as int, m) == Some((seq![s@] + rest2, end2)));
                    assert(pre + (seq![s@] + rest2) =~= pre.push(s@) + rest2);
                },
                Option::None => {
                    assert(sdec_strs(b@, cur as int, m) is None);
                },
            }
        }
        cur = p;
        k = k + 1;
    }
    proof {
        assert(acc.deep_view() + Seq::<Seq<char>>::empty() =~= acc.deep_view());
    }
    Some((acc, cur))
}

fn decode_crowdfund(b: &Vec<u8>, pos: usize) -> (r: Option<(Crowdfund, usize)>)
    ensures
        (match r {
            Option::Some((c, p)) => sdec_crowdfund(b@, pos as int) == Some((c@, p as int)),
            Option::None => sdec_crowdfund(b@, pos as int) is None,
        }),
{
    let (id, p1) = match decode_u64(b, pos) {
        Option::Some(v) => v,
        Option::None => {
            return None;
        },
    };
    let (title, p2) = match decode_str(b, p1) {
        Option::Some(v) => v,
        Option::None => {
            return None;
        },
    };
    let (target, p3) = match decode_u128(b, p2) {
        Option::Some(v) => v,
        Option::None => {
            return None;
        },
    };
    let (description, p4) = match decode_str(b, p3) {
        Option::Some(v) => v,
        Option::None => {
            return None;
        },
    };
    let (total_votes, p5) = match decode_u64(b, p4) {
        Option::Some(v) => v,
        Option::None => {
            return None;
        },
    };
    let (m, p6) = match decode_u64(b, p5) {
        Option::Some(v) => v,
        Option::None => {
            return None;
        },
    };
    let (votes, p7) = match decode_strs(b, p6, m) {
        Option::Some(v) => v,
        Option::None => {
            return None;
        },
    };
    let (total_donations, p8) = match decode_u128(b, p7) {
        Option::Some(v) => v,
        Option::None => {
            return None;
        },
    };
    let c = Crowdfund { id, title, target, description, total_votes, votes, total_donations };
    Some((c, p8))
}

fn decode_crowdfunds(b: &Vec<u8>, pos: usize, n: u64) -> (r: Option<(Vec<Crowdfund>, usize)>)
    ensures
        (match r {
            Option::Some((cs, p)) => sdec_crowdfunds(b@, pos as int, n as nat) == Some(
                (cs.deep_view(), p as int),
            ),
            Option::None => sdec_crowdfunds(b@, pos as int, n as nat) is None,
        }),
{
    let mut acc: Vec<Crowdfund> = Vec::new();
    let mut cur: usize = pos;
    let mut k: u64 = 0;
    proof {
        assert(acc.deep_view() =~= Seq::<CrowdfundView>::empty());
    }
    while k < n
        invariant
            k <= n,
            (match sdec_crowdfunds(b@, cur as int, (n - k) as nat) {
                Option::Some((rest, end)) => sdec_crowdfunds(b@, pos as int, n as nat) == Some(
                    (acc.deep_view() + rest, end),
                ),
                Option::None => sdec_crowdfunds(b@, pos as int, n as nat) is None,
            }),
        decreases n - k,
    {
        let ghost pre = acc.deep_view();
        let (c, p) = match decode_crowdfund(b, cur) {
            Option::Some(v) => v,
            Option::None => {
                return None;
            },
        };
        let ghost cv = c@;
        acc.push(c);
        proof {
            assert(acc.deep_view() =~= pre.push(cv));
            let m = (n - k) as nat;
            match sdec_crowdfunds(b@, p as int, (m - 1) as nat) {
                Option::Some((rest2, end2)) => {
                    assert(sdec_crowdfunds(b@, cur as int, m) == Some((seq![cv] + rest2, end2)));
                    assert(pre + (seq![cv] + rest2) =~= pre.push(cv) + rest2);
                },
                Option::None => {
                    assert(sdec_crowdfunds(b@, cur as int, m) is None);
                },
            }
        }
        cur = p;
        k = k + 1;
    }
    proof {
        assert(acc.deep_view() + Seq::<CrowdfundView>::empty() =~= acc.deep_view());
    }
    Some((acc, cur))
}

fn decode_donation(b: &Vec<u8>, pos: usize) -> (r: Option<(Donation, usize)>)
    ensures
        (match r {
            Option::Some((d, p)) => sdec_donation(b@, pos as int) == Some((d@, p as int)),
            Option::None => sdec_donation(b@, pos as int) is None,
        }),
{
    let (crowdfund_id, p1) = match decode_u64(b, pos) {
        Option::Some(v) => v,
        Option::None => {
            return None;
        },
    };
    let (donor, p2) = match decode_str(b, p1) {
        Option::Some(v) => v,
        Option::None => {
            return None;
        },
    };
    let (requested, p3) = match decode_u128(b, p2) {
        Option::Some(v) => v,
        Option::None => {
            return None;
        },
    };
    let (settlement, p4) = match decode_u128(b, p3) {
        Option::Some(v) => v,
        Option::None => {
            return None;
        },
    };
    let (outcome, p5) = match decode_outcome(b, p4) {
        Option::Some(v) => v,
        Option::None => {
            return None;
        },
    };
    let d = Donation { crowdfund_id, donor, requested, settlement, outcome };
    Some((d, p5))
}

fn decode_donations(b: &Vec<u8>, pos: usize, n: u64) -> (r: Option<(Vec<Donation>, usize)>)
    ensures
        (match r {
            Option::Some((ds, p)) => sdec_donations(b@, pos as int, n as nat) == Some(
                (ds.deep_view(), p as int),
            ),
            Option::None => sdec_donations(b@, pos as int, n as nat) is None,
        }),
{
    let mut acc: Vec<Donation> = Vec::new();
    let mut cur: usize = pos;
    let mut k: u64 = 0;
    proof {
        assert(acc.deep_view() =~= Seq::<DonationView>::empty());
    }
    while k < n
        invariant
            k <= n,
            (match sdec_donations(b@, cur as int, (n - k) as nat) {
                Option::Some((rest, end)) => sdec_donations(b@, pos as int, n as nat) == Some(
                    (acc.deep_view() + rest, end),
                ),
                Option::None => sdec_donations(b@, pos as int, n as nat) is None,
            }),
        decreases n - k,
    {
        let ghost pre = acc.deep_view();
        let (d, p) = match decode_donation(b, cur) {
            Option::Some(v) => v,
            Option::None => {
                return None;
            },
        };
        let ghost dv = d@;
        acc.push(d);
        proof {
            assert(acc.deep_view() =~= pre.push(dv));
            let m = (n - k) as nat;
            match sdec_donations(b@, p as int, (m - 1) as nat) {
                Option::Some((rest2, end2)) => {
                    assert(sdec_donations(b@, cur as int, m) == Some((seq![dv] + rest2, end2)));
                    assert(pre + (seq![dv] + rest2) =~= pre.push(dv) + rest2);
                },
                Option::None => {
                    assert(sdec_donations(b@, cur as int, m) is None);
                },
            }
        }
        cur = p;
        k = k + 1;
    }
    proof {
        assert(acc.deep_view() + Seq::<DonationView>::empty() =~= acc.deep_view());
    }
    Some((acc, cur))
}

/// Deserialize a ledger state: succeeds exactly when the bytes are one
/// complete encoding under the current schema version.
pub fn decode_contract(b: &Vec<u8>) -> (r: Option<Contract>)
    ensures
        (match r {
            Option::Some(c) => sdec_contract(b@, 0) == Some((c@, b@.len() as int)),
            Option::None => (match sdec_contract(b@, 0) {
                Option::Some((v, p)) => p != b@.len(),
                Option::None => true,
            }),
        }),
{
    let (version, p0) = match decode_u64(b, 0) {
        Option::Some(v) => v,
        Option::None => {
            return None;
        },
    };
    if version != SCHEMA_VERSION {
        return None;
    }
    let (owner, p1) = match decode_str(b, p0) {
        Option::Some(v) => v,
        Option::None => {
            return None;
        },
    };
    let (n_cf, p2) = match decode_u64(b, p1) {
        Option::Some(v) => v,
        Option::None => {
            return None;
        },
    };
    let (crowdfunds, p3) = match decode_crowdfunds(b, p2, n_cf) {
        Option::Some(v) => v,
        Option::None => {
            return None;
        },
    };
    let (n_d, p4) = match decode_u64(b, p3) {
        Option::Some(v) => v,
        Option::None => {
            return None;
        },
    };
    let (donations, p5) = match decode_donations(b, p4, n_d) {
        Option::Some(v) => v,
        Option::None => {
            return None;
        },
    };
    if p5 != b.len() {
        return None;
    }
    Some(Contract { owner, crowdfunds, donations })
}

} // verus!
