//! The BFT membership engine: one elder's voting state machine.
//!
//! The engine holds the section's current generation, the open round of
//! signed votes, and the most recent decision.  Proposals enter through
//! `propose`, peers' votes through `handle_signed_vote`; once a
//! supermajority of elders has signed the same set of changes the round is
//! decided, the per-change signature shares are combined into section
//! signatures, and the generation advances by one.  A voter that is behind
//! asks for the missed rounds through `anti_entropy`.

use vstd::prelude::*;

use crate::bytes_util::{bytes_eq, push_all};
use crate::crypto;
use crate::error::Error;
use crate::keys::{Keypair, PublicKey, Signature};
use crate::xor_name::{Prefix, XorName};

verus! {

/// The monotone counter of a section's membership history.
pub type Generation = u64;

/// A transport address as plain values: four address bytes and a port.
#[derive(Clone, Copy, PartialEq, Eq, Hash, Debug)]
pub struct NetAddr {
    pub ip: [u8; 4],
    pub port: u16,
}

/// What a membership change does with the node.
#[derive(Clone, Copy, PartialEq, Eq, Debug)]
pub enum MembershipState {
    /// The node joins the section.
    Joining,
    /// The node has left the network.
    Left,
    /// The node is moved to the section owning the given prefix.
    Relocated(Prefix),
}

/// The unit of membership change: a candidate node and what happens to it.
/// Two node states are about the same node exactly when the names match.
#[derive(Clone, Copy, PartialEq, Eq, Debug)]
pub struct NodeState {
    pub name: XorName,
    pub addr: NetAddr,
    pub state: MembershipState,
}

/// One proposed change together with the voter's signature share over it.
#[derive(Clone, Copy, PartialEq, Debug)]
pub struct SignedProposal {
    pub state: NodeState,
    pub sig: Signature,
}

/// One elder's vote: the proposals it backs at one generation, each with a
/// signature share.
#[derive(Clone, PartialEq, Debug)]
pub struct SignedVote {
    pub voter: u64,
    pub gen: Generation,
    pub ballot: Vec<SignedProposal>,
}

/// One or more agreed-upon changes at a single generation, each carrying the
/// combined section signature.
#[derive(Debug)]
pub struct Decision {
    pub generation: Generation,
    pub proposals: Vec<(NodeState, Signature)>,
}

/// What the engine answers to a handled vote.
#[derive(Clone, PartialEq, Debug)]
pub enum VoteResponse {
    /// The engine refined its state; gossip this counter-vote to all elders.
    Broadcast(SignedVote),
    /// Accepted; nothing to send.
    WaitingForMoreVotes,
}

/// One elder as the engine sees it: its share index and public key share.
#[derive(Clone, Copy, PartialEq, Eq, Debug)]
pub struct ElderVoter {
    pub index: u64,
    pub key: [u8; 48],
}

/// The voters' public key set: the serialised set and the section key
/// derived from it.
#[derive(Clone, Debug)]
pub struct BlsPublicKeySet {
    pub bytes: Vec<u8>,
    pub section_key: [u8; 48],
}

impl BlsPublicKeySet {
    /// The section public key all decision signatures verify under.
    pub fn public_key(&self) -> (r: PublicKey)
        ensures
            r == PublicKey::Bls(self.section_key),
    {
        PublicKey::Bls(self.section_key)
    }
}

/// Whether `idx` is one of the voters.
pub open spec fn spec_is_voter(voters: Seq<ElderVoter>, idx: u64) -> bool {
    exists|i: int| 0 <= i < voters.len() && (#[trigger] voters[i]).index == idx
}

/// The key share of voter `idx` (the first matching entry).
pub open spec fn spec_voter_key(voters: Seq<ElderVoter>, idx: u64) -> Seq<u8>
    decreases voters.len(),
{
    if voters.len() == 0 {
        Seq::empty()
    } else if voters[0].index == idx {
        voters[0].key@
    } else {
        spec_voter_key(voters.skip(1), idx)
    }
}

/// The serialised message a voter signs for one proposed change at one
/// generation: the generation in big-endian, then the node state as plain
/// bytes.
pub open spec fn spec_vote_msg(gen: Generation, ns: NodeState) -> Seq<u8> {
    spec_u64_be(gen) + ns.name@ + ns.addr.ip@ + seq![
        ((ns.addr.port >> 8u16) & 0xffu16) as u8,
        (ns.addr.port & 0xffu16) as u8,
    ] + spec_state_tag_bytes(ns.state)
}

/// The trailing bytes of a vote message: the change tag and, for a
/// relocation, the target prefix.
pub open spec fn spec_state_tag_bytes(s: MembershipState) -> Seq<u8> {
    match s {
        MembershipState::Joining => seq![0u8] + Seq::new(34, |i: int| 0u8),
        MembershipState::Left => seq![1u8] + Seq::new(34, |i: int| 0u8),
        MembershipState::Relocated(p) => seq![
            2u8,
            ((p.len >> 8) & 0xffusize) as u8,
            (p.len & 0xffusize) as u8,
        ] + p.name@,
    }
}

/// A `u64` in big-endian bytes.
pub open spec fn spec_u64_be(x: u64) -> Seq<u8> {
    Seq::new(8, |i: int| ((x >> ((8 * (7 - i)) as u64)) & 0xffu64) as u8)
}

fn u64_be(x: u64) -> (r: Vec<u8>)
    ensures
        r@ == spec_u64_be(x),
{
    let mut r: Vec<u8> = Vec::new();
    r.push(((x >> 56u64) & 0xffu64) as u8);
    r.push(((x >> 48u64) & 0xffu64) as u8);
    r.push(((x >> 40u64) & 0xffu64) as u8);
    r.push(((x >> 32u64) & 0xffu64) as u8);
    r.push(((x >> 24u64) & 0xffu64) as u8);
    r.push(((x >> 16u64) & 0xffu64) as u8);
    r.push(((x >> 8u64) & 0xffu64) as u8);
    r.push(((x >> 0u64) & 0xffu64) as u8);
    proof {
        assert(r@ =~= spec_u64_be(x));
    }
    r
}

/// The exact bytes a voter signs for one proposed change at one generation.
pub fn vote_msg(gen: Generation, ns: &NodeState) -> (r: Vec<u8>)
    ensures
        r@ == spec_vote_msg(gen, *ns),
{
    let mut out: Vec<u8> = Vec::new();
    let gb = u64_be(gen);
    push_all(&mut out, gb.as_slice());
    proof {
        assert(out@ =~= spec_u64_be(gen));
    }
    push_all(&mut out, ns.name.0.as_slice());
    push_all(&mut out, ns.addr.ip.as_slice());
    out.push(((ns.addr.port >> 8u16) & 0xffu16) as u8);
    out.push((ns.addr.port & 0xffu16) as u8);
    match ns.state {
        MembershipState::Joining => {
            out.push(0u8);
            let mut i: usize = 0;
            while i < 34
                invariant
                    0 <= i <= 34,
                    out@ == spec_u64_be(gen) + ns.name@ + ns.addr.ip@ + seq![
                        (((ns.addr.port >> 8u16) & 0xffu16) as u8),
                        ((ns.addr.port & 0xffu16) as u8),
                    ] + seq![0u8] + Seq::new(i as nat, |k: int| 0u8),
                decreases 34 - i,
            {
                out.push(0u8);
                proof {
                    assert(Seq::new((i + 1) as nat, |k: int| 0u8) =~= Seq::new(
                        i as nat,
                        |k: int| 0u8,
                    ).push(0u8));
                    assert(out@ =~= spec_u64_be(gen) + ns.name@ + ns.addr.ip@ + seq![
                        (((ns.addr.port >> 8u16) & 0xffu16) as u8),
                        ((ns.addr.port & 0xffu16) as u8),
                    ] + seq![0u8] + Seq::new((i + 1) as nat, |k: int| 0u8));
                }
                i += 1;
            }
        },
        MembershipState::Left => {
            out.push(1u8);
            let mut i: usize = 0;
            while i < 34
                invariant
                    0 <= i <= 34,
                    out@ == spec_u64_be(gen) + ns.name@ + ns.addr.ip@ + seq![
                        (((ns.addr.port >> 8u16) & 0xffu16) as u8),
                        ((ns.addr.port & 0xffu16) as u8),
                    ] + seq![1u8] + Seq::new(i as nat, |k: int| 0u8),
                decreases 34 - i,
            {
                out.push(0u8);
                proof {
                    assert(Seq::new((i + 1) as nat, |k: int| 0u8) =~= Seq::new(
                        i as nat,
                        |k: int| 0u8,
                    ).push(0u8));
                    assert(out@ =~= spec_u64_be(gen) + ns.name@ + ns.addr.ip@ + seq![
                        (((ns.addr.port >> 8u16) & 0xffu16) as u8),
                        ((ns.addr.port & 0xffu16) as u8),
                    ] + seq![1u8] + Seq::new((i + 1) as nat, |k: int| 0u8));
                }
                i += 1;
            }
        },
        MembershipState::Relocated(p) => {
            out.push(2u8);
            out.push(((p.len >> 8) & 0xffusize) as u8);
            out.push((p.len & 0xffusize) as u8);
            push_all(&mut out, p.name.0.as_slice());
        },
    }
    proof {
        assert(out@ =~= spec_vote_msg(gen, *ns));
    }
    out
}

/// Structural equality of node states.
pub fn node_state_eq(a: &NodeState, b: &NodeState) -> (r: bool)
    ensures
        r == (*a == *b),
{
    let names = a.name.equals(&b.name);
    let addrs = bytes_eq(a.addr.ip.as_slice(), b.addr.ip.as_slice()) && a.addr.port == b.addr.port;
    proof {
        if a.addr.ip@ == b.addr.ip@ {
            assert(a.addr.ip =~= b.addr.ip);
        }
    }
    let states = match (&a.state, &b.state) {
        (MembershipState::Joining, MembershipState::Joining) => true,
        (MembershipState::Left, MembershipState::Left) => true,
        (MembershipState::Relocated(p), MembershipState::Relocated(q)) => p.equals(q),
        _ => false,
    };
    names && addrs && states
}

/// Structural equality of two votes, over the views of their ballots.
pub open spec fn spec_same_vote(a: SignedVote, b: SignedVote) -> bool {
    a.voter == b.voter && a.gen == b.gen && a.ballot@ == b.ballot@
}

/// Structural equality of two votes.
pub fn vote_eq(a: &SignedVote, b: &SignedVote) -> (r: bool)
    ensures
        r == spec_same_vote(*a, *b),
{
    if a.voter != b.voter || a.gen != b.gen || a.ballot.len() != b.ballot.len() {
        proof {
            if a.ballot@.len() != b.ballot@.len() {
                assert(a.ballot@ !~= b.ballot@);
            }
        }
        return false;
    }
    let n: usize = a.ballot.len();
    let mut i: usize = 0;
    while i < n
        invariant
            0 <= i <= n,
            n == a.ballot@.len() == b.ballot@.len(),
            forall|j: int| 0 <= j < i ==> a.ballot@[j] == b.ballot@[j],
        decreases n - i,
    {
        let pa: SignedProposal = a.ballot[i];
        let pb: SignedProposal = b.ballot[i];
        if !node_state_eq(&pa.state, &pb.state) {
            return false;
        }
        if !(pa.sig == pb.sig) {
            return false;
        }
        i += 1;
    }
    proof {
        assert(a.ballot@ =~= b.ballot@);
    }
    true
}

/// Whether the engine already stores this exact vote.
pub open spec fn spec_has_vote(m: Membership, v: SignedVote) -> bool {
    exists|i: int| 0 <= i < m.votes@.len() && spec_same_vote(#[trigger] m.votes@[i], v)
}

/// The votes a peer at `from_gen` is missing: every stored round after it.
pub open spec fn spec_catch_up(h: Seq<Vec<SignedVote>>, from: int) -> Seq<SignedVote>
    decreases h.len() - from,
{
    if from < 0 || from >= h.len() {
        Seq::empty()
    } else {
        h[from]@ + spec_catch_up(h, from + 1)
    }
}

/// How many votes make a supermajority among `n` elders.
pub open spec fn spec_super_majority(n: int) -> int {
    2 * n / 3 + 1
}

/// The state held by one elder's membership engine.
pub struct Membership {
    /// Our BLS-share keypair; the engine signs votes with it.
    pub keypair: Keypair,
    /// Our index among the voters.
    pub our_index: u64,
    /// The elder voters: share indices and public key shares.
    pub voters: Vec<ElderVoter>,
    /// The serialised BLS public key set the shares belong to.
    pub pk_set_bytes: Vec<u8>,
    /// The section public key derived from the set.
    pub section_key: [u8; 48],
    /// The last decided generation; rounds vote for `gen + 1`.
    pub gen: Generation,
    /// The open round: at most one vote per voter, all for `gen + 1`.
    pub votes: Vec<SignedVote>,
    /// The votes that decided each past generation, oldest first.
    pub history: Vec<Vec<SignedVote>>,
    /// The most recent decision, if any round has been decided.
    pub decision: Option<Decision>,
}

impl Membership {
    /// The structural well-formedness every operation preserves.
    pub open spec fn inv(&self) -> bool {
        &&& self.keypair matches Keypair::BlsShare { index, .. } && index == self.our_index
        &&& self.voters@.len() >= 1
        &&& forall|i: int, j: int|
            0 <= i < j < self.voters@.len() ==> self.voters@[i].index != self.voters@[j].index
        &&& spec_is_voter(self.voters@, self.our_index)
        &&& self.pk_set_bytes@.len() >= 48
        &&& self.gen < u64::MAX
        &&& self.history@.len() == self.gen
        &&& forall|g: int| 0 <= g < self.history@.len() ==> (#[trigger] self.history@[g])@.len() > 0
        &&& forall|i: int|
            0 <= i < self.votes@.len() ==> (#[trigger] self.votes@[i]).gen == self.gen + 1
        &&& forall|i: int, j: int|
            0 <= i < j < self.votes@.len() ==> self.votes@[i].voter != self.votes@[j].voter
        &&& forall|i: int|
            0 <= i < self.votes@.len() ==> spec_is_voter(
                self.voters@,
                (#[trigger] self.votes@[i]).voter,
            )
        &&& forall|i: int| 0 <= i < self.votes@.len() ==> (#[trigger] self.votes@[i]).ballot@.len()
            > 0
        &&& forall|i: int, a: int, b: int|
            0 <= i < self.votes@.len() && 0 <= a < b < self.votes@[i].ballot@.len() ==> (
            #[trigger] self.votes@[i].ballot@[a]).state.name != (
            #[trigger] self.votes@[i].ballot@[b]).state.name
        &&& forall|i: int, a: int|
            0 <= i < self.votes@.len() && 0 <= a < self.votes@[i].ballot@.len() ==> ((
            #[trigger] self.votes@[i].ballot@[a]).sig matches Signature::BlsShare { index, .. }
                && index == self.votes@[i].voter)
    }

    /// The last decided generation.
    pub fn generation(&self) -> (r: Generation)
        ensures
            r == self.gen,
    {
        self.gen
    }

    /// The voters' public key set.
    pub fn voters_public_key_set(&self) -> (r: BlsPublicKeySet)
        ensures
            r.bytes@ == self.pk_set_bytes@,
            r.section_key == self.section_key,
    {
        BlsPublicKeySet { bytes: self.pk_set_bytes.clone(), section_key: self.section_key }
    }

    /// The most recent decision, if any.
    pub fn most_recent_decision(&self) -> (r: &Option<Decision>)
        ensures
            r == &self.decision,
    {
        &self.decision
    }

    /// Whether a decided change takes the node out of the section: it left,
    /// or it was relocated under another prefix.
    pub fn is_leaving_section(&self, ns: &NodeState, prefix: Prefix) -> (r: bool)
        ensures
            r == spec_is_leaving(*ns, prefix),
    {
        match &ns.state {
            MembershipState::Joining => false,
            MembershipState::Left => true,
            MembershipState::Relocated(target) => !target.equals(&prefix),
        }
    }

    /// The catch-up votes for a peer whose generation is `from_gen`: every
    /// stored round after it, oldest first.  The answer is empty exactly
    /// when the peer is current.
    pub fn anti_entropy(&self, from_gen: Generation) -> (r: Result<Vec<SignedVote>, Error>)
        requires
            self.inv(),
        ensures
            r is Ok,
            r matches Ok(v) ==> v@.len() == spec_catch_up(self.history@, from_gen as int).len()
                && (forall|i: int|
                0 <= i < v@.len() ==> spec_same_vote(
                    #[trigger] v@[i],
                    spec_catch_up(self.history@, from_gen as int)[i],
                )),
            r matches Ok(v) ==> ((v@.len() == 0) <==> from_gen >= self.gen),
    {
        let mut out: Vec<SignedVote> = Vec::new();
        if from_gen >= self.gen {
            proof {
                assert(spec_catch_up(self.history@, from_gen as int) =~= Seq::<
                    SignedVote,
                >::empty());
            }
            return Ok(out);
        }
        let n: usize = self.history.len();
        let start: usize = from_gen as usize;
        let mut g: usize = start;
        proof {
            lemma_catch_up_split(self.history@, start as int, start as int);
        }
        while g < n
            invariant
                start <= g <= n,
                n == self.history@.len(),
                self.inv(),
                start < n,
                out@.len() == spec_catch_up_prefix(self.history@, start as int, g as int).len(),
                forall|i: int|
                    0 <= i < out@.len() ==> spec_same_vote(
                        #[trigger] out@[i],
                        spec_catch_up_prefix(self.history@, start as int, g as int)[i],
                    ),
            decreases n - g,
        {
            let round = &self.history[g];
            let m: usize = round.len();
            let mut k: usize = 0;
            while k < m
                invariant
                    0 <= k <= m,
                    start <= g < n,
                    n == self.history@.len(),
                    round == self.history@[g as int],
                    m == round@.len(),
                    out@.len() == spec_catch_up_prefix(self.history@, start as int, g as int).len()
                        + k,
                    forall|i: int|
                        0 <= i < out@.len() ==> spec_same_vote(
                            #[trigger] out@[i],
                            (spec_catch_up_prefix(self.history@, start as int, g as int)
                                + round@.take(k as int))[i],
                        ),
                decreases m - k,
            {
                let v = round[k].clone_vote();
                out.push(v);
                proof {
                    let pre = spec_catch_up_prefix(self.history@, start as int, g as int);
                    assert(round@.take(k + 1)[k as int] == round@[k as int]);
                    assert forall|i: int| 0 <= i < out@.len() implies spec_same_vote(
                        #[trigger] out@[i],
                        (pre + round@.take(k + 1))[i],
                    ) by {
                        if i < out@.len() - 1 {
                            assert((pre + round@.take(k as int))[i] == (pre + round@.take(k + 1))[
                                i]);
                        }
                    }
                }
                k += 1;
            }
            proof {
                assert(round@.take(m as int) =~= round@);
                lemma_catch_up_prefix_step(self.history@, start as int, g as int);
            }
            g += 1;
        }
        proof {
            lemma_catch_up_prefix_full(self.history@, start as int);
            assert(self.history@[start as int]@.len() > 0);
            lemma_catch_up_head_len(self.history@, start as int);
        }
        Ok(out)
    }
}

/// Whether a decided change takes the node out of the section.
pub open spec fn spec_is_leaving(ns: NodeState, prefix: Prefix) -> bool {
    match ns.state {
        MembershipState::Joining => false,
        MembershipState::Left => true,
        MembershipState::Relocated(target) => target != prefix,
    }
}

/// The concatenation of rounds `from .. upto` of the history.
pub open spec fn spec_catch_up_prefix(h: Seq<Vec<SignedVote>>, from: int, upto: int) -> Seq<
    SignedVote,
>
    decreases upto - from,
{
    if from < 0 || from >= upto || upto > h.len() {
        Seq::empty()
    } else {
        spec_catch_up_prefix(h, from, upto - 1) + h[upto - 1]@
    }
}

proof fn lemma_catch_up_split(h: Seq<Vec<SignedVote>>, from: int, at: int)
    requires
        0 <= from <= at <= h.len(),
    ensures
        spec_catch_up(h, from) == spec_catch_up_prefix(h, from, at) + spec_catch_up(h, at),
    decreases at - from,
{
    if from == at {
        assert(spec_catch_up_prefix(h, from, at) =~= Seq::<SignedVote>::empty());
        assert(spec_catch_up(h, from) =~= spec_catch_up_prefix(h, from, at) + spec_catch_up(
            h,
            at,
        ));
    } else {
        lemma_catch_up_split(h, from, at - 1);
        if at - 1 < h.len() {
            assert(spec_catch_up(h, at - 1) =~= h[at - 1]@ + spec_catch_up(h, at));
        }
        assert(spec_catch_up_prefix(h, from, at) == spec_catch_up_prefix(h, from, at - 1) + h[at
            - 1]@);
        assert(spec_catch_up(h, from) =~= spec_catch_up_prefix(h, from, at) + spec_catch_up(h, at));
    }
}

proof fn lemma_catch_up_prefix_step(h: Seq<Vec<SignedVote>>, from: int, g: int)
    requires
        0 <= from <= g < h.len(),
    ensures
        spec_catch_up_prefix(h, from, g + 1) == spec_catch_up_prefix(h, from, g) + h[g]@,
{
}

proof fn lemma_catch_up_prefix_full(h: Seq<Vec<SignedVote>>, from: int)
    requires
        0 <= from <= h.len(),
    ensures
        spec_catch_up_prefix(h, from, h.len() as int) == spec_catch_up(h, from),
{
    lemma_catch_up_split(h, from, h.len() as int);
    assert(spec_catch_up(h, h.len() as int) =~= Seq::<SignedVote>::empty());
    assert(spec_catch_up_prefix(h, from, h.len() as int) =~= spec_catch_up_prefix(
        h,
        from,
        h.len() as int,
    ) + spec_catch_up(h, h.len() as int));
}

proof fn lemma_catch_up_head_len(h: Seq<Vec<SignedVote>>, from: int)
    requires
        0 <= from < h.len(),
        h[from]@.len() > 0,
    ensures
        spec_catch_up(h, from).len() > 0,
{
    assert(spec_catch_up(h, from) == h[from]@ + spec_catch_up(h, from + 1));
}

impl SignedVote {
    /// A field-for-field copy of the vote.
    pub fn clone_vote(&self) -> (r: SignedVote)
        ensures
            spec_same_vote(r, *self),
            r.voter == self.voter,
            r.gen == self.gen,
            r.ballot@ == self.ballot@,
    {
        let mut ballot: Vec<SignedProposal> = Vec::new();
        let n: usize = self.ballot.len();
        let mut i: usize = 0;
        while i < n
            invariant
                0 <= i <= n,
                n == self.ballot@.len(),
                ballot@ == self.ballot@.take(i as int),
            decreases n - i,
        {
            ballot.push(self.ballot[i]);
            proof {
                assert(ballot@ =~= self.ballot@.take(i + 1));
            }
            i += 1;
        }
        proof {
            assert(ballot@ =~= self.ballot@);
        }
        SignedVote { voter: self.voter, gen: self.gen, ballot }
    }
}


/// Structural validity of an incoming vote: a known voter, a non-empty
/// ballot of distinctly named changes inside the section prefix, each signed
/// as a share by that voter.
pub open spec fn spec_vote_shape_ok(voters: Seq<ElderVoter>, v: SignedVote, prefix: Prefix) -> bool {
    &&& spec_is_voter(voters, v.voter)
    &&& v.ballot@.len() > 0
    &&& forall|a: int, b: int|
        0 <= a < b < v.ballot@.len() ==> (#[trigger] v.ballot@[a]).state.name != (
        #[trigger] v.ballot@[b]).state.name
    &&& forall|a: int|
        0 <= a < v.ballot@.len() ==> prefix.spec_matches((#[trigger] v.ballot@[a]).state.name@)
    &&& forall|a: int|
        0 <= a < v.ballot@.len() ==> ((#[trigger] v.ballot@[a]).sig matches Signature::BlsShare {
            index,
            ..
        } && index == v.voter)
}

/// Cryptographic validity of an incoming vote: every share checks out under
/// the voter's key share.
pub open spec fn spec_vote_sigs_ok(voters: Seq<ElderVoter>, v: SignedVote) -> bool {
    forall|a: int|
        0 <= a < v.ballot@.len() ==> match (#[trigger] v.ballot@[a]).sig {
            Signature::BlsShare { share, .. } => crypto::bls_share_valid(
                spec_voter_key(voters, v.voter),
                share@,
                spec_vote_msg(v.gen, v.ballot@[a].state),
            ) && crypto::bls_sig_share_parses(share@),
            _ => false,
        }
}

/// Whether this engine can sign: its secret share parses and derives the
/// key share the voter table stores for it.
pub open spec fn spec_sign_env_ok(m: Membership) -> bool {
    match m.keypair {
        Keypair::BlsShare { sk, .. } => crypto::bls_sk_parses(sk@) && sk@ != Seq::new(
            32,
            |i: int| 0u8,
        ) && crypto::bls_share_pk_of(sk@) == spec_voter_key(m.voters@, m.our_index),
        _ => false,
    }
}

/// How one call of `handle_signed_vote` relates the engine states before
/// and after to the vote and the answer.  This is the contract the replay
/// law is proved from.
pub open spec fn spec_handle_rel(
    m0: Membership,
    vote: SignedVote,
    prefix: Prefix,
    m1: Membership,
    r: Result<VoteResponse, Error>,
) -> bool {
    &&& m1.voters@ == m0.voters@
    &&& m1.our_index == m0.our_index
    &&& (m1.gen == m0.gen || m1.gen == m0.gen + 1)
    &&& ((r matches Err(e) && e is RequestAntiEntropy) <==> (vote.gen != m0.gen + 1 || m0.gen
        >= u64::MAX - 1))
    &&& ((vote.gen != m0.gen + 1 || m0.gen >= u64::MAX - 1) ==> m1 == m0)
    &&& (match r {
        Ok(VoteResponse::Broadcast(b)) => !spec_has_vote(m0, vote) && vote.gen == m0.gen + 1
            && spec_vote_shape_ok(m0.voters@, vote, prefix) && spec_vote_sigs_ok(m0.voters@, vote)
            && spec_sign_env_ok(m0) && b.voter == m0.our_index && b.gen == m0.gen + 1,
        _ => true,
    })
    &&& (vote.gen == m0.gen + 1 && m0.gen < u64::MAX - 1 && spec_vote_shape_ok(
        m0.voters@,
        vote,
        prefix,
    ) && spec_vote_sigs_ok(m0.voters@, vote) && spec_sign_env_ok(m0) ==> (spec_has_vote(m1, vote)
        || m1.gen == m0.gen + 1))
    &&& (vote.gen == m0.gen + 1 && m0.gen < u64::MAX - 1 && !(spec_vote_shape_ok(
        m0.voters@,
        vote,
        prefix,
    ) && spec_vote_sigs_ok(m0.voters@, vote)) ==> r is Err && m1 == m0)
    &&& (m1.gen == m0.gen + 1 ==> (match m1.decision {
        Some(d) => d.generation == m1.gen && d.proposals@.len() >= 1 && (forall|i: int|
            0 <= i < d.proposals@.len() ==> (#[trigger] d.proposals@[i]).1 is Bls),
        None => false,
    }))
    &&& (m1.gen == m0.gen ==> m1.decision == m0.decision && m1.history == m0.history)
}

/// Replaying one signed vote yields at most one broadcast across the two
/// calls: whatever the first call answered, the second cannot broadcast
/// again.
pub proof fn lemma_replay_single_broadcast(
    m0: Membership,
    vote: SignedVote,
    prefix: Prefix,
    m1: Membership,
    r1: Result<VoteResponse, Error>,
    m2: Membership,
    r2: Result<VoteResponse, Error>,
)
    requires
        spec_handle_rel(m0, vote, prefix, m1, r1),
        spec_handle_rel(m1, vote, prefix, m2, r2),
    ensures
        !((r1 matches Ok(a) && a is Broadcast) && (r2 matches Ok(b) && b is Broadcast)),
{
    if (r1 matches Ok(a) && a is Broadcast) && (r2 matches Ok(b) && b is Broadcast) {
        assert(!spec_has_vote(m0, vote) && vote.gen == m0.gen + 1);
        assert(!spec_has_vote(m1, vote) && vote.gen == m1.gen + 1);
        assert(m0.gen < u64::MAX - 1);
        assert(spec_has_vote(m1, vote) || m1.gen == m0.gen + 1);
        assert(m1.gen == m0.gen + 1);
        assert(vote.gen == m0.gen + 2);
        assert(false);
    }
}

/// Looks a voter up by index.
fn find_voter(voters: &Vec<ElderVoter>, idx: u64) -> (r: Option<usize>)
    ensures
        r is Some <==> spec_is_voter(voters@, idx),
        r matches Some(i) ==> i < voters@.len() && voters@[i as int].index == idx,
{
    let n: usize = voters.len();
    let mut i: usize = 0;
    while i < n
        invariant
            0 <= i <= n,
            n == voters@.len(),
            forall|j: int| 0 <= j < i ==> (#[trigger] voters@[j]).index != idx,
        decreases n - i,
    {
        if voters[i].index == idx {
            return Some(i);
        }
        i += 1;
    }
    proof {
        if spec_is_voter(voters@, idx) {
            let j = choose|j: int| 0 <= j < voters@.len() && voters@[j].index == idx;
            assert(false);
        }
    }
    None
}

/// In a table of distinct indices, any matching entry carries the looked-up
/// key.
proof fn lemma_voter_key_at(voters: Seq<ElderVoter>, idx: u64, i: int)
    requires
        forall|a: int, b: int| 0 <= a < b < voters.len() ==> voters[a].index != voters[b].index,
        0 <= i < voters.len(),
        voters[i].index == idx,
    ensures
        spec_voter_key(voters, idx) == voters[i].key@,
    decreases voters.len(),
{
    if i == 0 {
    } else {
        assert(voters[0].index != idx);
        assert(voters.skip(1)[i - 1] == voters[i]);
        assert forall|a: int, b: int|
            0 <= a < b < voters.skip(1).len() implies voters.skip(1)[a].index != voters.skip(
            1,
        )[b].index by {
            assert(voters.skip(1)[a] == voters[a + 1]);
            assert(voters.skip(1)[b] == voters[b + 1]);
        }
        lemma_voter_key_at(voters.skip(1), idx, i - 1);
    }
}

/// Whether a ballot carries a change for this node name.
fn ballot_find_name(ballot: &Vec<SignedProposal>, name: &XorName) -> (r: Option<usize>)
    ensures
        r matches Some(i) ==> i < ballot@.len() && ballot@[i as int].state.name == *name,
        r is None ==> forall|a: int| 0 <= a < ballot@.len() ==> (#[trigger] ballot@[a]).state.name
            != *name,
{
    let n: usize = ballot.len();
    let mut i: usize = 0;
    while i < n
        invariant
            0 <= i <= n,
            n == ballot@.len(),
            forall|a: int| 0 <= a < i ==> (#[trigger] ballot@[a]).state.name != *name,
        decreases n - i,
    {
        let p: SignedProposal = ballot[i];
        if p.state.name.equals(name) {
            return Some(i);
        }
        i += 1;
    }
    None
}

/// Whether a ballot carries exactly this change.
fn ballot_contains_state(ballot: &Vec<SignedProposal>, ns: &NodeState) -> (r: bool)
    ensures
        r == (exists|a: int|
            0 <= a < ballot@.len() && (#[trigger] ballot@[a]).state == *ns),
{
    let n: usize = ballot.len();
    let mut i: usize = 0;
    while i < n
        invariant
            0 <= i <= n,
            n == ballot@.len(),
            forall|a: int| 0 <= a < i ==> (#[trigger] ballot@[a]).state != *ns,
        decreases n - i,
    {
        let p: SignedProposal = ballot[i];
        if node_state_eq(&p.state, ns) {
            return true;
        }
        i += 1;
    }
    false
}

/// A supermajority of `n` voters.
fn super_majority(n: usize) -> (r: usize)
    requires
        n >= 1,
    ensures
        r as int == spec_super_majority(n as int),
        1 <= r <= n,
{
    let wide: u128 = 2u128 * (n as u128) / 3u128 + 1u128;
    proof {
        vstd::arithmetic::div_mod::lemma_div_is_ordered(2 * (n as int), 3 * (n as int), 3);
        vstd::arithmetic::div_mod::lemma_div_by_multiple(n as int, 3);
        assert(2 * (n as int) / 3 <= n);
        vstd::arithmetic::div_mod::lemma_div_pos_is_pos(2 * (n as int), 3);
    }
    wide as usize
}

impl Membership {
    /// Builds the engine for one elder of the initial section.
    ///
    /// Succeeds exactly when the key set parses, there is at least one
    /// elder, our index is among them, the secret share parses and derives
    /// the key share the set assigns to our index, and a supermajority of
    /// elders is enough to combine signatures.  The generation starts at
    /// zero with no open votes and no decision.
    pub fn new(our_index: u64, sk_bytes: [u8; 32], pk_set_bytes: Vec<u8>, elder_count: u64) -> (r:
        Result<Membership, Error>)
        ensures
            r matches Ok(m) ==> m.inv() && m.gen == 0 && m.votes@.len() == 0 && m.decision is None
                && m.our_index == our_index && m.voters@.len() == elder_count
                && m.section_key@ == crypto::bls_pkset_pk_of(m.pk_set_bytes@),
            r matches Err(e) ==> e is FailedToParse || e is NotElder,
            r is Ok <==> (1 <= elder_count && (elder_count as int) < (usize::MAX as int)
                && our_index < elder_count && pk_set_bytes@.len() >= 48
                && crypto::bls_pkset_parses(pk_set_bytes@) && crypto::bls_pkset_threshold_of(
                pk_set_bytes@,
            ) < spec_super_majority(elder_count as int) && crypto::bls_sk_parses(sk_bytes@)
                && sk_bytes@ != Seq::new(32, |i: int| 0u8) && crypto::bls_share_pk_of(sk_bytes@)
                == crypto::bls_pkset_share_pk_of(pk_set_bytes@, our_index as int)),
    {
        if elder_count < 1 || our_index >= elder_count || elder_count >= usize::MAX as u64 {
            return Err(Error::NotElder);
        }
        if pk_set_bytes.len() < 48 {
            return Err(
                Error::FailedToParse(String::from_str("the public key set is too short")),
            );
        }
        if !crypto::bls_pkset_ok(&pk_set_bytes) {
            return Err(Error::FailedToParse(String::from_str("the public key set is malformed")));
        }
        let section_key = crypto::bls_pkset_public_key(&pk_set_bytes);
        let threshold = crypto::bls_pkset_threshold(&pk_set_bytes);
        let n: usize = elder_count as usize;
        let sm = super_majority(n);
        if threshold >= sm {
            return Err(
                Error::FailedToParse(
                    String::from_str("the key set needs more shares than a supermajority"),
                ),
            );
        }
        let mut voters: Vec<ElderVoter> = Vec::new();
        let mut i: usize = 0;
        while i < n
            invariant
                0 <= i <= n,
                n == elder_count,
                crypto::bls_pkset_parses(pk_set_bytes@),
                voters@.len() == i,
                forall|j: int| 0 <= j < i ==> (#[trigger] voters@[j]).index == j,
                forall|j: int|
                    0 <= j < i ==> (#[trigger] voters@[j]).key@ == crypto::bls_pkset_share_pk_of(
                        pk_set_bytes@,
                        j,
                    ),
            decreases n - i,
        {
            let key = crypto::bls_pkset_share_pk(&pk_set_bytes, i as u64);
            voters.push(ElderVoter { index: i as u64, key });
            i += 1;
        }
        let keypair = match Keypair::bls_share_from_sk_bytes(our_index, sk_bytes) {
            Ok(kp) => kp,
            Err(_) => {
                return Err(
                    Error::FailedToParse(
                        String::from_str("the secret key share does not parse"),
                    ),
                );
            },
        };
        let our_pk: [u8; 48] = match &keypair {
            Keypair::BlsShare { pk, .. } => *pk,
            _ => {
                proof {
                    assert(false);
                }
                return Err(Error::NotElder);
            },
        };
        let expected = voters[our_index as usize].key;
        if !bytes_eq(our_pk.as_slice(), expected.as_slice()) {
            return Err(
                Error::FailedToParse(
                    String::from_str("the secret share does not belong to this index"),
                ),
            );
        }
        let m = Membership {
            keypair,
            our_index,
            voters,
            pk_set_bytes,
            section_key,
            gen: 0,
            votes: Vec::new(),
            history: Vec::new(),
            decision: None,
        };
        proof {
            assert(m.voters@[our_index as int].index == our_index);
            assert(spec_is_voter(m.voters@, our_index));
        }
        Ok(m)
    }
}


/// Whether the engine already holds a change for the same node with
/// different content.
pub open spec fn spec_conflict(m: Membership, ns: NodeState) -> bool {
    exists|i: int, a: int|
        0 <= i < m.votes@.len() && 0 <= a < m.votes@[i].ballot@.len() && (
        #[trigger] m.votes@[i].ballot@[a]).state.name == ns.name && m.votes@[i].ballot@[a].state
            != ns
}

impl Membership {
    /// Signs every state of a ballot afresh with our share.
    ///
    /// Returns the signed ballot; every share is valid under our key share.
    fn sign_ballot(&self, states: &Vec<NodeState>) -> (r: Vec<SignedProposal>)
        requires
            self.inv(),
            spec_sign_env_ok(*self),
            self.gen < u64::MAX,
        ensures
            r@.len() == states@.len(),
            forall|a: int| 0 <= a < r@.len() ==> (#[trigger] r@[a]).state == states@[a],
            forall|a: int|
                0 <= a < r@.len() ==> ((#[trigger] r@[a]).sig matches Signature::BlsShare {
                    index,
                    ..
                } && index == self.our_index),
            forall|a: int|
                0 <= a < r@.len() ==> match (#[trigger] r@[a]).sig {
                    Signature::BlsShare { share, .. } => crypto::bls_share_valid(
                        spec_voter_key(self.voters@, self.our_index),
                        share@,
                        spec_vote_msg((self.gen + 1) as u64, r@[a].state),
                    ) && crypto::bls_sig_share_parses(share@),
                    _ => false,
                },
    {
        let sk: [u8; 32] = match &self.keypair {
            Keypair::BlsShare { sk, .. } => *sk,
            _ => {
                proof {
                    assert(false);
                }
                [0u8; 32]
            },
        };
        let mut out: Vec<SignedProposal> = Vec::new();
        let n: usize = states.len();
        let mut i: usize = 0;
        while i < n
            invariant
                0 <= i <= n,
                n == states@.len(),
                self.inv(),
                spec_sign_env_ok(*self),
                self.gen < u64::MAX,
                self.keypair matches Keypair::BlsShare { sk: s, .. } && s == sk,
                out@.len() == i,
                forall|a: int| 0 <= a < i ==> (#[trigger] out@[a]).state == states@[a],
                forall|a: int|
                    0 <= a < i ==> ((#[trigger] out@[a]).sig matches Signature::BlsShare {
                        index,
                        ..
                    } && index == self.our_index),
                forall|a: int|
                    0 <= a < i ==> match (#[trigger] out@[a]).sig {
                        Signature::BlsShare { share, .. } => crypto::bls_share_valid(
                            spec_voter_key(self.voters@, self.our_index),
                            share@,
                            spec_vote_msg((self.gen + 1) as u64, out@[a].state),
                        ) && crypto::bls_sig_share_parses(share@),
                        _ => false,
                    },
            decreases n - i,
        {
            let st: NodeState = states[i];
            let msg = vote_msg(self.gen + 1, &st);
            let share = crypto::bls_share_sign(&sk, msg.as_slice());
            out.push(SignedProposal {
                state: st,
                sig: Signature::BlsShare { index: self.our_index, share },
            });
            i += 1;
        }
        out
    }

    /// Proposes a membership change.
    ///
    /// Succeeds exactly when the candidate's name sits inside the section
    /// prefix, no pending change names the same node with different
    /// content, the engine can still count a round, and its signing share
    /// is usable.  On success the returned vote is stored as our own and
    /// carries the proposed change, freshly signed.
    pub fn propose(&mut self, node_state: NodeState, prefix: &Prefix) -> (r: Result<
        SignedVote,
        Error,
    >)
        requires
            old(self).inv(),
            prefix.wf(),
        ensures
            final(self).inv(),
            final(self).gen == old(self).gen,
            final(self).voters@ == old(self).voters@,
            final(self).our_index == old(self).our_index,
            final(self).decision == old(self).decision,
            final(self).history == old(self).history,
            r is Err ==> *final(self) == *old(self),
            r is Err <==> (!prefix.spec_matches(node_state.name@) || spec_conflict(
                *old(self),
                node_state,
            ) || !spec_sign_env_ok(*old(self)) || old(self).gen >= u64::MAX - 1),
            r matches Ok(v) ==> v.voter == old(self).our_index && v.gen == old(self).gen + 1
                && spec_has_vote(*final(self), v) && (exists|a: int|
                0 <= a < v.ballot@.len() && (#[trigger] v.ballot@[a]).state == node_state)
                && spec_vote_sigs_ok(final(self).voters@, v),
    {
        if self.gen >= u64::MAX - 1 {
            return Err(Error::InvalidProposal);
        }
        if !prefix.matches(&node_state.name) {
            return Err(Error::InvalidProposal);
        }
        // reject a second, incompatible change for the same node
        let nv: usize = self.votes.len();
        let mut i: usize = 0;
        while i < nv
            invariant
                0 <= i <= nv,
                nv == self.votes@.len(),
                self.inv(),
                forall|j: int, a: int|
                    0 <= j < i && 0 <= a < self.votes@[j].ballot@.len() ==> !((
                    #[trigger] self.votes@[j].ballot@[a]).state.name == node_state.name
                        && self.votes@[j].ballot@[a].state != node_state),
            decreases nv - i,
        {
            let m: usize = self.votes[i].ballot.len();
            let mut a: usize = 0;
            while a < m
                invariant
                    0 <= a <= m,
                    0 <= i < nv,
                    nv == self.votes@.len(),
                    m == self.votes@[i as int].ballot@.len(),
                    self.inv(),
                    forall|j: int, aa: int|
                        0 <= j < i && 0 <= aa < self.votes@[j].ballot@.len() ==> !((
                        #[trigger] self.votes@[j].ballot@[aa]).state.name == node_state.name
                            && self.votes@[j].ballot@[aa].state != node_state),
                    forall|aa: int|
                        0 <= aa < a ==> !((#[trigger] self.votes@[i as int].ballot@[aa]).state.name
                            == node_state.name && self.votes@[i as int].ballot@[aa].state
                            != node_state),
                decreases m - a,
            {
                let p: SignedProposal = self.votes[i].ballot[a];
                if p.state.name.equals(&node_state.name) && !node_state_eq(&p.state, &node_state) {
                    proof {
                        assert(spec_conflict(*old(self), node_state));
                    }
                    return Err(Error::InvalidProposal);
                }
                a += 1;
            }
            i += 1;
        }
        // our signing material must belong to our voter slot
        let sk: [u8; 32] = match &self.keypair {
            Keypair::BlsShare { sk, .. } => *sk,
            _ => {
                proof {
                    assert(false);
                }
                [0u8; 32]
            },
        };
        if !crypto::bls_sk_ok(&sk) {
            return Err(Error::FailedToParse(String::from_str("our key share does not parse")));
        }
        let zero = [0u8; 32];
        proof {
            assert(zero@ =~= Seq::new(32, |i: int| 0u8));
        }
        if bytes_eq(sk.as_slice(), zero.as_slice()) {
            return Err(Error::FailedToParse(String::from_str("the zero scalar cannot sign")));
        }
        let derived = crypto::bls_share_derive_pk(&sk);
        let our_slot = match find_voter(&self.voters, self.our_index) {
            Some(s) => s,
            None => {
                proof {
                    assert(false);
                }
                return Err(Error::NotElder);
            },
        };
        let slot_key: [u8; 48] = self.voters[our_slot].key;
        proof {
            lemma_voter_key_at(self.voters@, self.our_index, our_slot as int);
        }
        if !bytes_eq(derived.as_slice(), slot_key.as_slice()) {
            return Err(
                Error::FailedToParse(
                    String::from_str("our key share does not belong to our index"),
                ),
            );
        }
        proof {
            assert(spec_sign_env_ok(*self));
        }
        // the new ballot: what we already back, plus the new change
        let mut states: Vec<NodeState> = Vec::new();
        let ours = self.find_our_vote();
        match ours {
            Some(oi) => {
                let m: usize = self.votes[oi].ballot.len();
                let mut a: usize = 0;
                while a < m
                    invariant
                        0 <= a <= m,
                        0 <= oi < self.votes@.len(),
                        m == self.votes@[oi as int].ballot@.len(),
                        self.inv(),
                        forall|x: int, y: int|
                            0 <= x < y < states@.len() ==> (#[trigger] states@[x]).name != (
                            #[trigger] states@[y]).name,
                        forall|x: int|
                            0 <= x < states@.len() ==> exists|aa: int|
                                0 <= aa < m && self.votes@[oi as int].ballot@[aa].state == (
                                #[trigger] states@[x]),
                    decreases m - a,
                {
                    let p: SignedProposal = self.votes[oi].ballot[a];
                    let mut dup = false;
                    let sn: usize = states.len();
                    let mut x: usize = 0;
                    while x < sn
                        invariant
                            0 <= x <= sn,
                            sn == states@.len(),
                            dup ==> exists|y: int|
                                0 <= y < states@.len() && (#[trigger] states@[y]).name
                                    == p.state.name,
                            !dup ==> forall|y: int|
                                0 <= y < x ==> (#[trigger] states@[y]).name != p.state.name,
                        decreases sn - x,
                    {
                        if states[x].name.equals(&p.state.name) {
                            dup = true;
                        }
                        x += 1;
                    }
                    if !dup {
                        states.push(p.state);
                        proof {
                            assert(states@[states@.len() - 1] == p.state);
                            assert(self.votes@[oi as int].ballot@[a as int].state == p.state);
                        }
                    }
                    a += 1;
                }
            },
            None => {},
        }
        // make sure the proposed change itself is on the ballot, exactly once
        let mut name_taken = false;
        let mut have_it = false;
        let sn: usize = states.len();
        let mut x: usize = 0;
        while x < sn
            invariant
                0 <= x <= sn,
                sn == states@.len(),
                name_taken <==> exists|y: int|
                    0 <= y < x && (#[trigger] states@[y]).name == node_state.name,
                have_it <==> exists|y: int| 0 <= y < x && #[trigger] states@[y] == node_state,
            decreases sn - x,
        {
            let st: NodeState = states[x];
            if st.name.equals(&node_state.name) {
                name_taken = true;
                if node_state_eq(&st, &node_state) {
                    have_it = true;
                }
            }
            x += 1;
        }
        if name_taken && !have_it {
            // a change for the same node with different content is already
            // stored in our own ballot, which the conflict scan excluded
            proof {
                let y = choose|y: int|
                    0 <= y < states@.len() && (#[trigger] states@[y]).name == node_state.name;
                assert(states@[y] != node_state);
                match ours {
                    Some(oi) => {
                        let aa = choose|aa: int|
                            0 <= aa < self.votes@[oi as int].ballot@.len()
                                && self.votes@[oi as int].ballot@[aa].state == states@[y];
                        assert(false);
                    },
                    None => {
                        assert(false);
                    },
                }
            }
            return Err(Error::InvalidProposal);
        }
        if !have_it {
            states.push(node_state);
        }
        proof {
            assert(exists|y: int| 0 <= y < states@.len() && #[trigger] states@[y] == node_state)
                by {
                if have_it {
                } else {
                    assert(states@[states@.len() - 1] == node_state);
                }
            }
            assert(!spec_conflict(*self, node_state)) by {
                if spec_conflict(*self, node_state) {
                    let (i2, a2): (int, int) = choose|i2: int, a2: int|
                        0 <= i2 < self.votes@.len() && 0 <= a2 < self.votes@[i2].ballot@.len() && (
                        #[trigger] self.votes@[i2].ballot@[a2]).state.name == node_state.name
                            && self.votes@[i2].ballot@[a2].state != node_state;
                    assert(false);
                }
            }
        }
        let ballot = self.sign_ballot(&states);
        proof {
            let y = choose|y: int| 0 <= y < states@.len() && #[trigger] states@[y] == node_state;
            assert(ballot@[y].state == states@[y]);
        }
        let vote = SignedVote { voter: self.our_index, gen: self.gen + 1, ballot };
        proof {
            assert(exists|a: int|
                0 <= a < vote.ballot@.len() && (#[trigger] vote.ballot@[a]).state == node_state);
            assert(spec_vote_sigs_ok(self.voters@, vote));
        }
        let stored = vote.clone_vote();
        let ghost pre_votes = self.votes@;
        match ours {
            Some(oi) => {
                self.votes[oi] = stored;
            },
            None => {
                self.votes.push(stored);
            },
        }
        proof {
            let fv = self.votes@;
            let ghost oi2: int = match ours {
                Some(v) => v as int,
                None => fv.len() - 1,
            };
            assert(0 <= oi2 < fv.len());
            assert(spec_same_vote(fv[oi2], vote));
            assert(spec_has_vote(*self, vote));
            assert(forall|j: int| 0 <= j < fv.len() && j != oi2 ==> fv[j] == pre_votes[j]);
            assert(fv[oi2] == stored);
            assert forall|j: int| 0 <= j < fv.len() implies ((#[trigger] fv[j]).gen == self.gen + 1
                && spec_is_voter(self.voters@, fv[j].voter) && fv[j].ballot@.len() > 0) by {
                if j != oi2 {
                    assert(fv[j] == pre_votes[j]);
                }
            }
            assert forall|j: int, k: int| 0 <= j < k < fv.len() implies fv[j].voter != fv[k].voter
                by {
                if j != oi2 && k != oi2 {
                    assert(fv[j] == pre_votes[j]);
                    assert(fv[k] == pre_votes[k]);
                } else if j == oi2 && k != oi2 {
                    assert(fv[k] == pre_votes[k]);
                    assert(pre_votes[k].voter != self.our_index);
                } else if k == oi2 && j != oi2 {
                    assert(fv[j] == pre_votes[j]);
                    assert(pre_votes[j].voter != self.our_index);
                }
            }
            assert forall|j: int, a: int, b: int|
                0 <= j < fv.len() && 0 <= a < b < fv[j].ballot@.len() implies (
            #[trigger] fv[j].ballot@[a]).state.name != (#[trigger] fv[j].ballot@[b]).state.name by {
                if j == oi2 {
                    assert(fv[j].ballot@[a].state == states@[a]);
                    assert(fv[j].ballot@[b].state == states@[b]);
                } else {
                    assert(fv[j] == pre_votes[j]);
                }
            }
            assert forall|j: int, a: int|
                0 <= j < fv.len() && 0 <= a < fv[j].ballot@.len() implies ((
            #[trigger] fv[j].ballot@[a]).sig matches Signature::BlsShare { index, .. } && index
                == fv[j].voter) by {
                if j != oi2 {
                    assert(fv[j] == pre_votes[j]);
                }
            }
        }
        Ok(vote)
    }

    /// The index of our own stored vote, if we have voted this round.
    fn find_our_vote(&self) -> (r: Option<usize>)
        ensures
            r matches Some(i) ==> i < self.votes@.len() && self.votes@[i as int].voter
                == self.our_index,
            r is None ==> forall|j: int|
                0 <= j < self.votes@.len() ==> (#[trigger] self.votes@[j]).voter != self.our_index,
    {
        let n: usize = self.votes.len();
        let mut i: usize = 0;
        while i < n
            invariant
                0 <= i <= n,
                n == self.votes@.len(),
                forall|j: int| 0 <= j < i ==> (#[trigger] self.votes@[j]).voter != self.our_index,
            decreases n - i,
        {
            if self.votes[i].voter == self.our_index {
                return Some(i);
            }
            i += 1;
        }
        None
    }
}


/// Finds a change in a ballot by exact content.
fn ballot_find_state(ballot: &Vec<SignedProposal>, ns: &NodeState) -> (r: Option<usize>)
    ensures
        r matches Some(i) ==> i < ballot@.len() && ballot@[i as int].state == *ns,
        r is Some <==> exists|a: int| 0 <= a < ballot@.len() && (#[trigger] ballot@[a]).state
            == *ns,
{
    let n: usize = ballot.len();
    let mut i: usize = 0;
    while i < n
        invariant
            0 <= i <= n,
            n == ballot@.len(),
            forall|a: int| 0 <= a < i ==> (#[trigger] ballot@[a]).state != *ns,
        decreases n - i,
    {
        let p: SignedProposal = ballot[i];
        if node_state_eq(&p.state, ns) {
            return Some(i);
        }
        i += 1;
    }
    None
}

impl Membership {
    /// Ingests one signed vote from a peer (or our own vote echoed back).
    ///
    /// A vote for any other round than the one now open is answered with
    /// the anti-entropy error and changes nothing.  A malformed or badly
    /// signed vote is rejected and changes nothing.  A fresh valid vote is
    /// stored; if it brings changes we do not yet back, we adopt them, sign
    /// them, and answer with our own vote to broadcast; an exact replay is
    /// accepted silently.  After every accepted vote the round is tallied:
    /// once a supermajority of elders backs the same set of changes, the
    /// shares are combined, the decision is recorded, and the generation
    /// advances by one.
    #[verifier::loop_isolation(false)]
    pub fn handle_signed_vote(&mut self, vote: SignedVote, prefix: &Prefix) -> (r: Result<
        VoteResponse,
        Error,
    >)
        requires
            old(self).inv(),
            prefix.wf(),
        ensures
            final(self).inv(),
            spec_handle_rel(*old(self), vote, *prefix, *final(self), r),
    {
        if self.gen >= u64::MAX - 1 || vote.gen != self.gen + 1 {
            return Err(Error::RequestAntiEntropy);
        }
        // structural checks
        let vslot = match find_voter(&self.voters, vote.voter) {
            Some(s) => s,
            None => {
                return Err(Error::NotElder);
            },
        };
        let blen: usize = vote.ballot.len();
        if blen == 0 {
            return Err(Error::InvalidProposal);
        }
        let mut a: usize = 0;
        while a < blen
            invariant
                0 <= a <= blen,
                blen == vote.ballot@.len(),
                prefix.wf(),
                forall|x: int, y: int|
                    0 <= x < y < a ==> (#[trigger] vote.ballot@[x]).state.name != (
                    #[trigger] vote.ballot@[y]).state.name,
                forall|x: int|
                    0 <= x < a ==> prefix.spec_matches((#[trigger] vote.ballot@[x]).state.name@),
                forall|x: int|
                    0 <= x < a ==> ((#[trigger] vote.ballot@[x]).sig
                        matches Signature::BlsShare { index, .. } && index == vote.voter),
            decreases blen - a,
        {
            let p: SignedProposal = vote.ballot[a];
            if !prefix.matches(&p.state.name) {
                return Err(Error::InvalidProposal);
            }
            match p.sig {
                Signature::BlsShare { index, .. } => {
                    if index != vote.voter {
                        return Err(Error::InvalidProposal);
                    }
                },
                _ => {
                    return Err(Error::InvalidProposal);
                },
            }
            let mut b: usize = 0;
            while b < a
                invariant
                    0 <= b <= a < blen,
                    blen == vote.ballot@.len(),
                    p == vote.ballot@[a as int],
                    forall|y: int|
                        0 <= y < b ==> (#[trigger] vote.ballot@[y]).state.name != p.state.name,
                decreases a - b,
            {
                let q: SignedProposal = vote.ballot[b];
                if q.state.name.equals(&p.state.name) {
                    return Err(Error::InvalidProposal);
                }
                b += 1;
            }
            a += 1;
        }
        proof {
            assert(spec_vote_shape_ok(self.voters@, vote, *prefix));
        }
        // cryptographic checks
        let vkey: [u8; 48] = self.voters[vslot].key;
        proof {
            lemma_voter_key_at(self.voters@, vote.voter, vslot as int);
        }
        let mut a2: usize = 0;
        while a2 < blen
            invariant
                0 <= a2 <= blen,
                blen == vote.ballot@.len(),
                self.inv(),
                vkey@ == spec_voter_key(self.voters@, vote.voter),
                spec_vote_shape_ok(self.voters@, vote, *prefix),
                forall|x: int|
                    0 <= x < a2 ==> match (#[trigger] vote.ballot@[x]).sig {
                        Signature::BlsShare { share, .. } => crypto::bls_share_valid(
                            spec_voter_key(self.voters@, vote.voter),
                            share@,
                            spec_vote_msg(vote.gen, vote.ballot@[x].state),
                        ) && crypto::bls_sig_share_parses(share@),
                        _ => false,
                    },
            decreases blen - a2,
        {
            let p: SignedProposal = vote.ballot[a2];
            let msg = vote_msg(vote.gen, &p.state);
            match p.sig {
                Signature::BlsShare { share, .. } => {
                    if !crypto::bls_share_verify(&vkey, &share, msg.as_slice()) {
                        return Err(Error::InvalidSignature);
                    }
                },
                _ => {
                    proof {
                        assert(false);
                    }
                    return Err(Error::InvalidProposal);
                },
            }
            a2 += 1;
        }
        proof {
            assert(spec_vote_sigs_ok(self.voters@, vote));
        }
        // replay detection
        let nv0: usize = self.votes.len();
        let mut dup = false;
        let mut di: usize = 0;
        while di < nv0
            invariant
                0 <= di <= nv0,
                nv0 == self.votes@.len(),
                dup ==> spec_has_vote(*self, vote),
                !dup ==> forall|j: int|
                    0 <= j < di ==> !spec_same_vote(#[trigger] self.votes@[j], vote),
            decreases nv0 - di,
        {
            if vote_eq(&self.votes[di], &vote) {
                dup = true;
            }
            di += 1;
        }
        let response: VoteResponse;
        if dup {
            response = VoteResponse::WaitingForMoreVotes;
        } else {
            // what our own ballot would become
            let mut states: Vec<NodeState> = Vec::new();
            let ours = self.find_our_vote();
            match ours {
                Some(oi) => {
                    let m: usize = self.votes[oi].ballot.len();
                    let mut c: usize = 0;
                    while c < m
                        invariant
                            0 <= c <= m,
                            0 <= oi < self.votes@.len(),
                            m == self.votes@[oi as int].ballot@.len(),
                            self.inv(),
                            states@.len() == c,
                            forall|x: int|
                                0 <= x < c ==> #[trigger] states@[x] == self.votes@[oi as int].ballot@[x].state,
                        decreases m - c,
                    {
                        let p: SignedProposal = self.votes[oi].ballot[c];
                        states.push(p.state);
                        c += 1;
                    }
                    proof {
                        assert forall|x: int, y: int|
                            0 <= x < y < states@.len() implies (#[trigger] states@[x]).name != (
                        #[trigger] states@[y]).name by {
                            assert(states@[x] == self.votes@[oi as int].ballot@[x].state);
                            assert(states@[y] == self.votes@[oi as int].ballot@[y].state);
                        }
                    }
                },
                None => {},
            }
            let ghost base_len = states@.len();
            let mut added = false;
            let mut c2: usize = 0;
            while c2 < blen
                invariant
                    0 <= c2 <= blen,
                    blen == vote.ballot@.len(),
                    self.inv(),
                    spec_vote_shape_ok(self.voters@, vote, *prefix),
                    base_len <= states@.len(),
                    c2 > 0 ==> states@.len() >= 1,
                    forall|x: int, y: int|
                        0 <= x < y < states@.len() ==> (#[trigger] states@[x]).name != (
                        #[trigger] states@[y]).name,
                    added <==> states@.len() > base_len,
                decreases blen - c2,
            {
                let p: SignedProposal = vote.ballot[c2];
                let mut found = false;
                let sn: usize = states.len();
                let mut x: usize = 0;
                while x < sn
                    invariant
                        0 <= x <= sn,
                        sn == states@.len(),
                        found ==> exists|y: int|
                            0 <= y < states@.len() && (#[trigger] states@[y]).name == p.state.name,
                        !found ==> forall|y: int|
                            0 <= y < x ==> (#[trigger] states@[y]).name != p.state.name,
                    decreases sn - x,
                {
                    if states[x].name.equals(&p.state.name) {
                        found = true;
                    }
                    x += 1;
                }
                if !found {
                    states.push(p.state);
                    added = true;
                }
                c2 += 1;
            }
            let need = vote.voter != self.our_index && (added || match ours {
                Some(_) => false,
                None => true,
            });
            let mut our_vote_opt: Option<SignedVote> = None;
            if need {
                // our signing material must belong to our voter slot
                let sk: [u8; 32] = match &self.keypair {
                    Keypair::BlsShare { sk, .. } => *sk,
                    _ => {
                        proof {
                            assert(false);
                        }
                        [0u8; 32]
                    },
                };
                if !crypto::bls_sk_ok(&sk) {
                    return Err(
                        Error::FailedToParse(String::from_str("our key share does not parse")),
                    );
                }
                let zero = [0u8; 32];
                proof {
                    assert(zero@ =~= Seq::new(32, |i: int| 0u8));
                }
                if bytes_eq(sk.as_slice(), zero.as_slice()) {
                    return Err(
                        Error::FailedToParse(String::from_str("the zero scalar cannot sign")),
                    );
                }
                let derived = crypto::bls_share_derive_pk(&sk);
                let our_slot = match find_voter(&self.voters, self.our_index) {
                    Some(s) => s,
                    None => {
                        proof {
                            assert(false);
                        }
                        return Err(Error::NotElder);
                    },
                };
                let slot_key: [u8; 48] = self.voters[our_slot].key;
                proof {
                    lemma_voter_key_at(self.voters@, self.our_index, our_slot as int);
                }
                if !bytes_eq(derived.as_slice(), slot_key.as_slice()) {
                    return Err(
                        Error::FailedToParse(
                            String::from_str("our key share does not belong to our index"),
                        ),
                    );
                }
                proof {
                    assert(spec_sign_env_ok(*self));
                }
                let our_ballot = self.sign_ballot(&states);
                proof {
                    assert(states@.len() > 0);
                }
                our_vote_opt = Some(
                    SignedVote { voter: self.our_index, gen: self.gen + 1, ballot: our_ballot },
                );
            }
            // store the incoming vote
            let ghost pre_votes = self.votes@;
            let vslot2 = self.find_vote_by(vote.voter);
            let ghost stored_at: int;
            match vslot2 {
                Some(i) => {
                    self.votes[i] = vote;
                    proof {
                        stored_at = i as int;
                    }
                },
                None => {
                    self.votes.push(vote);
                    proof {
                        stored_at = self.votes@.len() - 1;
                    }
                },
            }
            proof {
                lemma_store_keeps_inv(*old(self), *self, pre_votes, stored_at, vote);
                assert(spec_same_vote(self.votes@[stored_at], vote));
                assert(spec_has_vote(*self, vote));
            }
            match our_vote_opt {
                Some(ov) => {
                    let out = ov.clone_vote();
                    let ghost pre_votes2 = self.votes@;
                    let oslot = self.find_vote_by(self.our_index);
                    let ghost stored_at2: int;
                    match oslot {
                        Some(i) => {
                            self.votes[i] = ov;
                            proof {
                                stored_at2 = i as int;
                            }
                        },
                        None => {
                            self.votes.push(ov);
                            proof {
                                stored_at2 = self.votes@.len() - 1;
                            }
                        },
                    }
                    proof {
                        lemma_store_keeps_inv(*old(self), *self, pre_votes2, stored_at2, ov);
                        assert(spec_has_vote(*self, vote)) by {
                            assert(pre_votes2[stored_at].voter == vote.voter);
                            assert(ov.voter == self.our_index && self.our_index != vote.voter);
                            assert(stored_at != stored_at2);
                            assert(self.votes@[stored_at] == pre_votes2[stored_at]);
                            assert(spec_same_vote(self.votes@[stored_at], vote));
                        }
                    }
                    response = VoteResponse::Broadcast(out);
                },
                None => {
                    response = VoteResponse::WaitingForMoreVotes;
                },
            }
        }
        // tally the round
        let nv: usize = self.votes.len();
        let mut union_states: Vec<NodeState> = Vec::new();
        let mut ui: usize = 0;
        while ui < nv
            invariant
                0 <= ui <= nv,
                nv == self.votes@.len(),
                self.inv(),
            decreases nv - ui,
        {
            let m: usize = self.votes[ui].ballot.len();
            let mut uj: usize = 0;
            while uj < m
                invariant
                    0 <= uj <= m,
                    0 <= ui < nv,
                    nv == self.votes@.len(),
                    m == self.votes@[ui as int].ballot@.len(),
                    self.inv(),
                decreases m - uj,
            {
                let p: SignedProposal = self.votes[ui].ballot[uj];
                let mut present = false;
                let un: usize = union_states.len();
                let mut ux: usize = 0;
                while ux < un
                    invariant
                        0 <= ux <= un,
                        un == union_states@.len(),
                    decreases un - ux,
                {
                    if union_states[ux].name.equals(&p.state.name) {
                        present = true;
                    }
                    ux += 1;
                }
                if !present {
                    union_states.push(p.state);
                }
                uj += 1;
            }
            ui += 1;
        }
        let mut agree: usize = 0;
        let mut ai: usize = 0;
        while ai < nv
            invariant
                0 <= ai <= nv,
                nv == self.votes@.len(),
                self.inv(),
                agree <= ai,
            decreases nv - ai,
        {
            let mut all = true;
            let un: usize = union_states.len();
            let mut ux: usize = 0;
            while ux < un
                invariant
                    0 <= ux <= un,
                    0 <= ai < nv,
                    nv == self.votes@.len(),
                    un == union_states@.len(),
                    self.inv(),
                decreases un - ux,
            {
                let s: NodeState = union_states[ux];
                if !ballot_contains_state(&self.votes[ai].ballot, &s) {
                    all = false;
                }
                ux += 1;
            }
            if all {
                agree += 1;
            }
            ai += 1;
        }
        let n_elders: usize = self.voters.len();
        let sm = super_majority(n_elders);
        if agree >= sm && nv >= 1 && union_states.len() >= 1 {
            if !crypto::bls_pkset_ok(&self.pk_set_bytes) {
                return Err(Error::FailedToAggregate);
            }
            let mut proposals: Vec<(NodeState, Signature)> = Vec::new();
            let un: usize = union_states.len();
            let mut u: usize = 0;
            while u < un
                invariant
                    0 <= u <= un,
                    un == union_states@.len(),
                    self.inv(),
                    self.gen < u64::MAX - 1,
                    crypto::bls_pkset_parses(self.pk_set_bytes@),
                    proposals@.len() == u,
                    forall|k: int|
                        0 <= k < proposals@.len() ==> (#[trigger] proposals@[k]).1 is Bls,
                decreases un - u,
            {
                let s: NodeState = union_states[u];
                let msg = vote_msg(self.gen + 1, &s);
                let mut shares: Vec<(u64, [u8; 96])> = Vec::new();
                let mut si: usize = 0;
                while si < nv
                    invariant
                        0 <= si <= nv,
                        nv == self.votes@.len(),
                        self.inv(),
                        forall|x: int, y: int|
                            0 <= x < y < shares@.len() ==> (#[trigger] shares@[x]).0 != (
                            #[trigger] shares@[y]).0,
                        forall|x: int|
                            0 <= x < shares@.len() ==> exists|j: int|
                                0 <= j < si && self.votes@[j].voter == (#[trigger] shares@[x]).0,
                        forall|x: int|
                            0 <= x < shares@.len() ==> crypto::bls_sig_share_parses(
                                (#[trigger] shares@[x]).1@,
                            ),
                    decreases nv - si,
                {
                    match ballot_find_state(&self.votes[si].ballot, &s) {
                        Some(pi) => {
                            let sp: SignedProposal = self.votes[si].ballot[pi];
                            match sp.sig {
                                Signature::BlsShare { share, .. } => {
                                    let vk_slot = match find_voter(
                                        &self.voters,
                                        self.votes[si].voter,
                                    ) {
                                        Some(sl) => sl,
                                        None => {
                                            proof {
                                                assert(false);
                                            }
                                            return Err(Error::NotElder);
                                        },
                                    };
                                    let vk: [u8; 48] = self.voters[vk_slot].key;
                                    if !crypto::bls_share_verify(&vk, &share, msg.as_slice()) {
                                        return Err(Error::InvalidSignature);
                                    }
                                    let ghost pre_shares = shares@;
                                    let this_voter: u64 = self.votes[si].voter;
                                    shares.push((this_voter, share));
                                    proof {
                                        assert forall|x: int, y: int|
                                            0 <= x < y < shares@.len() implies (
                                        #[trigger] shares@[x]).0 != (#[trigger] shares@[y]).0 by {
                                            if y == shares@.len() - 1 {
                                                let j = choose|j: int|
                                                    0 <= j < si && self.votes@[j].voter == (
                                                    pre_shares[x]).0;
                                                assert(self.votes@[j].voter != self.votes@[
                                                    si as int].voter);
                                            }
                                        }
                                    }
                                },
                                _ => {
                                    proof {
                                        assert(false);
                                    }
                                    return Err(Error::InvalidProposal);
                                },
                            }
                        },
                        None => {},
                    }
                    si += 1;
                }
                match crypto::bls_combine(&self.pk_set_bytes, &shares) {
                    Ok(sig) => {
                        proposals.push((s, Signature::Bls(sig)));
                    },
                    Err(_) => {
                        return Err(Error::FailedToAggregate);
                    },
                }
                u += 1;
            }
            // commit the decision and open the next round
            let mut round: Vec<SignedVote> = Vec::new();
            let mut rk: usize = 0;
            while rk < nv
                invariant
                    0 <= rk <= nv,
                    nv == self.votes@.len(),
                    round@.len() == rk,
                decreases nv - rk,
            {
                let v = self.votes[rk].clone_vote();
                round.push(v);
                rk += 1;
            }
            self.history.push(round);
            self.votes = Vec::new();
            self.decision = Some(Decision { generation: self.gen + 1, proposals });
            self.gen = self.gen + 1;
            proof {
                assert forall|g: int| 0 <= g < self.history@.len() implies (
                #[trigger] self.history@[g])@.len() > 0 by {
                    if g < self.history@.len() - 1 {
                        assert(self.history@[g] == old(self).history@[g]);
                    }
                }
                assert(self.inv());
            }
        }
        Ok(response)
    }

    /// The index of the stored vote cast by `voter`, if any.
    fn find_vote_by(&self, voter: u64) -> (r: Option<usize>)
        ensures
            r matches Some(i) ==> i < self.votes@.len() && self.votes@[i as int].voter == voter,
            r is None ==> forall|j: int|
                0 <= j < self.votes@.len() ==> (#[trigger] self.votes@[j]).voter != voter,
    {
        let n: usize = self.votes.len();
        let mut i: usize = 0;
        while i < n
            invariant
                0 <= i <= n,
                n == self.votes@.len(),
                forall|j: int| 0 <= j < i ==> (#[trigger] self.votes@[j]).voter != voter,
            decreases n - i,
        {
            if self.votes[i].voter == voter {
                return Some(i);
            }
            i += 1;
        }
        None
    }
}

/// Replacing or appending one well-shaped vote keeps the engine invariant,
/// provided everything else is unchanged.
proof fn lemma_store_keeps_inv(
    m0: Membership,
    m1: Membership,
    pre_votes: Seq<SignedVote>,
    at: int,
    v: SignedVote,
)
    requires
        m0.inv(),
        m1.keypair == m0.keypair,
        m1.our_index == m0.our_index,
        m1.voters@ == m0.voters@,
        m1.pk_set_bytes == m0.pk_set_bytes,
        m1.gen == m0.gen,
        m1.history == m0.history,
        0 <= at < m1.votes@.len(),
        m1.votes@[at] == v,
        v.gen == m0.gen + 1,
        spec_is_voter(m1.voters@, v.voter),
        v.ballot@.len() > 0,
        forall|a: int, b: int|
            0 <= a < b < v.ballot@.len() ==> (#[trigger] v.ballot@[a]).state.name != (
            #[trigger] v.ballot@[b]).state.name,
        forall|a: int|
            0 <= a < v.ballot@.len() ==> ((#[trigger] v.ballot@[a]).sig
                matches Signature::BlsShare { index, .. } && index == v.voter),
        // the other entries are the previous ones, and `v`'s voter was
        // either replaced in place or absent
        (m1.votes@.len() == pre_votes.len() && (forall|j: int|
            0 <= j < pre_votes.len() && j != at ==> m1.votes@[j] == pre_votes[j])
            && pre_votes[at].voter == v.voter) || (m1.votes@.len() == pre_votes.len() + 1 && at
            == pre_votes.len() && (forall|j: int|
            0 <= j < pre_votes.len() ==> m1.votes@[j] == pre_votes[j]) && (forall|j: int|
            0 <= j < pre_votes.len() ==> (#[trigger] pre_votes[j]).voter != v.voter)),
        forall|j: int|
            0 <= j < pre_votes.len() ==> ((#[trigger] pre_votes[j]).gen == m0.gen + 1
                && spec_is_voter(m1.voters@, pre_votes[j].voter) && pre_votes[j].ballot@.len()
                > 0),
        forall|j: int, k: int|
            0 <= j < k < pre_votes.len() ==> pre_votes[j].voter != pre_votes[k].voter,
        forall|j: int, a: int, b: int|
            0 <= j < pre_votes.len() && 0 <= a < b < pre_votes[j].ballot@.len() ==> (
            #[trigger] pre_votes[j].ballot@[a]).state.name != (
            #[trigger] pre_votes[j].ballot@[b]).state.name,
        forall|j: int, a: int|
            0 <= j < pre_votes.len() && 0 <= a < pre_votes[j].ballot@.len() ==> ((
            #[trigger] pre_votes[j].ballot@[a]).sig matches Signature::BlsShare { index, .. }
                && index == pre_votes[j].voter),
    ensures
        m1.inv(),
{
    let fv = m1.votes@;
    assert forall|j: int| 0 <= j < fv.len() implies ((#[trigger] fv[j]).gen == m1.gen + 1
        && spec_is_voter(m1.voters@, fv[j].voter) && fv[j].ballot@.len() > 0) by {
        if j != at {
            assert(fv[j] == pre_votes[j]);
        }
    }
    assert forall|j: int, k: int| 0 <= j < k < fv.len() implies fv[j].voter != fv[k].voter by {
        if j != at && k != at {
            assert(fv[j] == pre_votes[j]);
            assert(fv[k] == pre_votes[k]);
        } else if j == at && k != at {
            assert(fv[k] == pre_votes[k]);
        } else if k == at && j != at {
            assert(fv[j] == pre_votes[j]);
        }
    }
    assert forall|j: int, a: int, b: int|
        0 <= j < fv.len() && 0 <= a < b < fv[j].ballot@.len() implies (
    #[trigger] fv[j].ballot@[a]).state.name != (#[trigger] fv[j].ballot@[b]).state.name by {
        if j != at {
            assert(fv[j] == pre_votes[j]);
        }
    }
    assert forall|j: int, a: int|
        0 <= j < fv.len() && 0 <= a < fv[j].ballot@.len() implies ((
    #[trigger] fv[j].ballot@[a]).sig matches Signature::BlsShare { index, .. } && index
        == fv[j].voter) by {
        if j != at {
            assert(fv[j] == pre_votes[j]);
        }
    }
}

} // verus!
