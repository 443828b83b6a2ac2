//! The membership message handler: the glue between the voting engine and
//! the outer node.
//!
//! Inbound peer messages mutate the engine and come back out as commands:
//! votes to broadcast to the elders, direct anti-entropy replies, and the
//! section-level "node online" / "node left" commands that a decision
//! produces.  Engine errors are absorbed here — the protocol recovers
//! through future votes and anti-entropy — so every entry point returns a
//! plain command list.

use vstd::prelude::*;

use crate::keys::PublicKey;
use crate::keys::Signature;
use crate::error::Error;
use crate::membership::{
    spec_catch_up, spec_handle_rel, spec_is_leaving, spec_same_vote, BlsPublicKeySet, Decision,
    Generation, Membership, NetAddr, NodeState, SignedVote, VoteResponse,
};
use crate::xor_name::{Prefix, XorName};

verus! {

/// A peer as the handler addresses it: name and transport address.
#[derive(Clone, Copy, PartialEq, Eq, Hash, Debug)]
pub struct Peer {
    pub name: XorName,
    pub addr: NetAddr,
}

/// The externalised form of a decision entry: the section key and the
/// combined signature that authenticates a downstream command.
#[derive(Clone, Copy, PartialEq, Debug)]
pub struct KeyedSig {
    pub public_key: PublicKey,
    pub signature: Signature,
}

/// A value together with the section authority that vouches for it.
#[derive(Clone, Copy, PartialEq, Debug)]
pub struct SectionAuth {
    pub value: NodeState,
    pub sig: KeyedSig,
}

/// The wire messages the membership subsystem exchanges with peers.
#[derive(Clone, PartialEq, Debug)]
pub enum SystemMsg {
    /// A batch of signed votes.
    MembershipVotes(Vec<SignedVote>),
    /// An anti-entropy request carrying the sender's generation.
    MembershipAE(Generation),
}

/// What the handler tells the outer node to do.
#[derive(Clone, PartialEq, Debug)]
pub enum Cmd {
    /// Broadcast to the current elder set.
    SendMsgToOurElders(SystemMsg),
    /// Direct targeted send to the given peers.
    SendDirectMsgToNodes(Vec<Peer>, SystemMsg, XorName, PublicKey),
    /// Single-peer reply.
    SendDirectMsg(Peer, SystemMsg, PublicKey),
    /// A decided change for a node that stays in the section.
    HandleNewNodeOnline(SectionAuth),
    /// A decided change for a node that leaves the section.
    HandleNodeLeft(SectionAuth),
}

/// The information about elder candidates in a key-generation round.
#[derive(Clone, PartialEq, Debug)]
pub struct ElderCandidates {
    /// The section's elders: name to transport address.
    pub elders: Vec<(XorName, NetAddr)>,
    /// The section prefix; it matches all the members' names.
    pub prefix: Prefix,
}

/// The authoritative elder set.  A new one is created whenever the elders
/// change, due to an elder added or removed, or the section splitting or
/// merging; once published it is immutable.
#[derive(Clone, PartialEq, Debug)]
pub struct SectionAuthorityProvider {
    /// The section prefix; it matches all the members' names.
    pub prefix: Prefix,
    /// Public key of the section.
    pub section_key: PublicKey,
    /// The elders: name to key share bytes and transport address.
    pub elders: Vec<(XorName, ([u8; 48], NetAddr))>,
}

/// A read-mostly snapshot of what this node knows about its section.
/// Updated only by the outer node in response to decisions; the engine
/// never writes it.
#[derive(Clone, PartialEq, Debug)]
pub struct NetworkKnowledge {
    pub sap: SectionAuthorityProvider,
}

impl NetworkKnowledge {
    /// The local section's prefix.
    pub fn prefix(&self) -> (r: Prefix)
        ensures
            r == self.sap.prefix,
    {
        self.sap.prefix
    }

    /// The current section public key.
    pub fn section_key(&self) -> (r: PublicKey)
        ensures
            r == self.sap.section_key,
    {
        self.sap.section_key
    }

    /// A snapshot of the current authority provider.
    pub fn authority_provider(&self) -> (r: &SectionAuthorityProvider)
        ensures
            r == &self.sap,
    {
        &self.sap
    }
}

/// The command one decision entry becomes: the decided change wrapped with
/// the section key and its combined signature, routed by whether the node
/// stays or leaves.
pub open spec fn spec_decision_cmd(
    m: Membership,
    state: NodeState,
    signature: Signature,
    prefix: Prefix,
) -> Cmd {
    let auth = SectionAuth {
        value: state,
        sig: KeyedSig { public_key: PublicKey::Bls(m.section_key), signature },
    };
    if spec_is_leaving(state, prefix) {
        Cmd::HandleNodeLeft(auth)
    } else {
        Cmd::HandleNewNodeOnline(auth)
    }
}

/// The commands the engine's most recent decision gives rise to, one per
/// decided change, in proposal order; none without a decision.
pub open spec fn spec_decision_cmds(m: Membership, prefix: Prefix) -> Seq<Cmd> {
    match m.decision {
        Some(d) => Seq::new(
            d.proposals@.len(),
            |i: int| spec_decision_cmd(m, d.proposals@[i].0, d.proposals@[i].1, prefix),
        ),
        None => Seq::empty(),
    }
}

/// Whether `cmd` is one elder broadcast carrying exactly the vote `b`.
pub open spec fn spec_is_broadcast_of(cmd: Cmd, b: SignedVote) -> bool {
    match cmd {
        Cmd::SendMsgToOurElders(SystemMsg::MembershipVotes(vs)) => vs@.len() == 1
            && spec_same_vote(vs@[0], b),
        _ => false,
    }
}

/// Whether `cmd` is one direct anti-entropy request to exactly `peer`,
/// carrying generation `g` and addressed under the section name and key.
pub open spec fn spec_is_ae_request(
    cmd: Cmd,
    peer: Peer,
    g: Generation,
    section_name: XorName,
    key: PublicKey,
) -> bool {
    match cmd {
        Cmd::SendDirectMsgToNodes(peers, SystemMsg::MembershipAE(gg), name, k) => peers@.len() == 1
            && peers@[0] == peer && gg == g && name == section_name && k == key,
        _ => false,
    }
}

/// What one handled vote contributes: the engine steps by `spec_handle_rel`,
/// and the commands grow from `front` according to the answer — one
/// broadcast for a counter-vote, then the decision commands; only the
/// decision commands on a silent accept; one final anti-entropy request and
/// a stop when this node is behind; a bare stop on any other engine error.
pub open spec fn spec_step_rel(
    m_mid: Membership,
    peer: Peer,
    vote: SignedVote,
    prefix: Prefix,
    section_name: XorName,
    section_key: PublicKey,
    m1: Membership,
    cmds: Seq<Cmd>,
    front: Seq<Cmd>,
    stopped: bool,
) -> bool {
    exists|v: SignedVote, r: Result<VoteResponse, Error>|
        spec_same_vote(v, vote) && #[trigger] spec_handle_rel(m_mid, v, prefix, m1, r) && (match r {
            Ok(VoteResponse::Broadcast(b)) => !stopped && cmds.len() == front.len() + 1
                + spec_decision_cmds(m1, prefix).len() && cmds.subrange(0, front.len() as int)
                == front && spec_is_broadcast_of(cmds[front.len() as int], b) && cmds.subrange(
                front.len() as int + 1,
                cmds.len() as int,
            ) == spec_decision_cmds(m1, prefix),
            Ok(VoteResponse::WaitingForMoreVotes) => !stopped && cmds == front
                + spec_decision_cmds(m1, prefix),
            Err(e) => if e is RequestAntiEntropy {
                stopped && cmds.len() == front.len() + 1 && cmds.subrange(0, front.len() as int)
                    == front && spec_is_ae_request(cmds.last(), peer, m1.gen, section_name, section_key)
            } else {
                stopped && cmds == front
            },
        })
}

/// How one batch of votes relates the engine states before and after to
/// the returned commands: the votes step the engine in arrival order, each
/// appending its own commands, until the batch ends or a vote stops it.
pub open spec fn spec_votes_rel(
    m0: Membership,
    peer: Peer,
    votes: Seq<SignedVote>,
    prefix: Prefix,
    section_name: XorName,
    section_key: PublicKey,
    m1: Membership,
    cmds: Seq<Cmd>,
    stopped: bool,
) -> bool
    decreases votes.len(),
{
    if votes.len() == 0 {
        m1 == m0 && cmds == Seq::<Cmd>::empty() && !stopped
    } else {
        ||| (stopped && spec_votes_rel(
            m0,
            peer,
            votes.drop_last(),
            prefix,
            section_name,
            section_key,
            m1,
            cmds,
            true,
        ))
        ||| exists|m_mid: Membership, front: Seq<Cmd>|
            spec_votes_rel(
                m0,
                peer,
                votes.drop_last(),
                prefix,
                section_name,
                section_key,
                m_mid,
                front,
                false,
            ) && #[trigger] spec_step_rel(
                m_mid,
                peer,
                votes.last(),
                prefix,
                section_name,
                section_key,
                m1,
                cmds,
                front,
                stopped,
            )
    }
}

/// One more handled vote extends the batch relation by one step.
proof fn lemma_votes_rel_step(
    m0: Membership,
    peer: Peer,
    votes: Seq<SignedVote>,
    i: int,
    prefix: Prefix,
    section_name: XorName,
    section_key: PublicKey,
    m_pre: Membership,
    front: Seq<Cmd>,
    m1: Membership,
    cmds: Seq<Cmd>,
    stopped: bool,
)
    requires
        0 <= i < votes.len(),
        spec_votes_rel(m0, peer, votes.take(i), prefix, section_name, section_key, m_pre, front, false),
        spec_step_rel(m_pre, peer, votes[i], prefix, section_name, section_key, m1, cmds, front, stopped),
    ensures
        spec_votes_rel(m0, peer, votes.take(i + 1), prefix, section_name, section_key, m1, cmds, stopped),
{
    assert(votes.take(i + 1).len() == i + 1);
    assert(votes.take(i + 1).drop_last() =~= votes.take(i));
    assert(votes.take(i + 1).last() == votes[i]);
    assert(spec_votes_rel(
        m0,
        peer,
        votes.take(i + 1),
        prefix,
        section_name,
        section_key,
        m1,
        cmds,
        stopped,
    )) by {
        reveal_with_fuel(spec_votes_rel, 2);
        assert(spec_votes_rel(
            m0,
            peer,
            votes.take(i + 1).drop_last(),
            prefix,
            section_name,
            section_key,
            m_pre,
            front,
            false,
        ) && spec_step_rel(
            m_pre,
            peer,
            votes.take(i + 1).last(),
            prefix,
            section_name,
            section_key,
            m1,
            cmds,
            front,
            stopped,
        ));
    }
}

/// Once a batch has stopped, the votes after the stopping one change
/// nothing: the relation extends over any left-over suffix.
proof fn lemma_votes_rel_extends(
    m0: Membership,
    peer: Peer,
    votes: Seq<SignedVote>,
    upto: int,
    prefix: Prefix,
    section_name: XorName,
    section_key: PublicKey,
    m1: Membership,
    cmds: Seq<Cmd>,
)
    requires
        0 <= upto <= votes.len(),
        spec_votes_rel(
            m0,
            peer,
            votes.take(upto),
            prefix,
            section_name,
            section_key,
            m1,
            cmds,
            true,
        ),
    ensures
        spec_votes_rel(m0, peer, votes, prefix, section_name, section_key, m1, cmds, true),
    decreases votes.len() - upto,
{
    if upto == votes.len() {
        assert(votes.take(upto) =~= votes);
    } else {
        assert(votes.take(upto + 1).len() == upto + 1);
        assert(votes.take(upto + 1).drop_last() =~= votes.take(upto));
        assert(spec_votes_rel(
            m0,
            peer,
            votes.take(upto + 1).drop_last(),
            prefix,
            section_name,
            section_key,
            m1,
            cmds,
            true,
        ));
        assert(spec_votes_rel(
            m0,
            peer,
            votes.take(upto + 1),
            prefix,
            section_name,
            section_key,
            m1,
            cmds,
            true,
        ));
        lemma_votes_rel_extends(
            m0,
            peer,
            votes,
            upto + 1,
            prefix,
            section_name,
            section_key,
            m1,
            cmds,
        );
    }
}

/// One elder node: its network view and, once the section is formed, its
/// membership engine.
pub struct Node {
    pub membership: Option<Membership>,
    pub network_knowledge: NetworkKnowledge,
}

impl Node {
    /// The engine, when present, is well-formed, and the section prefix is
    /// canonical.
    pub open spec fn inv(&self) -> bool {
        &&& match self.membership {
            Some(m) => m.inv(),
            None => true,
        }
        &&& self.network_knowledge.sap.prefix.wf()
    }

    /// Builds a node from an engine made by `Membership::new` and a view
    /// whose prefix came out of the prefix constructors; the result is
    /// ready for every handler.
    pub fn new(membership: Option<Membership>, network_knowledge: NetworkKnowledge) -> (r: Node)
        requires
            match membership {
                Some(m) => m.inv(),
                None => true,
            },
            network_knowledge.sap.prefix.wf(),
        ensures
            r.inv(),
            r.membership == membership,
            r.network_knowledge == network_knowledge,
    {
        Node { membership, network_knowledge }
    }

    /// Turns one decision entry into its section-level command.
    fn decision_cmd(
        membership: &Membership,
        state: &NodeState,
        signature: &Signature,
        prefix: Prefix,
    ) -> (r: Cmd)
        ensures
            r == spec_decision_cmd(*membership, *state, *signature, prefix),
    {
        let sig = KeyedSig {
            public_key: membership.voters_public_key_set().public_key(),
            signature: *signature,
        };
        let auth = SectionAuth { value: *state, sig };
        if membership.is_leaving_section(state, prefix) {
            Cmd::HandleNodeLeft(auth)
        } else {
            Cmd::HandleNewNodeOnline(auth)
        }
    }

    /// Appends the commands the most recent decision gives rise to: one
    /// "node online" or "node left" per decided change, each authenticated
    /// by the section key.
    fn push_decision_cmds(cmds: &mut Vec<Cmd>, membership: &Membership, prefix: Prefix)
        ensures
            final(cmds)@ == old(cmds)@ + spec_decision_cmds(*membership, prefix),
            forall|i: int|
                old(cmds)@.len() <= i < final(cmds)@.len() ==> ((#[trigger] final(cmds)@[i])
                    is HandleNodeLeft || final(cmds)@[i] is HandleNewNodeOnline),
    {
        match membership.most_recent_decision() {
            Some(decision) => {
                let n: usize = decision.proposals.len();
                let mut k: usize = 0;
                while k < n
                    invariant
                        0 <= k <= n,
                        n == decision.proposals@.len(),
                        membership.decision matches Some(d) && d == decision,
                        cmds@.len() == old(cmds)@.len() + k,
                        forall|i: int| 0 <= i < old(cmds)@.len() ==> cmds@[i] == old(cmds)@[i],
                        forall|i: int|
                            0 <= i < k ==> cmds@[old(cmds)@.len() + i] == spec_decision_cmds(
                                *membership,
                                prefix,
                            )[i],
                        forall|i: int|
                            old(cmds)@.len() <= i < cmds@.len() ==> ((#[trigger] cmds@[i])
                                is HandleNodeLeft || cmds@[i] is HandleNewNodeOnline),
                    decreases n - k,
                {
                    let entry: (NodeState, Signature) = decision.proposals[k];
                    let cmd = Node::decision_cmd(membership, &entry.0, &entry.1, prefix);
                    cmds.push(cmd);
                    k += 1;
                }
                proof {
                    assert(cmds@ =~= old(cmds)@ + spec_decision_cmds(*membership, prefix));
                }
            },
            None => {
                proof {
                    assert(cmds@ =~= old(cmds)@ + spec_decision_cmds(*membership, prefix));
                }
            },
        }
    }

    /// Proposes a membership change for broadcast to the elders.
    ///
    /// Without an engine, or when the engine rejects the proposal, nothing
    /// is sent and the caller retries on its next trigger; otherwise the
    /// single resulting command broadcasts our freshly signed vote.
    pub fn propose_membership_change(&mut self, node_state: NodeState) -> (r: Vec<Cmd>)
        requires
            old(self).inv(),
        ensures
            final(self).inv(),
            final(self).network_knowledge == old(self).network_knowledge,
            final(self).membership is Some <==> old(self).membership is Some,
            old(self).membership is None ==> r@.len() == 0 && *final(self) == *old(self),
            r@.len() <= 1,
            ({
                match old(self).membership {
                    Some(m) => {
                        &&& (r@.len() == 0 <==> (!m.inv()
                            || !old(self).network_knowledge.sap.prefix.spec_matches(
                            node_state.name@,
                        ) || crate::membership::spec_conflict(m, node_state)
                            || !crate::membership::spec_sign_env_ok(m) || m.gen >= u64::MAX - 1))
                        &&& (r@.len() == 1 ==> match r@[0] {
                            Cmd::SendMsgToOurElders(
                                SystemMsg::MembershipVotes(vs),
                            ) => vs@.len() == 1 && vs@[0].voter == m.our_index && vs@[0].gen
                                == m.gen + 1 && (exists|a: int|
                                0 <= a < vs@[0].ballot@.len() && (#[trigger] vs@[0].ballot@[a]).state
                                    == node_state),
                            _ => false,
                        })
                    },
                    None => r@.len() == 0,
                }
            }),
    {
        let prefix = self.network_knowledge.prefix();
        let taken = self.membership.take();
        match taken {
            Some(mut membership) => {
                let outcome = membership.propose(node_state, &prefix);
                self.membership = Some(membership);
                match outcome {
                    Ok(vote) => {
                        let mut votes: Vec<SignedVote> = Vec::new();
                        votes.push(vote);
                        let mut cmds: Vec<Cmd> = Vec::new();
                        cmds.push(Cmd::SendMsgToOurElders(SystemMsg::MembershipVotes(votes)));
                        cmds
                    },
                    Err(_) => {
                        // non-fatal: the proposer retries on its next trigger
                        Vec::new()
                    },
                }
            },
            None => {
                // no membership instance yet
                Vec::new()
            },
        }
    }

    /// Handles a batch of signed votes from one peer, in arrival order.
    ///
    /// A vote the engine answers with a counter-vote adds one broadcast
    /// command.  A vote from a round this node cannot tally adds one
    /// direct anti-entropy request to the sender and stops the batch, so a
    /// stale batch cannot cascade.  Any other engine error drops this and
    /// all votes thereafter.  After every accepted vote the most recent
    /// decision, if any, is re-emitted as "node online" / "node left"
    /// commands; downstream handling is idempotent.
    #[verifier::loop_isolation(false)]
    pub fn handle_membership_votes(&mut self, peer: Peer, signed_votes: Vec<SignedVote>) -> (r:
        Vec<Cmd>)
        requires
            old(self).inv(),
        ensures
            final(self).inv(),
            final(self).network_knowledge == old(self).network_knowledge,
            final(self).membership is Some <==> old(self).membership is Some,
            old(self).membership is None ==> r@.len() == 0 && *final(self) == *old(self),
            ({
                match (old(self).membership, final(self).membership) {
                    (Some(m0), Some(m1)) => m1.gen >= m0.gen && m1.voters@ == m0.voters@
                        && m1.our_index == m0.our_index,
                    _ => true,
                }
            }),
            // a single-peer reply never comes out of this entry point, and
            // an anti-entropy request can only close the batch
            forall|i: int| 0 <= i < r@.len() ==> !((#[trigger] r@[i]) is SendDirectMsg),
            forall|i: int| 0 <= i < r@.len() - 1 ==> !((#[trigger] r@[i]) is SendDirectMsgToNodes),
            forall|i: int|
                0 <= i < r@.len() ==> ((#[trigger] r@[i]) is SendDirectMsgToNodes ==> (
                match r@[i] {
                    Cmd::SendDirectMsgToNodes(peers, msg, _, _) => peers@.len() == 1
                        && peers@[0] == peer && (msg matches SystemMsg::MembershipAE(_)),
                    _ => false,
                })),
            // the batch relation: every vote steps the engine in arrival
            // order and contributes exactly its own commands
            ({
                match (old(self).membership, final(self).membership) {
                    (Some(m0), Some(m1)) => exists|stopped: bool|
                        spec_votes_rel(
                            m0,
                            peer,
                            signed_votes@,
                            old(self).network_knowledge.sap.prefix,
                            old(self).network_knowledge.sap.prefix.name,
                            old(self).network_knowledge.sap.section_key,
                            m1,
                            r@,
                            stopped,
                        ),
                    _ => true,
                }
            }),
    {
        let prefix = self.network_knowledge.prefix();
        let ghost sn = self.network_knowledge.sap.prefix.name;
        let ghost skk = self.network_knowledge.sap.section_key;
        let mut cmds: Vec<Cmd> = Vec::new();
        let taken = self.membership.take();
        let mut membership = match taken {
            Some(m) => m,
            None => {
                // no membership instance yet
                self.membership = None;
                return cmds;
            },
        };
        let n: usize = signed_votes.len();
        let mut i: usize = 0;
        let ghost m0 = membership;
        proof {
            assert(signed_votes@.take(0) =~= Seq::<SignedVote>::empty());
            assert(cmds@ =~= Seq::<Cmd>::empty());
        }
        while i < n
            invariant
                0 <= i <= n,
                n == signed_votes@.len(),
                membership.inv(),
                prefix.wf(),
                membership.gen >= m0.gen,
                membership.voters@ == m0.voters@,
                membership.our_index == m0.our_index,
                self.membership is None,
                self.network_knowledge == old(self).network_knowledge,
                forall|k: int|
                    0 <= k < cmds@.len() ==> !((#[trigger] cmds@[k]) is SendDirectMsg) && !(
                    cmds@[k] is SendDirectMsgToNodes),
                spec_votes_rel(
                    m0,
                    peer,
                    signed_votes@.take(i as int),
                    prefix,
                    sn,
                    skk,
                    membership,
                    cmds@,
                    false,
                ),
            decreases n - i,
        {
            let ghost m_pre = membership;
            let ghost front = cmds@;
            let vote = signed_votes[i].clone_vote();
            let ghost gvote = vote;
            let res = membership.handle_signed_vote(vote, &prefix);
            let ghost gres = res;
            match res {
                Ok(VoteResponse::Broadcast(response_vote)) => {
                    let ghost gb = response_vote;
                    let mut votes: Vec<SignedVote> = Vec::new();
                    votes.push(response_vote);
                    cmds.push(Cmd::SendMsgToOurElders(SystemMsg::MembershipVotes(votes)));
                    Node::push_decision_cmds(&mut cmds, &membership, prefix);
                    proof {
                        assert(cmds@.subrange(0, front.len() as int) =~= front);
                        assert(spec_is_broadcast_of(cmds@[front.len() as int], gb));
                        assert(cmds@.subrange(front.len() as int + 1, cmds@.len() as int)
                            =~= spec_decision_cmds(membership, prefix));
                        assert(spec_step_rel(
                            m_pre,
                            peer,
                            signed_votes@[i as int],
                            prefix,
                            sn,
                            skk,
                            membership,
                            cmds@,
                            front,
                            false,
                        )) by {
                            assert(spec_same_vote(gvote, signed_votes@[i as int]));
                            assert(spec_handle_rel(m_pre, gvote, prefix, membership, gres));
                        }
                    }
                },
                Ok(VoteResponse::WaitingForMoreVotes) => {
                    Node::push_decision_cmds(&mut cmds, &membership, prefix);
                    proof {
                        assert(spec_step_rel(
                            m_pre,
                            peer,
                            signed_votes@[i as int],
                            prefix,
                            sn,
                            skk,
                            membership,
                            cmds@,
                            front,
                            false,
                        )) by {
                            assert(spec_same_vote(gvote, signed_votes@[i as int]));
                            assert(spec_handle_rel(m_pre, gvote, prefix, membership, gres));
                            assert(cmds@ == front + spec_decision_cmds(membership, prefix));
                        }
                    }
                },
                Err(e) => {
                    if e.is_request_anti_entropy() {
                        // we are behind the voter: ask it to help us catch
                        // up, and do not let the rest of the batch cascade
                        let dst_section_pk = self.network_knowledge.section_key();
                        let section_name = prefix.name();
                        let msg = SystemMsg::MembershipAE(membership.generation());
                        let mut peers: Vec<Peer> = Vec::new();
                        peers.push(peer);
                        cmds.push(
                            Cmd::SendDirectMsgToNodes(peers, msg, section_name, dst_section_pk),
                        );
                        proof {
                            assert(cmds@.subrange(0, front.len() as int) =~= front);
                            assert(spec_is_ae_request(cmds@.last(), peer, membership.gen, sn, skk));
                            assert(spec_step_rel(
                                m_pre,
                                peer,
                                signed_votes@[i as int],
                                prefix,
                                sn,
                                skk,
                                membership,
                                cmds@,
                                front,
                                true,
                            )) by {
                                assert(spec_same_vote(gvote, signed_votes@[i as int]));
                                assert(spec_handle_rel(m_pre, gvote, prefix, membership, gres));
                            }
                            lemma_votes_rel_step(
                                m0,
                                peer,
                                signed_votes@,
                                i as int,
                                prefix,
                                sn,
                                skk,
                                m_pre,
                                front,
                                membership,
                                cmds@,
                                true,
                            );
                            lemma_votes_rel_extends(
                                m0,
                                peer,
                                signed_votes@,
                                i + 1,
                                prefix,
                                sn,
                                skk,
                                membership,
                                cmds@,
                            );
                        }
                        self.membership = Some(membership);
                        return cmds;
                    } else {
                        // drop this and all votes in this batch thereafter
                        proof {
                            assert(spec_step_rel(
                                m_pre,
                                peer,
                                signed_votes@[i as int],
                                prefix,
                                sn,
                                skk,
                                membership,
                                cmds@,
                                front,
                                true,
                            )) by {
                                assert(spec_same_vote(gvote, signed_votes@[i as int]));
                                assert(spec_handle_rel(m_pre, gvote, prefix, membership, gres));
                                assert(cmds@ == front);
                            }
                            lemma_votes_rel_step(
                                m0,
                                peer,
                                signed_votes@,
                                i as int,
                                prefix,
                                sn,
                                skk,
                                m_pre,
                                front,
                                membership,
                                cmds@,
                                true,
                            );
                            lemma_votes_rel_extends(
                                m0,
                                peer,
                                signed_votes@,
                                i + 1,
                                prefix,
                                sn,
                                skk,
                                membership,
                                cmds@,
                            );
                        }
                        self.membership = Some(membership);
                        return cmds;
                    }
                },
            }
            proof {
                lemma_votes_rel_step(
                    m0,
                    peer,
                    signed_votes@,
                    i as int,
                    prefix,
                    sn,
                    skk,
                    m_pre,
                    front,
                    membership,
                    cmds@,
                    false,
                );
            }
            i += 1;
        }
        proof {
            assert(signed_votes@.take(n as int) =~= signed_votes@);
        }
        self.membership = Some(membership);
        cmds
    }

    /// Answers a peer's anti-entropy request: every vote of every round
    /// after the peer's generation, as one direct reply.  A current peer
    /// gets nothing; without an engine nothing is sent.
    pub fn handle_membership_anti_entropy(&self, peer: Peer, gen: Generation) -> (r: Vec<Cmd>)
        requires
            self.inv(),
        ensures
            self.membership is None ==> r@.len() == 0,
            ({
                match self.membership {
                    Some(m) => {
                        &&& (r@.len() == 1 <==> gen < m.gen)
                        &&& (r@.len() == 0 <==> gen >= m.gen)
                        &&& (r@.len() == 1 ==> match r@[0] {
                            Cmd::SendDirectMsg(p, SystemMsg::MembershipVotes(vs), key) => p == peer
                                && key == self.network_knowledge.sap.section_key && vs@.len()
                                == spec_catch_up(m.history@, gen as int).len() && (forall|j: int|
                                0 <= j < vs@.len() ==> spec_same_vote(
                                    #[trigger] vs@[j],
                                    spec_catch_up(m.history@, gen as int)[j],
                                )),
                            _ => false,
                        })
                    },
                    None => r@.len() == 0,
                }
            }),
    {
        let mut cmds: Vec<Cmd> = Vec::new();
        match &self.membership {
            Some(membership) => {
                match membership.anti_entropy(gen) {
                    Ok(catchup_votes) => {
                        if catchup_votes.len() > 0 {
                            cmds.push(
                                Cmd::SendDirectMsg(
                                    peer,
                                    SystemMsg::MembershipVotes(catchup_votes),
                                    self.network_knowledge.section_key(),
                                ),
                            );
                        }
                    },
                    Err(_) => {
                        // non-fatal: the peer will ask again
                    },
                }
            },
            None => {
                // no membership instance yet
            },
        }
        cmds
    }
}

} // verus!
