//! End-to-end tests of the membership engine and its message handler,
//! driven with real BLS key shares.

use sn_membership::error::Error;
use sn_membership::keys::PublicKey;
use sn_membership::membership::{
    vote_msg, Membership, MembershipState, NetAddr, NodeState, SignedVote, VoteResponse,
};
use sn_membership::node::{
    Cmd, NetworkKnowledge, Node, Peer, SectionAuthorityProvider, SystemMsg,
};
use sn_membership::xor_name::{Prefix, XorName};

fn secret_key_set() -> blsttc::SecretKeySet {
    let mut bytes = vec![0u8; 32];
    bytes[31] = 5;
    blsttc::SecretKeySet::from_bytes(bytes).expect("a small scalar is a valid polynomial")
}

fn one_elder_engine() -> Membership {
    let sks = secret_key_set();
    let sk_share = sks.secret_key_share(0u64).to_bytes();
    let pk_set = sks.public_keys().to_bytes();
    Membership::new(0, sk_share, pk_set, 1).expect("engine construction")
}

fn engine_for(index: u64, elders: u64) -> Membership {
    let sks = secret_key_set();
    let sk_share = sks.secret_key_share(index).to_bytes();
    let pk_set = sks.public_keys().to_bytes();
    Membership::new(index, sk_share, pk_set, elders).expect("engine construction")
}

fn one_elder_node() -> Node {
    let engine = one_elder_engine();
    let sap = SectionAuthorityProvider {
        prefix: Prefix::default(),
        section_key: engine.voters_public_key_set().public_key(),
        elders: Vec::new(),
    };
    Node {
        membership: Some(engine),
        network_knowledge: NetworkKnowledge { sap },
    }
}

fn node_state(b: u8, state: MembershipState) -> NodeState {
    let mut name = [0u8; 32];
    name[0] = b;
    NodeState {
        name: XorName(name),
        addr: NetAddr { ip: [127, 0, 0, 1], port: 5000 + b as u16 },
        state,
    }
}

fn self_peer() -> Peer {
    Peer {
        name: XorName([9u8; 32]),
        addr: NetAddr { ip: [127, 0, 0, 1], port: 4000 },
    }
}

fn broadcast_vote(cmds: &[Cmd]) -> SignedVote {
    assert_eq!(cmds.len(), 1);
    match &cmds[0] {
        Cmd::SendMsgToOurElders(SystemMsg::MembershipVotes(votes)) => {
            assert_eq!(votes.len(), 1);
            votes[0].clone_vote()
        }
        other => panic!("expected a broadcast of one vote, got {:?}", other),
    }
}

#[test]
fn single_peer_propose_and_decide() {
    // one elder section: a proposal comes back as one broadcast command,
    // and feeding the vote back decides and emits exactly one node-online
    let mut node = one_elder_node();
    let ns = node_state(1, MembershipState::Joining);
    let cmds = node.propose_membership_change(ns);
    let v1 = broadcast_vote(&cmds);

    let cmds2 = node.handle_membership_votes(self_peer(), vec![v1]);
    assert_eq!(cmds2.len(), 1);
    match &cmds2[0] {
        Cmd::HandleNewNodeOnline(auth) => {
            assert_eq!(auth.value, ns);
            let engine = node.membership.as_ref().unwrap();
            let section_pk = engine.voters_public_key_set().public_key();
            assert_eq!(auth.sig.public_key, section_pk);
            // the combined signature is a valid section signature over the
            // decided change at the decided generation
            let msg = vote_msg(1, &ns);
            assert_eq!(section_pk.verify(&auth.sig.signature, &msg), Ok(()));
        }
        other => panic!("expected the node to come online, got {:?}", other),
    }
    assert_eq!(node.membership.as_ref().unwrap().generation(), 1);
}

#[test]
fn stale_vote_triggers_anti_entropy_and_stops_the_batch() {
    let mut node = one_elder_node();
    let mut old_votes: Vec<SignedVote> = Vec::new();
    for b in 1..=5u8 {
        let ns = node_state(b, MembershipState::Joining);
        let cmds = node.propose_membership_change(ns);
        let v = broadcast_vote(&cmds);
        old_votes.push(v.clone_vote());
        node.handle_membership_votes(self_peer(), vec![v]);
    }
    assert_eq!(node.membership.as_ref().unwrap().generation(), 5);

    // a vote from generation 2 cannot be tallied at generation 5
    let stale = old_votes[1].clone_vote();
    assert_eq!(stale.gen, 2);
    let trailing = old_votes[4].clone_vote();
    let peer = self_peer();
    let cmds = node.handle_membership_votes(peer, vec![stale, trailing]);
    assert_eq!(cmds.len(), 1);
    match &cmds[0] {
        Cmd::SendDirectMsgToNodes(peers, SystemMsg::MembershipAE(gen), _, _) => {
            assert_eq!(peers.as_slice(), &[peer]);
            assert_eq!(*gen, 5);
        }
        other => panic!("expected one anti-entropy request, got {:?}", other),
    }
}

#[test]
fn leaving_and_staying_changes_route_differently() {
    let mut node = one_elder_node();
    let staying = node_state(1, MembershipState::Joining);
    let mut other_bits = [0u8; 32];
    other_bits[0] = 0x80;
    let other_prefix = Prefix::new(1, &XorName(other_bits));
    let leaving = node_state(2, MembershipState::Relocated(other_prefix));

    let _ = node.propose_membership_change(staying);
    let cmds = node.propose_membership_change(leaving);
    let v2 = broadcast_vote(&cmds);

    let cmds2 = node.handle_membership_votes(self_peer(), vec![v2]);
    let section_pk = node
        .membership
        .as_ref()
        .unwrap()
        .voters_public_key_set()
        .public_key();
    let mut online = 0;
    let mut left = 0;
    for cmd in &cmds2 {
        match cmd {
            Cmd::HandleNewNodeOnline(auth) => {
                online += 1;
                assert_eq!(auth.value, staying);
                assert_eq!(auth.sig.public_key, section_pk);
            }
            Cmd::HandleNodeLeft(auth) => {
                left += 1;
                assert_eq!(auth.value, leaving);
                assert_eq!(auth.sig.public_key, section_pk);
            }
            other => panic!("unexpected command {:?}", other),
        }
    }
    assert_eq!((online, left), (1, 1));
}

#[test]
fn anti_entropy_is_empty_exactly_for_current_peers() {
    let mut node = one_elder_node();
    for b in 1..=2u8 {
        let ns = node_state(b, MembershipState::Joining);
        let cmds = node.propose_membership_change(ns);
        let v = broadcast_vote(&cmds);
        node.handle_membership_votes(self_peer(), vec![v]);
    }
    let engine = node.membership.as_ref().unwrap();
    assert_eq!(engine.generation(), 2);
    assert!(!engine.anti_entropy(0).unwrap().is_empty());
    assert!(!engine.anti_entropy(1).unwrap().is_empty());
    assert!(engine.anti_entropy(2).unwrap().is_empty());
    assert!(engine.anti_entropy(7).unwrap().is_empty());

    // through the handler: one direct reply for a lagging peer, none for a
    // current one
    let peer = self_peer();
    let replies = node.handle_membership_anti_entropy(peer, 0);
    assert_eq!(replies.len(), 1);
    match &replies[0] {
        Cmd::SendDirectMsg(p, SystemMsg::MembershipVotes(votes), key) => {
            assert_eq!(*p, peer);
            assert!(!votes.is_empty());
            assert_eq!(*key, node.network_knowledge.sap.section_key);
        }
        other => panic!("expected one direct reply, got {:?}", other),
    }
    assert!(node.handle_membership_anti_entropy(peer, 2).is_empty());
}

#[test]
fn replaying_a_vote_broadcasts_at_most_once() {
    // two elders sharing one key set; elder 1 proposes, elder 0 handles the
    // same vote twice
    let mut a = engine_for(0, 2);
    let mut b = engine_for(1, 2);
    let prefix = Prefix::default();
    let ns = node_state(1, MembershipState::Joining);
    let vote = b.propose(ns, &prefix).expect("propose");

    let r1 = a.handle_signed_vote(vote.clone_vote(), &prefix);
    let r2 = a.handle_signed_vote(vote.clone_vote(), &prefix);
    let broadcasts = [&r1, &r2]
        .iter()
        .filter(|r| matches!(r, Ok(VoteResponse::Broadcast(_))))
        .count();
    assert!(broadcasts <= 1);
    // the first call adopted and answered; the replay did not broadcast
    assert!(matches!(r1, Ok(VoteResponse::Broadcast(_))));
    assert!(!matches!(r2, Ok(VoteResponse::Broadcast(_))));
}

#[test]
fn conflicting_proposal_is_rejected() {
    let mut engine = one_elder_engine();
    let prefix = Prefix::default();
    let ns = node_state(1, MembershipState::Joining);
    engine.propose(ns, &prefix).expect("first proposal");
    // same node, different content
    let mut conflicting = ns;
    conflicting.state = MembershipState::Left;
    assert_eq!(engine.propose(conflicting, &prefix), Err(Error::InvalidProposal));
}

#[test]
fn vote_outside_the_prefix_is_rejected() {
    let mut a = engine_for(0, 2);
    let mut b = engine_for(1, 2);
    // elder 0 only accepts changes under prefix 0...
    let mut zero_bits = [0u8; 32];
    zero_bits[0] = 0x00;
    let strict_prefix = Prefix::new(1, &XorName(zero_bits));
    let loose_prefix = Prefix::default();
    let mut outside = [0u8; 32];
    outside[0] = 0xff;
    let ns = NodeState {
        name: XorName(outside),
        addr: NetAddr { ip: [127, 0, 0, 1], port: 6000 },
        state: MembershipState::Joining,
    };
    let vote = b.propose(ns, &loose_prefix).expect("propose");
    assert_eq!(
        a.handle_signed_vote(vote, &strict_prefix),
        Err(Error::InvalidProposal)
    );
}

#[test]
fn tampered_vote_share_is_rejected() {
    let mut a = engine_for(0, 2);
    let mut b = engine_for(1, 2);
    let prefix = Prefix::default();
    let ns = node_state(1, MembershipState::Joining);
    let vote = b.propose(ns, &prefix).expect("propose");
    let mut forged = vote.clone_vote();
    // swap in a change the shares never signed
    forged.ballot[0].state.addr.port = 9999;
    assert_eq!(a.handle_signed_vote(forged, &prefix), Err(Error::InvalidSignature));
}

#[test]
fn handlers_without_an_engine_do_nothing() {
    let sap = SectionAuthorityProvider {
        prefix: Prefix::default(),
        section_key: PublicKey::Bls([0u8; 48]),
        elders: Vec::new(),
    };
    let mut node = Node {
        membership: None,
        network_knowledge: NetworkKnowledge { sap },
    };
    let ns = node_state(1, MembershipState::Joining);
    assert!(node.propose_membership_change(ns).is_empty());
    assert!(node
        .handle_membership_votes(self_peer(), Vec::new())
        .is_empty());
    assert!(node.handle_membership_anti_entropy(self_peer(), 0).is_empty());
}

#[test]
fn engine_rejects_a_foreign_secret_share() {
    // a degree-one polynomial, so the two shares differ
    let mut bytes = vec![0u8; 64];
    bytes[31] = 5;
    bytes[63] = 3;
    let sks = blsttc::SecretKeySet::from_bytes(bytes).expect("two small coefficients");
    // a share that does not belong to the claimed index is refused
    let wrong_share = sks.secret_key_share(1u64).to_bytes();
    let pk_set = sks.public_keys().to_bytes();
    assert!(Membership::new(0, wrong_share, pk_set, 2).is_err());
}

#[test]
fn vote_from_a_future_round_asks_for_anti_entropy() {
    let mut a = one_elder_engine();
    let mut b = one_elder_engine();
    let prefix = Prefix::default();
    // advance b by one decided round, then let it vote again
    let v1 = b.propose(node_state(1, MembershipState::Joining), &prefix).unwrap();
    b.handle_signed_vote(v1, &prefix).unwrap();
    assert_eq!(b.generation(), 1);
    let v2 = b.propose(node_state(2, MembershipState::Joining), &prefix).unwrap();
    assert_eq!(v2.gen, 2);
    // a is still at generation zero and cannot tally a round-two vote
    assert_eq!(a.handle_signed_vote(v2, &prefix), Err(Error::RequestAntiEntropy));
}

#[test]
fn vote_from_an_unknown_voter_is_rejected() {
    let mut a = engine_for(0, 2);
    let mut b = engine_for(1, 2);
    let prefix = Prefix::default();
    let mut vote = b.propose(node_state(1, MembershipState::Joining), &prefix).unwrap();
    vote.voter = 17;
    assert_eq!(a.handle_signed_vote(vote, &prefix), Err(Error::NotElder));
}

#[test]
fn engine_rejects_a_truncated_key_set() {
    // fewer bytes than one commitment point must be refused, not tallied
    let sks = secret_key_set();
    let sk_share = sks.secret_key_share(0u64).to_bytes();
    assert!(Membership::new(0, sk_share, Vec::new(), 1).is_err());
    let sk_share2 = sks.secret_key_share(0u64).to_bytes();
    assert!(Membership::new(0, sk_share2, vec![7u8; 12], 1).is_err());
}
