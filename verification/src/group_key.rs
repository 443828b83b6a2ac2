//! The quorum merge primitive: fusing several peers' answers about a group's
//! key set into one majority-weighted answer of fixed size.
//!
//! Every `(name, key)` pair is counted across all responses; the pairs are
//! ranked by count, ties broken by the pair's serialised bytes, and the top
//! `GROUP_SIZE` pairs form the merged response.  This is the majority vote
//! that lets a client trust a group's key set without being told which peer
//! to trust.

use vstd::prelude::*;

use crate::bytes_util::{
    lemma_lex_cmp_antisym, lemma_lex_cmp_eq, lex_cmp, push_all, spec_lex_cmp,
};
use crate::crypto;
use crate::keys::{spec_serialize, PublicKey};
use crate::xor_name::XorName;

verus! {

/// How many key pairs a merged response holds.
pub const GROUP_SIZE: usize = 3;

/// One peer's answer about a group's signing keys.
#[derive(Clone, PartialEq, Debug)]
pub struct GetGroupKeyResponse {
    /// The group the answer is about.
    pub target_id: XorName,
    /// The claimed `(member name, public sign key)` pairs, in order.
    pub public_sign_keys: Vec<(XorName, PublicKey)>,
}

/// The serialised bytes a pair is ordered by: the member name, then the
/// canonical key serialisation.
pub open spec fn spec_pair_ser(p: (XorName, PublicKey)) -> Seq<u8> {
    p.0@ + spec_serialize(p.1)
}

/// Pairs with the same serialised bytes are the same pair.
pub proof fn lemma_pair_ser_injective(a: (XorName, PublicKey), b: (XorName, PublicKey))
    requires
        spec_pair_ser(a) == spec_pair_ser(b),
    ensures
        a == b,
{
    assert(a.0@ =~= spec_pair_ser(a).take(32));
    assert(b.0@ =~= spec_pair_ser(b).take(32));
    assert(a.0.0 =~= b.0.0);
    assert(spec_serialize(a.1) =~= spec_pair_ser(a).skip(32));
    assert(spec_serialize(b.1) =~= spec_pair_ser(b).skip(32));
    crate::keys::lemma_serialize_injective(a.1, b.1);
}

/// How often `p` occurs in a list of pairs.
pub open spec fn spec_count_in(keys: Seq<(XorName, PublicKey)>, p: (XorName, PublicKey)) -> int
    decreases keys.len(),
{
    if keys.len() == 0 {
        0
    } else {
        spec_count_in(keys.drop_last(), p) + if keys.last() == p {
            1int
        } else {
            0int
        }
    }
}

/// How often `p` occurs across a list of responses.
pub open spec fn spec_count_in_others(rs: Seq<GetGroupKeyResponse>, p: (XorName, PublicKey)) -> int
    decreases rs.len(),
{
    if rs.len() == 0 {
        0
    } else {
        spec_count_in_others(rs.drop_last(), p) + spec_count_in(rs.last().public_sign_keys@, p)
    }
}

/// The total count of `p` over the own response and the peers'.
pub open spec fn spec_total_count(
    r0: GetGroupKeyResponse,
    others: Seq<GetGroupKeyResponse>,
    p: (XorName, PublicKey),
) -> int {
    spec_count_in(r0.public_sign_keys@, p) + spec_count_in_others(others, p)
}

/// The merge ranking: `a` comes before `b` when it is counted more often,
/// or as often and earlier in the pair order.
pub open spec fn spec_prio_before(
    r0: GetGroupKeyResponse,
    others: Seq<GetGroupKeyResponse>,
    a: (XorName, PublicKey),
    b: (XorName, PublicKey),
) -> bool {
    ||| spec_total_count(r0, others, a) > spec_total_count(r0, others, b)
    ||| (spec_total_count(r0, others, a) == spec_total_count(r0, others, b) && spec_lex_cmp(
        spec_pair_ser(a),
        spec_pair_ser(b),
    ) == core::cmp::Ordering::Less)
}

/// Counts are never negative.
pub proof fn lemma_count_nonneg(keys: Seq<(XorName, PublicKey)>, p: (XorName, PublicKey))
    ensures
        spec_count_in(keys, p) >= 0,
    decreases keys.len(),
{
    if keys.len() > 0 {
        lemma_count_nonneg(keys.drop_last(), p);
    }
}

/// A pair that is counted occurs in the list, and conversely.
pub proof fn lemma_count_contains(keys: Seq<(XorName, PublicKey)>, p: (XorName, PublicKey))
    ensures
        spec_count_in(keys, p) > 0 <==> keys.contains(p),
    decreases keys.len(),
{
    lemma_count_nonneg(keys, p);
    if keys.len() > 0 {
        lemma_count_contains(keys.drop_last(), p);
        lemma_count_nonneg(keys.drop_last(), p);
        if keys.contains(p) {
            let i = choose|i: int| 0 <= i < keys.len() && keys[i] == p;
            if i < keys.len() - 1 {
                assert(keys.drop_last()[i] == p);
                assert(keys.drop_last().contains(p));
            }
        }
        if keys.drop_last().contains(p) {
            let i = choose|i: int| 0 <= i < keys.len() - 1 && keys.drop_last()[i] == p;
            assert(keys[i] == p);
        }
    }
}

/// In a duplicate-free list every member is counted exactly once.
pub proof fn lemma_count_distinct(keys: Seq<(XorName, PublicKey)>, p: (XorName, PublicKey))
    requires
        forall|i: int, j: int| 0 <= i < j < keys.len() ==> keys[i] != keys[j],
        keys.contains(p),
    ensures
        spec_count_in(keys, p) == 1,
    decreases keys.len(),
{
    let short = keys.drop_last();
    if keys.last() == p {
        lemma_count_nonneg(short, p);
        lemma_count_contains(short, p);
        if short.contains(p) {
            let i = choose|i: int| 0 <= i < short.len() && short[i] == p;
            assert(keys[i] == keys[keys.len() - 1]);
        }
    } else {
        let i = choose|i: int| 0 <= i < keys.len() && keys[i] == p;
        assert(short[i] == p);
        lemma_count_distinct(short, p);
    }
}

/// Appending one more response adds its own counts.
pub proof fn lemma_count_push(
    rs: Seq<GetGroupKeyResponse>,
    extra: GetGroupKeyResponse,
    p: (XorName, PublicKey),
)
    ensures
        spec_count_in_others(rs.push(extra), p) == spec_count_in_others(rs, p) + spec_count_in(
            extra.public_sign_keys@,
            p,
        ),
{
    assert(rs.push(extra).drop_last() =~= rs);
    assert(rs.push(extra).last() == extra);
}

/// Whether every response in `rs` is about `target`.
pub open spec fn spec_targets_ok(target: XorName, rs: Seq<GetGroupKeyResponse>) -> bool {
    forall|t: int| 0 <= t < rs.len() ==> (#[trigger] rs[t]).target_id == target
}

/// What it means for `s` to be the merged key list of `r0` and `others`:
/// exactly `GROUP_SIZE` distinct pairs drawn from the inputs, listed in
/// ranking order, such that every input pair left out ranks below every pair
/// kept.  Such a list is unique.
pub open spec fn spec_is_merge_result(
    r0: GetGroupKeyResponse,
    others: Seq<GetGroupKeyResponse>,
    s: Seq<(XorName, PublicKey)>,
) -> bool {
    &&& s.len() == GROUP_SIZE
    &&& forall|i: int, j: int| 0 <= i < j < s.len() ==> spec_prio_before(r0, others, s[i], s[j])
    &&& forall|i: int| 0 <= i < s.len() ==> spec_total_count(r0, others, #[trigger] s[i]) > 0
    &&& forall|p: (XorName, PublicKey), i: int|
        spec_total_count(r0, others, p) > 0 && !s.contains(p) && 0 <= i < s.len()
            ==> #[trigger] spec_prio_before(r0, others, s[i], p)
}

/// The ranking relates every two distinct pairs, one way exactly.
pub proof fn lemma_prio_total(
    r0: GetGroupKeyResponse,
    others: Seq<GetGroupKeyResponse>,
    a: (XorName, PublicKey),
    b: (XorName, PublicKey),
)
    requires
        a != b,
    ensures
        spec_prio_before(r0, others, a, b) <==> !spec_prio_before(r0, others, b, a),
{
    lemma_lex_cmp_eq(spec_pair_ser(a), spec_pair_ser(b));
    lemma_lex_cmp_eq(spec_pair_ser(b), spec_pair_ser(a));
    lemma_lex_cmp_antisym(spec_pair_ser(a), spec_pair_ser(b));
    lemma_lex_cmp_antisym(spec_pair_ser(b), spec_pair_ser(a));
    if spec_pair_ser(a) == spec_pair_ser(b) {
        lemma_pair_ser_injective(a, b);
    }
    match spec_lex_cmp(spec_pair_ser(a), spec_pair_ser(b)) {
        core::cmp::Ordering::Less => {},
        core::cmp::Ordering::Equal => {},
        core::cmp::Ordering::Greater => {},
    }
}

/// The ranking never puts a pair before itself.
pub proof fn lemma_prio_irrefl(
    r0: GetGroupKeyResponse,
    others: Seq<GetGroupKeyResponse>,
    a: (XorName, PublicKey),
)
    ensures
        !spec_prio_before(r0, others, a, a),
{
    lemma_lex_cmp_eq(spec_pair_ser(a), spec_pair_ser(a));
}

/// Two merge results of the same inputs are equal.  With the merge contract
/// this makes the merged response unique.
pub proof fn lemma_merge_unique(
    r0: GetGroupKeyResponse,
    others: Seq<GetGroupKeyResponse>,
    s1: Seq<(XorName, PublicKey)>,
    s2: Seq<(XorName, PublicKey)>,
)
    requires
        spec_is_merge_result(r0, others, s1),
        spec_is_merge_result(r0, others, s2),
    ensures
        s1 == s2,
{
    broadcast use vstd::seq_lib::group_seq_properties;
    broadcast use vstd::set::group_set_axioms;

    assert(s1.no_duplicates()) by {
        assert forall|a: int, b: int| 0 <= a < b < s1.len() implies s1[a] != s1[b] by {
            if s1[a] == s1[b] {
                lemma_prio_irrefl(r0, others, s1[a]);
            }
        }
    }
    assert(s2.no_duplicates()) by {
        assert forall|a: int, b: int| 0 <= a < b < s2.len() implies s2[a] != s2[b] by {
            if s2[a] == s2[b] {
                lemma_prio_irrefl(r0, others, s2[a]);
            }
        }
    }
    assert forall|i: int| 0 <= i < s1.len() implies s2.contains(s1[i]) by {
        if !s2.contains(s1[i]) {
            assert(spec_prio_before(r0, others, s2[0], s1[i]));
            if !s1.contains(s2[0]) {
                assert(spec_prio_before(r0, others, s1[i], s2[0]));
                if s1[i] == s2[0] {
                    lemma_prio_irrefl(r0, others, s1[i]);
                } else {
                    lemma_prio_total(r0, others, s1[i], s2[0]);
                }
                assert(false);
            } else {
                // every member of s2 would have to sit inside s1 as well,
                // yet s1 holds a member s2 lacks: impossible for equal sizes.
                if forall|j: int| 0 <= j < s2.len() ==> s1.contains(#[trigger] s2[j]) {
                    s1.unique_seq_to_set();
                    s2.unique_seq_to_set();
                    assert(s2.to_set().subset_of(s1.to_set()));
                    s2.to_set().lemma_subset_not_in_lt(s1.to_set(), s1[i]);
                    assert(false);
                } else {
                    let j = choose|j: int| 0 <= j < s2.len() && !s1.contains(s2[j]);
                    assert(spec_prio_before(r0, others, s1[i], s2[j]));
                    assert(spec_prio_before(r0, others, s2[j], s1[i]));
                    if s1[i] == s2[j] {
                        lemma_prio_irrefl(r0, others, s1[i]);
                    } else {
                        lemma_prio_total(r0, others, s1[i], s2[j]);
                    }
                    assert(false);
                }
            }
        }
    }
    assert forall|i: int| 0 <= i < s2.len() implies s1.contains(s2[i]) by {
        if !s1.contains(s2[i]) {
            s1.unique_seq_to_set();
            s2.unique_seq_to_set();
            assert(s1.to_set().subset_of(s2.to_set()));
            s1.to_set().lemma_subset_not_in_lt(s2.to_set(), s2[i]);
            assert(false);
        }
    }
    assert forall|i: int| 0 <= i < s1.len() implies s2[i] == s1[i] by {
        lemma_sorted_same_members_pointwise(r0, others, s1, s2, i);
    }
    assert(s1 =~= s2);
}

/// Lists sorted by the ranking with the same members agree at each position.
proof fn lemma_sorted_same_members_pointwise(
    r0: GetGroupKeyResponse,
    others: Seq<GetGroupKeyResponse>,
    s1: Seq<(XorName, PublicKey)>,
    s2: Seq<(XorName, PublicKey)>,
    i: int,
)
    requires
        s1.len() == s2.len(),
        forall|a: int, b: int| 0 <= a < b < s1.len() ==> spec_prio_before(r0, others, s1[a], s1[b]),
        forall|a: int, b: int| 0 <= a < b < s2.len() ==> spec_prio_before(r0, others, s2[a], s2[b]),
        forall|k: int| 0 <= k < s1.len() ==> s2.contains(#[trigger] s1[k]),
        forall|k: int| 0 <= k < s2.len() ==> s1.contains(#[trigger] s2[k]),
        0 <= i < s1.len(),
    ensures
        s1[i] == s2[i],
    decreases i,
{
    assert forall|k: int| 0 <= k < i implies s1[k] == s2[k] by {
        lemma_sorted_same_members_pointwise(r0, others, s1, s2, k);
    }
    let j = choose|j: int| 0 <= j < s2.len() && s2[j] == s1[i];
    assert(s2.contains(s1[i]));
    if j < i {
        assert(s1[j] == s2[j]);
        assert(spec_prio_before(r0, others, s1[j], s1[i]));
        lemma_prio_irrefl(r0, others, s1[i]);
        assert(false);
    }
    let k = choose|k: int| 0 <= k < s1.len() && s1[k] == s2[i];
    assert(s1.contains(s2[i]));
    if k < i {
        assert(s1[k] == s2[k]);
        assert(spec_prio_before(r0, others, s2[k], s2[i]));
        lemma_prio_irrefl(r0, others, s2[i]);
        assert(false);
    }
    if s1[i] != s2[i] {
        assert(j > i);
        assert(k > i);
        assert(spec_prio_before(r0, others, s2[i], s2[j]));
        assert(spec_prio_before(r0, others, s1[i], s1[k]));
        lemma_prio_total(r0, others, s1[i], s2[i]);
        assert(false);
    }
}


/// One counting entry: a pair and how often it has been seen.
pub type FreqEntry = ((XorName, PublicKey), u64);

/// Count of a pair never exceeds the list length.
pub proof fn lemma_count_le_len(keys: Seq<(XorName, PublicKey)>, p: (XorName, PublicKey))
    ensures
        spec_count_in(keys, p) <= keys.len(),
    decreases keys.len(),
{
    lemma_count_nonneg(keys, p);
    if keys.len() > 0 {
        lemma_count_le_len(keys.drop_last(), p);
    }
}

/// Counting one more element raises exactly its own count by one.
pub proof fn lemma_count_push_pair(
    done: Seq<(XorName, PublicKey)>,
    p: (XorName, PublicKey),
    q: (XorName, PublicKey),
)
    ensures
        spec_count_in(done.push(p), q) == spec_count_in(done, q) + if q == p {
            1int
        } else {
            0int
        },
{
    assert(done.push(p).drop_last() =~= done);
    assert(done.push(p).last() == p);
}

/// Extending a prefix of a pair list by one element.
pub proof fn lemma_count_take_step(
    keys: Seq<(XorName, PublicKey)>,
    i: int,
    p: (XorName, PublicKey),
)
    requires
        0 <= i < keys.len(),
    ensures
        spec_count_in(keys.take(i + 1), p) == spec_count_in(keys.take(i), p) + if keys[i] == p {
            1int
        } else {
            0int
        },
{
    assert(keys.take(i + 1).drop_last() =~= keys.take(i));
    assert(keys.take(i + 1).last() == keys[i]);
}

/// How many pairs a list of responses holds in total.
pub open spec fn spec_total_len(rs: Seq<GetGroupKeyResponse>) -> int
    decreases rs.len(),
{
    if rs.len() == 0 {
        0
    } else {
        spec_total_len(rs.drop_last()) + rs.last().public_sign_keys@.len()
    }
}

/// Total lengths are never negative.
pub proof fn lemma_total_len_nonneg(rs: Seq<GetGroupKeyResponse>)
    ensures
        spec_total_len(rs) >= 0,
    decreases rs.len(),
{
    if rs.len() > 0 {
        lemma_total_len_nonneg(rs.drop_last());
    }
}

/// Extending a prefix of a response list by one response.
pub proof fn lemma_total_len_take_step(rs: Seq<GetGroupKeyResponse>, t: int)
    requires
        0 <= t < rs.len(),
    ensures
        spec_total_len(rs.take(t + 1)) == spec_total_len(rs.take(t))
            + rs[t].public_sign_keys@.len(),
{
    assert(rs.take(t + 1).drop_last() =~= rs.take(t));
    assert(rs.take(t + 1).last() == rs[t]);
}

/// A prefix never holds more pairs than the whole list.
pub proof fn lemma_total_len_take_le(rs: Seq<GetGroupKeyResponse>, t: int)
    requires
        0 <= t <= rs.len(),
    ensures
        spec_total_len(rs.take(t)) <= spec_total_len(rs),
    decreases rs.len() - t,
{
    if t == rs.len() {
        assert(rs.take(t) =~= rs);
    } else {
        lemma_total_len_take_step(rs, t);
        lemma_total_len_take_le(rs, t + 1);
    }
}

/// Extending a prefix of a response list by one response, for counts.
pub proof fn lemma_count_others_take_step(
    rs: Seq<GetGroupKeyResponse>,
    t: int,
    p: (XorName, PublicKey),
)
    requires
        0 <= t < rs.len(),
    ensures
        spec_count_in_others(rs.take(t + 1), p) == spec_count_in_others(rs.take(t), p)
            + spec_count_in(rs[t].public_sign_keys@, p),
{
    assert(rs.take(t + 1).drop_last() =~= rs.take(t));
    assert(rs.take(t + 1).last() == rs[t]);
}

/// Whether some entry of `fv` carries the pair `q`.
pub open spec fn spec_entry_in(fv: Seq<FreqEntry>, q: (XorName, PublicKey)) -> bool {
    exists|k: int| 0 <= k < fv.len() && (#[trigger] fv[k]).0 == q
}

/// The frequency list is faithful to the pairs counted so far: entries carry
/// distinct pairs, each entry carries that pair's count, and every counted
/// pair has an entry.
pub open spec fn spec_freq_wf(fv: Seq<FreqEntry>, done: Seq<(XorName, PublicKey)>) -> bool {
    &&& forall|i: int, j: int| 0 <= i < j < fv.len() ==> fv[i].0 != fv[j].0
    &&& forall|i: int|
        0 <= i < fv.len() ==> (#[trigger] fv[i]).1 == spec_count_in(done, fv[i].0) && fv[i].1 > 0
    &&& forall|q: (XorName, PublicKey)| done.contains(q) ==> #[trigger] spec_entry_in(fv, q)
}

/// The ranking between two counting entries: higher count first, ties by
/// the pair's serialised bytes.
pub open spec fn spec_entry_before(a: FreqEntry, b: FreqEntry) -> bool {
    ||| a.1 > b.1
    ||| (a.1 == b.1 && spec_lex_cmp(spec_pair_ser(a.0), spec_pair_ser(b.0))
        == core::cmp::Ordering::Less)
}

/// Entries with distinct pairs are ranked one way exactly.
proof fn lemma_entry_before_total(a: FreqEntry, b: FreqEntry)
    requires
        a.0 != b.0,
    ensures
        spec_entry_before(a, b) <==> !spec_entry_before(b, a),
{
    lemma_lex_cmp_eq(spec_pair_ser(a.0), spec_pair_ser(b.0));
    lemma_lex_cmp_eq(spec_pair_ser(b.0), spec_pair_ser(a.0));
    lemma_lex_cmp_antisym(spec_pair_ser(a.0), spec_pair_ser(b.0));
    lemma_lex_cmp_antisym(spec_pair_ser(b.0), spec_pair_ser(a.0));
    if spec_pair_ser(a.0) == spec_pair_ser(b.0) {
        lemma_pair_ser_injective(a.0, b.0);
    }
    match spec_lex_cmp(spec_pair_ser(a.0), spec_pair_ser(b.0)) {
        core::cmp::Ordering::Less => {},
        core::cmp::Ordering::Equal => {},
        core::cmp::Ordering::Greater => {},
    }
}

/// The entry ranking is transitive.
proof fn lemma_entry_before_trans(a: FreqEntry, b: FreqEntry, c: FreqEntry)
    requires
        spec_entry_before(a, b),
        spec_entry_before(b, c),
    ensures
        spec_entry_before(a, c),
{
    if a.1 == b.1 && b.1 == c.1 {
        crate::bytes_util::lemma_lex_cmp_trans(
            spec_pair_ser(a.0),
            spec_pair_ser(b.0),
            spec_pair_ser(c.0),
        );
    }
}

fn pair_eq(a: &(XorName, PublicKey), b: &(XorName, PublicKey)) -> (r: bool)
    ensures
        r == (*a == *b),
{
    a.0.equals(&b.0) && a.1 == b.1
}

fn pair_ser(p: &(XorName, PublicKey)) -> (r: Vec<u8>)
    ensures
        r@ == spec_pair_ser(*p),
{
    let mut v: Vec<u8> = Vec::new();
    push_all(&mut v, p.0.0.as_slice());
    let s = p.1.serialize();
    push_all(&mut v, s.as_slice());
    proof {
        assert(v@ =~= spec_pair_ser(*p));
    }
    v
}

fn entry_before(a: &FreqEntry, b: &FreqEntry) -> (r: bool)
    ensures
        r == spec_entry_before(*a, *b),
{
    if a.1 > b.1 {
        true
    } else if a.1 < b.1 {
        false
    } else {
        let sa = pair_ser(&a.0);
        let sb = pair_ser(&b.0);
        match lex_cmp(sa.as_slice(), sb.as_slice()) {
            core::cmp::Ordering::Less => true,
            _ => false,
        }
    }
}

/// Records one more occurrence of `p` in the frequency list.
fn add_pair(
    freq: &mut Vec<FreqEntry>,
    p: &(XorName, PublicKey),
    Ghost(done): Ghost<Seq<(XorName, PublicKey)>>,
)
    requires
        spec_freq_wf(old(freq)@, done),
        spec_count_in(done, *p) < u64::MAX,
    ensures
        spec_freq_wf(final(freq)@, done.push(*p)),
{
    proof {
        assert forall|q: (XorName, PublicKey)|
            spec_count_in(done.push(*p), q) == spec_count_in(done, q) + (if q == *p {
                1int
            } else {
                0int
            }) by {
            lemma_count_push_pair(done, *p, q);
        }
    }
    let n: usize = freq.len();
    let mut k: usize = 0;
    while k < n
        invariant
            0 <= k <= n,
            n == freq@.len(),
            freq@ == old(freq)@,
            spec_freq_wf(freq@, done),
            spec_count_in(done, *p) < u64::MAX,
            forall|q: (XorName, PublicKey)|
                spec_count_in(done.push(*p), q) == spec_count_in(done, q) + (if q == *p {
                    1int
                } else {
                    0int
                }),
            forall|j: int| 0 <= j < k ==> (#[trigger] freq@[j]).0 != *p,
        decreases n - k,
    {
        let e: FreqEntry = freq[k];
        if pair_eq(&e.0, p) {
            freq[k] = (e.0, e.1 + 1);
            proof {
                let fv = freq@;
                assert forall|q: (XorName, PublicKey)| done.push(*p).contains(q) implies
                    #[trigger] spec_entry_in(fv, q) by {
                    if done.contains(q) {
                        assert(spec_entry_in(old(freq)@, q));
                        let kk = choose|kk: int|
                            0 <= kk < old(freq)@.len() && old(freq)@[kk].0 == q;
                        assert(fv[kk].0 == q);
                    } else {
                        assert(q == *p);
                        assert(fv[k as int].0 == q);
                    }
                }
            }
            return;
        }
        k += 1;
    }
    proof {
        lemma_count_contains(done, *p);
        if done.contains(*p) {
            assert(spec_entry_in(freq@, *p));
            let kk = choose|kk: int| 0 <= kk < freq@.len() && freq@[kk].0 == *p;
            assert(false);
        }
        lemma_count_nonneg(done, *p);
        assert(spec_count_in(done, *p) == 0);
    }
    freq.push((*p, 1u64));
    proof {
        let fv = freq@;
        assert forall|q: (XorName, PublicKey)| done.push(*p).contains(q) implies
            #[trigger] spec_entry_in(fv, q) by {
            if done.contains(q) {
                assert(spec_entry_in(old(freq)@, q));
                let kk = choose|kk: int| 0 <= kk < old(freq)@.len() && old(freq)@[kk].0 == q;
                assert(fv[kk].0 == q);
            } else {
                assert(fv[fv.len() - 1].0 == *p);
            }
        }
    }
}

impl GetGroupKeyResponse {
    /// Fuses this response with the peers' responses into the single
    /// majority-weighted response of `GROUP_SIZE` pairs.
    ///
    /// Returns `None` exactly when some peer response is about a different
    /// target; otherwise the result lists the `GROUP_SIZE` most frequent
    /// pairs in ranking order (count first, pair bytes on ties), which is
    /// unique.  Callers supply at least `GROUP_SIZE` distinct pairs; the
    /// byte bound keeps the counters within machine range.
    pub fn merge(&self, get_group_key_responses: &Vec<GetGroupKeyResponse>) -> (r: Option<
        GetGroupKeyResponse,
    >)
        requires
            self.public_sign_keys@.len() + spec_total_len(get_group_key_responses@) < u64::MAX,
            spec_targets_ok(self.target_id, get_group_key_responses@) ==> exists|
                w: Seq<(XorName, PublicKey)>,
            |
                w.len() == GROUP_SIZE && w.no_duplicates() && (forall|i: int|
                    0 <= i < w.len() ==> spec_total_count(
                        *self,
                        get_group_key_responses@,
                        #[trigger] w[i],
                    ) > 0),
        ensures
            r is Some <==> spec_targets_ok(self.target_id, get_group_key_responses@),
            r matches Some(out) ==> out.target_id == self.target_id && spec_is_merge_result(
                *self,
                get_group_key_responses@,
                out.public_sign_keys@,
            ),
    {
        let n_others: usize = get_group_key_responses.len();
        let mut t: usize = 0;
        while t < n_others
            invariant
                0 <= t <= n_others,
                n_others == get_group_key_responses@.len(),
                forall|j: int| 0 <= j < t ==> (#[trigger] get_group_key_responses@[j]).target_id == self.target_id,
            decreases n_others - t,
        {
            if !self.target_id.equals(&get_group_key_responses[t].target_id) {
                proof {
                    assert(get_group_key_responses@[t as int].target_id != self.target_id);
                    assert(!spec_targets_ok(self.target_id, get_group_key_responses@)) by {
                        if spec_targets_ok(self.target_id, get_group_key_responses@) {
                            assert(get_group_key_responses@[t as int].target_id == self.target_id);
                        }
                    }
                }
                return None;
            }
            t += 1;
        }
        proof {
            assert(spec_targets_ok(self.target_id, get_group_key_responses@));
            lemma_total_len_nonneg(get_group_key_responses@);
        }
        let mut freq: Vec<FreqEntry> = Vec::new();
        let ghost mut done: Seq<(XorName, PublicKey)> = Seq::empty();
        let n_own: usize = self.public_sign_keys.len();
        let mut i: usize = 0;
        proof {
            assert(done =~= self.public_sign_keys@.take(0));
        }
        while i < n_own
            invariant
                0 <= i <= n_own,
                n_own == self.public_sign_keys@.len(),
                self.public_sign_keys@.len() + spec_total_len(get_group_key_responses@) < u64::MAX,
                spec_total_len(get_group_key_responses@) >= 0,
                done == self.public_sign_keys@.take(i as int),
                spec_freq_wf(freq@, done),
            decreases n_own - i,
        {
            proof {
                lemma_count_le_len(done, self.public_sign_keys@[i as int]);
            }
            let pr: (XorName, PublicKey) = self.public_sign_keys[i];
            add_pair(&mut freq, &pr, Ghost(done));
            proof {
                done = done.push(pr);
                assert(done =~= self.public_sign_keys@.take(i + 1));
            }
            i += 1;
        }
        proof {
            assert(self.public_sign_keys@.take(n_own as int) =~= self.public_sign_keys@);
            assert(get_group_key_responses@.take(0) =~= Seq::<GetGroupKeyResponse>::empty());
            assert forall|q: (XorName, PublicKey)|
                #[trigger] spec_count_in(done, q) == spec_count_in(self.public_sign_keys@, q)
                    + spec_count_in_others(get_group_key_responses@.take(0), q) by {}
        }
        let mut t2: usize = 0;
        while t2 < n_others
            invariant
                0 <= t2 <= n_others,
                n_others == get_group_key_responses@.len(),
                self.public_sign_keys@.len() + spec_total_len(get_group_key_responses@) < u64::MAX,
                done.len() == self.public_sign_keys@.len() + spec_total_len(get_group_key_responses@.take(t2 as int)),
                forall|q: (XorName, PublicKey)|
                    #[trigger] spec_count_in(done, q) == spec_count_in(self.public_sign_keys@, q)
                        + spec_count_in_others(get_group_key_responses@.take(t2 as int), q),
                spec_freq_wf(freq@, done),
            decreases n_others - t2,
        {
            let resp = &get_group_key_responses[t2];
            let n_resp: usize = resp.public_sign_keys.len();
            let mut j: usize = 0;
            proof {
                assert(resp.public_sign_keys@.take(0) =~= Seq::<(XorName, PublicKey)>::empty());
                lemma_total_len_take_le(get_group_key_responses@, t2 as int);
                lemma_total_len_take_step(get_group_key_responses@, t2 as int);
                lemma_total_len_take_le(get_group_key_responses@, t2 as int + 1);
            }
            while j < n_resp
                invariant
                    0 <= j <= n_resp,
                    0 <= t2 < n_others,
                    n_others == get_group_key_responses@.len(),
                    resp == get_group_key_responses@[t2 as int],
                    n_resp == resp.public_sign_keys@.len(),
                    self.public_sign_keys@.len() + spec_total_len(get_group_key_responses@) < u64::MAX,
                    spec_total_len(get_group_key_responses@.take(t2 as int)) + n_resp <= spec_total_len(get_group_key_responses@),
                    done.len() == self.public_sign_keys@.len() + spec_total_len(
                        get_group_key_responses@.take(t2 as int),
                    ) + j,
                    forall|q: (XorName, PublicKey)|
                        #[trigger] spec_count_in(done, q) == spec_count_in(
                            self.public_sign_keys@,
                            q,
                        ) + spec_count_in_others(get_group_key_responses@.take(t2 as int), q) + spec_count_in(
                            resp.public_sign_keys@.take(j as int),
                            q,
                        ),
                    spec_freq_wf(freq@, done),
                decreases n_resp - j,
            {
                proof {
                    lemma_count_le_len(done, resp.public_sign_keys@[j as int]);
                    lemma_total_len_nonneg(get_group_key_responses@.take(t2 as int));
                }
                let pr: (XorName, PublicKey) = resp.public_sign_keys[j];
                add_pair(&mut freq, &pr, Ghost(done));
                proof {
                    let oldd = done;
                    done = done.push(pr);
                    assert forall|q: (XorName, PublicKey)|
                        #[trigger] spec_count_in(done, q) == spec_count_in(
                            self.public_sign_keys@,
                            q,
                        ) + spec_count_in_others(get_group_key_responses@.take(t2 as int), q) + spec_count_in(
                            resp.public_sign_keys@.take(j + 1),
                            q,
                        ) by {
                        lemma_count_push_pair(oldd, pr, q);
                        lemma_count_take_step(resp.public_sign_keys@, j as int, q);
                    }
                }
                j += 1;
            }
            proof {
                assert(resp.public_sign_keys@.take(n_resp as int) =~= resp.public_sign_keys@);
                lemma_total_len_take_step(get_group_key_responses@, t2 as int);
                assert forall|q: (XorName, PublicKey)|
                    #[trigger] spec_count_in(done, q) == spec_count_in(self.public_sign_keys@, q)
                        + spec_count_in_others(get_group_key_responses@.take(t2 as int + 1), q) by {
                    lemma_count_others_take_step(get_group_key_responses@, t2 as int, q);
                }
            }
            t2 += 1;
        }
        proof {
            assert(get_group_key_responses@.take(n_others as int) =~= get_group_key_responses@);
        }
        // `freq` now counts every pair once per occurrence across all input.
        let ghost all_counts_done: Seq<(XorName, PublicKey)> = done;
        proof {
            assert(forall|q: (XorName, PublicKey)|
                #[trigger] spec_count_in(done, q) == spec_total_count(*self, get_group_key_responses@, q));
        }
        // The witness guarantees at least GROUP_SIZE distinct entries.
        proof {
            broadcast use vstd::seq_lib::group_seq_properties;
            broadcast use vstd::set::group_set_axioms;

            assert(spec_targets_ok(self.target_id, get_group_key_responses@));
            let w = choose|w: Seq<(XorName, PublicKey)>|
                w.len() == GROUP_SIZE && w.no_duplicates() && (forall|i: int|
                    0 <= i < w.len() ==> spec_total_count(*self, get_group_key_responses@, #[trigger] w[i]) > 0);
            let pairs = freq@.map_values(|e: FreqEntry| e.0);
            assert forall|i: int| 0 <= i < w.len() implies pairs.contains(#[trigger] w[i]) by {
                lemma_count_contains(done, w[i]);
                assert(done.contains(w[i]));
                assert(spec_entry_in(freq@, w[i]));
                let k = choose|k: int| 0 <= k < freq@.len() && freq@[k].0 == w[i];
                assert(pairs[k] == w[i]);
            }
            assert(pairs.no_duplicates());
            w.unique_seq_to_set();
            pairs.unique_seq_to_set();
            assert forall|x: (XorName, PublicKey)| w.to_set().contains(x) implies
                pairs.to_set().contains(x) by {
                let i = choose|i: int| 0 <= i < w.len() && w[i] == x;
                assert(pairs.contains(x));
            }
            assert(w.to_set().subset_of(pairs.to_set()));
            vstd::set_lib::lemma_len_subset(w.to_set(), pairs.to_set());
            assert(freq@.len() >= GROUP_SIZE);
        }
        let ghost freq0 = freq@;
        let mut rem: Vec<FreqEntry> = freq;
        let mut picked: Vec<FreqEntry> = Vec::new();
        let mut round: usize = 0;
        while round < GROUP_SIZE
            invariant
                0 <= round <= GROUP_SIZE,
                picked@.len() == round,
                rem@.len() == freq0.len() - round,
                freq0.len() >= GROUP_SIZE,
                forall|a: int, b: int| 0 <= a < b < rem@.len() ==> rem@[a].0 != rem@[b].0,
                forall|a: int, b: int| 0 <= a < b < picked@.len() ==> picked@[a].0 != picked@[b].0,
                forall|a: int, b: int|
                    0 <= a < picked@.len() && 0 <= b < rem@.len() ==> picked@[a].0 != rem@[b].0,
                forall|a: int|
                    0 <= a < rem@.len() ==> (#[trigger] rem@[a]).1 == spec_count_in(
                        done,
                        rem@[a].0,
                    ) && rem@[a].1 > 0,
                forall|a: int|
                    0 <= a < picked@.len() ==> (#[trigger] picked@[a]).1 == spec_count_in(
                        done,
                        picked@[a].0,
                    ) && picked@[a].1 > 0,
                forall|q: (XorName, PublicKey)|
                    done.contains(q) ==> spec_entry_in(picked@, q) || #[trigger] spec_entry_in(
                        rem@,
                        q,
                    ),
                forall|a: int, b: int|
                    0 <= a < b < picked@.len() ==> spec_entry_before(picked@[a], picked@[b]),
                forall|a: int, b: int|
                    0 <= a < picked@.len() && 0 <= b < rem@.len() ==> spec_entry_before(
                        picked@[a],
                        rem@[b],
                    ),
            decreases GROUP_SIZE - round,
        {
            let n_rem: usize = rem.len();
            let mut best: usize = 0;
            let mut k: usize = 1;
            while k < n_rem
                invariant
                    1 <= k <= n_rem,
                    0 <= best < k,
                    n_rem == rem@.len(),
                    n_rem >= 1,
                    forall|a: int, b: int| 0 <= a < b < rem@.len() ==> rem@[a].0 != rem@[b].0,
                    forall|j: int|
                        0 <= j < k && j != best ==> spec_entry_before(
                            rem@[best as int],
                            #[trigger] rem@[j],
                        ),
                decreases n_rem - k,
            {
                let cand: FreqEntry = rem[k];
                let cur: FreqEntry = rem[best];
                if entry_before(&cand, &cur) {
                    proof {
                        assert forall|j: int|
                            0 <= j < k + 1 && j != k implies spec_entry_before(
                            rem@[k as int],
                            #[trigger] rem@[j],
                        ) by {
                            if j != best {
                                lemma_entry_before_trans(rem@[k as int], rem@[best as int], rem@[j]);
                            }
                        }
                    }
                    best = k;
                } else {
                    proof {
                        lemma_entry_before_total(rem@[k as int], rem@[best as int]);
                    }
                }
                k += 1;
            }
            let chosen: FreqEntry = rem[best];
            let ghost picked_pre = picked@;
            picked.push(chosen);
            let mut new_rem: Vec<FreqEntry> = Vec::new();
            let mut k2: usize = 0;
            while k2 < n_rem
                invariant
                    0 <= k2 <= n_rem,
                    0 <= best < n_rem,
                    n_rem == rem@.len(),
                    new_rem@.len() == k2 - (if k2 > best {
                        1int
                    } else {
                        0int
                    }),
                    new_rem@ == (if k2 <= best {
                        rem@.take(k2 as int)
                    } else {
                        rem@.take(best as int) + rem@.subrange(best as int + 1, k2 as int)
                    }),
                decreases n_rem - k2,
            {
                if k2 != best {
                    let e: FreqEntry = rem[k2];
                    new_rem.push(e);
                    proof {
                        if k2 < best {
                            assert(new_rem@ =~= rem@.take(k2 as int + 1));
                        } else {
                            assert(new_rem@ =~= rem@.take(best as int) + rem@.subrange(
                                best as int + 1,
                                k2 as int + 1,
                            ));
                        }
                    }
                } else {
                    proof {
                        if best == 0 {
                            assert(new_rem@ =~= rem@.take(0int) + rem@.subrange(1int, 1int));
                        } else {
                            assert(new_rem@ =~= rem@.take(best as int) + rem@.subrange(
                                best as int + 1,
                                best as int + 1,
                            ));
                        }
                    }
                }
                k2 += 1;
            }
            proof {
                let remv = rem@;
                let newv = new_rem@;
                let b = best as int;
                assert(newv == remv.take(b) + remv.subrange(b + 1, remv.len() as int));
                assert(newv.len() == remv.len() - 1);
                assert forall|a: int| 0 <= a < newv.len() implies #[trigger] newv[a] == (if a < b {
                    remv[a]
                } else {
                    remv[a + 1]
                }) by {}
                assert forall|q: (XorName, PublicKey)|
                    done.contains(q) implies spec_entry_in(picked@, q) || #[trigger] spec_entry_in(
                    newv,
                    q,
                ) by {
                    if spec_entry_in(remv, q) {
                        let kk = choose|kk: int| 0 <= kk < remv.len() && remv[kk].0 == q;
                        if kk == b {
                            assert(picked@[picked@.len() - 1].0 == q);
                            assert(spec_entry_in(picked@, q));
                        } else if kk < b {
                            assert(newv[kk].0 == q);
                            assert(spec_entry_in(newv, q));
                        } else {
                            assert(newv[kk - 1].0 == q);
                            assert(spec_entry_in(newv, q));
                        }
                    } else {
                        assert(spec_entry_in(picked_pre, q));
                        let kk = choose|kk: int|
                            0 <= kk < picked_pre.len() && picked_pre[kk].0 == q;
                        assert(picked@[kk] == picked_pre[kk]);
                        assert(spec_entry_in(picked@, q));
                    }
                }
            }
            rem = new_rem;
            round += 1;
        }
        let mut out_pairs: Vec<(XorName, PublicKey)> = Vec::new();
        let mut k3: usize = 0;
        let n_picked: usize = picked.len();
        while k3 < n_picked
            invariant
                0 <= k3 <= n_picked,
                n_picked == picked@.len(),
                out_pairs@ == picked@.map_values(|e: FreqEntry| e.0).take(k3 as int),
            decreases n_picked - k3,
        {
            let e: FreqEntry = picked[k3];
            out_pairs.push(e.0);
            proof {
                assert(out_pairs@ =~= picked@.map_values(|e: FreqEntry| e.0).take(k3 as int + 1));
            }
            k3 += 1;
        }
        proof {
            let pairs = picked@.map_values(|e: FreqEntry| e.0);
            assert(out_pairs@ =~= pairs);
            let s = out_pairs@;
            assert forall|a: int, b: int|
                0 <= a < b < s.len() implies spec_prio_before(*self, get_group_key_responses@, s[a], s[b]) by {
                assert(spec_entry_before(picked@[a], picked@[b]));
            }
            assert forall|a: int|
                0 <= a < s.len() implies spec_total_count(*self, get_group_key_responses@, #[trigger] s[a]) > 0 by {
                assert(picked@[a].1 == spec_count_in(done, picked@[a].0));
            }
            assert forall|p: (XorName, PublicKey), a: int|
                spec_total_count(*self, get_group_key_responses@, p) > 0 && !s.contains(p) && 0 <= a < s.len()
                    implies #[trigger] spec_prio_before(*self, get_group_key_responses@, s[a], p) by {
                lemma_count_contains(done, p);
                assert(done.contains(p));
                assert(spec_entry_in(picked@, p) || spec_entry_in(rem@, p));
                if spec_entry_in(picked@, p) {
                    let kk = choose|kk: int| 0 <= kk < picked@.len() && picked@[kk].0 == p;
                    assert(s[kk] == p);
                    assert(false);
                }
                let kk = choose|kk: int| 0 <= kk < rem@.len() && rem@[kk].0 == p;
                assert(spec_entry_before(picked@[a], rem@[kk]));
                assert(rem@[kk].1 == spec_count_in(done, p));
            }
            assert(spec_is_merge_result(*self, get_group_key_responses@, out_pairs@));
        }
        Some(GetGroupKeyResponse { target_id: self.target_id, public_sign_keys: out_pairs })
    }

    /// A response filled with thirty random pairs, for exercising the merge.
    /// Nothing is promised of the values beyond the count.
    pub fn generate_random() -> (r: GetGroupKeyResponse)
        ensures
            r.public_sign_keys@.len() == 30,
    {
        let mut vec: Vec<(XorName, PublicKey)> = Vec::new();
        let mut i: usize = 0;
        while i < 30
            invariant
                0 <= i <= 30,
                vec@.len() == i,
            decreases 30 - i,
        {
            let name = XorName(crypto::random_bytes_32());
            let key = PublicKey::Ed25519(crypto::random_bytes_32());
            vec.push((name, key));
            i += 1;
        }
        GetGroupKeyResponse { target_id: XorName(crypto::random_bytes_32()), public_sign_keys: vec }
    }
}


/// Merge idempotence: a response whose key list already has merge shape —
/// `GROUP_SIZE` pairs in strictly ascending pair order — is its own merge
/// with one copy of itself.  With `lemma_merge_unique` and the contract of
/// `merge`, merging such a response with itself returns it unchanged.
pub proof fn lemma_merge_idempotent(r: GetGroupKeyResponse)
    requires
        r.public_sign_keys@.len() == GROUP_SIZE,
        forall|i: int, j: int|
            0 <= i < j < r.public_sign_keys@.len() ==> spec_lex_cmp(
                spec_pair_ser(#[trigger] r.public_sign_keys@[i]),
                spec_pair_ser(#[trigger] r.public_sign_keys@[j]),
            ) == core::cmp::Ordering::Less,
    ensures
        spec_is_merge_result(r, seq![r], r.public_sign_keys@),
{
    let keys = r.public_sign_keys@;
    let others = seq![r];
    assert(others.drop_last() =~= Seq::<GetGroupKeyResponse>::empty());
    assert(others.last() == r);
    assert forall|p: (XorName, PublicKey)|
        #[trigger] spec_total_count(r, others, p) == 2 * spec_count_in(keys, p) by {
        assert(others.len() == 1);
        assert(others.drop_last() =~= Seq::<GetGroupKeyResponse>::empty());
        assert(spec_count_in_others(others.drop_last(), p) == 0);
        assert(others.last() == r);
        assert(spec_count_in_others(others, p) == spec_count_in(keys, p));
    }
    assert forall|i: int, j: int| 0 <= i < j < keys.len() implies keys[i] != keys[j] by {
        if keys[i] == keys[j] {
            lemma_lex_cmp_eq(spec_pair_ser(keys[i]), spec_pair_ser(keys[j]));
        }
    }
    assert forall|i: int| 0 <= i < keys.len() implies spec_total_count(
        r,
        others,
        #[trigger] keys[i],
    ) > 0 by {
        assert(keys.contains(keys[i]));
        lemma_count_distinct(keys, keys[i]);
    }
    assert forall|i: int, j: int|
        0 <= i < j < keys.len() implies spec_prio_before(r, others, keys[i], keys[j]) by {
        assert(keys.contains(keys[i]));
        assert(keys.contains(keys[j]));
        lemma_count_distinct(keys, keys[i]);
        lemma_count_distinct(keys, keys[j]);
    }
    assert forall|p: (XorName, PublicKey), i: int|
        spec_total_count(r, others, p) > 0 && !keys.contains(p) && 0 <= i < keys.len()
            implies #[trigger] spec_prio_before(r, others, keys[i], p) by {
        lemma_count_nonneg(keys, p);
        lemma_count_contains(keys, p);
        assert(false);
    }
}

/// Merge monotonicity: adding one more response whose pairs are all already
/// in the majority does not remove any pair from the majority.
pub proof fn lemma_merge_monotone(
    r0: GetGroupKeyResponse,
    others: Seq<GetGroupKeyResponse>,
    extra: GetGroupKeyResponse,
    s_old: Seq<(XorName, PublicKey)>,
    s_new: Seq<(XorName, PublicKey)>,
)
    requires
        spec_is_merge_result(r0, others, s_old),
        spec_is_merge_result(r0, others.push(extra), s_new),
        forall|i: int|
            0 <= i < extra.public_sign_keys@.len() ==> s_old.contains(
                #[trigger] extra.public_sign_keys@[i],
            ),
    ensures
        forall|i: int| 0 <= i < s_old.len() ==> s_new.contains(#[trigger] s_old[i]),
{
    broadcast use vstd::seq_lib::group_seq_properties;
    broadcast use vstd::set::group_set_axioms;

    let new_others = others.push(extra);
    assert forall|q: (XorName, PublicKey)|
        #[trigger] spec_total_count(r0, new_others, q) == spec_total_count(r0, others, q)
            + spec_count_in(extra.public_sign_keys@, q) by {
        lemma_count_push(others, extra, q);
    }
    assert(s_old.no_duplicates()) by {
        assert forall|a: int, b: int| 0 <= a < b < s_old.len() implies s_old[a] != s_old[b] by {
            if s_old[a] == s_old[b] {
                lemma_prio_irrefl(r0, others, s_old[a]);
            }
        }
    }
    assert(s_new.no_duplicates()) by {
        assert forall|a: int, b: int| 0 <= a < b < s_new.len() implies s_new[a] != s_new[b] by {
            if s_new[a] == s_new[b] {
                lemma_prio_irrefl(r0, new_others, s_new[a]);
            }
        }
    }
    assert forall|i: int| 0 <= i < s_old.len() implies s_new.contains(#[trigger] s_old[i]) by {
        let e = s_old[i];
        if !s_new.contains(e) {
            if forall|j: int| 0 <= j < s_new.len() ==> s_old.contains(#[trigger] s_new[j]) {
                s_old.unique_seq_to_set();
                s_new.unique_seq_to_set();
                assert forall|x: (XorName, PublicKey)| s_new.to_set().contains(x) implies
                    s_old.to_set().contains(x) by {
                    let j = choose|j: int| 0 <= j < s_new.len() && s_new[j] == x;
                    assert(s_old.contains(x));
                }
                assert(s_new.to_set().subset_of(s_old.to_set()));
                assert(s_old.to_set().contains(e));
                assert(!s_new.to_set().contains(e));
                s_new.to_set().lemma_subset_not_in_lt(s_old.to_set(), e);
                assert(false);
            } else {
                let j = choose|j: int| 0 <= j < s_new.len() && !s_old.contains(s_new[j]);
                let g = s_new[j];
                // the newcomer-free pair g keeps its old count
                lemma_count_nonneg(extra.public_sign_keys@, g);
                lemma_count_contains(extra.public_sign_keys@, g);
                if extra.public_sign_keys@.contains(g) {
                    let k = choose|k: int|
                        0 <= k < extra.public_sign_keys@.len() && extra.public_sign_keys@[k] == g;
                    assert(s_old.contains(g));
                    assert(false);
                }
                assert(spec_count_in(extra.public_sign_keys@, g) == 0);
                lemma_count_nonneg(extra.public_sign_keys@, e);
                // g was already counted before the new response arrived
                assert(spec_total_count(r0, new_others, g) > 0);
                assert(spec_total_count(r0, others, g) > 0);
                // the old merge ranks e over g, the new one g over e
                assert(spec_prio_before(r0, others, e, g));
                assert(spec_total_count(r0, new_others, e) > 0);
                assert(spec_prio_before(r0, new_others, g, e));
                lemma_lex_cmp_antisym(spec_pair_ser(e), spec_pair_ser(g));
                assert(false);
            }
        }
    }
}

} // verus!
