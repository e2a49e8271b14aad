//! Merkle integrity index over captured events, with inclusion proofs.
//!
//! Leaves are kept in ascending identifier order. The root is computed from
//! scratch: the leaf hashes are padded with the zero digest up to the next
//! power of two and adjacent pairs are combined level by level.

use vstd::prelude::*;

use crate::digest::{xor_bytes, zero_bytes, fold_bytes, Digest};

verus! {

/// Identifier of a captured event.
pub type EventId = u64;

/// Upper bound on the number of leaves, so that padded levels fit in memory
/// sizes.
pub const MAX_LEAVES: usize = 0x7fff_ffff;

/// Element `i` of a level, or the zero digest past its end.
pub open spec fn at_or_zero(level: Seq<Seq<u8>>, i: int) -> Seq<u8> {
    if 0 <= i < level.len() {
        level[i]
    } else {
        zero_bytes()
    }
}

/// The level above `level`: adjacent pairs combined left to right.
pub open spec fn parent_level(level: Seq<Seq<u8>>) -> Seq<Seq<u8>> {
    Seq::new(
        ((level.len() + 1) / 2) as nat,
        |i: int| xor_bytes(level[2 * i], at_or_zero(level, 2 * i + 1)),
    )
}

/// The single hash left after combining `level` up to one node.
pub open spec fn reduce_level(level: Seq<Seq<u8>>) -> Seq<u8>
    decreases level.len(),
{
    if level.len() <= 1 {
        level[0]
    } else {
        reduce_level(parent_level(level))
    }
}

/// The smallest power of two that is at least `n`, searched from `p`.
pub open spec fn pow2_from(p: nat, n: nat) -> nat
    decreases (if p >= n { 0 } else { n - p }),
{
    if p == 0 || p >= n {
        p
    } else {
        pow2_from(2 * p, n)
    }
}

/// The smallest power of two that is at least `n` (one for zero).
pub open spec fn next_pow2(n: nat) -> nat {
    pow2_from(1, n)
}

/// Leaf hashes padded with zero digests up to the next power of two.
pub open spec fn padded(hashes: Seq<Seq<u8>>) -> Seq<Seq<u8>> {
    hashes + Seq::new((next_pow2(hashes.len()) - hashes.len()) as nat, |i: int| zero_bytes())
}

/// The root over the given leaf hashes; none when there are no leaves.
pub open spec fn root_of(hashes: Seq<Seq<u8>>) -> Option<Seq<u8>> {
    if hashes.len() == 0 {
        None
    } else {
        Some(reduce_level(padded(hashes)))
    }
}

/// The sibling path of position `i` in `level`, from the bottom up: each
/// entry is the sibling's hash and whether the sibling sits on the left.
pub open spec fn path_of(level: Seq<Seq<u8>>, i: int) -> Seq<(Seq<u8>, bool)>
    decreases level.len(),
{
    if level.len() <= 1 {
        Seq::empty()
    } else {
        let sib = if i % 2 == 0 { i + 1 } else { i - 1 };
        seq![(at_or_zero(level, sib), i % 2 == 1)] + path_of(parent_level(level), i / 2)
    }
}

/// One step of proof verification.
pub open spec fn step(current: Seq<u8>, entry: (Seq<u8>, bool)) -> Seq<u8> {
    if entry.1 {
        xor_bytes(entry.0, current)
    } else {
        xor_bytes(current, entry.0)
    }
}

/// The hash obtained by folding `h` with each path entry in order.
pub open spec fn fold_path(h: Seq<u8>, path: Seq<(Seq<u8>, bool)>) -> Seq<u8>
    decreases path.len(),
{
    if path.len() == 0 {
        h
    } else {
        fold_path(step(h, path[0]), path.drop_first())
    }
}

/// The hashes of a leaf sequence, in order.
pub open spec fn leaf_hashes(leaves: Seq<(EventId, Digest)>) -> Seq<Seq<u8>> {
    leaves.map_values(|e: (EventId, Digest)| e.1@)
}

/// Whether the identifiers of `leaves` are strictly increasing.
pub open spec fn strictly_sorted(leaves: Seq<(EventId, Digest)>) -> bool {
    forall|i: int, j: int| 0 <= i < j < leaves.len() ==> leaves[i].0 < leaves[j].0
}

/// Whether `leaves` has an entry for `id`.
pub open spec fn has_leaf(leaves: Seq<(EventId, Digest)>, id: EventId) -> bool {
    exists|i: int| 0 <= i < leaves.len() && leaves[i].0 == id
}

/// The leaf set as a map from identifier to leaf hash.
pub open spec fn leaf_map(leaves: Seq<(EventId, Digest)>) -> Map<EventId, Seq<u8>> {
    Map::new(
        |id: EventId| has_leaf(leaves, id),
        |id: EventId| leaves[choose|i: int| 0 <= i < leaves.len() && leaves[i].0 == id].1@,
    )
}

/// The view of a proof path.
pub open spec fn path_view(path: Seq<(Digest, bool)>) -> Seq<(Seq<u8>, bool)> {
    path.map_values(|e: (Digest, bool)| (e.0@, e.1))
}

/// The view of an optional digest.
pub open spec fn opt_view(d: Option<Digest>) -> Option<Seq<u8>> {
    match d {
        Some(x) => Some(x@),
        None => None,
    }
}

/// Whether `proof` verifies against `root`.
pub open spec fn proof_verifies(root: Seq<u8>, proof: MerkleProof) -> bool {
    fold_path(proof.leaf_hash@, path_view(proof.path@)) == root
}

/// The views of a sequence of digests.
pub open spec fn digests_view(v: Seq<Digest>) -> Seq<Seq<u8>> {
    v.map_values(|d: Digest| d@)
}

/// Every element has digest length.
pub open spec fn all_digest_len(level: Seq<Seq<u8>>) -> bool {
    forall|i: int| 0 <= i < level.len() ==> #[trigger] level[i].len() == 32
}

proof fn lemma_pow2_from_bounds(p: nat, n: nat)
    requires
        p >= 1,
    ensures
        pow2_from(p, n) >= n,
        pow2_from(p, n) >= p,
        p >= n ==> pow2_from(p, n) == p,
    decreases (if p >= n { 0 } else { n - p }),
{
    if p < n {
        lemma_pow2_from_bounds(2 * p, n);
    }
}

proof fn lemma_fold_path_cons(h: Seq<u8>, e: (Seq<u8>, bool), rest: Seq<(Seq<u8>, bool)>)
    ensures
        fold_path(h, seq![e] + rest) == fold_path(step(h, e), rest),
{
    let s = seq![e] + rest;
    assert(s.drop_first() =~= rest);
}

/// Folding the sibling path of position `i` from its hash gives the
/// level's root.
proof fn lemma_path_reaches_root(level: Seq<Seq<u8>>, i: int)
    requires
        0 <= i < level.len(),
    ensures
        fold_path(level[i], path_of(level, i)) == reduce_level(level),
    decreases level.len(),
{
    if level.len() > 1 {
        let parent = parent_level(level);
        let sib = if i % 2 == 0 { i + 1 } else { i - 1 };
        let e = (at_or_zero(level, sib), i % 2 == 1);
        lemma_fold_path_cons(level[i], e, path_of(parent, i / 2));
        assert(step(level[i], e) == parent[i / 2]);
        lemma_path_reaches_root(parent, i / 2);
    }
}

proof fn lemma_xor_injective(s: Seq<u8>, a: Seq<u8>, b: Seq<u8>, left: bool)
    requires
        a.len() == 32,
        b.len() == 32,
        step(a, (s, left)) == step(b, (s, left)),
    ensures
        a == b,
{
    assert forall|j: int| 0 <= j < 32 implies a[j] == b[j] by {
        let x = s[j];
        let y = a[j];
        let z = b[j];
        if left {
            assert(xor_bytes(s, a)[j] == xor_bytes(s, b)[j]);
            assert((x ^ y) == (x ^ z) ==> y == z) by (bit_vector);
        } else {
            assert(xor_bytes(a, s)[j] == xor_bytes(b, s)[j]);
            assert((y ^ x) == (z ^ x) ==> y == z) by (bit_vector);
        }
    }
    assert(a =~= b);
}

/// Two hashes of digest length that fold to the same result along one path
/// are equal.
proof fn lemma_fold_path_injective(a: Seq<u8>, b: Seq<u8>, path: Seq<(Seq<u8>, bool)>)
    requires
        a.len() == 32,
        b.len() == 32,
        fold_path(a, path) == fold_path(b, path),
    ensures
        a == b,
    decreases path.len(),
{
    if path.len() > 0 {
        lemma_fold_path_injective(step(a, path[0]), step(b, path[0]), path.drop_first());
        lemma_xor_injective(path[0].0, a, b, path[0].1);
    }
}

proof fn lemma_leaf_at(leaves: Seq<(EventId, Digest)>, i: int)
    requires
        strictly_sorted(leaves),
        0 <= i < leaves.len(),
    ensures
        leaf_map(leaves).contains_key(leaves[i].0),
        leaf_map(leaves)[leaves[i].0] == leaves[i].1@,
{
    assert(has_leaf(leaves, leaves[i].0));
    let j = choose|j: int| 0 <= j < leaves.len() && leaves[j].0 == leaves[i].0;
    assert(j == i);
}

proof fn lemma_leaf_map_tail(leaves: Seq<(EventId, Digest)>)
    requires
        strictly_sorted(leaves),
        leaves.len() > 0,
    ensures
        strictly_sorted(leaves.drop_first()),
        leaf_map(leaves.drop_first()) == leaf_map(leaves).remove(leaves[0].0),
{
    let t = leaves.drop_first();
    assert forall|x: EventId| has_leaf(t, x) == (has_leaf(leaves, x) && x != leaves[0].0) by {
        if has_leaf(leaves, x) && x != leaves[0].0 {
            let j = choose|j: int| 0 <= j < leaves.len() && leaves[j].0 == x;
            assert(t[j - 1].0 == x);
        }
        if has_leaf(t, x) {
            let j = choose|j: int| 0 <= j < t.len() && t[j].0 == x;
            assert(leaves[j + 1].0 == x);
        }
    }
    assert forall|x: EventId| #[trigger] leaf_map(t).contains_key(x) implies leaf_map(t)[x]
        == leaf_map(leaves)[x] by {
        let j = choose|j: int| 0 <= j < t.len() && t[j].0 == x;
        lemma_leaf_at(t, j);
        lemma_leaf_at(leaves, j + 1);
    }
    assert(leaf_map(t) =~= leaf_map(leaves).remove(leaves[0].0));
}

/// Two strictly sorted leaf sequences with the same leaf set have the same
/// hashes in the same order.
proof fn lemma_sorted_same_hashes(a: Seq<(EventId, Digest)>, b: Seq<(EventId, Digest)>)
    requires
        strictly_sorted(a),
        strictly_sorted(b),
        leaf_map(a) == leaf_map(b),
    ensures
        leaf_hashes(a) == leaf_hashes(b),
    decreases a.len(),
{
    if a.len() == 0 {
        if b.len() > 0 {
            lemma_leaf_at(b, 0);
        }
        assert(leaf_hashes(a) =~= leaf_hashes(b));
    } else {
        lemma_leaf_at(a, 0);
        assert(b.len() > 0);
        lemma_leaf_at(b, 0);
        let j = choose|j: int| 0 <= j < b.len() && b[j].0 == a[0].0;
        let k = choose|k: int| 0 <= k < a.len() && a[k].0 == b[0].0;
        assert(b[0].0 <= b[j].0);
        assert(a[0].0 <= a[k].0);
        assert(a[0].0 == b[0].0);
        lemma_leaf_map_tail(a);
        lemma_leaf_map_tail(b);
        lemma_sorted_same_hashes(a.drop_first(), b.drop_first());
        assert(leaf_hashes(a.drop_first()) =~= leaf_hashes(a).drop_first());
        assert(leaf_hashes(b.drop_first()) =~= leaf_hashes(b).drop_first());
        assert(leaf_hashes(a)[0] == leaf_hashes(b)[0]);
        assert forall|i: int| 0 <= i < a.len() implies leaf_hashes(a)[i] == leaf_hashes(b)[i] by {
            if i > 0 {
                assert(leaf_hashes(a)[i] == leaf_hashes(a).drop_first()[i - 1]);
                assert(leaf_hashes(b)[i] == leaf_hashes(b).drop_first()[i - 1]);
            }
        }
        assert(leaf_hashes(a) =~= leaf_hashes(b));
    }
}

proof fn lemma_leaf_map_insert(leaves: Seq<(EventId, Digest)>, pos: int, id: EventId, h: Digest)
    requires
        strictly_sorted(leaves),
        0 <= pos <= leaves.len(),
        forall|j: int| 0 <= j < pos ==> #[trigger] leaves[j].0 < id,
        forall|j: int| pos <= j < leaves.len() ==> #[trigger] leaves[j].0 > id,
    ensures
        strictly_sorted(leaves.insert(pos, (id, h))),
        leaf_map(leaves.insert(pos, (id, h))) == leaf_map(leaves).insert(id, h@),
{
    let t = leaves.insert(pos, (id, h));
    assert(strictly_sorted(t));
    assert forall|x: EventId| has_leaf(t, x) == (has_leaf(leaves, x) || x == id) by {
        if x == id {
            assert(t[pos].0 == id);
        }
        if has_leaf(leaves, x) {
            let j = choose|j: int| 0 <= j < leaves.len() && leaves[j].0 == x;
            if j < pos {
                assert(t[j].0 == x);
            } else {
                assert(t[j + 1].0 == x);
            }
        }
        if has_leaf(t, x) && x != id {
            let j = choose|j: int| 0 <= j < t.len() && t[j].0 == x;
            if j < pos {
                assert(leaves[j].0 == x);
            } else {
                assert(leaves[j - 1].0 == x);
            }
        }
    }
    assert forall|x: EventId| #[trigger] leaf_map(t).contains_key(x) implies leaf_map(t)[x]
        == leaf_map(leaves).insert(id, h@)[x] by {
        let j = choose|j: int| 0 <= j < t.len() && t[j].0 == x;
        lemma_leaf_at(t, j);
        if j < pos {
            lemma_leaf_at(leaves, j);
        } else if j > pos {
            lemma_leaf_at(leaves, j - 1);
        }
    }
    assert(leaf_map(t) =~= leaf_map(leaves).insert(id, h@));
}

proof fn lemma_leaf_map_overwrite(leaves: Seq<(EventId, Digest)>, pos: int, h: Digest)
    requires
        strictly_sorted(leaves),
        0 <= pos < leaves.len(),
    ensures
        strictly_sorted(leaves.update(pos, (leaves[pos].0, h))),
        leaf_map(leaves.update(pos, (leaves[pos].0, h))) == leaf_map(leaves).insert(
            leaves[pos].0,
            h@,
        ),
{
    let id = leaves[pos].0;
    let t = leaves.update(pos, (id, h));
    assert forall|x: EventId| has_leaf(t, x) == has_leaf(leaves, x) by {
        if has_leaf(leaves, x) {
            let j = choose|j: int| 0 <= j < leaves.len() && leaves[j].0 == x;
            assert(t[j].0 == x);
        }
        if has_leaf(t, x) {
            let j = choose|j: int| 0 <= j < t.len() && t[j].0 == x;
            assert(leaves[j].0 == x);
        }
    }
    lemma_leaf_at(leaves, pos);
    assert forall|x: EventId| #[trigger] leaf_map(t).contains_key(x) implies leaf_map(t)[x]
        == leaf_map(leaves).insert(id, h@)[x] by {
        let j = choose|j: int| 0 <= j < t.len() && t[j].0 == x;
        lemma_leaf_at(t, j);
        lemma_leaf_at(leaves, j);
    }
    assert(leaf_map(t) =~= leaf_map(leaves).insert(id, h@));
}

/// The requested identifiers that are in `leaves`, in request order.
pub open spec fn requested_present(leaves: Map<EventId, Seq<u8>>, ids: Seq<EventId>) -> Seq<EventId>
    decreases ids.len(),
{
    if ids.len() == 0 {
        Seq::empty()
    } else if leaves.contains_key(ids.last()) {
        requested_present(leaves, ids.drop_last()).push(ids.last())
    } else {
        requested_present(leaves, ids.drop_last())
    }
}

proof fn lemma_leaf_count(leaves: Seq<(EventId, Digest)>)
    requires
        strictly_sorted(leaves),
    ensures
        leaf_map(leaves).dom().finite(),
        leaf_map(leaves).len() == leaves.len(),
    decreases leaves.len(),
{
    if leaves.len() == 0 {
        assert(leaf_map(leaves).dom() =~= Set::<EventId>::empty());
    } else {
        lemma_leaf_map_tail(leaves);
        lemma_leaf_count(leaves.drop_first());
        lemma_leaf_at(leaves, 0);
        let m = leaf_map(leaves);
        assert(m.remove(leaves[0].0).dom() =~= m.dom().remove(leaves[0].0));
        assert(m.dom() =~= m.remove(leaves[0].0).dom().insert(leaves[0].0));
    }
}

/// Merkle index over event identifiers and their content hashes.
#[derive(Clone, Debug)]
pub struct MerkleIndex {
    /// Current root; none when there are no leaves.
    pub root: Option<Digest>,
    /// Tree depth (informational).
    pub depth: u8,
    /// Leaves, in strictly ascending identifier order.
    pub leaves: Vec<(EventId, Digest)>,
}

/// Inclusion proof for one event.
#[derive(Clone, Debug)]
pub struct MerkleProof {
    /// Path from leaf to root: (sibling hash, sibling is on the left).
    pub path: Vec<(Digest, bool)>,
    /// Hash of the leaf.
    pub leaf_hash: Digest,
    /// The event being proven.
    pub event_id: EventId,
}

/// Proofs for several events against one root.
#[derive(Clone, Debug)]
pub struct BatchProof {
    /// Root at the time of the batch.
    pub batch_root: Digest,
    /// Individual proofs.
    pub proofs: Vec<MerkleProof>,
    /// Caller-chosen batch identifier.
    pub batch_id: u64,
    /// Number of identifiers requested.
    pub event_count: usize,
}

} // verus!

verus! {

/// The combined level above `level`.
fn level_up(level: &Vec<Digest>) -> (r: Vec<Digest>)
    ensures
        r@.len() == (level@.len() + 1) / 2,
        digests_view(r@) == parent_level(digests_view(level@)),
{
    let n = level.len();
    let half: usize = n / 2 + n % 2;
    let ghost lv = digests_view(level@);
    let mut out: Vec<Digest> = Vec::new();
    let mut i: usize = 0;
    while i < half
        invariant
            n == level@.len(),
            half == (n + 1) / 2,
            lv == digests_view(level@),
            0 <= i <= half,
            out@.len() == i,
            forall|j: int| 0 <= j < i ==> #[trigger] out@[j]@ == parent_level(lv)[j],
        decreases half - i,
    {
        let l: usize = i + i;
        let left = level[l];
        let right = if l + 1 < n {
            level[l + 1]
        } else {
            Digest::zero()
        };
        out.push(Digest::combine(&left, &right));
        i = i + 1;
    }
    assert(digests_view(out@) =~= parent_level(lv));
    out
}

impl MerkleIndex {
    /// Well-formedness: leaves strictly ascending by identifier, within the
    /// leaf bound, and the stored root is the root over the leaves.
    pub open spec fn wf(&self) -> bool {
        &&& strictly_sorted(self.leaves@)
        &&& self.leaves@.len() <= MAX_LEAVES
        &&& opt_view(self.root) == root_of(leaf_hashes(self.leaves@))
    }

    /// The leaf set: identifier to leaf hash.
    pub open spec fn leaf_set(&self) -> Map<EventId, Seq<u8>> {
        leaf_map(self.leaves@)
    }

    /// The current root as bytes.
    pub open spec fn root_view(&self) -> Option<Seq<u8>> {
        opt_view(self.root)
    }

    /// Whether `proof` is the inclusion proof of `id` in this index.
    pub open spec fn is_proof_for(&self, id: EventId, proof: MerkleProof) -> bool {
        &&& has_leaf(self.leaves@, id)
        &&& proof.event_id == id
        &&& forall|i: int|
            0 <= i < self.leaves@.len() && #[trigger] self.leaves@[i].0 == id ==> {
                &&& proof.leaf_hash@ == self.leaves@[i].1@
                &&& path_view(proof.path@) == path_of(padded(leaf_hashes(self.leaves@)), i)
            }
    }

    /// An empty index.
    pub fn new(depth: u8) -> (r: MerkleIndex)
        ensures
            r.wf(),
            r.depth == depth,
            r.leaf_set() == Map::<EventId, Seq<u8>>::empty(),
            r.root.is_none(),
    {
        let r = MerkleIndex { root: None, depth, leaves: Vec::new() };
        assert(r.leaf_set() =~= Map::<EventId, Seq<u8>>::empty());
        r
    }

    /// Digest of raw event data.
    fn hash_data(data: &[u8]) -> (r: Digest)
        ensures
            r@ == fold_bytes(data@),
    {
        Digest::of_bytes(data)
    }

    /// The leaf hashes padded with zero digests to the next power of two.
    fn padded_level(&self) -> (r: Vec<Digest>)
        requires
            self.leaves@.len() <= MAX_LEAVES,
        ensures
            digests_view(r@) == padded(leaf_hashes(self.leaves@)),
    {
        let n = self.leaves.len();
        let ghost hs = leaf_hashes(self.leaves@);
        let mut level: Vec<Digest> = Vec::new();
        let mut i: usize = 0;
        while i < n
            invariant
                n == self.leaves@.len(),
                hs == leaf_hashes(self.leaves@),
                0 <= i <= n,
                level@.len() == i,
                forall|j: int| 0 <= j < i ==> #[trigger] level@[j]@ == hs[j],
            decreases n - i,
        {
            level.push(self.leaves[i].1);
            i = i + 1;
        }
        let mut p: usize = 1;
        proof {
            lemma_pow2_from_bounds(1, n as nat);
        }
        while p < n
            invariant
                n <= MAX_LEAVES,
                1 <= p,
                pow2_from(p as nat, n as nat) == next_pow2(n as nat),
            decreases (if p >= n { 0 } else { n - p }),
        {
            p = p * 2;
        }
        proof {
            lemma_pow2_from_bounds(p as nat, n as nat);
        }
        while level.len() < p
            invariant
                n <= level@.len() <= p,
                p == next_pow2(n as nat),
                hs.len() == n,
                forall|j: int| 0 <= j < n ==> #[trigger] level@[j]@ == hs[j],
                forall|j: int| n <= j < level@.len() ==> #[trigger] level@[j]@ == zero_bytes(),
            decreases p - level@.len(),
        {
            level.push(Digest::zero());
        }
        assert(digests_view(level@) =~= padded(hs));
        level
    }

    /// Stores (or overwrites) the leaf of `event_id` with `event_hash`, then
    /// recomputes the root over all leaves.
    pub fn insert_hash(&mut self, event_id: EventId, event_hash: Digest)
        requires
            old(self).wf(),
            old(self).leaf_set().contains_key(event_id) || old(self).leaves@.len() < MAX_LEAVES,
        ensures
            final(self).wf(),
            final(self).depth == old(self).depth,
            final(self).leaf_set() == old(self).leaf_set().insert(event_id, event_hash@),
            final(self).leaves@.len() <= old(self).leaves@.len() + 1,
    {
        let n = self.leaves.len();
        let mut pos: usize = 0;
        while pos < n && self.leaves[pos].0 < event_id
            invariant
                n == self.leaves@.len(),
                0 <= pos <= n,
                forall|j: int| 0 <= j < pos ==> #[trigger] self.leaves@[j].0 < event_id,
            decreases n - pos,
        {
            pos = pos + 1;
        }
        let ghost before = self.leaves@;
        if pos < n && self.leaves[pos].0 == event_id {
            proof {
                lemma_leaf_map_overwrite(before, pos as int, event_hash);
            }
            self.leaves[pos] = (event_id, event_hash);
            assert(self.leaves@ == before.update(pos as int, (event_id, event_hash)));
        } else {
            proof {
                assert forall|j: int| pos <= j < before.len() implies #[trigger] before[j].0
                    > event_id by {
                    assert(before[pos as int].0 <= before[j].0);
                }
                lemma_leaf_map_insert(before, pos as int, event_id, event_hash);
                if has_leaf(before, event_id) {
                    let j = choose|j: int| 0 <= j < before.len() && before[j].0 == event_id;
                    assert(false);
                }
            }
            self.leaves.insert(pos, (event_id, event_hash));
        }
        self.recompute_root();
    }

    /// Stores the leaf of `event_id` as the digest of `event_data`, then
    /// recomputes the root.
    pub fn insert(&mut self, event_id: EventId, event_data: &[u8])
        requires
            old(self).wf(),
            old(self).leaf_set().contains_key(event_id) || old(self).leaves@.len() < MAX_LEAVES,
        ensures
            final(self).wf(),
            final(self).depth == old(self).depth,
            final(self).leaf_set() == old(self).leaf_set().insert(event_id, fold_bytes(event_data@)),
            final(self).leaves@.len() <= old(self).leaves@.len() + 1,
    {
        let h = Self::hash_data(event_data);
        self.insert_hash(event_id, h);
    }

    /// The inclusion proof of `event_id`, or none if it is not indexed.
    pub fn generate_proof(&self, event_id: EventId) -> (r: Option<MerkleProof>)
        requires
            self.wf(),
        ensures
            r.is_some() == self.leaf_set().contains_key(event_id),
            r matches Some(p) ==> self.is_proof_for(event_id, p),
    {
        let n = self.leaves.len();
        let mut pos: usize = 0;
        while pos < n && self.leaves[pos].0 != event_id
            invariant
                n == self.leaves@.len(),
                0 <= pos <= n,
                forall|j: int| 0 <= j < pos ==> #[trigger] self.leaves@[j].0 != event_id,
            decreases n - pos,
        {
            pos = pos + 1;
        }
        if pos == n {
            assert(!has_leaf(self.leaves@, event_id));
            return None;
        }
        let leaf_hash = self.leaves[pos].1;
        let mut level = self.padded_level();
        let ghost start = digests_view(level@);
        proof {
            lemma_pow2_from_bounds(1, n as nat);
        }
        let mut index: usize = pos;
        let mut path: Vec<(Digest, bool)> = Vec::new();
        while level.len() > 1
            invariant
                0 <= index < level@.len(),
                path_view(path@) + path_of(digests_view(level@), index as int) == path_of(
                    start,
                    pos as int,
                ),
            decreases level@.len(),
        {
            let ghost lv = digests_view(level@);
            let ghost old_path = path_view(path@);
            let ghost old_index = index as int;
            let sibling: usize = if index % 2 == 0 {
                index + 1
            } else {
                index - 1
            };
            let sibling_hash = if sibling < level.len() {
                level[sibling]
            } else {
                Digest::zero()
            };
            path.push((sibling_hash, index % 2 == 1));
            level = level_up(&level);
            index = index / 2;
            proof {
                let e = (at_or_zero(lv, sibling as int), old_index % 2 == 1);
                assert(path_view(path@) =~= old_path.push(e));
                assert(path_of(lv, old_index) == seq![e] + path_of(
                    digests_view(level@),
                    index as int,
                ));
                assert(old_path + (seq![e] + path_of(digests_view(level@), index as int))
                    =~= old_path.push(e) + path_of(digests_view(level@), index as int));
            }
        }
        assert(path_view(path@) =~= path_of(start, pos as int));
        let proof = MerkleProof { path, leaf_hash, event_id };
        assert forall|i: int|
            0 <= i < self.leaves@.len() && #[trigger] self.leaves@[i].0 == event_id implies i
            == pos by {
            if i < pos {
                assert(self.leaves@[i].0 < self.leaves@[pos as int].0);
            }
            if i > pos {
                assert(self.leaves@[pos as int].0 < self.leaves@[i].0);
            }
        }
        Some(proof)
    }

    /// Whether `proof` folds to `root`.
    pub fn verify_proof(root: &Digest, proof: &MerkleProof) -> (r: bool)
        ensures
            r == proof_verifies(root@, *proof),
    {
        let ghost pv = path_view(proof.path@);
        let mut current = proof.leaf_hash;
        let mut i: usize = 0;
        let n = proof.path.len();
        assert(pv.subrange(0, n as int) =~= pv);
        while i < n
            invariant
                n == proof.path@.len(),
                pv == path_view(proof.path@),
                0 <= i <= n,
                fold_path(current@, pv.subrange(i as int, n as int)) == fold_path(
                    proof.leaf_hash@,
                    pv,
                ),
            decreases n - i,
        {
            let (sibling, is_left) = proof.path[i];
            assert(pv.subrange(i as int, n as int).drop_first() =~= pv.subrange(
                i as int + 1,
                n as int,
            ));
            current = if is_left {
                Digest::combine(&sibling, &current)
            } else {
                Digest::combine(&current, &sibling)
            };
            i = i + 1;
        }
        current.same(root)
    }

    /// The current root, if any leaf is indexed.
    pub fn get_root(&self) -> (r: Option<Digest>)
        ensures
            r == self.root,
    {
        self.root
    }

    /// Number of indexed events.
    pub fn event_count(&self) -> (r: usize)
        requires
            self.wf(),
        ensures
            r == self.leaf_set().len(),
    {
        proof {
            lemma_leaf_count(self.leaves@);
        }
        self.leaves.len()
    }

    /// Proofs for each of `event_ids` that is indexed, against the current
    /// root; none when the index is empty or no requested identifier is
    /// indexed.
    pub fn generate_batch_proof(&self, event_ids: &[EventId], batch_id: u64) -> (r: Option<
        BatchProof,
    >)
        requires
            self.wf(),
        ensures
            r.is_some() == (self.root.is_some() && exists|i: int|
                0 <= i < event_ids@.len() && self.leaf_set().contains_key(#[trigger] event_ids@[i])),
            r matches Some(b) ==> {
                &&& Some(b.batch_root) == self.root
                &&& b.batch_id == batch_id
                &&& b.event_count == event_ids@.len()
                &&& b.proofs@.len() == requested_present(self.leaf_set(), event_ids@).len()
                &&& forall|k: int|
                    0 <= k < b.proofs@.len() ==> self.is_proof_for(
                        requested_present(self.leaf_set(), event_ids@)[k],
                        #[trigger] b.proofs@[k],
                    )
            },
    {
        let root = match self.root {
            Some(root) => root,
            None => {
                return None;
            },
        };
        let mut proofs: Vec<MerkleProof> = Vec::new();
        let mut i: usize = 0;
        while i < event_ids.len()
            invariant
                self.wf(),
                0 <= i <= event_ids@.len(),
                proofs@.len() == requested_present(self.leaf_set(), event_ids@.subrange(0, i as int)).len(),
                forall|k: int|
                    0 <= k < proofs@.len() ==> self.is_proof_for(
                        requested_present(self.leaf_set(), event_ids@.subrange(0, i as int))[k],
                        #[trigger] proofs@[k],
                    ),
                (proofs@.len() > 0) == exists|j: int|
                    0 <= j < i && self.leaf_set().contains_key(#[trigger] event_ids@[j]),
            decreases event_ids@.len() - i,
        {
            let ghost prev = event_ids@.subrange(0, i as int);
            assert(event_ids@.subrange(0, i as int + 1).drop_last() =~= prev);
            if let Some(proof) = self.generate_proof(event_ids[i]) {
                proofs.push(proof);
            }
            i = i + 1;
        }
        assert(event_ids@.subrange(0, event_ids@.len() as int) =~= event_ids@);
        if proofs.len() == 0 {
            return None;
        }
        Some(BatchProof { batch_root: root, proofs, batch_id, event_count: event_ids.len() })
    }

    /// Recomputes the root from the current leaves.
    fn recompute_root(&mut self)
        requires
            old(self).leaves@.len() <= MAX_LEAVES,
        ensures
            final(self).leaves == old(self).leaves,
            final(self).depth == old(self).depth,
            final(self).root_view() == root_of(leaf_hashes(old(self).leaves@)),
    {
        if self.leaves.len() == 0 {
            self.root = None;
            return;
        }
        let mut level = self.padded_level();
        let ghost start = digests_view(level@);
        proof {
            lemma_pow2_from_bounds(1, self.leaves@.len() as nat);
        }
        while level.len() > 1
            invariant
                level@.len() >= 1,
                reduce_level(digests_view(level@)) == reduce_level(start),
            decreases level@.len(),
        {
            level = level_up(&level);
        }
        self.root = Some(level[0]);
    }
}

} // verus!

verus! {

/// The root is a function of the leaf set alone: two well-formed indexes
/// holding the same identifiers with the same leaf hashes have the same root,
/// whatever order the leaves were inserted in.
pub proof fn lemma_root_determined_by_leaf_set(a: MerkleIndex, b: MerkleIndex)
    requires
        a.wf(),
        b.wf(),
        a.leaf_set() == b.leaf_set(),
    ensures
        a.root_view() == b.root_view(),
{
    lemma_sorted_same_hashes(a.leaves@, b.leaves@);
}

/// The inclusion proof of an indexed identifier verifies against the
/// current root, and the same proof with any other leaf hash does not.
pub proof fn lemma_proof_round_trip(
    index: MerkleIndex,
    id: EventId,
    proof: MerkleProof,
    tampered_leaf: Digest,
)
    requires
        index.wf(),
        index.is_proof_for(id, proof),
    ensures
        index.root.is_some(),
        proof_verifies(index.root.unwrap()@, proof),
        tampered_leaf@ != proof.leaf_hash@ ==> !proof_verifies(
            index.root.unwrap()@,
            MerkleProof { leaf_hash: tampered_leaf, ..proof },
        ),
{
    let leaves = index.leaves@;
    let i = choose|i: int| 0 <= i < leaves.len() && leaves[i].0 == id;
    let level = padded(leaf_hashes(leaves));
    lemma_pow2_from_bounds(1, leaves.len() as nat);
    assert(level[i] == proof.leaf_hash@);
    lemma_path_reaches_root(level, i);
    let tp = MerkleProof { leaf_hash: tampered_leaf, ..proof };
    if tampered_leaf@ != proof.leaf_hash@ && proof_verifies(index.root.unwrap()@, tp) {
        lemma_fold_path_injective(tampered_leaf@, proof.leaf_hash@, path_view(proof.path@));
    }
}

} // verus!
