//! Merkle engine: binary SHA-256 hash trees over an ordered leaf sequence,
//! authentication paths, and path verification.
//!
//! Level 0 of a tree holds the leaf digests; each further level pairs
//! adjacent digests left to right, duplicating the last digest of a level of
//! odd length, until a single digest — the root — remains.

use vstd::prelude::*;

verus! {

/// The 32-byte digest that SHA-256 assigns to a byte string: a function of
/// the input bytes alone.
pub uninterp spec fn sha256_of(data: Seq<u8>) -> Seq<u8>;

/// Relies on sha2's `Sha256`: the 32-byte digest of the input bytes.
#[verifier::external_body]
fn sha256_bytes(data: &[u8]) -> (r: Vec<u8>)
    ensures
        r@ == sha256_of(data@),
        r@.len() == 32,
{
    let mut hasher = <sha2::Sha256 as sha2::Digest>::new();
    sha2::Digest::update(&mut hasher, data);
    sha2::Digest::finalize(hasher).to_vec()
}

/// A 32-byte digest produced by the hash primitive.
pub struct Hash {
    bytes: Vec<u8>,
}

impl View for Hash {
    type V = Seq<u8>;

    closed spec fn view(&self) -> Seq<u8> {
        self.bytes@
    }
}

impl Hash {
    /// A digest is well formed when it holds exactly 32 bytes.
    pub open spec fn wf(&self) -> bool {
        self@.len() == 32
    }

    /// Hash a byte string into a digest.
    pub fn compute_hash(data: &[u8]) -> (h: Hash)
        ensures
            h@ == sha256_of(data@),
            h.wf(),
    {
        Hash { bytes: sha256_bytes(data) }
    }

    /// The digest's bytes.
    pub fn as_bytes(&self) -> (r: &[u8])
        ensures
            r@ == self@,
    {
        self.bytes.as_slice()
    }

    /// Byte-exact equality of two digests.
    pub fn equals(&self, other: &Hash) -> (b: bool)
        ensures
            b == (self@ == other@),
    {
        if self.bytes.len() != other.bytes.len() {
            return false;
        }
        let mut i: usize = 0;
        while i < self.bytes.len()
            invariant
                i <= self.bytes@.len(),
                self.bytes@.len() == other.bytes@.len(),
                forall|j: int| 0 <= j < i ==> self.bytes@[j] == other.bytes@[j],
            decreases self.bytes@.len() - i,
        {
            if self.bytes[i] != other.bytes[i] {
                return false;
            }
            i = i + 1;
        }
        proof {
            assert(self.bytes@ =~= other.bytes@);
        }
        true
    }
}

impl Clone for Hash {
    fn clone(&self) -> (r: Self)
        ensures
            r@ == self@,
    {
        let r = Hash { bytes: self.bytes.clone() };
        proof {
            assert(r.bytes@ =~= self.bytes@);
        }
        r
    }
}

impl PartialEq for Hash {
    fn eq(&self, other: &Hash) -> (r: bool) {
        self.equals(other)
    }
}

impl vstd::std_specs::cmp::PartialEqSpecImpl for Hash {
    open spec fn obeys_eq_spec() -> bool {
        true
    }

    open spec fn eq_spec(&self, other: &Hash) -> bool {
        self@ == other@
    }
}

/// The errors of the Merkle engine.
#[derive(Debug, Clone, Copy, PartialEq, Eq, Structural)]
pub enum MerkleError {
    /// The engine was given zero leaves.
    EmptyInput,
    /// An authentication path was requested for an index beyond the leaf
    /// count.
    IndexOutOfRange,
}

/// The digests of a sequence of `Hash` values.
pub open spec fn digests(s: Seq<Hash>) -> Seq<Seq<u8>> {
    s.map_values(|h: Hash| h@)
}

/// Every digest of a level holds exactly 32 bytes.
pub open spec fn digests_wf(level: Seq<Seq<u8>>) -> bool {
    forall|j: int| 0 <= j < level.len() ==> (#[trigger] level[j]).len() == 32
}

/// The digest of a branch node over its two children.
pub open spec fn node_hash(left: Seq<u8>, right: Seq<u8>) -> Seq<u8> {
    sha256_of(left + right)
}

/// The level above `level`: adjacent digests paired left to right, the last
/// digest combined with itself when `level` has odd length.
pub open spec fn next_level_s(level: Seq<Seq<u8>>) -> Seq<Seq<u8>> {
    Seq::new(
        (level.len() + 1) / 2,
        |i: int|
            node_hash(
                level[2 * i],
                if 2 * i + 1 < level.len() {
                    level[2 * i + 1]
                } else {
                    level[2 * i]
                },
            ),
    )
}

/// All levels of the tree over `level0`, from the leaf digests up to and
/// including the single-digest root level.
pub open spec fn levels_s(level0: Seq<Seq<u8>>) -> Seq<Seq<Seq<u8>>>
    decreases level0.len(),
{
    if level0.len() <= 1 {
        seq![level0]
    } else {
        seq![level0] + levels_s(next_level_s(level0))
    }
}

/// The root digest of the tree over `level0`.
pub open spec fn root_s(level0: Seq<Seq<u8>>) -> Seq<u8> {
    levels_s(level0).last()[0]
}

/// The authentication path for the leaf at `index`: one sibling digest per
/// level below the root, the digest itself standing in when the sibling
/// would fall beyond the level's end.
pub open spec fn path_s(level: Seq<Seq<u8>>, index: nat) -> Seq<Seq<u8>>
    decreases level.len(),
{
    if level.len() <= 1 {
        Seq::empty()
    } else {
        let sib = if index % 2 == 0 {
            if index + 1 < level.len() {
                level[index as int + 1]
            } else {
                level[index as int]
            }
        } else {
            level[index as int - 1]
        };
        seq![sib] + path_s(next_level_s(level), index / 2)
    }
}

/// Recompute the root from a claimed leaf digest and a path: at each step
/// the running digest is combined with the next path element, on the side
/// that the index's parity dictates, and the index is halved.
pub open spec fn fold_path(current: Seq<u8>, path: Seq<Seq<u8>>, index: nat) -> Seq<u8>
    decreases path.len(),
{
    if path.len() == 0 {
        current
    } else {
        let parent = if index % 2 == 0 {
            node_hash(current, path[0])
        } else {
            node_hash(path[0], current)
        };
        fold_path(parent, path.drop_first(), index / 2)
    }
}

/// A Merkle tree: the ordered sequence of its levels, leaf digests first,
/// the root level last.
pub struct MerkleTree {
    levels: Vec<Vec<Hash>>,
}

impl View for MerkleTree {
    type V = Seq<Seq<Seq<u8>>>;

    closed spec fn view(&self) -> Seq<Seq<Seq<u8>>> {
        self.levels@.map_values(|lvl: Vec<Hash>| digests(lvl@))
    }
}

impl MerkleTree {
    /// A tree is well formed when its levels are exactly the levels built
    /// from its own leaf level.
    pub open spec fn wf(&self) -> bool {
        &&& self@.len() > 0
        &&& self@[0].len() > 0
        &&& self@ == levels_s(self@[0])
        &&& forall|k: int| 0 <= k < self@.len() ==> digests_wf(#[trigger] self@[k])
    }

    /// The number of leaves the tree was built from.
    pub open spec fn leaf_count(&self) -> nat {
        self@[0].len()
    }

    /// The number of levels, the leaf level and the root level included.
    pub fn num_levels(&self) -> (n: usize)
        ensures
            n == self@.len(),
    {
        self.levels.len()
    }

    /// The number of digests on one level.
    pub fn level_size(&self, level: usize) -> (n: usize)
        requires
            level < self@.len(),
        ensures
            n == self@[level as int].len(),
    {
        self.levels[level].len()
    }

    /// The digest at one position of one level.
    pub fn node_at(&self, level: usize, index: usize) -> (h: &Hash)
        requires
            level < self@.len(),
            index < self@[level as int].len(),
        ensures
            h@ == self@[level as int][index as int],
    {
        &self.levels[level][index]
    }
}

/// The digest of a branch over two child digests: the hash of their
/// concatenation.
fn compute_hash_of_branch(left: &Hash, right: &Hash) -> (h: Hash)
    ensures
        h@ == node_hash(left@, right@),
        h.wf(),
{
    let mut combined: Vec<u8> = Vec::new();
    let mut i: usize = 0;
    while i < left.bytes.len()
        invariant
            i <= left.bytes@.len(),
            combined@ == left.bytes@.take(i as int),
        decreases left.bytes@.len() - i,
    {
        combined.push(left.bytes[i]);
        proof {
            assert(left.bytes@.take(i + 1) =~= left.bytes@.take(i as int).push(left.bytes@[i as int]));
        }
        i = i + 1;
    }
    proof {
        assert(left.bytes@.take(left.bytes@.len() as int) =~= left.bytes@);
    }
    let mut j: usize = 0;
    while j < right.bytes.len()
        invariant
            j <= right.bytes@.len(),
            combined@ == left.bytes@ + right.bytes@.take(j as int),
        decreases right.bytes@.len() - j,
    {
        combined.push(right.bytes[j]);
        proof {
            assert(left.bytes@ + right.bytes@.take(j + 1) =~= (left.bytes@
                + right.bytes@.take(j as int)).push(right.bytes@[j as int]));
        }
        j = j + 1;
    }
    proof {
        assert(left.bytes@ + right.bytes@.take(right.bytes@.len() as int) =~= left.bytes@
            + right.bytes@);
    }
    Hash::compute_hash(combined.as_slice())
}

/// Structural facts about the level sequence of a tree: the first level is
/// the leaf level, every level is nonempty, every level but the last has
/// more than one digest and is followed by the level built over it, and the
/// last level holds the single root digest.
proof fn lemma_levels_s_props(level0: Seq<Seq<u8>>)
    requires
        level0.len() > 0,
    ensures
        levels_s(level0).len() >= 1,
        levels_s(level0)[0] == level0,
        levels_s(level0).last().len() == 1,
        forall|k: int|
            0 <= k < levels_s(level0).len() ==> (#[trigger] levels_s(level0)[k]).len() >= 1,
        forall|k: int|
            0 <= k < levels_s(level0).len() - 1 ==> (#[trigger] levels_s(level0)[k]).len() > 1,
        forall|k: int|
            0 <= k < levels_s(level0).len() - 1 ==> levels_s(level0)[k + 1] == next_level_s(
                #[trigger] levels_s(level0)[k],
            ),
    decreases level0.len(),
{
    if level0.len() <= 1 {
    } else {
        let next = next_level_s(level0);
        assert(next.len() == (level0.len() + 1) / 2);
        lemma_levels_s_props(next);
        let full = levels_s(level0);
        let rest = levels_s(next);
        assert(full == seq![level0] + rest);
        assert(full.last() == rest.last());
        assert forall|k: int| 0 <= k < full.len() implies (#[trigger] full[k]).len() >= 1 by {
            if k == 0 {
            } else {
                assert(full[k] == rest[k - 1]);
            }
        }
        assert forall|k: int| 0 <= k < full.len() - 1 implies (#[trigger] full[k]).len() > 1 by {
            if k == 0 {
            } else {
                assert(full[k] == rest[k - 1]);
            }
        }
        assert forall|k: int| 0 <= k < full.len() - 1 implies full[k + 1] == next_level_s(
            #[trigger] full[k],
        ) by {
            if k == 0 {
                assert(full[1] == rest[0]);
                assert(rest[0] == next);
            } else {
                assert(full[k] == rest[k - 1]);
                assert(full[k + 1] == rest[k]);
            }
        }
    }
}

/// One parent level, computed in executable code.
fn combine_level(current: &Vec<Hash>) -> (next: Vec<Hash>)
    requires
        current@.len() >= 1,
    ensures
        digests(next@) == next_level_s(digests(current@)),
        digests_wf(digests(next@)),
{
    let ghost cur = digests(current@);
    let mut next: Vec<Hash> = Vec::new();
    let m: usize = current.len() / 2 + current.len() % 2;
    proof {
        assert(m == (cur.len() + 1) / 2);
    }
    let mut j: usize = 0;
    while j < m
        invariant
            cur == digests(current@),
            m == (cur.len() + 1) / 2,
            j <= m,
            digests(next@) == next_level_s(cur).take(j as int),
            next@.len() == j,
            forall|t: int| 0 <= t < next@.len() ==> (#[trigger] next@[t])@.len() == 32,
        decreases m - j,
    {
        let n = current.len();
        proof {
            assert(2 * j < n);
        }
        let left = &current[2 * j];
        let right = if 2 * j + 1 < current.len() {
            &current[2 * j + 1]
        } else {
            &current[2 * j]
        };
        let h = compute_hash_of_branch(left, right);
        let ghost old_next = next@;
        next.push(h);
        proof {
            assert(digests(next@) =~= digests(old_next).push(h@));
            assert(next_level_s(cur)[j as int] == h@);
            assert(next_level_s(cur).take(j as int + 1) =~= next_level_s(cur).take(j as int).push(
                next_level_s(cur)[j as int],
            ));
        }
        j = j + 1;
    }
    proof {
        assert(next_level_s(cur).take(next_level_s(cur).len() as int) =~= next_level_s(cur));
        assert forall|j: int| 0 <= j < digests(next@).len() implies (#[trigger] digests(
            next@,
        )[j]).len() == 32 by {
            assert(digests(next@)[j] == next@[j]@);
        }
    }
    next
}

/// Build the Merkle tree over a nonempty sequence of leaf digests and
/// return it together with its root.  Zero leaves are rejected.  The result
/// is exactly the level table that the specification `levels_s` assigns to
/// the leaf digests, so the root is a function of the leaf sequence alone.
pub fn build_merkle_tree(leaves: &Vec<Hash>) -> (r: Result<(MerkleTree, Hash), MerkleError>)
    requires
        forall|i: int| 0 <= i < leaves@.len() ==> (#[trigger] leaves@[i]).wf(),
    ensures
        match r {
            Ok(p) => {
                &&& leaves@.len() > 0
                &&& p.0@ == levels_s(digests(leaves@))
                &&& p.0.wf()
                &&& p.0.leaf_count() == leaves@.len()
                &&& p.1@ == root_s(digests(leaves@))
                &&& p.1.wf()
            },
            Err(e) => e == MerkleError::EmptyInput && leaves@.len() == 0,
        },
{
    if leaves.len() == 0 {
        return Err(MerkleError::EmptyInput);
    }
    let ghost level0 = digests(leaves@);
    let ghost full = levels_s(level0);
    proof {
        lemma_levels_s_props(level0);
    }
    let mut current: Vec<Hash> = leaves.clone();
    proof {
        assert forall|k: int| 0 <= k < current@.len() implies (#[trigger] current@[k])@
            == leaves@[k]@ by {}
        assert(digests(current@) =~= level0);
        assert forall|j: int| 0 <= j < level0.len() implies (#[trigger] level0[j]).len()
            == 32 by {
            assert(level0[j] == leaves@[j]@);
        }
        assert(full[0] == level0);
    }
    let mut levels: Vec<Vec<Hash>> = Vec::new();
    while current.len() > 1
        invariant
            full == levels_s(level0),
            level0.len() > 0,
            levels@.len() < full.len(),
            digests(current@) == full[levels@.len() as int],
            levels@.map_values(|lvl: Vec<Hash>| digests(lvl@)) == full.take(levels@.len() as int),
            forall|k: int| 0 <= k <= levels@.len() ==> digests_wf(#[trigger] full[k]),
        decreases full.len() - levels@.len(),
    {
        proof {
            lemma_levels_s_props(level0);
            if levels@.len() == full.len() - 1 {
                assert(full.last().len() == 1);
            }
        }
        let next = combine_level(&current);
        let ghost old_levels = levels@;
        levels.push(current);
        current = next;
        proof {
            assert(levels@.map_values(|lvl: Vec<Hash>| digests(lvl@)) =~= old_levels.map_values(
                |lvl: Vec<Hash>| digests(lvl@),
            ).push(full[old_levels.len() as int]));
            assert(full.take(old_levels.len() as int + 1) =~= full.take(old_levels.len() as int).push(
                full[old_levels.len() as int],
            ));
            assert(digests(current@) == full[old_levels.len() as int + 1]);
            assert forall|k: int| 0 <= k <= levels@.len() implies digests_wf(
                #[trigger] full[k],
            ) by {
                if k == levels@.len() {
                    assert(full[k] == digests(current@));
                }
            }
        }
    }
    proof {
        lemma_levels_s_props(level0);
        assert(digests(current@).len() == current@.len());
        assert(levels@.len() == full.len() - 1);
    }
    let root = current[0].clone();
    levels.push(current);
    let tree = MerkleTree { levels };
    proof {
        assert(tree@ =~= full.take(full.len() - 1).push(full.last()));
        assert(full.take(full.len() - 1).push(full.last()) =~= full);
        assert(root@ == full.last()[0]);
    }
    Ok((tree, root))
}

/// Halving an in-range index keeps it in range on the next level up.
proof fn lemma_half_index_in_range(n: nat, i: nat)
    requires
        i < n,
    ensures
        i / 2 < (n + 1) / 2,
{
}

/// Derive the authentication path for the leaf at `index`: one sibling
/// digest per level below the root, read off the tree's level table, the
/// node itself standing in when its sibling would fall beyond the level's
/// end.  An index at or beyond the leaf count is rejected.
#[verifier::rlimit(50)]
pub fn compute_merkle_proof(tree: &MerkleTree, index: usize) -> (r: Result<Vec<Hash>, MerkleError>)
    requires
        tree.wf(),
    ensures
        match r {
            Ok(path) => {
                &&& index < tree.leaf_count()
                &&& digests(path@) == path_s(tree@[0], index as nat)
                &&& forall|j: int| 0 <= j < path@.len() ==> (#[trigger] path@[j]).wf()
            },
            Err(e) => e == MerkleError::IndexOutOfRange && index >= tree.leaf_count(),
        },
{
    proof {
        lemma_levels_s_props(tree@[0]);
        assert(tree@[0].len() == tree.levels@[0]@.len());
    }
    if index >= tree.level_size(0) {
        return Err(MerkleError::IndexOutOfRange);
    }
    let ghost full = tree@;
    let mut path: Vec<Hash> = Vec::new();
    let mut node_index: usize = index;
    let mut level: usize = 0;
    let depth = tree.levels.len();
    while level < depth - 1
        invariant
            tree.wf(),
            full == tree@,
            depth == full.len(),
            level < full.len(),
            node_index < full[level as int].len(),
            path_s(full[0], index as nat) == digests(path@) + path_s(
                full[level as int],
                node_index as nat,
            ),
            forall|j: int| 0 <= j < path@.len() ==> (#[trigger] path@[j]).wf(),
        decreases full.len() - level,
    {
        proof {
            lemma_levels_s_props(full[0]);
            assert(full[level as int].len() > 1);
            assert(full[level as int + 1] == next_level_s(full[level as int]));
        }
        let level_nodes = &tree.levels[level];
        let sibling_index = if node_index % 2 == 0 {
            if node_index + 1 < level_nodes.len() {
                node_index + 1
            } else {
                node_index
            }
        } else {
            node_index - 1
        };
        proof {
            assert(full[level as int] == digests(level_nodes@));
            assert(sibling_index < level_nodes@.len());
        }
        let ghost old_path = path@;
        path.push(level_nodes[sibling_index].clone());
        proof {
            let lvl = full[level as int];
            let ni = node_index as nat;
            let sib = if ni % 2 == 0 {
                if ni + 1 < lvl.len() {
                    lvl[ni as int + 1]
                } else {
                    lvl[ni as int]
                }
            } else {
                lvl[ni as int - 1]
            };
            assert(path_s(lvl, ni) == seq![sib] + path_s(next_level_s(lvl), ni / 2));
            assert(sib == lvl[sibling_index as int]);
            assert(digests(path@) =~= digests(old_path).push(sib));
            assert(digests_wf(lvl));
            assert(path@.last()@ == lvl[sibling_index as int]);
            assert(digests(old_path).push(sib) + path_s(next_level_s(lvl), ni / 2)
                =~= digests(old_path) + (seq![sib] + path_s(next_level_s(lvl), ni / 2)));
            lemma_half_index_in_range(lvl.len(), ni);
        }
        node_index = node_index / 2;
        level = level + 1;
    }
    proof {
        lemma_levels_s_props(full[0]);
        assert(full[level as int].len() == 1);
        assert(path_s(full[level as int], node_index as nat) == Seq::<Seq<u8>>::empty());
        assert(digests(path@) + Seq::<Seq<u8>>::empty() =~= digests(path@));
    }
    Ok(path)
}

/// Recompute the root from a claimed leaf digest and an authentication
/// path, and compare it with the claimed root.  A mismatch yields `false`,
/// never an error.
pub fn verify_path(leaf: &Hash, path: &Vec<Hash>, index: usize, root: &Hash) -> (ok: bool)
    ensures
        ok == (fold_path(leaf@, digests(path@), index as nat) == root@),
{
    let mut current: Hash = leaf.clone();
    let mut idx: usize = index;
    let mut k: usize = 0;
    proof {
        assert(digests(path@).skip(0) =~= digests(path@));
    }
    while k < path.len()
        invariant
            k <= path@.len(),
            fold_path(leaf@, digests(path@), index as nat) == fold_path(
                current@,
                digests(path@).skip(k as int),
                idx as nat,
            ),
        decreases path@.len() - k,
    {
        let sib = &path[k];
        let ghost pre = current@;
        current = if idx % 2 == 0 {
            compute_hash_of_branch(&current, sib)
        } else {
            compute_hash_of_branch(sib, &current)
        };
        proof {
            let rest = digests(path@).skip(k as int);
            assert(rest[0] == sib@);
            assert(rest.drop_first() =~= digests(path@).skip(k as int + 1));
            assert(fold_path(pre, rest, idx as nat) == fold_path(
                current@,
                rest.drop_first(),
                (idx as nat) / 2,
            ));
        }
        idx = idx / 2;
        k = k + 1;
    }
    proof {
        assert(digests(path@).skip(path@.len() as int) =~= Seq::<Seq<u8>>::empty());
    }
    current.equals(root)
}

/// Soundness of authentication paths against the tree they were read from:
/// for every valid leaf index of a nonempty leaf level, folding the leaf
/// digest through its authentication path reproduces the tree's root.
pub proof fn lemma_path_verifies(level0: Seq<Seq<u8>>, i: nat)
    requires
        0 < level0.len(),
        i < level0.len(),
    ensures
        fold_path(level0[i as int], path_s(level0, i), i) == root_s(level0),
    decreases level0.len(),
{
    if level0.len() == 1 {
        assert(path_s(level0, i) == Seq::<Seq<u8>>::empty());
        assert(levels_s(level0) == seq![level0]);
    } else {
        let next = next_level_s(level0);
        let sib = if i % 2 == 0 {
            if i + 1 < level0.len() {
                level0[i as int + 1]
            } else {
                level0[i as int]
            }
        } else {
            level0[i as int - 1]
        };
        let parent = if i % 2 == 0 {
            node_hash(level0[i as int], sib)
        } else {
            node_hash(sib, level0[i as int])
        };
        assert(path_s(level0, i) == seq![sib] + path_s(next, i / 2));
        assert((seq![sib] + path_s(next, i / 2))[0] == sib);
        assert((seq![sib] + path_s(next, i / 2)).drop_first() =~= path_s(next, i / 2));
        assert(fold_path(level0[i as int], path_s(level0, i), i) == fold_path(
            parent,
            path_s(next, i / 2),
            i / 2,
        ));
        vstd::arithmetic::div_mod::lemma_fundamental_div_mod(i as int, 2);
        if i % 2 == 0 {
            assert(2 * (i / 2) == i);
        } else {
            assert(2 * (i / 2) == i - 1);
        }
        assert(next[(i / 2) as int] == parent);
        lemma_half_index_in_range(level0.len(), i);
        lemma_path_verifies(next, i / 2);
        assert(levels_s(level0) == seq![level0] + levels_s(next));
        assert(levels_s(level0).last() == levels_s(next).last());
        assert(root_s(level0) == root_s(next));
    }
}

/// The root is a function of the leaf digests alone: building twice from
/// the same leaf sequence yields the same level table and the same root.
pub proof fn lemma_root_deterministic(a: Seq<Seq<u8>>, b: Seq<Seq<u8>>)
    requires
        a == b,
    ensures
        levels_s(a) == levels_s(b),
        root_s(a) == root_s(b),
{
}

/// A level of odd length duplicates its last digest: the last digest of the
/// level above it is the hash of the last digest combined with itself.
pub proof fn lemma_odd_level_duplicates_last(level: Seq<Seq<u8>>)
    requires
        level.len() % 2 == 1,
    ensures
        next_level_s(level).len() == (level.len() + 1) / 2,
        next_level_s(level).last() == node_hash(level.last(), level.last()),
{
    let n = level.len();
    let m = (n + 1) / 2;
    vstd::arithmetic::div_mod::lemma_fundamental_div_mod(n as int, 2);
    assert(2 * (m - 1) == n - 1);
    assert(next_level_s(level)[m - 1] == node_hash(level[n - 1], level[n - 1]));
}

} // verus!
