//! Chunk digests and the binary Merkle root over an ordered sequence of them.

use sha2::Digest;
use vstd::prelude::*;

verus! {

/// The SHA-256 output for `data`, as the `sha2` crate computes it.
pub uninterp spec fn sha256(data: Seq<u8>) -> Seq<u8>;

/// `bytes` cut or zero-padded to exactly 32 bytes.
pub open spec fn fit32(bytes: Seq<u8>) -> Seq<u8> {
    Seq::new(
        32,
        |i: int|
            if i < bytes.len() {
                bytes[i]
            } else {
                0u8
            },
    )
}

/// The 32-byte digest of `data`.
pub open spec fn digest(data: Seq<u8>) -> Seq<u8> {
    fit32(sha256(data))
}

/// The all-zero digest that stands for "no data committed".
pub open spec fn zero_hash() -> Seq<u8> {
    Seq::new(32, |i: int| 0u8)
}

/// Calls `sha2::Sha256::digest` (the `Digest` trait's one-shot function) and
/// copies its output into a vector. Trusted: the result is the SHA-256 of
/// `data`, named `sha256(data@)`, and it is 32 bytes long, as the output type
/// of `Sha256` fixes.
#[verifier::external_body]
fn sha256_raw(data: &[u8]) -> (out: Vec<u8>)
    ensures
        out@ == sha256(data@),
        out@.len() == 32,
{
    sha2::Sha256::digest(data).to_vec()
}

/// Digest of `data`.
pub fn sha256_bytes(data: &[u8]) -> (out: Vec<u8>)
    ensures
        out@ == digest(data@),
{
    let out = sha256_raw(data);
    assert(out@ =~= fit32(out@));
    out
}

/// Copies `v` into a 32-byte array, dropping what lies beyond 32 bytes and
/// filling what is missing with zeros.
pub fn to_arr(v: Vec<u8>) -> (a: [u8; 32])
    ensures
        a@ == fit32(v@),
{
    let mut a = [0u8;32];
    let n: usize = if v.len() < 32 {
        v.len()
    } else {
        32
    };
    let mut i: usize = 0;
    while i < n
        invariant
            i <= n <= 32,
            n <= v.len(),
            forall|j: int| 0 <= j < i ==> a@[j] == v@[j],
            forall|j: int| i <= j < 32 ==> a@[j] == 0u8,
        decreases n - i,
    {
        a[i] = v[i];
        i += 1;
    }
    assert(a@ =~= fit32(v@));
    a
}

/// The hash above a pair of nodes: the digest of the left node's bytes
/// followed by the right node's.
pub open spec fn parent(left: Seq<u8>, right: Seq<u8>) -> Seq<u8> {
    digest(left + right)
}

/// The node that pairs with node `2 * i` of `level`: its right neighbour, or
/// the node itself where the level ends on an odd node.
pub open spec fn partner(level: Seq<Seq<u8>>, i: int) -> Seq<u8> {
    if 2 * i + 1 < level.len() {
        level[2 * i + 1]
    } else {
        level[2 * i]
    }
}

/// The level above `level`: one parent for each pair, left to right.
pub open spec fn next_level(level: Seq<Seq<u8>>) -> Seq<Seq<u8>> {
    Seq::new(((level.len() + 1) / 2) as nat, |i: int| parent(level[2 * i], partner(level, i)))
}

/// The Merkle root over `leaves` in the order given: the zero hash for no
/// leaf, the leaf itself for one, and otherwise the root of the level above.
pub open spec fn merkle_root_of(leaves: Seq<Seq<u8>>) -> Seq<u8>
    decreases leaves.len(),
{
    if leaves.len() == 0 {
        zero_hash()
    } else if leaves.len() == 1 {
        leaves[0]
    } else {
        merkle_root_of(next_level(leaves))
    }
}

/// The leaves of a vector of digests, each as its bytes.
pub open spec fn leaves_of(hashes: Seq<[u8; 32]>) -> Seq<Seq<u8>> {
    Seq::new(hashes.len(), |i: int| hashes[i]@)
}

/// `left` followed by `right`.
fn join(left: &[u8; 32], right: &[u8; 32]) -> (out: Vec<u8>)
    ensures
        out@ == left@ + right@,
{
    let mut out: Vec<u8> = Vec::new();
    let mut i: usize = 0;
    while i < 32
        invariant
            i <= 32,
            out@ == left@.take(i as int),
        decreases 32 - i,
    {
        out.push(left[i]);
        assert(left@.take(i + 1) =~= left@.take(i as int).push(left@[i as int]));
        i += 1;
    }
    assert(left@.take(32) =~= left@);
    let mut k: usize = 0;
    while k < 32
        invariant
            k <= 32,
            out@ == left@ + right@.take(k as int),
        decreases 32 - k,
    {
        out.push(right[k]);
        assert(left@ + right@.take(k + 1) =~= (left@ + right@.take(k as int)).push(
            right@[k as int],
        ));
        k += 1;
    }
    assert(right@.take(32) =~= right@);
    out
}

/// The level above `level`.
fn level_up(level: &Vec<[u8; 32]>) -> (next: Vec<[u8; 32]>)
    ensures
        leaves_of(next@) == next_level(leaves_of(level@)),
        next.len() == (level.len() + 1) / 2,
{
    let n: usize = level.len();
    let pairs: usize = n / 2 + n % 2;
    let mut next: Vec<[u8; 32]> = Vec::new();
    let mut p: usize = 0;
    while p < pairs
        invariant
            n == level.len(),
            pairs == (n + 1) / 2,
            p <= pairs,
            next.len() == p,
            forall|j: int|
                0 <= j < p ==> (#[trigger] next@[j])@ == next_level(leaves_of(level@))[j],
        decreases pairs - p,
    {
        let left: [u8; 32] = level[2 * p];
        let right: [u8; 32] = if 2 * p + 1 < n {
            level[2 * p + 1]
        } else {
            level[2 * p]
        };
        let block = join(&left, &right);
        let node = to_arr(sha256_bytes(block.as_slice()));
        proof {
            let lv = leaves_of(level@);
            assert(lv[2 * p] == left@);
            assert(partner(lv, p as int) == right@);
            assert(fit32(digest(block@)) =~= digest(block@));
        }
        next.push(node);
        p += 1;
    }
    assert(leaves_of(next@) =~= next_level(leaves_of(level@)));
    next
}

/// The Merkle root over `leaves`, taken in the order given.
pub fn merkle_root(leaves: Vec<[u8; 32]>) -> (root: [u8; 32])
    ensures
        root@ == merkle_root_of(leaves_of(leaves@)),
{
    if leaves.len() == 0 {
        let zero = [0u8;32];
        assert(zero@ =~= zero_hash());
        return zero;
    }
    let ghost given = leaves_of(leaves@);
    let mut level = leaves;
    while level.len() > 1
        invariant
            level.len() >= 1,
            merkle_root_of(leaves_of(level@)) == merkle_root_of(given),
        decreases level.len(),
    {
        level = level_up(&level);
    }
    level[0]
}

/// Whether every node of `level` is 32 bytes long.
pub open spec fn all_hashes(level: Seq<Seq<u8>>) -> bool {
    forall|i: int| 0 <= i < level.len() ==> (#[trigger] level[i]).len() == 32
}

/// The leaves of a vector of digests are 32 bytes long each.
pub proof fn lemma_leaves_are_hashes(hashes: Seq<[u8; 32]>)
    ensures
        all_hashes(leaves_of(hashes)),
{
}

/// The bytes hashed for pair `i` of `level`.
pub open spec fn block(level: Seq<Seq<u8>>, i: int) -> Seq<u8> {
    level[2 * i] + partner(level, i)
}

/// The blocks hashed to get from `level` to the level above it.
pub open spec fn level_blocks(level: Seq<Seq<u8>>) -> Set<Seq<u8>> {
    Set::new(
        |b: Seq<u8>| exists|i: int| 0 <= i < (level.len() + 1) / 2 && b == #[trigger] block(level, i),
    )
}

/// Every block hashed on the way from `leaves` to their root.
pub open spec fn hashed_blocks(leaves: Seq<Seq<u8>>) -> Set<Seq<u8>>
    decreases leaves.len(),
{
    if leaves.len() <= 1 {
        Set::empty()
    } else {
        level_blocks(leaves).union(hashed_blocks(next_level(leaves)))
    }
}

/// Whether no two different blocks of `blocks` have the same digest.
pub open spec fn collision_free(blocks: Set<Seq<u8>>) -> bool {
    forall|x: Seq<u8>, y: Seq<u8>|
        blocks.contains(x) && blocks.contains(y) && #[trigger] digest(x) == #[trigger] digest(y)
            ==> x == y
}

/// The root depends on nothing but the ordered leaves: equal sequences of
/// leaves have equal roots.
pub proof fn lemma_merkle_root_deterministic(a: Seq<Seq<u8>>, b: Seq<Seq<u8>>)
    requires
        a =~= b,
    ensures
        merkle_root_of(a) == merkle_root_of(b),
{
}

/// A single leaf is its own root.
pub proof fn lemma_merkle_root_single(leaf: Seq<u8>)
    ensures
        merkle_root_of(seq![leaf]) == leaf,
{
}

/// The root of two leaves is the digest of the first followed by the second.
pub proof fn lemma_merkle_root_pair(left: Seq<u8>, right: Seq<u8>)
    ensures
        merkle_root_of(seq![left, right]) == digest(left + right),
{
    let leaves = seq![left, right];
    let up = next_level(leaves);
    assert(up.len() == 1);
    assert(up[0] == parent(leaves[0], partner(leaves, 0)));
    assert(merkle_root_of(up) == up[0]);
}

/// The root over 32-byte leaves is 32 bytes long.
pub proof fn lemma_merkle_root_len(leaves: Seq<Seq<u8>>)
    requires
        all_hashes(leaves),
    ensures
        merkle_root_of(leaves).len() == 32,
    decreases leaves.len(),
{
    if leaves.len() >= 2 {
        assert(all_hashes(next_level(leaves)));
        lemma_merkle_root_len(next_level(leaves));
    }
}

/// Two sequences of as many 32-byte leaves with the same root are the same
/// sequence, as long as no two different blocks hashed for either of them
/// have the same digest.
pub proof fn lemma_merkle_root_injective(a: Seq<Seq<u8>>, b: Seq<Seq<u8>>)
    requires
        a.len() == b.len(),
        all_hashes(a),
        all_hashes(b),
        collision_free(hashed_blocks(a).union(hashed_blocks(b))),
        merkle_root_of(a) == merkle_root_of(b),
    ensures
        a == b,
    decreases a.len(),
{
    if a.len() <= 1 {
        assert(a =~= b);
    } else {
        let na = next_level(a);
        let nb = next_level(b);
        assert(all_hashes(na));
        assert(all_hashes(nb));
        assert(collision_free(hashed_blocks(na).union(hashed_blocks(nb))));
        lemma_merkle_root_injective(na, nb);
        assert forall|k: int| 0 <= k < a.len() implies a[k] == b[k] by {
            let i = k / 2;
            assert(na[i] == nb[i]);
            assert(level_blocks(a).contains(block(a, i)));
            assert(level_blocks(b).contains(block(b, i)));
            assert(digest(block(a, i)) == digest(block(b, i)));
            assert(block(a, i) == block(b, i));
            assert(a[2 * i] =~= block(a, i).subrange(0, 32));
            assert(b[2 * i] =~= block(b, i).subrange(0, 32));
            assert(partner(a, i) =~= block(a, i).subrange(32, 64));
            assert(partner(b, i) =~= block(b, i).subrange(32, 64));
        }
        assert(a =~= b);
    }
}

/// Order sensitivity: two different sequences of as many leaves (so also a
/// sequence and any reordering of it that moves a leaf to a place where
/// another stood) have different roots, as long as no two different blocks
/// hashed for either of them have the same digest.
pub proof fn lemma_merkle_root_order_sensitive(a: Seq<Seq<u8>>, b: Seq<Seq<u8>>)
    requires
        a.len() == b.len(),
        a.len() >= 2,
        a != b,
        all_hashes(a),
        all_hashes(b),
        collision_free(hashed_blocks(a).union(hashed_blocks(b))),
    ensures
        merkle_root_of(a) != merkle_root_of(b),
{
    if merkle_root_of(a) == merkle_root_of(b) {
        lemma_merkle_root_injective(a, b);
    }
}

} // verus!
