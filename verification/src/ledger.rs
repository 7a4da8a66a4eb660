//! The commitment ledger: a map from keys to hashes whose aggregate digest is
//! what the host certifies, and which hands out witnesses for single keys.

use crate::bytes::bytes_equal;
use ic_certified_map::AsHashTree;
use ic_certified_map::RbTree;
use vstd::prelude::*;

verus! {

#[verifier::external_type_specification]
#[verifier::external_body]
#[verifier::reject_recursive_types(K)]
#[verifier::reject_recursive_types(V)]
pub struct ExRbTree<K, V>(RbTree<K, V>);

#[verifier::external_type_specification]
#[verifier::external_body]
pub struct ExCborError(serde_cbor::Error);

/// The entries that a tree holds: for each key, its value.
pub uninterp spec fn tree_entries(tree: RbTree<Vec<u8>, Vec<u8>>) -> Map<Seq<u8>, Seq<u8>>;

/// The root hash of a tree.
pub uninterp spec fn tree_root(tree: RbTree<Vec<u8>, Vec<u8>>) -> Seq<u8>;

/// The serialised witness that a tree gives for a key, if it can be
/// serialised.
pub uninterp spec fn tree_witness(tree: RbTree<Vec<u8>, Vec<u8>>, key: Seq<u8>) -> Option<
    Seq<u8>,
>;

/// Calls `RbTree::new`. Trusted: the new tree holds no entry.
#[verifier::external_body]
fn tree_new() -> (tree: RbTree<Vec<u8>, Vec<u8>>)
    ensures
        tree_entries(tree) == (Map::<Seq<u8>, Seq<u8>>::empty()),
{
    RbTree::new()
}

/// Calls `RbTree::get`. Trusted: it returns the value stored under `key`,
/// and nothing where the tree has no entry for `key`.
#[verifier::external_body]
fn tree_get<'a>(tree: &'a RbTree<Vec<u8>, Vec<u8>>, key: &[u8]) -> (r: Option<&'a Vec<u8>>)
    ensures
        match r {
            Some(v) => tree_entries(*tree).contains_key(key@) && v@ == tree_entries(*tree)[key@],
            None => !tree_entries(*tree).contains_key(key@),
        },
{
    tree.get(key)
}

/// Calls `RbTree::insert`. Trusted: afterwards `key` has the value `value`,
/// and every other key what it had before.
#[verifier::external_body]
fn tree_insert(tree: &mut RbTree<Vec<u8>, Vec<u8>>, key: Vec<u8>, value: Vec<u8>)
    ensures
        tree_entries(*final(tree)) == tree_entries(*old(tree)).insert(key@, value@),
{
    tree.insert(key, value)
}

/// Calls `AsHashTree::root_hash` on the tree. Trusted: the result is a
/// function of the tree, named `tree_root`.
#[verifier::external_body]
fn tree_root_hash(tree: &RbTree<Vec<u8>, Vec<u8>>) -> (h: [u8; 32])
    ensures
        h@ == tree_root(*tree),
{
    tree.root_hash()
}

/// Calls `RbTree::witness` and hands the hash tree it returns to
/// `serde_cbor::to_vec`. Trusted: the outcome is a function of the tree and
/// the key, named `tree_witness`, which is `None` where serialising fails.
#[verifier::external_body]
fn tree_witness_cbor(tree: &RbTree<Vec<u8>, Vec<u8>>, key: &[u8]) -> (r: Result<
    Vec<u8>,
    serde_cbor::Error,
>)
    ensures
        match r {
            Ok(bytes) => tree_witness(*tree, key@) == Some(bytes@),
            Err(_) => tree_witness(*tree, key@).is_none(),
        },
{
    serde_cbor::to_vec(&tree.witness(key))
}

/// The commitment ledger.
pub struct Ledger {
    tree: RbTree<Vec<u8>, Vec<u8>>,
}

impl View for Ledger {
    type V = Map<Seq<u8>, Seq<u8>>;

    /// The committed entries.
    closed spec fn view(&self) -> Map<Seq<u8>, Seq<u8>> {
        tree_entries(self.tree)
    }
}

impl Ledger {
    /// The aggregate digest over everything committed.
    pub closed spec fn digest(&self) -> Seq<u8> {
        tree_root(self.tree)
    }

    /// The serialised witness for `key`, if there is one.
    pub closed spec fn witness_of(&self, key: Seq<u8>) -> Option<Seq<u8>> {
        tree_witness(self.tree, key)
    }

    /// A ledger with nothing committed.
    pub fn new() -> (ledger: Ledger)
        ensures
            ledger@ == (Map::<Seq<u8>, Seq<u8>>::empty()),
    {
        Ledger { tree: tree_new() }
    }

    /// The value committed under `key`, if any.
    pub fn get(&self, key: &[u8]) -> (r: Option<&Vec<u8>>)
        ensures
            match r {
                Some(v) => self@.contains_key(key@) && v@ == self@[key@],
                None => !self@.contains_key(key@),
            },
    {
        tree_get(&self.tree, key)
    }

    /// The aggregate digest.
    pub fn root_hash(&self) -> (h: [u8; 32])
        ensures
            h@ == self.digest(),
    {
        tree_root_hash(&self.tree)
    }

    /// Commits `value` under `key` and returns the aggregate digest over the
    /// ledger as it then stands. A ledger that already holds `value` under
    /// `key` is left as it is.
    pub fn commit(&mut self, key: Vec<u8>, value: Vec<u8>) -> (root: [u8; 32])
        ensures
            final(self)@ == old(self)@.insert(key@, value@),
            root@ == final(self).digest(),
            old(self)@.contains_pair(key@, value@) ==> *final(self) == *old(self),
    {
        let present = match tree_get(&self.tree, key.as_slice()) {
            Some(held) => bytes_equal(held.as_slice(), value.as_slice()),
            None => false,
        };
        if present {
            assert(self@ =~= self@.insert(key@, value@));
        } else {
            tree_insert(&mut self.tree, key, value);
        }
        tree_root_hash(&self.tree)
    }

    /// The serialised witness for `key`: a proof that `key` has the value
    /// committed under it, or that it has none. Empty where the witness
    /// cannot be serialised.
    pub fn witness(&self, key: &[u8]) -> (w: Vec<u8>)
        ensures
            w@ == match self.witness_of(key@) {
                Some(bytes) => bytes,
                None => Seq::<u8>::empty(),
            },
    {
        match tree_witness_cbor(&self.tree, key) {
            Ok(bytes) => bytes,
            Err(_) => Vec::new(),
        }
    }
}

} // verus!
