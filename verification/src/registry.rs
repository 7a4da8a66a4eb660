//! The registry: the directory of who owns a file, who else may write it,
//! and which storage services hold a copy.

use crate::auth::contains_principal;
use crate::bytes::copy_bytes;
use crate::principal::Principal;
use crate::records::{
    clone_principals, clone_replicas, principal_views, replica_views, FileRecord, FileRecordView,
    Replica, ReplicaView,
};
use crate::vecmap::{Key, VecMap};
use vstd::prelude::*;

verus! {

/// The replicas `held` with those of `incoming` appended that are not yet
/// listed, in the order given.
pub open spec fn merged_replicas(held: Seq<ReplicaView>, incoming: Seq<ReplicaView>) -> Seq<
    ReplicaView,
>
    decreases incoming.len(),
{
    if incoming.len() == 0 {
        held
    } else {
        let before = merged_replicas(held, incoming.drop_last());
        if before.contains(incoming.last()) {
            before
        } else {
            before.push(incoming.last())
        }
    }
}

/// The record that the registry keeps once `incoming` was registered where
/// it held `held` for the file. A first registration is kept as it comes.
/// A later one leaves the owner and the allow-list as they are, appends the
/// replicas that are new, and takes the rest from the incoming record.
pub open spec fn registered(held: Option<FileRecordView>, incoming: FileRecordView) -> FileRecordView {
    match held {
        Some(h) => FileRecordView {
            owner: h.owner,
            allowed: h.allowed,
            replicas: merged_replicas(h.replicas, incoming.replicas),
            ..incoming
        },
        None => incoming,
    }
}

/// The record of `file_id` in `files`, if there is one.
pub open spec fn record_of(files: Map<Seq<char>, FileRecordView>, file_id: Seq<char>) -> Option<
    FileRecordView,
> {
    if files.contains_key(file_id) {
        Some(files[file_id])
    } else {
        None
    }
}

/// Whether every file recorded in `before` is recorded in `after` with the
/// same owner.
pub open spec fn owners_kept(
    before: Map<Seq<char>, FileRecordView>,
    after: Map<Seq<char>, FileRecordView>,
) -> bool {
    forall|id: Seq<char>| #[trigger]
        before.contains_key(id) ==> after.contains_key(id) && after[id].owner == before[id].owner
}

/// Whether `replica` is in `list`.
fn contains_replica(list: &Vec<Replica>, replica: &Replica) -> (found: bool)
    ensures
        found == replica_views(list@).contains(replica@),
{
    let mut i: usize = 0;
    while i < list.len()
        invariant
            i <= list.len(),
            forall|j: int| 0 <= j < i ==> replica_views(list@)[j] != replica@,
        decreases list.len() - i,
    {
        if list[i].canister.same(&replica.canister) && list[i].region == replica.region {
            assert(replica_views(list@)[i as int] == replica@);
            return true;
        }
        i += 1;
    }
    false
}

/// `held` with the replicas of `incoming` appended that it does not list.
fn merge_replicas(held: &Vec<Replica>, incoming: &Vec<Replica>) -> (out: Vec<Replica>)
    ensures
        replica_views(out@) == merged_replicas(replica_views(held@), replica_views(incoming@)),
{
    let mut out = clone_replicas(held);
    let mut i: usize = 0;
    assert(replica_views(incoming@).take(0) =~= Seq::<ReplicaView>::empty());
    while i < incoming.len()
        invariant
            i <= incoming.len(),
            replica_views(out@) == merged_replicas(
                replica_views(held@),
                replica_views(incoming@).take(i as int),
            ),
        decreases incoming.len() - i,
    {
        let ghost before = replica_views(out@);
        let ghost upto = replica_views(incoming@).take(i + 1);
        assert(upto.drop_last() =~= replica_views(incoming@).take(i as int));
        assert(upto.last() == incoming@[i as int]@);
        if !contains_replica(&out, &incoming[i]) {
            out.push(incoming[i].clone());
            assert(replica_views(out@) =~= before.push(incoming@[i as int]@));
        }
        i += 1;
    }
    assert(replica_views(incoming@).take(incoming@.len() as int) =~= replica_views(incoming@));
    out
}

/// The test that an identity is another than `p`.
pub open spec fn other_than(p: Seq<u8>) -> spec_fn(Seq<u8>) -> bool {
    |x: Seq<u8>| x != p
}

/// The identities of `list` other than `p`, in the order given.
fn without_principal(list: &Vec<Principal>, p: &Principal) -> (out: Vec<Principal>)
    ensures
        principal_views(out@) == principal_views(list@).filter(other_than(p@)),
{
    let ghost keep = other_than(p@);
    let mut out: Vec<Principal> = Vec::new();
    let mut i: usize = 0;
    proof {
        reveal(Seq::filter);
        assert(principal_views(list@).take(0) =~= Seq::<Seq<u8>>::empty());
        assert(principal_views(out@) =~= Seq::<Seq<u8>>::empty());
        assert(Seq::<Seq<u8>>::empty().filter(keep) =~= Seq::<Seq<u8>>::empty());
    }
    while i < list.len()
        invariant
            i <= list.len(),
            keep == other_than(p@),
            principal_views(out@) == principal_views(list@).take(i as int).filter(keep),
        decreases list.len() - i,
    {
        let ghost before = principal_views(out@);
        proof {
            let upto = principal_views(list@).take(i as int);
            assert(principal_views(list@).take(i + 1) =~= upto.push(list@[i as int]@));
            upto.lemma_filter_push(list@[i as int]@, keep);
        }
        if !list[i].same(p) {
            out.push(list[i].clone());
            assert(principal_views(out@) =~= before.push(list@[i as int]@));
        }
        i += 1;
    }
    assert(principal_views(list@).take(list@.len() as int) =~= principal_views(list@));
    out
}

/// The registry's state.
pub struct Registry {
    files: VecMap<String, FileRecord>,
}

impl View for Registry {
    type V = Map<Seq<char>, FileRecordView>;

    /// The records, by file.
    closed spec fn view(&self) -> Map<Seq<char>, FileRecordView> {
        self.files@.map_values(|r: FileRecord| r@)
    }
}

impl Registry {
    /// A registry without records.
    pub fn new() -> (r: Registry)
        ensures
            r@ == (Map::<Seq<char>, FileRecordView>::empty()),
    {
        let r = Registry { files: VecMap::new() };
        assert(r@ =~= Map::<Seq<char>, FileRecordView>::empty());
        r
    }

    /// `ok`.
    pub fn health(&self) -> (s: String)
        ensures
            s@ == "ok"@,
    {
        "ok".to_owned()
    }

    /// Registers `record`. The first record of a file is kept as it comes,
    /// and so names the owner. A later one cannot change the owner or the
    /// allow-list: it adds its replicas to those listed and replaces the
    /// rest.
    pub fn register_file(&mut self, record: FileRecord)
        ensures
            final(self)@ == old(self)@.insert(
                record@.file_id,
                registered(record_of(old(self)@, record@.file_id), record@),
            ),
            owners_kept(old(self)@, final(self)@),
    {
        let kept = match self.files.get(&record.file_id) {
            Some(held) => FileRecord {
                file_id: record.file_id.clone(),
                owner: held.owner.clone(),
                replicas: merge_replicas(&held.replicas, &record.replicas),
                merkle_root: copy_bytes(record.merkle_root.as_slice()),
                allowed: clone_principals(&held.allowed),
                created_ns: record.created_ns,
            },
            None => record.clone(),
        };
        self.files.insert(record.file_id, kept);
        assert(self@ =~= old(self)@.insert(
            record@.file_id,
            registered(record_of(old(self)@, record@.file_id), record@),
        ));
    }

    /// The record of `file_id`, if there is one.
    pub fn get_file(&self, file_id: &str) -> (r: Option<FileRecord>)
        ensures
            match r {
                Some(record) => record_of(self@, file_id@) == Some(record@),
                None => record_of(self@, file_id@).is_none(),
            },
    {
        let key = file_id.to_owned();
        match self.files.get(&key) {
            Some(record) => Some(record.clone()),
            None => None,
        }
    }

    /// Puts `p` on the allow-list of `file_id` for `caller`. Nothing
    /// changes unless the file is recorded, `caller` is its owner, and `p`
    /// is not yet listed.
    pub fn add_allowed(&mut self, caller: &Principal, file_id: &str, p: Principal)
        ensures
            final(self)@ == (if old(self)@.contains_key(file_id@) && caller@ == old(
                self,
            )@[file_id@].owner && !old(self)@[file_id@].allowed.contains(p@) {
                old(self)@.insert(
                    file_id@,
                    FileRecordView {
                        allowed: old(self)@[file_id@].allowed.push(p@),
                        ..old(self)@[file_id@]
                    },
                )
            } else {
                old(self)@
            }),
            owners_kept(old(self)@, final(self)@),
    {
        let key = file_id.to_owned();
        let changed = match self.files.get(&key) {
            Some(held) => {
                if held.owner.same(caller) && !contains_principal(&held.allowed, &p) {
                    let mut allowed = clone_principals(&held.allowed);
                    let ghost before = principal_views(allowed@);
                    allowed.push(p);
                    assert(principal_views(allowed@) =~= before.push(p@));
                    Some(
                        FileRecord {
                            file_id: held.file_id.clone(),
                            owner: held.owner.clone(),
                            replicas: clone_replicas(&held.replicas),
                            merkle_root: copy_bytes(held.merkle_root.as_slice()),
                            allowed,
                            created_ns: held.created_ns,
                        },
                    )
                } else {
                    None
                }
            },
            None => None,
        };
        match changed {
            Some(record) => {
                self.files.insert(key, record);
                assert(self@ =~= old(self)@.insert(
                    file_id@,
                    FileRecordView {
                        allowed: old(self)@[file_id@].allowed.push(p@),
                        ..old(self)@[file_id@]
                    },
                ));
            },
            None => {},
        }
    }

    /// Takes `p` off the allow-list of `file_id` for `caller`. Nothing
    /// changes unless the file is recorded and `caller` is its owner.
    pub fn remove_allowed(&mut self, caller: &Principal, file_id: &str, p: &Principal)
        ensures
            final(self)@ == (if old(self)@.contains_key(file_id@) && caller@ == old(
                self,
            )@[file_id@].owner {
                old(self)@.insert(
                    file_id@,
                    FileRecordView {
                        allowed: old(self)@[file_id@].allowed.filter(other_than(p@)),
                        ..old(self)@[file_id@]
                    },
                )
            } else {
                old(self)@
            }),
            owners_kept(old(self)@, final(self)@),
    {
        let key = file_id.to_owned();
        let changed = match self.files.get(&key) {
            Some(held) => {
                if held.owner.same(caller) {
                    Some(
                        FileRecord {
                            file_id: held.file_id.clone(),
                            owner: held.owner.clone(),
                            replicas: clone_replicas(&held.replicas),
                            merkle_root: copy_bytes(held.merkle_root.as_slice()),
                            allowed: without_principal(&held.allowed, p),
                            created_ns: held.created_ns,
                        },
                    )
                } else {
                    None
                }
            },
            None => None,
        };
        match changed {
            Some(record) => {
                self.files.insert(key, record);
                assert(self@ =~= old(self)@.insert(
                    file_id@,
                    FileRecordView {
                        allowed: old(self)@[file_id@].allowed.filter(other_than(p@)),
                        ..old(self)@[file_id@]
                    },
                ));
            },
            None => {},
        }
    }
}

/// A file that is registered stays registered, with the owner it has: no
/// operation of the registry removes a record or changes its owner.
pub proof fn lemma_registered_stays(
    before: Map<Seq<char>, FileRecordView>,
    after: Map<Seq<char>, FileRecordView>,
    file_id: Seq<char>,
)
    requires
        owners_kept(before, after),
        before.contains_key(file_id),
    ensures
        after.contains_key(file_id),
        after[file_id].owner == before[file_id].owner,
{
}

/// Registering is idempotent: the record that the registry holds after a
/// registration is not changed by the same registration made again.
pub proof fn lemma_register_idempotent(held: Option<FileRecordView>, incoming: FileRecordView)
    ensures
        registered(Some(registered(held, incoming)), incoming) == registered(held, incoming),
{
    let once = registered(held, incoming);
    match held {
        Some(h) => {
            lemma_merge_holds(h.replicas, incoming.replicas);
        },
        None => {
            assert forall|i: int| 0 <= i < incoming.replicas.len() implies once.replicas.contains(
                #[trigger] incoming.replicas[i],
            ) by {
                assert(once.replicas[i] == incoming.replicas[i]);
            }
        },
    }
    lemma_merge_absorbs(once.replicas, incoming.replicas, incoming.replicas.len() as int);
    assert(incoming.replicas.take(incoming.replicas.len() as int) =~= incoming.replicas);
}

/// Merging in replicas that are all listed changes nothing.
proof fn lemma_merge_absorbs(held: Seq<ReplicaView>, incoming: Seq<ReplicaView>, upto: int)
    requires
        0 <= upto <= incoming.len(),
        forall|i: int| 0 <= i < incoming.len() ==> held.contains(#[trigger] incoming[i]),
    ensures
        merged_replicas(held, incoming.take(upto)) == held,
    decreases upto,
{
    if upto > 0 {
        lemma_merge_absorbs(held, incoming, upto - 1);
        assert(incoming.take(upto).drop_last() =~= incoming.take(upto - 1));
        assert(incoming.take(upto).last() == incoming[upto - 1]);
    }
}

/// What was merged in is listed afterwards, and so is what was held.
proof fn lemma_merge_holds(held: Seq<ReplicaView>, incoming: Seq<ReplicaView>)
    ensures
        forall|i: int|
            0 <= i < incoming.len() ==> merged_replicas(held, incoming).contains(
                #[trigger] incoming[i],
            ),
        forall|i: int|
            0 <= i < held.len() ==> merged_replicas(held, incoming).contains(#[trigger] held[i]),
    decreases incoming.len(),
{
    let merged = merged_replicas(held, incoming);
    if incoming.len() > 0 {
        let before = merged_replicas(held, incoming.drop_last());
        lemma_merge_holds(held, incoming.drop_last());
        assert forall|i: int| 0 <= i < before.len() implies merged.contains(
            #[trigger] before[i],
        ) by {
            assert(merged[i] == before[i]);
        }
        assert forall|i: int| 0 <= i < incoming.len() implies merged.contains(
            #[trigger] incoming[i],
        ) by {
            if i < incoming.len() - 1 {
                assert(incoming.drop_last()[i] == incoming[i]);
                let k = choose|k: int| 0 <= k < before.len() && before[k] == incoming[i];
                assert(merged.contains(before[k]));
            } else if before.contains(incoming.last()) {
            } else {
                assert(merged[before.len() as int] == incoming.last());
            }
        }
        assert forall|i: int| 0 <= i < held.len() implies merged.contains(#[trigger] held[i]) by {
            let k = choose|k: int| 0 <= k < before.len() && before[k] == held[i];
            assert(merged.contains(before[k]));
        }
    } else {
        assert forall|i: int| 0 <= i < held.len() implies merged.contains(#[trigger] held[i]) by {
            assert(merged[i] == held[i]);
        }
    }
}

} // verus!
