//! The records that the services keep and exchange.

use crate::bytes::copy_bytes;
use crate::principal::Principal;
use vstd::prelude::*;

verus! {

/// One stored chunk: its bytes and their digest.
#[derive(Debug, PartialEq, Eq)]
pub struct Chunk {
    pub data: Vec<u8>,
    pub sha256: Vec<u8>,
}

/// What a `Chunk` holds.
pub struct ChunkView {
    pub data: Seq<u8>,
    pub sha256: Seq<u8>,
}

impl View for Chunk {
    type V = ChunkView;

    open spec fn view(&self) -> ChunkView {
        ChunkView { data: self.data@, sha256: self.sha256@ }
    }
}

impl Clone for Chunk {
    fn clone(&self) -> (c: Self)
        ensures
            c@ == self@,
    {
        Chunk { data: copy_bytes(self.data.as_slice()), sha256: copy_bytes(self.sha256.as_slice()) }
    }
}

/// What is known of an upload: its shape as declared at the start and, once
/// finalized, its Merkle root.
#[derive(Debug, PartialEq, Eq)]
pub struct FileMeta {
    pub file_id: String,
    pub total_size: u64,
    pub chunk_size: u32,
    pub num_chunks: u32,
    pub merkle_root: Vec<u8>,
    pub created_ns: u64,
}

/// What a `FileMeta` holds.
pub struct FileMetaView {
    pub file_id: Seq<char>,
    pub total_size: u64,
    pub chunk_size: u32,
    pub num_chunks: u32,
    pub merkle_root: Seq<u8>,
    pub created_ns: u64,
}

impl View for FileMeta {
    type V = FileMetaView;

    open spec fn view(&self) -> FileMetaView {
        FileMetaView {
            file_id: self.file_id@,
            total_size: self.total_size,
            chunk_size: self.chunk_size,
            num_chunks: self.num_chunks,
            merkle_root: self.merkle_root@,
            created_ns: self.created_ns,
        }
    }
}

impl Clone for FileMeta {
    fn clone(&self) -> (c: Self)
        ensures
            c@ == self@,
    {
        FileMeta {
            file_id: self.file_id.clone(),
            total_size: self.total_size,
            chunk_size: self.chunk_size,
            num_chunks: self.num_chunks,
            merkle_root: copy_bytes(self.merkle_root.as_slice()),
            created_ns: self.created_ns,
        }
    }
}

/// A storage service that holds a copy of a file, and the region it is in.
#[derive(Debug, PartialEq, Eq)]
pub struct Replica {
    pub canister: Principal,
    pub region: String,
}

/// What a `Replica` holds.
pub struct ReplicaView {
    pub canister: Seq<u8>,
    pub region: Seq<char>,
}

impl View for Replica {
    type V = ReplicaView;

    open spec fn view(&self) -> ReplicaView {
        ReplicaView { canister: self.canister@, region: self.region@ }
    }
}

impl Clone for Replica {
    fn clone(&self) -> (c: Self)
        ensures
            c@ == self@,
    {
        Replica { canister: self.canister.clone(), region: self.region.clone() }
    }
}

/// The registry's record of a file: who owns it, who else may write it, and
/// where its copies are.
#[derive(Debug, PartialEq, Eq)]
pub struct FileRecord {
    pub file_id: String,
    pub owner: Principal,
    pub replicas: Vec<Replica>,
    pub merkle_root: Vec<u8>,
    pub allowed: Vec<Principal>,
    pub created_ns: u64,
}

/// What a `FileRecord` holds.
pub struct FileRecordView {
    pub file_id: Seq<char>,
    pub owner: Seq<u8>,
    pub replicas: Seq<ReplicaView>,
    pub merkle_root: Seq<u8>,
    pub allowed: Seq<Seq<u8>>,
    pub created_ns: u64,
}

/// The replicas of a list, each as what it holds.
pub open spec fn replica_views(replicas: Seq<Replica>) -> Seq<ReplicaView> {
    Seq::new(replicas.len(), |i: int| replicas[i]@)
}

/// The identities of a list, each as its bytes.
pub open spec fn principal_views(principals: Seq<Principal>) -> Seq<Seq<u8>> {
    Seq::new(principals.len(), |i: int| principals[i]@)
}

impl View for FileRecord {
    type V = FileRecordView;

    open spec fn view(&self) -> FileRecordView {
        FileRecordView {
            file_id: self.file_id@,
            owner: self.owner@,
            replicas: replica_views(self.replicas@),
            merkle_root: self.merkle_root@,
            allowed: principal_views(self.allowed@),
            created_ns: self.created_ns,
        }
    }
}

/// A copy of a list of replicas.
pub fn clone_replicas(replicas: &Vec<Replica>) -> (out: Vec<Replica>)
    ensures
        replica_views(out@) == replica_views(replicas@),
{
    let mut out: Vec<Replica> = Vec::new();
    let mut i: usize = 0;
    while i < replicas.len()
        invariant
            i <= replicas.len(),
            out.len() == i,
            forall|j: int| 0 <= j < i ==> (#[trigger] out@[j])@ == replicas@[j]@,
        decreases replicas.len() - i,
    {
        out.push(replicas[i].clone());
        i += 1;
    }
    assert(replica_views(out@) =~= replica_views(replicas@));
    out
}

/// A copy of a list of identities.
pub fn clone_principals(principals: &Vec<Principal>) -> (out: Vec<Principal>)
    ensures
        principal_views(out@) == principal_views(principals@),
{
    let mut out: Vec<Principal> = Vec::new();
    let mut i: usize = 0;
    while i < principals.len()
        invariant
            i <= principals.len(),
            out.len() == i,
            forall|j: int| 0 <= j < i ==> (#[trigger] out@[j])@ == principals@[j]@,
        decreases principals.len() - i,
    {
        out.push(principals[i].clone());
        i += 1;
    }
    assert(principal_views(out@) =~= principal_views(principals@));
    out
}

impl Clone for FileRecord {
    fn clone(&self) -> (c: Self)
        ensures
            c@ == self@,
    {
        FileRecord {
            file_id: self.file_id.clone(),
            owner: self.owner.clone(),
            replicas: clone_replicas(&self.replicas),
            merkle_root: copy_bytes(self.merkle_root.as_slice()),
            allowed: clone_principals(&self.allowed),
            created_ns: self.created_ns,
        }
    }
}

/// A question for the registry: the record of `file_id`.
#[derive(Debug, PartialEq, Eq)]
pub struct RegistryQuery {
    pub registry: Principal,
    pub file_id: String,
}

} // verus!
