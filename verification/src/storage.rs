//! The storage service: chunk ingestion, Merkle commitment, and the upload
//! protocol it runs against the registry.

use crate::auth::{answer_view, authorized, is_authorized};
use crate::bytes::copy_bytes;
use crate::hash::{
    fit32, leaves_of, merkle_root, merkle_root_of, sha256_bytes, digest, to_arr, zero_hash,
};
use crate::keys::{chunk_key, chunk_key_of, file_key, file_key_of};
use crate::ledger::Ledger;
use crate::principal::Principal;
use crate::records::{
    Chunk, ChunkView, FileMeta, FileMetaView, FileRecord, FileRecordView, RegistryQuery, Replica,
};
use crate::vecmap::{Key, VecMap};
use vstd::prelude::*;

verus! {

/// The place of a chunk: the file it belongs to and its index in the file.
pub struct ChunkKey {
    pub file_id: String,
    pub index: u32,
}

impl View for ChunkKey {
    type V = (Seq<char>, u32);

    open spec fn view(&self) -> (Seq<char>, u32) {
        (self.file_id@, self.index)
    }
}

impl Key for ChunkKey {
    fn same(&self, other: &Self) -> (r: bool) {
        self.index == other.index && self.file_id == other.file_id
    }
}

/// Why an operation of the storage service failed.
#[derive(Debug, PartialEq, Eq, Clone, Copy)]
pub enum StorageError {
    /// The caller is neither the owner of the file nor on its allow-list.
    Unauthorized,
    /// The registry could not be reached, or refused.
    RemoteCallFailed,
}

impl StorageError {
    /// The failure in words.
    pub fn message(&self) -> (s: String)
        ensures
            s@ == (match self {
                StorageError::Unauthorized => "not authorized"@,
                StorageError::RemoteCallFailed => "remote call failed"@,
            }),
    {
        match self {
            StorageError::Unauthorized => "not authorized".to_owned(),
            StorageError::RemoteCallFailed => "remote call failed".to_owned(),
        }
    }
}

/// What the storage service holds.
#[verifier::ext_equal]
pub struct StorageView {
    /// The chunks, by file and index.
    pub chunks: Map<(Seq<char>, u32), ChunkView>,
    /// The uploads, by file.
    pub files: Map<Seq<char>, FileMetaView>,
    /// The entries committed to the ledger.
    pub ledger: Map<Seq<u8>, Seq<u8>>,
    /// The registry to ask, once one is configured.
    pub registry: Option<Seq<u8>>,
    /// The region this service is in.
    pub region: Seq<char>,
}

/// The leaf that stands for chunk `index` of `file_id`: the stored digest,
/// or the zero hash where the chunk is missing.
pub open spec fn leaf_at(
    chunks: Map<(Seq<char>, u32), ChunkView>,
    file_id: Seq<char>,
    index: u32,
) -> Seq<u8> {
    if chunks.contains_key((file_id, index)) {
        fit32(chunks[(file_id, index)].sha256)
    } else {
        zero_hash()
    }
}

/// The leaves for the chunks `0..count` of `file_id`, in index order.
pub open spec fn leaves_for(
    chunks: Map<(Seq<char>, u32), ChunkView>,
    file_id: Seq<char>,
    count: u32,
) -> Seq<Seq<u8>> {
    Seq::new(count as nat, |i: int| leaf_at(chunks, file_id, i as u32))
}

/// The Merkle root over the chunks `0..count` of `file_id` as stored.
pub open spec fn stored_root(
    chunks: Map<(Seq<char>, u32), ChunkView>,
    file_id: Seq<char>,
    count: u32,
) -> Seq<u8> {
    merkle_root_of(leaves_for(chunks, file_id, count))
}

/// Whether every chunk of `0..count` of `file_id` is stored.
pub open spec fn complete(
    chunks: Map<(Seq<char>, u32), ChunkView>,
    file_id: Seq<char>,
    count: nat,
) -> bool {
    forall|i: u32| i < count ==> chunks.contains_key((file_id, i))
}

/// The bytes of the chunks `0..count` of `file_id`, one after the other in
/// index order.
pub open spec fn joined(
    chunks: Map<(Seq<char>, u32), ChunkView>,
    file_id: Seq<char>,
    count: nat,
) -> Seq<u8>
    decreases count,
{
    if count == 0 {
        Seq::empty()
    } else {
        joined(chunks, file_id, (count - 1) as nat) + chunks[(file_id, (count - 1) as u32)].data
    }
}

/// The file `file_id` put together from its chunks: nothing where the upload
/// is unknown or a chunk of it is missing.
pub open spec fn assembled(s: StorageView, file_id: Seq<char>) -> Option<Seq<u8>> {
    if s.files.contains_key(file_id) && complete(
        s.chunks,
        file_id,
        s.files[file_id].num_chunks as nat,
    ) {
        Some(joined(s.chunks, file_id, s.files[file_id].num_chunks as nat))
    } else {
        None
    }
}

/// The root that finalizing `meta` settles on: the one supplied, or, where
/// none is, the root over the stored chunks.
pub open spec fn settled_root(chunks: Map<(Seq<char>, u32), ChunkView>, meta: FileMetaView) -> Seq<
    u8,
> {
    if meta.merkle_root.len() == 0 {
        stored_root(chunks, meta.file_id, meta.num_chunks)
    } else {
        meta.merkle_root
    }
}

/// The state after `meta` was finalized in the state `s`.
pub open spec fn finalized(s: StorageView, meta: FileMetaView) -> StorageView {
    let root = settled_root(s.chunks, meta);
    StorageView {
        files: s.files.insert(meta.file_id, FileMetaView { merkle_root: root, ..meta }),
        ledger: s.ledger.insert(file_key_of(meta.file_id), root),
        ..s
    }
}

/// The state after chunk `index` of `file_id` was stored with the bytes
/// `data` in the state `s`.
pub open spec fn with_chunk(s: StorageView, file_id: Seq<char>, index: u32, data: Seq<u8>) -> StorageView {
    StorageView {
        chunks: s.chunks.insert((file_id, index), ChunkView { data: data, sha256: digest(data) }),
        ledger: s.ledger.insert(chunk_key_of(file_id, index), digest(data)),
        ..s
    }
}

/// The state after an upload was started in the state `s`.
pub open spec fn with_upload(
    s: StorageView,
    file_id: Seq<char>,
    total_size: u64,
    chunk_size: u32,
    num_chunks: u32,
    now_ns: u64,
) -> StorageView {
    StorageView {
        files: s.files.insert(
            file_id,
            FileMetaView {
                file_id: file_id,
                total_size: total_size,
                chunk_size: chunk_size,
                num_chunks: num_chunks,
                merkle_root: Seq::empty(),
                created_ns: now_ns,
            },
        ),
        ..s
    }
}

/// The bytes of a witness: none where there is no witness.
pub open spec fn witness_bytes(witness: Option<Seq<u8>>) -> Seq<u8> {
    match witness {
        Some(bytes) => bytes,
        None => Seq::empty(),
    }
}

/// What a write to the ledger leaves to do: the new aggregate digest, which
/// the host has to certify before the call returns.
#[derive(Debug, PartialEq, Eq)]
pub struct PutReceipt {
    /// The digest of the chunk that was stored.
    pub sha256: Vec<u8>,
    /// The aggregate digest to certify.
    pub certified_data: [u8; 32],
}

/// The outcome of finalizing a file.
#[derive(Debug, PartialEq, Eq)]
pub struct Commitment {
    /// The Merkle root that the file was finalized with.
    pub merkle_root: Vec<u8>,
    /// The aggregate digest to certify.
    pub certified_data: [u8; 32],
}

/// A record to send to the registration call of `registry`.
#[derive(Debug, PartialEq, Eq)]
pub struct Registration {
    pub registry: Principal,
    pub record: FileRecord,
}

/// The outcome of finalizing a file for publication.
#[derive(Debug, PartialEq, Eq)]
pub struct Publication {
    /// What was committed locally.
    pub commitment: Commitment,
    /// What to send to the registry, where one is configured.
    pub registration: Option<Registration>,
}

/// The storage service's state.
pub struct Storage {
    chunks: VecMap<ChunkKey, Chunk>,
    files: VecMap<String, FileMeta>,
    ledger: Ledger,
    registry: Option<Principal>,
    region: String,
}

impl View for Storage {
    type V = StorageView;

    closed spec fn view(&self) -> StorageView {
        StorageView {
            chunks: self.chunks@.map_values(|c: Chunk| c@),
            files: self.files@.map_values(|m: FileMeta| m@),
            ledger: self.ledger@,
            registry: match self.registry {
                Some(p) => Some(p@),
                None => None,
            },
            region: self.region@,
        }
    }
}

impl Storage {
    /// The ledger as it stands.
    pub closed spec fn committed(&self) -> Ledger {
        self.ledger
    }

    /// The ledger of the state is the ledger as it stands.
    pub proof fn lemma_ledger_is_committed(&self)
        ensures
            self@.ledger == self.committed()@,
    {
    }

    /// The aggregate digest over the ledger: what the host certifies.
    pub open spec fn certified(&self) -> Seq<u8> {
        self.committed().digest()
    }

    /// The serialised witness that the ledger gives for `key`.
    pub open spec fn witness_of(&self, key: Seq<u8>) -> Option<Seq<u8>> {
        self.committed().witness_of(key)
    }

    /// A service in `region` that holds nothing and knows no registry.
    pub fn new(region: String) -> (s: Storage)
        ensures
            s@ == (StorageView {
                chunks: Map::empty(),
                files: Map::empty(),
                ledger: Map::empty(),
                registry: None,
                region: region@,
            }),
    {
        let s = Storage {
            chunks: VecMap::new(),
            files: VecMap::new(),
            ledger: Ledger::new(),
            registry: None,
            region,
        };
        assert(s@.chunks =~= Map::empty());
        assert(s@.files =~= Map::empty());
        s
    }

    /// `ok`.
    pub fn health(&self) -> (s: String)
        ensures
            s@ == "ok"@,
    {
        "ok".to_owned()
    }

    /// Configures the registry to ask.
    pub fn set_registry(&mut self, registry: Principal)
        ensures
            final(self)@ == (StorageView { registry: Some(registry@), ..old(self)@ }),
            final(self).committed() == old(self).committed(),
    {
        self.registry = Some(registry);
    }

    /// Sets the region this service reports itself in.
    pub fn set_region(&mut self, region: String)
        ensures
            final(self)@ == (StorageView { region: region@, ..old(self)@ }),
            final(self).committed() == old(self).committed(),
    {
        self.region = region;
    }

    /// The aggregate digest over the ledger.
    pub fn certified_data(&self) -> (h: [u8; 32])
        ensures
            h@ == self.certified(),
    {
        self.ledger.root_hash()
    }

    /// The serialised witness for `key` over the ledger as it stands: empty
    /// where none can be serialised.
    pub fn witness(&self, key: &[u8]) -> (w: Vec<u8>)
        ensures
            w@ == witness_bytes(self.witness_of(key@)),
    {
        self.ledger.witness(key)
    }

    /// The question to put to the registry before an upload of `file_id` is
    /// started or published: none where no registry is configured.
    pub fn registry_query(&self, file_id: &str) -> (q: Option<RegistryQuery>)
        ensures
            match q {
                Some(query) => self@.registry == Some(query.registry@) && query.file_id@
                    == file_id@,
                None => self@.registry.is_none(),
            },
    {
        match &self.registry {
            Some(registry) => Some(
                RegistryQuery { registry: registry.clone(), file_id: file_id.to_owned() },
            ),
            None => None,
        }
    }

    /// Starts an upload for `caller`, given the registry's answer for
    /// `file_id` (`None` where there is no record, no registry, or no
    /// answer). Refused, with nothing changed, where the answer holds a
    /// record that gives `caller` no right to write.
    pub fn start_upload(
        &mut self,
        caller: &Principal,
        answer: Option<&FileRecord>,
        file_id: String,
        total_size: u64,
        chunk_size: u32,
        num_chunks: u32,
        now_ns: u64,
    ) -> (r: Result<(), StorageError>)
        ensures
            is_authorized(caller@, answer_view(answer)) ==> r.is_ok() && final(self)@
                == with_upload(old(self)@, file_id@, total_size, chunk_size, num_chunks, now_ns),
            !is_authorized(caller@, answer_view(answer)) ==> r == Err::<(), StorageError>(
                StorageError::Unauthorized,
            ) && final(self)@ == old(self)@,
            final(self).committed() == old(self).committed(),
    {
        if !authorized(caller, answer) {
            return Err(StorageError::Unauthorized);
        }
        let meta = FileMeta {
            file_id: file_id.clone(),
            total_size,
            chunk_size,
            num_chunks,
            merkle_root: Vec::new(),
            created_ns: now_ns,
        };
        self.files.insert(file_id, meta);
        assert(self@.files =~= with_upload(
            old(self)@,
            file_id@,
            total_size,
            chunk_size,
            num_chunks,
            now_ns,
        ).files);
        Ok(())
    }

    /// Stores chunk `index` of `file_id`, in place of the one stored there
    /// before, if any, and commits its digest to the ledger. The digest is
    /// always computed from `data`; the one the caller declares is not
    /// consulted. A ledger that holds that digest under the chunk's key
    /// already is left as it is, certified digest and witnesses included.
    pub fn put_chunk(&mut self, file_id: String, index: u32, data: Vec<u8>, declared: Vec<u8>) -> (r:
        PutReceipt)
        ensures
            final(self)@ == with_chunk(old(self)@, file_id@, index, data@),
            old(self)@.ledger.contains_pair(chunk_key_of(file_id@, index), digest(data@))
                ==> final(self).committed() == old(self).committed(),
            r.sha256@ == digest(data@),
            r.certified_data@ == final(self).certified(),
    {
        let hash = sha256_bytes(data.as_slice());
        let key = chunk_key(file_id.as_str(), index);
        let sha256 = copy_bytes(hash.as_slice());
        let committed = copy_bytes(hash.as_slice());
        self.chunks.insert(ChunkKey { file_id, index }, Chunk { data, sha256: hash });
        let certified_data = self.ledger.commit(key, committed);
        assert(self@.chunks =~= with_chunk(old(self)@, file_id@, index, data@).chunks);
        PutReceipt { sha256, certified_data }
    }

    /// The chunk `index` of `file_id`, if it is stored.
    pub fn get_chunk(&self, file_id: &str, index: u32) -> (r: Option<Chunk>)
        ensures
            match r {
                Some(chunk) => self@.chunks.contains_key((file_id@, index)) && chunk@
                    == self@.chunks[(file_id@, index)],
                None => !self@.chunks.contains_key((file_id@, index)),
            },
    {
        let key = ChunkKey { file_id: file_id.to_owned(), index };
        match self.chunks.get(&key) {
            Some(chunk) => Some(chunk.clone()),
            None => None,
        }
    }

    /// What is known of the upload `file_id`, if it was started.
    pub fn get_file_meta(&self, file_id: &str) -> (r: Option<FileMeta>)
        ensures
            match r {
                Some(meta) => self@.files.contains_key(file_id@) && meta@ == self@.files[file_id@],
                None => !self@.files.contains_key(file_id@),
            },
    {
        let key = file_id.to_owned();
        match self.files.get(&key) {
            Some(meta) => Some(meta.clone()),
            None => None,
        }
    }

    /// The Merkle root over the chunks `0..num_chunks` of `file_id` as they
    /// are stored now, a missing chunk counting as the zero hash.
    pub fn compute_merkle_root_for(&self, file_id: &str, num_chunks: u32) -> (root: Vec<u8>)
        ensures
            root@ == stored_root(self@.chunks, file_id@, num_chunks),
    {
        let mut hashes: Vec<[u8; 32]> = Vec::new();
        let mut key = ChunkKey { file_id: file_id.to_owned(), index: 0 };
        let mut i: u32 = 0;
        while i < num_chunks
            invariant
                i <= num_chunks,
                key.file_id@ == file_id@,
                hashes.len() == i,
                forall|j: int|
                    0 <= j < i ==> (#[trigger] hashes@[j])@ == leaf_at(
                        self@.chunks,
                        file_id@,
                        j as u32,
                    ),
            decreases num_chunks - i,
        {
            key.index = i;
            let leaf: [u8; 32] = match self.chunks.get(&key) {
                Some(chunk) => to_arr(copy_bytes(chunk.sha256.as_slice())),
                None => {
                    let zero = [0u8;32];
                    assert(zero@ =~= zero_hash());
                    zero
                },
            };
            hashes.push(leaf);
            i += 1;
        }
        assert(leaves_of(hashes@) =~= leaves_for(self@.chunks, file_id@, num_chunks));
        let root = merkle_root(hashes);
        copy_bytes(root.as_slice())
    }

    /// The file `file_id` put together from its chunks in index order:
    /// nothing where the upload is unknown or a chunk of it is missing.
    pub fn assemble_file(&self, file_id: &str) -> (r: Option<Vec<u8>>)
        ensures
            match r {
                Some(bytes) => assembled(self@, file_id@) == Some(bytes@),
                None => assembled(self@, file_id@).is_none(),
            },
    {
        let mut key = ChunkKey { file_id: file_id.to_owned(), index: 0 };
        let num_chunks: u32 = match self.files.get(&key.file_id) {
            Some(meta) => meta.num_chunks,
            None => {
                return None;
            },
        };
        let mut out: Vec<u8> = Vec::new();
        let mut i: u32 = 0;
        while i < num_chunks
            invariant
                i <= num_chunks,
                key.file_id@ == file_id@,
                self@.files.contains_key(file_id@),
                self@.files[file_id@].num_chunks == num_chunks,
                complete(self@.chunks, file_id@, i as nat),
                out@ == joined(self@.chunks, file_id@, i as nat),
            decreases num_chunks - i,
        {
            key.index = i;
            match self.chunks.get(&key) {
                Some(chunk) => {
                    crate::bytes::append_bytes(&mut out, chunk.data.as_slice());
                },
                None => {
                    assert(!self@.chunks.contains_key((file_id@, i)));
                    return None;
                },
            }
            i += 1;
        }
        Some(out)
    }

    /// Finalizes the upload that `meta` describes: settles its Merkle root
    /// (the one supplied or, where none is, the root over the stored
    /// chunks), records `meta` with that root, and commits the root to the
    /// ledger under the file's key.
    pub fn finalize_file(&mut self, meta: FileMeta) -> (r: Commitment)
        ensures
            finalizes(*old(self), meta@, *final(self)),
            r.merkle_root@ == settled_root(old(self)@.chunks, meta@),
            r.certified_data@ == final(self).certified(),
    {
        let ghost given = meta@;
        let mut meta = meta;
        if meta.merkle_root.len() == 0 {
            meta.merkle_root = self.compute_merkle_root_for(meta.file_id.as_str(), meta.num_chunks);
        }
        let merkle_root = copy_bytes(meta.merkle_root.as_slice());
        let committed = copy_bytes(meta.merkle_root.as_slice());
        let key = file_key(meta.file_id.as_str());
        let file_id = meta.file_id.clone();
        self.files.insert(file_id, meta);
        let certified_data = self.ledger.commit(key, committed);
        assert(self@.files =~= finalized(old(self)@, given).files);
        Commitment { merkle_root, certified_data }
    }

    /// Finalizes the upload that `meta` describes for publication by
    /// `caller`, given the registry's answer for the file (`None` where there
    /// is no record, no registry, or no answer). Refused, with nothing
    /// changed, where the answer holds a record that gives `caller` no right
    /// to write. Otherwise the upload is finalized as by `finalize_file`,
    /// and, where a registry is configured, the record to register is handed
    /// back: it names `caller` as owner and this service, `me`, as the one
    /// replica, in the service's region.
    pub fn finalize_and_register(
        &mut self,
        caller: &Principal,
        answer: Option<&FileRecord>,
        meta: FileMeta,
        me: Principal,
    ) -> (r: Result<Publication, StorageError>)
        ensures
            !is_authorized(caller@, answer_view(answer)) ==> r == Err::<Publication, StorageError>(
                StorageError::Unauthorized,
            ) && final(self)@ == old(self)@ && final(self).committed() == old(self).committed(),
            is_authorized(caller@, answer_view(answer)) ==> r.is_ok() && finalizes(
                *old(self),
                meta@,
                *final(self),
            ),
            r matches Ok(p) ==> p.commitment.merkle_root@ == settled_root(old(self)@.chunks, meta@)
                && p.commitment.certified_data@ == final(self).certified() && match p.registration {
                Some(reg) => old(self)@.registry == Some(reg.registry@) && reg.record@
                    == record_to_register(old(self)@, caller@, me@, meta@),
                None => old(self)@.registry.is_none(),
            },
    {
        if !authorized(caller, answer) {
            return Err(StorageError::Unauthorized);
        }
        let file_id = meta.file_id.clone();
        let created_ns = meta.created_ns;
        let commitment = self.finalize_file(meta);
        let registration = match &self.registry {
            Some(registry) => {
                let mut replicas: Vec<Replica> = Vec::new();
                replicas.push(Replica { canister: me, region: self.region.clone() });
                let record = FileRecord {
                    file_id,
                    owner: caller.clone(),
                    replicas,
                    merkle_root: copy_bytes(commitment.merkle_root.as_slice()),
                    allowed: Vec::new(),
                    created_ns,
                };
                assert(record@.replicas =~= record_to_register(
                    old(self)@,
                    caller@,
                    me@,
                    meta@,
                ).replicas);
                assert(record@.allowed =~= Seq::<Seq<u8>>::empty());
                Some(Registration { registry: registry.clone(), record })
            },
            None => None,
        };
        Ok(Publication { commitment, registration })
    }

    /// What to report once the registry was asked to register a file:
    /// success where the record was delivered, a remote failure where it was
    /// not. The local commitment stands either way.
    pub fn registration_outcome(delivered: bool) -> (r: Result<(), StorageError>)
        ensures
            r == (if delivered {
                Ok::<(), StorageError>(())
            } else {
                Err::<(), StorageError>(StorageError::RemoteCallFailed)
            }),
    {
        if delivered {
            Ok(())
        } else {
            Err(StorageError::RemoteCallFailed)
        }
    }
}

/// Whether the chunk store and the ledger of `s` agree: every stored chunk
/// carries the digest of its bytes, and that digest is what the ledger
/// holds under the chunk's key.
pub open spec fn consistent(s: StorageView) -> bool {
    forall|file_id: Seq<char>, index: u32| #[trigger]
        s.chunks.contains_key((file_id, index)) ==> {
            &&& s.chunks[(file_id, index)].sha256 == digest(s.chunks[(file_id, index)].data)
            &&& s.ledger.contains_pair(
                chunk_key_of(file_id, index),
                s.chunks[(file_id, index)].sha256,
            )
        }
}

/// Starting an upload leaves chunk store and ledger in agreement.
pub proof fn lemma_start_keeps_consistent(
    s: StorageView,
    file_id: Seq<char>,
    total_size: u64,
    chunk_size: u32,
    num_chunks: u32,
    now_ns: u64,
)
    requires
        consistent(s),
    ensures
        consistent(with_upload(s, file_id, total_size, chunk_size, num_chunks, now_ns)),
{
}

/// Storing a chunk leaves chunk store and ledger in agreement: the new
/// chunk is committed under its own key, and no other chunk's entry is
/// touched, since different chunks have different keys.
pub proof fn lemma_chunk_keeps_consistent(
    s: StorageView,
    file_id: Seq<char>,
    index: u32,
    data: Seq<u8>,
)
    requires
        consistent(s),
    ensures
        consistent(with_chunk(s, file_id, index, data)),
{
    let after = with_chunk(s, file_id, index, data);
    assert forall|id: Seq<char>, i: u32| #[trigger]
        after.chunks.contains_key((id, i)) implies after.chunks[(id, i)].sha256 == digest(
        after.chunks[(id, i)].data,
    ) && after.ledger.contains_pair(chunk_key_of(id, i), after.chunks[(id, i)].sha256) by {
        if (id, i) != (file_id, index) {
            assert(s.chunks.contains_key((id, i)));
            crate::keys::lemma_chunk_keys_distinct(id, i, file_id, index);
        }
    }
}

/// Finalizing leaves chunk store and ledger in agreement: the root goes
/// under the file's key, which is no chunk's.
pub proof fn lemma_finalize_keeps_consistent(s: StorageView, meta: FileMetaView)
    requires
        consistent(s),
    ensures
        consistent(finalized(s, meta)),
{
    let after = finalized(s, meta);
    assert forall|id: Seq<char>, i: u32| #[trigger]
        after.chunks.contains_key((id, i)) implies after.chunks[(id, i)].sha256 == digest(
        after.chunks[(id, i)].data,
    ) && after.ledger.contains_pair(chunk_key_of(id, i), after.chunks[(id, i)].sha256) by {
        assert(s.chunks.contains_key((id, i)));
        crate::keys::lemma_chunk_key_is_no_file_key(id, i, meta.file_id);
    }
}

/// Where an upload stands.
#[derive(Debug, PartialEq, Eq, Clone, Copy)]
pub enum UploadState {
    /// Started, and no chunk of it stored yet.
    Started,
    /// Started, with chunks stored, and not finalized.
    Receiving,
    /// Finalized: its Merkle root is settled and committed.
    Finalized,
    /// Known to the registry. Nothing leads out of this state.
    Registered,
}

/// Whether any chunk of `file_id` is stored.
pub open spec fn has_chunks(chunks: Map<(Seq<char>, u32), ChunkView>, file_id: Seq<char>) -> bool {
    exists|i: u32| chunks.contains_key((file_id, i))
}

/// Where the upload `file_id` stands in the state `s`, `registered` saying
/// whether the registry has a record of the file. Nothing where the file is
/// known to neither.
pub open spec fn upload_state(s: StorageView, registered: bool, file_id: Seq<char>) -> Option<
    UploadState,
> {
    if registered {
        Some(UploadState::Registered)
    } else if !s.files.contains_key(file_id) {
        None
    } else if s.files[file_id].merkle_root.len() > 0 {
        Some(UploadState::Finalized)
    } else if has_chunks(s.chunks, file_id) {
        Some(UploadState::Receiving)
    } else {
        Some(UploadState::Started)
    }
}

/// Starting an upload of an unregistered file leads to `Started`, or to
/// `Receiving` where chunks of the file are stored already.
pub proof fn lemma_start_leads_to_started(
    s: StorageView,
    file_id: Seq<char>,
    total_size: u64,
    chunk_size: u32,
    num_chunks: u32,
    now_ns: u64,
)
    ensures
        upload_state(
            with_upload(s, file_id, total_size, chunk_size, num_chunks, now_ns),
            false,
            file_id,
        ) == Some(
            if has_chunks(s.chunks, file_id) {
                UploadState::Receiving
            } else {
                UploadState::Started
            },
        ),
{
}

/// A chunk stored for an upload that is `Started` or `Receiving` leaves it
/// `Receiving`.
pub proof fn lemma_chunk_leads_to_receiving(
    s: StorageView,
    file_id: Seq<char>,
    index: u32,
    data: Seq<u8>,
)
    requires
        upload_state(s, false, file_id) == Some(UploadState::Started) || upload_state(
            s,
            false,
            file_id,
        ) == Some(UploadState::Receiving),
    ensures
        upload_state(with_chunk(s, file_id, index, data), false, file_id) == Some(
            UploadState::Receiving,
        ),
{
    assert(with_chunk(s, file_id, index, data).chunks.contains_key((file_id, index)));
}

/// Finalizing leads to `Finalized`, whatever the upload's state was, as long
/// as the file is unregistered.
pub proof fn lemma_finalize_leads_to_finalized(s: StorageView, meta: FileMetaView)
    ensures
        upload_state(finalized(s, meta), false, meta.file_id) == Some(UploadState::Finalized),
        meta.merkle_root.len() == 0 ==> settled_root(s.chunks, meta).len() == 32,
{
    if meta.merkle_root.len() == 0 {
        crate::hash::lemma_merkle_root_len(leaves_for(s.chunks, meta.file_id, meta.num_chunks));
    }
}

/// The record that a service in the state `s` sends to the registry when
/// `caller` publishes the upload `meta`: `caller` owns the file, the service
/// `me` is its one replica, and nobody else is allowed to write.
pub open spec fn record_to_register(
    s: StorageView,
    caller: Seq<u8>,
    me: Seq<u8>,
    meta: FileMetaView,
) -> FileRecordView {
    FileRecordView {
        file_id: meta.file_id,
        owner: caller,
        replicas: seq![crate::records::ReplicaView { canister: me, region: s.region }],
        merkle_root: settled_root(s.chunks, meta),
        allowed: Seq::empty(),
        created_ns: meta.created_ns,
    }
}

/// Whether `after` is what storing chunk `index` of `file_id` with the bytes
/// `data` makes of `before`: the chunk is stored with its digest, the digest
/// is committed under the chunk's key, and a ledger that held that digest
/// under that key already is as it was.
pub open spec fn puts(
    before: Storage,
    file_id: Seq<char>,
    index: u32,
    data: Seq<u8>,
    after: Storage,
) -> bool {
    &&& after@ == with_chunk(before@, file_id, index, data)
    &&& before@.ledger.contains_pair(chunk_key_of(file_id, index), digest(data))
        ==> after.committed() == before.committed()
}

/// Storing a chunk is idempotent: the same chunk stored a second time leaves
/// the state, the ledger and the certified digest as the first time left
/// them.
pub proof fn lemma_put_idempotent(
    start: Storage,
    once: Storage,
    twice: Storage,
    file_id: Seq<char>,
    index: u32,
    data: Seq<u8>,
)
    requires
        puts(start, file_id, index, data, once),
        puts(once, file_id, index, data, twice),
    ensures
        twice@ == once@,
        twice.committed() == once.committed(),
        twice.certified() == once.certified(),
{
    assert(twice@.chunks =~= once@.chunks);
    assert(twice@.ledger =~= once@.ledger);
    assert(once@.ledger.contains_pair(chunk_key_of(file_id, index), digest(data)));
}

/// Whether `after` is what finalizing `meta` makes of `before`: the upload
/// is recorded with its settled root, the root is committed under the file's
/// key, and a ledger that held that root under that key already is as it
/// was, certified digest and witnesses included.
pub open spec fn finalizes(before: Storage, meta: FileMetaView, after: Storage) -> bool {
    &&& after@ == finalized(before@, meta)
    &&& before@.ledger.contains_pair(
        file_key_of(meta.file_id),
        settled_root(before@.chunks, meta),
    ) ==> after.committed() == before.committed()
}

/// Finalizing is idempotent: finalizing the same upload a second time over
/// the same stored chunks settles on the same root, and leaves the state and
/// the certified digest as the first time left them.
pub proof fn lemma_finalize_idempotent(
    start: Storage,
    once: Storage,
    twice: Storage,
    meta: FileMetaView,
)
    requires
        finalizes(start, meta, once),
        finalizes(once, meta, twice),
    ensures
        settled_root(once@.chunks, meta) == settled_root(start@.chunks, meta),
        twice@ == once@,
        twice.committed() == once.committed(),
        twice.certified() == once.certified(),
{
    assert(twice@.files =~= once@.files);
    assert(twice@.ledger =~= once@.ledger);
    assert(once@.ledger.contains_pair(
        file_key_of(meta.file_id),
        settled_root(once@.chunks, meta),
    ));
}

/// Whether chunk `i` of `file_id` is stored and holds `parts[i]`, for each
/// `i` below the number of parts.
pub open spec fn holds_parts(
    chunks: Map<(Seq<char>, u32), ChunkView>,
    file_id: Seq<char>,
    parts: Seq<Seq<u8>>,
) -> bool {
    forall|i: u32|
        i < parts.len() ==> #[trigger] chunks.contains_key((file_id, i)) && chunks[(
            file_id,
            i,
        )].data == parts[i as int]
}

/// Round trip: where an upload of as many chunks as `parts` has is known
/// and chunk `i` holds `parts[i]` for each `i`, the assembled file is the
/// parts one after the other.
pub proof fn lemma_assemble_round_trip(s: StorageView, file_id: Seq<char>, parts: Seq<Seq<u8>>)
    requires
        s.files.contains_key(file_id),
        s.files[file_id].num_chunks == parts.len(),
        holds_parts(s.chunks, file_id, parts),
    ensures
        assembled(s, file_id) == Some(parts.flatten()),
{
    lemma_joined_is_flatten(s.chunks, file_id, parts, parts.len());
    assert(parts.take(parts.len() as int) =~= parts);
}

/// The first `count` chunks joined are the first `count` parts flattened.
proof fn lemma_joined_is_flatten(
    chunks: Map<(Seq<char>, u32), ChunkView>,
    file_id: Seq<char>,
    parts: Seq<Seq<u8>>,
    count: nat,
)
    requires
        count <= parts.len() <= u32::MAX,
        holds_parts(chunks, file_id, parts),
    ensures
        joined(chunks, file_id, count) == parts.take(count as int).flatten(),
    decreases count,
{
    if count > 0 {
        let before = (count - 1) as nat;
        lemma_joined_is_flatten(chunks, file_id, parts, before);
        let last = (count - 1) as u32;
        assert(chunks.contains_key((file_id, last)));
        assert(parts.take(count as int) =~= parts.take(before as int).push(parts[before as int]));
        parts.take(before as int).lemma_flatten_push(parts[before as int]);
    }
}

} // verus!
