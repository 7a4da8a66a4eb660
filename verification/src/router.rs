//! The router: which replicas to read a file from, nearest region first.

use crate::auth::answer_view;
use crate::principal::Principal;
use crate::records::{
    principal_views, replica_views, FileRecord, FileRecordView, RegistryQuery, Replica,
    ReplicaView,
};
use vstd::prelude::*;

verus! {

/// The region that a hint names, if there is a hint.
pub open spec fn hint_view(hint: Option<&str>) -> Option<Seq<char>> {
    match hint {
        Some(region) => Some(region@),
        None => None,
    }
}

/// The test that a replica's being in `region` is `wanted`.
pub open spec fn region_is(region: Seq<char>, wanted: bool) -> spec_fn(ReplicaView) -> bool {
    |r: ReplicaView| (r.region == region) == wanted
}

/// `replicas` with those in the hinted region moved to the front. Within
/// the hinted region, and within the rest, the order is as it was. Without
/// a hint nothing moves.
pub open spec fn preferred_order(replicas: Seq<ReplicaView>, hint: Option<Seq<char>>) -> Seq<
    ReplicaView,
> {
    match hint {
        Some(region) => replicas.filter(region_is(region, true)) + replicas.filter(
            region_is(region, false),
        ),
        None => replicas,
    }
}

/// The addresses of `replicas`, in the order given.
pub open spec fn addresses(replicas: Seq<ReplicaView>) -> Seq<Seq<u8>> {
    Seq::new(replicas.len(), |i: int| replicas[i].canister)
}

/// The route for a file: nothing where no registry is configured or the
/// registry has no record; otherwise the addresses of the record's replicas
/// in the preferred order.
pub open spec fn route(
    registry: Option<Seq<u8>>,
    record: Option<FileRecordView>,
    hint: Option<Seq<char>>,
) -> Seq<Seq<u8>> {
    match (registry, record) {
        (Some(_), Some(r)) => addresses(preferred_order(r.replicas, hint)),
        _ => Seq::empty(),
    }
}

/// Appends to `out` the addresses of the replicas whose being in `region` is
/// `wanted`.
fn push_addresses(out: &mut Vec<Principal>, replicas: &Vec<Replica>, region: &String, wanted: bool)
    ensures
        principal_views(final(out)@) == principal_views(old(out)@) + addresses(
            replica_views(replicas@).filter(region_is(region@, wanted)),
        ),
{
    let ghost pick = region_is(region@, wanted);
    let ghost all = replica_views(replicas@);
    let ghost start = principal_views(out@);
    let mut i: usize = 0;
    proof {
        reveal(Seq::filter);
        assert(all.take(0) =~= Seq::<ReplicaView>::empty());
        assert(start + addresses(all.take(0).filter(pick)) =~= start);
    }
    while i < replicas.len()
        invariant
            i <= replicas.len(),
            all == replica_views(replicas@),
            pick == region_is(region@, wanted),
            principal_views(out@) == start + addresses(all.take(i as int).filter(pick)),
        decreases replicas.len() - i,
    {
        let ghost before = principal_views(out@);
        let ghost kept = all.take(i as int).filter(pick);
        proof {
            assert(all.take(i + 1) =~= all.take(i as int).push(all[i as int]));
            all.take(i as int).lemma_filter_push(all[i as int], pick);
        }
        if (replicas[i].region == *region) == wanted {
            out.push(replicas[i].canister.clone());
            assert(principal_views(out@) =~= before.push(all[i as int].canister));
            assert(addresses(kept.push(all[i as int])) =~= addresses(kept).push(
                all[i as int].canister,
            ));
            assert(start + addresses(kept).push(all[i as int].canister) =~= (start + addresses(
                kept,
            )).push(all[i as int].canister));
        }
        i += 1;
    }
    assert(all.take(replicas@.len() as int) =~= all);
}

/// The router's state: the registry to ask, once one is configured.
pub struct Router {
    registry: Option<Principal>,
}

impl View for Router {
    type V = Option<Seq<u8>>;

    closed spec fn view(&self) -> Option<Seq<u8>> {
        match self.registry {
            Some(p) => Some(p@),
            None => None,
        }
    }
}

impl Router {
    /// A router that knows no registry.
    pub fn new() -> (r: Router)
        ensures
            r@.is_none(),
    {
        Router { registry: None }
    }

    /// `ok`.
    pub fn health(&self) -> (s: String)
        ensures
            s@ == "ok"@,
    {
        "ok".to_owned()
    }

    /// Configures the registry to ask.
    pub fn set_registry(&mut self, p: Principal)
        ensures
            final(self)@ == Some(p@),
    {
        self.registry = Some(p);
    }

    /// The question to put to the registry before `file_id` is routed: none
    /// where no registry is configured.
    pub fn registry_query(&self, file_id: &str) -> (q: Option<RegistryQuery>)
        ensures
            match q {
                Some(query) => self@ == Some(query.registry@) && query.file_id@ == file_id@,
                None => self@.is_none(),
            },
    {
        match &self.registry {
            Some(registry) => Some(
                RegistryQuery { registry: registry.clone(), file_id: file_id.to_owned() },
            ),
            None => None,
        }
    }

    /// The addresses to read a file from, given the registry's answer for
    /// it: those of the record's replicas, the ones in the hinted region
    /// first. Empty where no registry is configured or there is no record.
    pub fn route_for(&self, answer: Option<&FileRecord>, region_hint: Option<&str>) -> (out: Vec<
        Principal,
    >)
        ensures
            principal_views(out@) == route(self@, answer_view(answer), hint_view(region_hint)),
    {
        let mut out: Vec<Principal> = Vec::new();
        assert(principal_views(out@) =~= Seq::<Seq<u8>>::empty());
        if self.registry.is_none() {
            return out;
        }
        let record = match answer {
            Some(record) => record,
            None => {
                return out;
            },
        };
        match region_hint {
            Some(hint) => {
                let region = hint.to_owned();
                let ghost near = replica_views(record.replicas@).filter(region_is(region@, true));
                let ghost far = replica_views(record.replicas@).filter(region_is(region@, false));
                push_addresses(&mut out, &record.replicas, &region, true);
                push_addresses(&mut out, &record.replicas, &region, false);
                assert(principal_views(out@) =~= addresses(near + far));
            },
            None => {
                let mut i: usize = 0;
                while i < record.replicas.len()
                    invariant
                        i <= record.replicas.len(),
                        principal_views(out@) == addresses(
                            replica_views(record.replicas@).take(i as int),
                        ),
                    decreases record.replicas.len() - i,
                {
                    let ghost before = principal_views(out@);
                    out.push(record.replicas[i].canister.clone());
                    assert(principal_views(out@) =~= before.push(record.replicas@[i as int]@.canister));
                    assert(addresses(replica_views(record.replicas@).take(i + 1)) =~= addresses(
                        replica_views(record.replicas@).take(i as int),
                    ).push(record.replicas@[i as int]@.canister));
                    i += 1;
                }
                assert(replica_views(record.replicas@).take(record.replicas@.len() as int)
                    =~= replica_views(record.replicas@));
            },
        }
        out
    }
}

} // verus!
