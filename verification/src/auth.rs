//! Who may write a file: the rule that the storage service applies to what
//! the registry answers.

use crate::principal::Principal;
use crate::records::{principal_views, FileRecord, FileRecordView};
use crate::vecmap::Key;
use vstd::prelude::*;

verus! {

/// What an answer of the registry holds: the record, if there is one.
pub open spec fn answer_view(answer: Option<&FileRecord>) -> Option<FileRecordView> {
    match answer {
        Some(record) => Some(record@),
        None => None,
    }
}

/// The rule: where the registry has no record of a file, anyone may write
/// it; where it has one, its owner may, and whoever is on its allow-list.
pub open spec fn is_authorized(caller: Seq<u8>, record: Option<FileRecordView>) -> bool {
    match record {
        Some(r) => caller == r.owner || r.allowed.contains(caller),
        None => true,
    }
}

/// Whether `p` is in `list`.
pub fn contains_principal(list: &Vec<Principal>, p: &Principal) -> (found: bool)
    ensures
        found == principal_views(list@).contains(p@),
{
    let mut i: usize = 0;
    while i < list.len()
        invariant
            i <= list.len(),
            forall|j: int| 0 <= j < i ==> principal_views(list@)[j] != p@,
        decreases list.len() - i,
    {
        if list[i].same(p) {
            assert(principal_views(list@)[i as int] == p@);
            return true;
        }
        i += 1;
    }
    false
}

/// Whether `caller` may write the file that `record` is the registry's
/// answer for.
pub fn authorized(caller: &Principal, record: Option<&FileRecord>) -> (ok: bool)
    ensures
        ok == is_authorized(caller@, answer_view(record)),
{
    match record {
        Some(r) => r.owner.same(caller) || contains_principal(&r.allowed, caller),
        None => true,
    }
}

} // verus!
