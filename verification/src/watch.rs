//! Which events of the file system watcher matter.
use vstd::prelude::*;

use crate::paths;

verus! {

/// The kind of a file system event.
#[derive(Debug, Clone, Copy, PartialEq, Eq, Structural)]
pub enum EventKind {
    Any,
    Access,
    Create,
    Modify,
    Remove,
    Other,
}

/// Something may have been added to a file.
pub open spec fn is_addition(kind: EventKind) -> bool {
    kind == EventKind::Create || kind == EventKind::Modify || kind == EventKind::Any
}

/// Whether an event calls for a look at its files.
pub fn should_handle(kind: EventKind) -> (r: bool)
    ensures
        r == is_addition(kind),
        r == (kind is Create || kind is Modify || kind is Any),
{
    match kind {
        EventKind::Create | EventKind::Modify | EventKind::Any => true,
        EventKind::Access | EventKind::Remove | EventKind::Other => false,
    }
}

/// The files of an event that are to be looked at: all of them, or none.
pub fn watch_music(kind: EventKind, files: Vec<Vec<u8>>) -> (r: Vec<Vec<u8>>)
    ensures
        paths::all_bytes(r@) == (if is_addition(kind) {
            paths::all_bytes(files@)
        } else {
            Seq::empty()
        }),
{
    if should_handle(kind) {
        files
    } else {
        let none: Vec<Vec<u8>> = Vec::new();
        proof {
            assert(paths::all_bytes(none@) =~= Seq::<Seq<u8>>::empty());
        }
        none
    }
}

/// Files that were made or changed are looked at, and files that were read or removed are not.
pub proof fn law_additions_are_looked_at(kind: EventKind)
    ensures
        kind == EventKind::Create || kind == EventKind::Modify || kind == EventKind::Any
            ==> is_addition(kind),
        kind == EventKind::Access || kind == EventKind::Remove || kind == EventKind::Other
            ==> !is_addition(kind),
{
}

} // verus!
