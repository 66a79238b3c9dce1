//! What is restored from an archive that was received.
use crate::error;
use crate::error::{ErrorKind, TransferError};
use crate::filename;
use crate::filename::{clean_filename, NameSearch, Purpose};
use crate::paths;
use crate::paths::ensure_safe_entry_path;
use crate::text;
use vstd::prelude::*;

verus! {

/// The kinds of entries of an archive.
#[derive(Clone, Copy, Debug, PartialEq, Eq, Structural)]
pub enum EntryKind {
    Regular,
    Directory,
    /// A link or a special file.
    Other,
}

/// What is done with an entry.
#[derive(Clone, Copy, Debug, PartialEq, Eq, Structural)]
pub enum EntryAction {
    Unpack,
    Skip,
}

/// What is done with an entry: an unsafe path stops the extraction, regular files and directories
/// are restored, all else is passed over.
pub open spec fn entry_decision(kind: EntryKind, path: Seq<char>) -> Result<
    EntryAction,
    error::Fault,
> {
    if !paths::is_safe_entry(path) {
        Err(error::fault_about(ErrorKind::UnsafeEntryPath, path))
    } else if kind == EntryKind::Regular || kind == EntryKind::Directory {
        Ok(EntryAction::Unpack)
    } else {
        Ok(EntryAction::Skip)
    }
}

pub fn entry_action(kind: EntryKind, path: &str) -> (r: Result<EntryAction, TransferError>)
    ensures
        match r {
            Ok(action) => entry_decision(kind, path@) == Ok::<EntryAction, error::Fault>(action),
            Err(error) => entry_decision(kind, path@) == Err::<EntryAction, error::Fault>(error@),
        },
{
    match ensure_safe_entry_path(path) {
        Err(error) => Err(error),
        Ok(_) => match kind {
            EntryKind::Regular => Ok(EntryAction::Unpack),
            EntryKind::Directory => Ok(EntryAction::Unpack),
            EntryKind::Other => Ok(EntryAction::Skip),
        },
    }
}

/// Begins the search for the directory that an archive of the given name is extracted to.
pub fn extraction_search(name: &str) -> (r: Result<NameSearch, TransferError>)
    ensures
        match r {
            Ok(search) => filename::clean_name(name@) matches Ok(clean) && search.purpose() == (
            filename::PurposeModel::Extraction { name: clean }) && search.taken() == 0
                && search.is_open(),
            Err(error) => filename::clean_name(name@) == Err::<Seq<char>, error::Fault>(error@),
        },
{
    match clean_filename(name) {
        Err(error) => Err(error),
        Ok(name) => Ok(NameSearch::new(Purpose::Extraction { name })),
    }
}

/// What is restored from an archive stands below the directory that it is extracted to: the path of
/// a restored entry is relative and never climbs.
pub proof fn law_restored_entries_stay_inside(root: Seq<char>, kind: EntryKind, path: Seq<char>)
    requires
        entry_decision(kind, path) == Ok::<EntryAction, error::Fault>(EntryAction::Unpack),
    ensures
        text::begins_with(paths::join(root, path), root),
        !text::split(path, '/').contains(".."@),
{
    let joined = paths::join(root, path);
    assert(joined.take(root.len() as int) =~= root);
}

/// Nothing that was sent is lost: an entry that is a regular file or a directory is restored
/// wherever its path, of whatever components, is relative and does not climb. Only entries of other
/// kinds are passed over, and only other paths stop the extraction.
pub proof fn law_nothing_sent_is_lost(components: Seq<Seq<char>>, kind: EntryKind)
    requires
        components.len() > 0,
        forall|i: int| 0 <= i < components.len() ==> !(#[trigger] components[i]).contains('/'),
    ensures
        ({
            let path = text::joined_by(components, '/');
            let inside = !(components.len() > 1 && components[0].len() == 0) && forall|i: int|
                0 <= i < components.len() ==> #[trigger] components[i] != ".."@;
            &&& inside && kind != EntryKind::Other ==> entry_decision(kind, path) == Ok::<
                EntryAction,
                error::Fault,
            >(EntryAction::Unpack)
            &&& inside && kind == EntryKind::Other ==> entry_decision(kind, path) == Ok::<
                EntryAction,
                error::Fault,
            >(EntryAction::Skip)
            &&& !inside ==> entry_decision(kind, path) == Err::<EntryAction, error::Fault>(
                error::fault_about(ErrorKind::UnsafeEntryPath, path),
            )
        }),
{
    paths::law_safe_entries_stay_below(components);
}

/// A regular file or a directory is never passed over.
pub proof fn law_only_other_kinds_are_skipped(kind: EntryKind, path: Seq<char>)
    ensures
        entry_decision(kind, path) == Ok::<EntryAction, error::Fault>(EntryAction::Skip) ==> kind
            == EntryKind::Other,
        entry_decision(kind, path) == Ok::<EntryAction, error::Fault>(EntryAction::Unpack) ==> kind
            != EntryKind::Other,
{
}

} // verus!
