//! Loading the stored snapshot at start-up: a missing file starts an empty
//! store, an untagged snapshot is upgraded, and anything unreadable or
//! inconsistent is refused rather than silently dropped.

use vstd::prelude::*;

use crate::models::{DatabaseModel, DatabaseModelView, DatabaseVersion};

pub mod migration_to_v1;

verus! {

/// What was found in storage.
pub enum StoredFile {
    /// There is no stored snapshot yet.
    Missing,
    /// A file is there, but it is neither generation of the snapshot.
    Unreadable,
    /// A snapshot without a version tag.
    Untagged(migration_to_v1::DatabaseModel),
    /// A snapshot tagged with the current version.
    V1(DatabaseModel),
}

/// What a stored file holds.
pub enum StoredFileView {
    Missing,
    Unreadable,
    Untagged(migration_to_v1::DatabaseModelView),
    V1(DatabaseModelView),
}

impl View for StoredFile {
    type V = StoredFileView;

    open spec fn view(&self) -> StoredFileView {
        match self {
            StoredFile::Missing => StoredFileView::Missing,
            StoredFile::Unreadable => StoredFileView::Unreadable,
            StoredFile::Untagged(m) => StoredFileView::Untagged(m@),
            StoredFile::V1(m) => StoredFileView::V1(m@),
        }
    }
}

/// Why no store could be started.
#[derive(Clone, Copy, Debug, PartialEq, Eq, Structural)]
pub enum MigrationError {
    /// The stored snapshot is unreadable, or breaks the store's invariant.
    CorruptStore,
}

/// The empty snapshot.
pub open spec fn empty_view() -> DatabaseModelView {
    DatabaseModelView { entries: Seq::empty(), users: Seq::empty() }
}

/// The snapshot that start-up makes of a stored file.
pub open spec fn migrated(f: StoredFileView) -> Result<DatabaseModelView, MigrationError> {
    match f {
        StoredFileView::Missing => Ok(empty_view()),
        StoredFileView::Unreadable => Err(MigrationError::CorruptStore),
        StoredFileView::Untagged(m) => if m.wf() {
            Ok(migration_to_v1::upgraded(m))
        } else {
            Err(MigrationError::CorruptStore)
        },
        StoredFileView::V1(m) => if m.wf() {
            Ok(m)
        } else {
            Err(MigrationError::CorruptStore)
        },
    }
}

/// Turns what was found in storage into the snapshot of the current schema.
pub fn migrate(stored: StoredFile) -> (r: Result<DatabaseModel, MigrationError>)
    ensures
        match (r, migrated(stored@)) {
            (Ok(m), Ok(v)) => m@ == v && m.database_version == DatabaseVersion::V1,
            (Err(e), Err(f)) => e == f,
            _ => false,
        },
        r matches Ok(m) ==> m@.wf(),
{
    match stored {
        StoredFile::Missing => {
            let m = DatabaseModel::default();
            assert(m@.entries =~= empty_view().entries);
            assert(m@.users =~= empty_view().users);
            Ok(m)
        },
        StoredFile::Unreadable => Err(MigrationError::CorruptStore),
        StoredFile::Untagged(m) => {
            let ghost v = m@;
            let upgraded = m.to_v1();
            if upgraded.is_consistent() {
                proof {
                    lemma_upgraded_wf(v);
                }
                Ok(upgraded)
            } else {
                proof {
                    lemma_upgraded_wf(v);
                }
                Err(MigrationError::CorruptStore)
            }
        },
        StoredFile::V1(m) => {
            if m.is_consistent() {
                let mut m = m;
                m.database_version = DatabaseVersion::V1;
                Ok(m)
            } else {
                Err(MigrationError::CorruptStore)
            }
        },
    }
}

/// An untagged snapshot keeps the invariant through the upgrade exactly
/// when it held it.
proof fn lemma_upgraded_wf(m: migration_to_v1::DatabaseModelView)
    ensures
        migration_to_v1::upgraded(m).wf() == m.wf(),
{
    let u = migration_to_v1::upgraded(m);
    assert(u.entries.len() == m.entries.len());
    assert forall|i: int| 0 <= i < m.entries.len() implies u.entries[i].0 == m.entries[i].0
        && u.entries[i].1 == migration_to_v1::upgraded_list(m.entries[i].1) by {}
    if u.wf() {
        assert forall|i: int, j: int|
            0 <= i < m.entries.len() && 0 <= j < m.entries.len() && i != j implies m.entries[i].0
            != m.entries[j].0 by {
            assert(u.entries[i].0 != u.entries[j].0);
        }
        assert forall|i: int| 0 <= i < m.entries.len() implies crate::models::ids_distinct(
            #[trigger] migration_to_v1::upgraded_list(m.entries[i].1),
        ) by {
            assert(crate::models::ids_distinct(u.entries[i].1));
        }
    }
    if m.wf() {
        assert forall|i: int, j: int|
            0 <= i < u.entries.len() && 0 <= j < u.entries.len() && i != j implies u.entries[i].0
            != u.entries[j].0 by {
            assert(m.entries[i].0 != m.entries[j].0);
        }
        assert forall|i: int| 0 <= i < u.entries.len() implies crate::models::ids_distinct(
            #[trigger] u.entries[i].1,
        ) by {
            assert(crate::models::ids_distinct(migration_to_v1::upgraded_list(m.entries[i].1)));
        }
    }
}

} // verus!
