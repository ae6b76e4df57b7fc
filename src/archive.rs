//! The archive's layout: data entries in the caller's order under their
//! normalized paths, then one entry holding the manifest.
use crate::bindings::{tar_accepts, tar_image, tar_pending, TarWriter};
use crate::model::{views, ArchiveEntry, SourceFile};
use crate::paths::{normalize_path, normalized};
use vstd::prelude::*;

verus! {

/// The reserved name of the manifest entry.
pub const MANIFEST_NAME: &'static str = "verify.yml";

/// Why a backup or a restore failed as a whole.
#[derive(Debug, Clone, Copy, PartialEq, Eq, Structural)]
pub enum ArchiveError {
    /// The compressed stream could not be written or read.
    Compression,
    /// An entry or the manifest could not be written or read.
    Format,
    /// The archive holds no manifest entry.
    MissingManifest,
}

/// The data entries written for some files: the bytes of each file under its
/// normalized path, in the caller's order.
pub open spec fn data_entries_of(files: Seq<(Seq<char>, Seq<u8>)>) -> Seq<(Seq<char>, Seq<u8>)> {
    files.map_values(|f: (Seq<char>, Seq<u8>)| (normalized(f.0), f.1))
}

/// The entries of the archive of some files whose encoded manifest is
/// `manifest_text`: the data entries, then the manifest entry; nothing at all
/// for no files.
pub open spec fn archive_entries_of(files: Seq<(Seq<char>, Seq<u8>)>, manifest_text: Seq<u8>) -> Seq<
    (Seq<char>, Seq<u8>),
> {
    if files.len() == 0 {
        Seq::empty()
    } else {
        data_entries_of(files).push((MANIFEST_NAME@, manifest_text))
    }
}

/// The bytes of the last entry named `k`, if there is one.
pub open spec fn last_named(es: Seq<(Seq<char>, Seq<u8>)>, k: Seq<char>) -> Option<Seq<u8>>
    decreases es.len(),
{
    if es.len() == 0 {
        None
    } else if es.last().0 == k {
        Some(es.last().1)
    } else {
        last_named(es.drop_last(), k)
    }
}

/// The encoded manifest that an archive holds: its last manifest entry.
pub open spec fn manifest_text_of(es: Seq<(Seq<char>, Seq<u8>)>) -> Option<Seq<u8>> {
    last_named(es, MANIFEST_NAME@)
}

/// The data stored under path `k`: the last entry of that name, the
/// manifest's own name excepted.
pub open spec fn data_named(es: Seq<(Seq<char>, Seq<u8>)>, k: Seq<char>) -> Option<Seq<u8>> {
    if k == MANIFEST_NAME@ {
        None
    } else {
        last_named(es, k)
    }
}

/// tar accepts the name of every entry of the archive of `files`: each
/// normalized path, and the manifest's name unless there are no files.
pub open spec fn names_accepted(files: Seq<(Seq<char>, Seq<u8>)>) -> bool {
    &&& forall|k: int| 0 <= k < files.len() ==> tar_accepts(#[trigger] normalized(files[k].0))
    &&& files.len() > 0 ==> tar_accepts(MANIFEST_NAME@)
}

/// Writes the tar stream of the archive: one entry per file, in order, named
/// by its normalized path, then the manifest entry unless there are no files.
pub fn write_tar(files: &Vec<SourceFile>, manifest_text: &Vec<u8>) -> (r: Result<Vec<u8>, ArchiveError>)
    ensures
        r is Ok <==> names_accepted(views(files@)),
        r matches Ok(stream) ==> stream@ == tar_image(archive_entries_of(views(files@), manifest_text@)),
        r matches Err(e) ==> e == ArchiveError::Format,
{
    let mut w = TarWriter::new();
    let n: usize = files.len();
    let mut i: usize = 0;
    proof {
        assert(data_entries_of(views(files@).subrange(0, 0)) =~= Seq::<(Seq<char>, Seq<u8>)>::empty());
    }
    while i < n
        invariant
            n == files@.len(),
            i <= n,
            tar_pending(w) == data_entries_of(views(files@).subrange(0, i as int)),
            forall|k: int| 0 <= k < i ==> tar_accepts(#[trigger] normalized(views(files@)[k].0)),
        decreases n - i,
    {
        let name = normalize_path(files[i].rel_path.as_str());
        match w.append(name.as_str(), files[i].data.as_slice()) {
            Ok(()) => {},
            Err(_) => {
                proof {
                    assert(!tar_accepts(normalized(views(files@)[i as int].0)));
                }
                return Err(ArchiveError::Format);
            },
        }
        proof {
            assert(data_entries_of(views(files@).subrange(0, i + 1)) =~= data_entries_of(
                views(files@).subrange(0, i as int),
            ).push((name@, files@[i as int].data@)));
        }
        i = i + 1;
    }
    proof {
        assert(views(files@).subrange(0, n as int) =~= views(files@));
    }
    if n > 0 {
        match w.append(MANIFEST_NAME, manifest_text.as_slice()) {
            Ok(()) => {},
            Err(_) => {
                return Err(ArchiveError::Format);
            },
        }
    }
    match w.finish() {
        Ok(stream) => Ok(stream),
        Err(_) => Err(ArchiveError::Format),
    }
}

/// The index of the last entry named `k`.
pub fn find_last(es: &Vec<ArchiveEntry>, k: &String) -> (r: Option<usize>)
    ensures
        r matches Some(i) ==> i < es@.len() && es@[i as int].name@ == k@ && last_named(
            views(es@),
            k@,
        ) == Some(es@[i as int].data@),
        r is None ==> last_named(views(es@), k@) is None,
{
    let mut i: usize = es.len();
    proof {
        assert(views(es@).subrange(0, i as int) =~= views(es@));
    }
    while i > 0 && !(es[i - 1].name == *k)
        invariant
            i <= es@.len(),
            last_named(views(es@).subrange(0, i as int), k@) == last_named(views(es@), k@),
        decreases i,
    {
        proof {
            assert(views(es@).subrange(0, i as int).drop_last() =~= views(es@).subrange(0, i - 1));
        }
        i = i - 1;
    }
    if i == 0 {
        None
    } else {
        Some(i - 1)
    }
}

} // verus!
