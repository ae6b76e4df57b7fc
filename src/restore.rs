//! Checking the files of an archive against its manifest.
use crate::archive::{data_named, find_last, MANIFEST_NAME};
use crate::bindings::{sha256_hex, sha256_hex_of};
use crate::model::{views, ArchiveEntry, ManifestEntry};
use vstd::prelude::*;

verus! {

/// What a restore did: how many files were written, how many failed, and
/// which paths failed, in manifest order.
pub struct RestoreResult {
    pub success_count: usize,
    pub failed_count: usize,
    pub failed_files: Vec<String>,
}

/// The outcome of checking an archive, and the files to write for it, each
/// under its relative path, in manifest order.
pub struct RestorePlan {
    pub result: RestoreResult,
    pub files: Vec<ArchiveEntry>,
}

/// A manifest line is borne out: the archive holds data under its path, and
/// that data has its digest.
pub open spec fn line_verified(es: Seq<(Seq<char>, Seq<u8>)>, line: (Seq<char>, Seq<char>)) -> bool {
    data_named(es, line.0) matches Some(b) && sha256_hex(b) == line.1
}

/// The paths of the manifest lines that are not borne out, in manifest order.
pub open spec fn failed_paths(es: Seq<(Seq<char>, Seq<u8>)>, m: Seq<(Seq<char>, Seq<char>)>) -> Seq<
    Seq<char>,
>
    decreases m.len(),
{
    if m.len() == 0 {
        Seq::empty()
    } else if line_verified(es, m.last()) {
        failed_paths(es, m.drop_last())
    } else {
        failed_paths(es, m.drop_last()).push(m.last().0)
    }
}

/// The files to write: for each manifest line that is borne out, its path and
/// the data stored under it, in manifest order.
pub open spec fn restored_files(es: Seq<(Seq<char>, Seq<u8>)>, m: Seq<(Seq<char>, Seq<char>)>) -> Seq<
    (Seq<char>, Seq<u8>),
>
    decreases m.len(),
{
    if m.len() == 0 {
        Seq::empty()
    } else if line_verified(es, m.last()) {
        restored_files(es, m.drop_last()).push((m.last().0, data_named(es, m.last().0)->Some_0))
    } else {
        restored_files(es, m.drop_last())
    }
}

/// `plan` is the outcome of checking the entries `es` against manifest `m`.
pub open spec fn plan_for(
    plan: RestorePlan,
    es: Seq<(Seq<char>, Seq<u8>)>,
    m: Seq<(Seq<char>, Seq<char>)>,
) -> bool {
    &&& views(plan.files@) == restored_files(es, m)
    &&& views(plan.result.failed_files@) == failed_paths(es, m)
    &&& plan.result.success_count == restored_files(es, m).len()
    &&& plan.result.failed_count == failed_paths(es, m).len()
}

/// Every manifest line is either restored or failed.
pub proof fn lemma_outcome_counts(es: Seq<(Seq<char>, Seq<u8>)>, m: Seq<(Seq<char>, Seq<char>)>)
    ensures
        restored_files(es, m).len() + failed_paths(es, m).len() == m.len(),
    decreases m.len(),
{
    if m.len() > 0 {
        lemma_outcome_counts(es, m.drop_last());
    }
}

/// Checks every manifest line against the entries: a line whose path has no
/// data entry, or whose data has another digest, fails; the others are to be
/// written. The manifest decides what is restored: an entry it does not name
/// is left alone.
pub fn verify_entries(es: &Vec<ArchiveEntry>, manifest: &Vec<ManifestEntry>) -> (plan: RestorePlan)
    ensures
        plan_for(plan, views(es@), views(manifest@)),
        plan.result.success_count + plan.result.failed_count == manifest@.len(),
{
    let reserved: String = MANIFEST_NAME.to_owned();
    let mut files: Vec<ArchiveEntry> = Vec::new();
    let mut failed: Vec<String> = Vec::new();
    let n: usize = manifest.len();
    let mut i: usize = 0;
    proof {
        assert(views(files@) =~= restored_files(views(es@), views(manifest@).subrange(0, 0)));
        assert(views(failed@) =~= failed_paths(views(es@), views(manifest@).subrange(0, 0)));
    }
    while i < n
        invariant
            n == manifest@.len(),
            i <= n,
            reserved@ == MANIFEST_NAME@,
            views(files@) == restored_files(views(es@), views(manifest@).subrange(0, i as int)),
            views(failed@) == failed_paths(views(es@), views(manifest@).subrange(0, i as int)),
            files@.len() + failed@.len() == i,
        decreases n - i,
    {
        let ghost e = views(es@);
        let ghost prefix = views(manifest@).subrange(0, i + 1);
        proof {
            assert(prefix.drop_last() =~= views(manifest@).subrange(0, i as int));
            assert(prefix.last() == manifest@[i as int]@);
        }
        let path = &manifest[i].path;
        let found = if *path == reserved {
            None
        } else {
            find_last(es, path)
        };
        let mut restored = false;
        if let Some(j) = found {
            let digest = sha256_hex_of(es[j].data.as_slice());
            if digest == manifest[i].digest {
                let ghost before = views(files@);
                files.push(
                    ArchiveEntry {
                        name: path.clone(),
                        data: vstd::slice::slice_to_vec(es[j].data.as_slice()),
                    },
                );
                proof {
                    assert(views(files@) =~= before.push(files@.last()@));
                }
                restored = true;
            }
        }
        if !restored {
            let ghost before = views(failed@);
            failed.push(path.clone());
            proof {
                assert(views(failed@) =~= before.push(path@));
            }
        }
        i = i + 1;
    }
    proof {
        assert(views(manifest@).subrange(0, n as int) =~= views(manifest@));
        lemma_outcome_counts(views(es@), views(manifest@));
    }
    let success_count = files.len();
    let failed_count = failed.len();
    RestorePlan { result: RestoreResult { success_count, failed_count, failed_files: failed }, files }
}

} // verus!
