//! Backup and restore as whole operations on bytes: files in, compressed
//! archive out; compressed archive in, checked files and an outcome out.
use crate::archive::{
    archive_entries_of, find_last, manifest_text_of, names_accepted, write_tar, ArchiveError,
    MANIFEST_NAME,
};
use crate::bindings::{
    manifest_encodes, manifest_from_yaml, manifest_of_yaml, manifest_parses, manifest_to_yaml,
    manifest_yaml, tar_entries, tar_image, tar_listing, tar_reads, zstd_compress, zstd_content,
    zstd_decodes, zstd_decompress, zstd_encodes, zstd_frame,
};
use crate::manifest::{build_manifest, has_key, lemma_manifest_keys, manifest_of};
use crate::model::{views, ArchiveEntry, SourceFile};
use crate::restore::{plan_for, verify_entries, RestorePlan};
use vstd::prelude::*;

verus! {

/// The compressed archive that backing up `files` at `level` writes.
pub open spec fn backup_image(files: Seq<(Seq<char>, Seq<u8>)>, level: int) -> Seq<u8> {
    zstd_frame(tar_image(archive_entries_of(files, manifest_yaml(manifest_of(files)))), level)
}

/// The tar stream of the archive of `files`, before compression.
pub open spec fn backup_tar(files: Seq<(Seq<char>, Seq<u8>)>) -> Seq<u8> {
    tar_image(archive_entries_of(files, manifest_yaml(manifest_of(files))))
}

/// The manifest of `files` encodes, if there is one to write.
pub open spec fn manifest_written(files: Seq<(Seq<char>, Seq<u8>)>) -> bool {
    files.len() > 0 ==> manifest_encodes(manifest_of(files))
}

/// The archive that restore reads from the compressed bytes `backup`.
pub open spec fn listing_of(backup: Seq<u8>) -> Seq<(Seq<char>, Seq<u8>)> {
    tar_listing(zstd_content(backup))
}

/// The compressed bytes `backup` decompress and hold a readable tar stream.
pub open spec fn archive_readable(backup: Seq<u8>) -> bool {
    zstd_decodes(backup) && tar_reads(zstd_content(backup))
}

/// The archive holds a manifest entry, and its text parses.
pub open spec fn manifest_readable(es: Seq<(Seq<char>, Seq<u8>)>) -> bool {
    match manifest_text_of(es) {
        Some(text) => manifest_parses(text),
        None => false,
    }
}

/// The archive holds a manifest entry whose text does not parse.
pub open spec fn manifest_malformed(es: Seq<(Seq<char>, Seq<u8>)>) -> bool {
    match manifest_text_of(es) {
        Some(text) => !manifest_parses(text),
        None => false,
    }
}

/// The manifest of some files has a line exactly when there are files.
pub proof fn lemma_manifest_empty(files: Seq<(Seq<char>, Seq<u8>)>)
    ensures
        manifest_of(files).len() == 0 <==> files.len() == 0,
{
    lemma_manifest_keys(files);
    if files.len() > 0 {
        let k = crate::paths::normalized(files[0].0);
        assert(has_key(manifest_of(files), k));
    }
}

/// Backs up `files` into one zstd-compressed tar archive at `zstd_level`:
/// each file's bytes under its normalized path, in the given order, then the
/// YAML manifest of their digests under the reserved name. No files give an
/// archive with no entry at all.
pub fn backup_files_as_tar_zst(files: &Vec<SourceFile>, zstd_level: i32) -> (r: Result<
    Vec<u8>,
    ArchiveError,
>)
    ensures
        r is Ok <==> names_accepted(views(files@)) && manifest_written(views(files@))
            && zstd_encodes(backup_tar(views(files@)), zstd_level as int),
        r matches Ok(out) ==> out@ == backup_image(views(files@), zstd_level as int),
        r matches Err(ArchiveError::Format) <==> !names_accepted(views(files@)) || !manifest_written(
            views(files@),
        ),
        r matches Err(ArchiveError::Compression) <==> names_accepted(views(files@))
            && manifest_written(views(files@)) && !zstd_encodes(
            backup_tar(views(files@)),
            zstd_level as int,
        ),
        !(r matches Err(ArchiveError::MissingManifest)),
{
    let manifest = build_manifest(files);
    proof {
        lemma_manifest_empty(views(files@));
    }
    let text = if manifest.len() > 0 {
        match manifest_to_yaml(&manifest) {
            Ok(text) => text,
            Err(_) => {
                return Err(ArchiveError::Format);
            },
        }
    } else {
        Vec::new()
    };
    let stream = match write_tar(files, &text) {
        Ok(stream) => stream,
        Err(e) => {
            return Err(e);
        },
    };
    match zstd_compress(stream.as_slice(), zstd_level) {
        Ok(out) => Ok(out),
        Err(_) => Err(ArchiveError::Compression),
    }
}

/// Checks the entries of an archive against the manifest it holds. An archive
/// without a manifest entry is refused as a whole; so is one whose manifest
/// does not parse.
pub fn restore_from_entries(es: &Vec<ArchiveEntry>) -> (r: Result<RestorePlan, ArchiveError>)
    ensures
        r is Ok <==> manifest_readable(views(es@)),
        r matches Err(ArchiveError::Format) <==> manifest_malformed(views(es@)),
        manifest_text_of(views(es@)) is None <==> r matches Err(ArchiveError::MissingManifest),
        r matches Ok(plan) ==> manifest_text_of(views(es@)) matches Some(text) && plan_for(
            plan,
            views(es@),
            manifest_of_yaml(text),
        ),
        r matches Err(e) ==> e == ArchiveError::MissingManifest || e == ArchiveError::Format,
{
    let reserved: String = MANIFEST_NAME.to_owned();
    match find_last(es, &reserved) {
        None => Err(ArchiveError::MissingManifest),
        Some(j) => match manifest_from_yaml(es[j].data.as_slice()) {
            Ok(manifest) => Ok(verify_entries(es, &manifest)),
            Err(_) => Err(ArchiveError::Format),
        },
    }
}

/// Restores from a zstd-compressed tar archive written by
/// `backup_files_as_tar_zst`: decompresses it, reads every entry, and checks
/// each manifest line against the data stored under its path. Files that fail
/// are reported, not written; the others are handed back to be written.
pub fn restore_files_from_tar_zst(backup: &Vec<u8>) -> (r: Result<RestorePlan, ArchiveError>)
    ensures
        r is Ok <==> archive_readable(backup@) && manifest_readable(listing_of(backup@)),
        r matches Ok(plan) ==> manifest_text_of(listing_of(backup@)) matches Some(text) && plan_for(
            plan,
            listing_of(backup@),
            manifest_of_yaml(text),
        ),
        r matches Err(ArchiveError::Compression) <==> !zstd_decodes(backup@),
        r matches Err(ArchiveError::MissingManifest) <==> archive_readable(backup@)
            && manifest_text_of(listing_of(backup@)) is None,
        r matches Err(ArchiveError::Format) <==> zstd_decodes(backup@) && (!tar_reads(
            zstd_content(backup@),
        ) || manifest_malformed(listing_of(backup@))),
{
    let stream = match zstd_decompress(backup.as_slice()) {
        Ok(stream) => stream,
        Err(_) => {
            return Err(ArchiveError::Compression);
        },
    };
    let es = match tar_entries(stream.as_slice()) {
        Ok(es) => es,
        Err(_) => {
            return Err(ArchiveError::Format);
        },
    };
    restore_from_entries(&es)
}

} // verus!
