//! What holds of backup and restore together.
use crate::archive::{archive_entries_of, data_entries_of, data_named, last_named, manifest_text_of, MANIFEST_NAME};
use crate::bindings::sha256_hex;
use crate::manifest::{has_key, lemma_manifest_keys, manifest_of};
use crate::paths::normalized;
use crate::restore::{failed_paths, line_verified, restored_files};
use vstd::prelude::*;

verus! {

/// No two files share a normalized path.
pub open spec fn distinct_paths(files: Seq<(Seq<char>, Seq<u8>)>) -> bool {
    forall|i: int, j: int|
        0 <= i < files.len() && 0 <= j < files.len() && i != j ==> normalized(files[i].0)
            != normalized(files[j].0)
}

/// No file is stored under the manifest's reserved name.
pub open spec fn clear_of_reserved_name(files: Seq<(Seq<char>, Seq<u8>)>) -> bool {
    forall|i: int| 0 <= i < files.len() ==> normalized(files[i].0) != MANIFEST_NAME@
}

/// One manifest line per file, in order: its normalized path and digest.
pub open spec fn digest_lines(files: Seq<(Seq<char>, Seq<u8>)>) -> Seq<(Seq<char>, Seq<char>)> {
    files.map_values(|f: (Seq<char>, Seq<u8>)| (normalized(f.0), sha256_hex(f.1)))
}

proof fn lemma_prefix_distinct(files: Seq<(Seq<char>, Seq<u8>)>)
    requires
        files.len() > 0,
        distinct_paths(files),
    ensures
        distinct_paths(files.drop_last()),
        !has_key(manifest_of(files.drop_last()), normalized(files.last().0)),
{
    let p = files.drop_last();
    assert forall|i: int, j: int|
        0 <= i < p.len() && 0 <= j < p.len() && i != j implies normalized(p[i].0) != normalized(
            p[j].0,
        ) by {
        assert(p[i] == files[i] && p[j] == files[j]);
    }
    lemma_manifest_keys(p);
    if has_key(manifest_of(p), normalized(files.last().0)) {
        let i = choose|i: int| 0 <= i < p.len() && normalized(p[i].0) == normalized(files.last().0);
        assert(p[i] == files[i]);
    }
}

/// Files with distinct normalized paths give one manifest line each, in
/// their order.
pub proof fn lemma_manifest_lines(files: Seq<(Seq<char>, Seq<u8>)>)
    requires
        distinct_paths(files),
    ensures
        manifest_of(files) == digest_lines(files),
    decreases files.len(),
{
    if files.len() > 0 {
        lemma_prefix_distinct(files);
        lemma_manifest_lines(files.drop_last());
        assert(manifest_of(files) =~= digest_lines(files));
    }
}

proof fn lemma_unique_name(s: Seq<(Seq<char>, Seq<u8>)>, i: int)
    requires
        0 <= i < s.len(),
        forall|j: int| 0 <= j < s.len() && j != i ==> s[j].0 != s[i].0,
    ensures
        last_named(s, s[i].0) == Some(s[i].1),
    decreases s.len(),
{
    if i < s.len() - 1 {
        let p = s.drop_last();
        assert forall|j: int| 0 <= j < p.len() && j != i implies p[j].0 != p[i].0 by {
            assert(p[j] == s[j]);
        }
        lemma_unique_name(p, i);
    }
}

/// In an archive of files with distinct normalized paths, none of them the
/// reserved name, each file's bytes are found under its normalized path,
/// also after the bytes of some entries are replaced.
proof fn lemma_found_under_path(
    files: Seq<(Seq<char>, Seq<u8>)>,
    text: Seq<u8>,
    es: Seq<(Seq<char>, Seq<u8>)>,
    i: int,
)
    requires
        files.len() > 0,
        distinct_paths(files),
        clear_of_reserved_name(files),
        0 <= i < files.len(),
        es.len() == files.len() + 1,
        forall|j: int| 0 <= j < files.len() ==> #[trigger] es[j].0 == normalized(files[j].0),
        es[files.len() as int] == (MANIFEST_NAME@, text),
    ensures
        data_named(es, normalized(files[i].0)) == Some(es[i].1),
{
    assert forall|j: int| 0 <= j < es.len() && j != i implies es[j].0 != es[i].0 by {
        if j < files.len() {
            assert(es[j].0 == normalized(files[j].0));
        }
    }
    lemma_unique_name(es, i);
}

/// When every line of a manifest is borne out, nothing fails and every line
/// is restored with the data under its path.
pub proof fn lemma_all_lines_verified(es: Seq<(Seq<char>, Seq<u8>)>, m: Seq<(Seq<char>, Seq<char>)>)
    requires
        forall|i: int| 0 <= i < m.len() ==> line_verified(es, #[trigger] m[i]),
    ensures
        failed_paths(es, m) == Seq::<Seq<char>>::empty(),
        restored_files(es, m) == m.map_values(
            |l: (Seq<char>, Seq<char>)| (l.0, data_named(es, l.0)->Some_0),
        ),
    decreases m.len(),
{
    if m.len() > 0 {
        let p = m.drop_last();
        assert forall|i: int| 0 <= i < p.len() implies line_verified(es, #[trigger] p[i]) by {
            assert(p[i] == m[i]);
        }
        assert(line_verified(es, m[m.len() - 1]));
        lemma_all_lines_verified(es, p);
        assert(restored_files(es, m) =~= m.map_values(
            |l: (Seq<char>, Seq<char>)| (l.0, data_named(es, l.0)->Some_0),
        ));
    }
}

/// Round trip: restoring the entries that a backup of files with distinct
/// normalized paths (none of them the reserved name) writes, against the
/// manifest built for them, finds the manifest, fails no file, and writes
/// every file's bytes under its normalized path, in the files' order.
pub proof fn lemma_round_trip(files: Seq<(Seq<char>, Seq<u8>)>, text: Seq<u8>)
    requires
        files.len() > 0,
        distinct_paths(files),
        clear_of_reserved_name(files),
    ensures
        manifest_text_of(archive_entries_of(files, text)) == Some(text),
        failed_paths(archive_entries_of(files, text), manifest_of(files)) == Seq::<Seq<char>>::empty(),
        restored_files(archive_entries_of(files, text), manifest_of(files)) == data_entries_of(files),
        restored_files(archive_entries_of(files, text), manifest_of(files)).len() == files.len(),
{
    let es = archive_entries_of(files, text);
    let m = manifest_of(files);
    lemma_manifest_lines(files);
    assert forall|i: int| 0 <= i < m.len() implies line_verified(es, #[trigger] m[i]) by {
        lemma_found_under_path(files, text, es, i);
    }
    lemma_all_lines_verified(es, m);
    assert forall|i: int| 0 <= i < files.len() implies data_named(es, normalized(files[i].0))
        == Some(files[i].1) by {
        lemma_found_under_path(files, text, es, i);
    }
    assert(restored_files(es, m) =~= data_entries_of(files));
}

/// Tamper detection: when the bytes of one data entry of such an archive are
/// replaced by bytes with another digest, exactly that file fails and every
/// other file is still restored, in order.
pub proof fn lemma_tamper_detected(
    files: Seq<(Seq<char>, Seq<u8>)>,
    text: Seq<u8>,
    t: int,
    tampered: Seq<u8>,
)
    requires
        files.len() > 0,
        distinct_paths(files),
        clear_of_reserved_name(files),
        0 <= t < files.len(),
        sha256_hex(tampered) != sha256_hex(files[t].1),
    ensures
        ({
            let es = archive_entries_of(files, text).update(t, (normalized(files[t].0), tampered));
            &&& manifest_text_of(es) == Some(text)
            &&& failed_paths(es, manifest_of(files)) == seq![normalized(files[t].0)]
            &&& restored_files(es, manifest_of(files)) == data_entries_of(files).remove(t)
        }),
{
    let es = archive_entries_of(files, text).update(t, (normalized(files[t].0), tampered));
    let m = manifest_of(files);
    lemma_manifest_lines(files);
    assert(es.last() == (MANIFEST_NAME@, text));
    assert forall|i: int| 0 <= i < files.len() implies data_named(es, normalized(files[i].0)) == Some(
        if i == t {
            tampered
        } else {
            files[i].1
        },
    ) by {
        lemma_found_under_path(files, text, es, i);
    }
    lemma_tamper_prefix(files, es, t, tampered, files.len() as int);
    assert(m.subrange(0, files.len() as int) =~= m);
    assert(files.subrange(0, files.len() as int) =~= files);
}

proof fn lemma_tamper_prefix(
    files: Seq<(Seq<char>, Seq<u8>)>,
    es: Seq<(Seq<char>, Seq<u8>)>,
    t: int,
    tampered: Seq<u8>,
    n: int,
)
    requires
        0 <= t < files.len(),
        0 <= n <= files.len(),
        sha256_hex(tampered) != sha256_hex(files[t].1),
        forall|i: int|
            0 <= i < files.len() ==> data_named(es, normalized(files[i].0)) == Some(
                if i == t {
                    tampered
                } else {
                    files[i].1
                },
            ),
    ensures
        failed_paths(es, digest_lines(files).subrange(0, n)) == if t < n {
            seq![normalized(files[t].0)]
        } else {
            Seq::<Seq<char>>::empty()
        },
        restored_files(es, digest_lines(files).subrange(0, n)) == if t < n {
            data_entries_of(files.subrange(0, n).remove(t))
        } else {
            data_entries_of(files.subrange(0, n))
        },
    decreases n,
{
    let m = digest_lines(files).subrange(0, n);
    if n > 0 {
        lemma_tamper_prefix(files, es, t, tampered, n - 1);
        assert(m.drop_last() =~= digest_lines(files).subrange(0, n - 1));
        let i = n - 1;
        assert(m.last() == (normalized(files[i].0), sha256_hex(files[i].1)));
        if i == t {
            assert(!line_verified(es, m.last()));
            assert(files.subrange(0, n).remove(t) =~= files.subrange(0, n - 1));
        } else {
            assert(line_verified(es, m.last()));
            if t < n {
                assert(data_entries_of(files.subrange(0, n).remove(t)) =~= data_entries_of(
                    files.subrange(0, n - 1).remove(t),
                ).push((normalized(files[i].0), files[i].1)));
            } else {
                assert(data_entries_of(files.subrange(0, n)) =~= data_entries_of(
                    files.subrange(0, n - 1),
                ).push((normalized(files[i].0), files[i].1)));
            }
        }
    } else {
        assert(data_entries_of(files.subrange(0, 0)) =~= Seq::<(Seq<char>, Seq<u8>)>::empty());
    }
}

/// Manifest completeness: N files with distinct normalized paths give a
/// manifest of N lines and an archive of N + 1 entries, the manifest last.
pub proof fn lemma_manifest_complete(files: Seq<(Seq<char>, Seq<u8>)>, text: Seq<u8>)
    requires
        files.len() > 0,
        distinct_paths(files),
    ensures
        manifest_of(files).len() == files.len(),
        archive_entries_of(files, text).len() == files.len() + 1,
        archive_entries_of(files, text).last() == (MANIFEST_NAME@, text),
{
    lemma_manifest_lines(files);
}

/// Empty input: a backup of no files writes no entry, hence no manifest, and
/// restoring it is refused for the missing manifest.
pub proof fn lemma_empty_backup(text: Seq<u8>)
    ensures
        archive_entries_of(Seq::empty(), text).len() == 0,
        manifest_text_of(archive_entries_of(Seq::empty(), text)) is None,
{
}

/// A manifest line whose path has no data entry fails, and is reported.
pub proof fn lemma_absent_path_fails(
    es: Seq<(Seq<char>, Seq<u8>)>,
    m: Seq<(Seq<char>, Seq<char>)>,
    i: int,
)
    requires
        0 <= i < m.len(),
        data_named(es, m[i].0) is None,
    ensures
        failed_paths(es, m).contains(m[i].0),
    decreases m.len(),
{
    if i == m.len() - 1 {
        assert(failed_paths(es, m).last() == m[i].0);
    } else {
        let p = m.drop_last();
        assert(p[i] == m[i]);
        lemma_absent_path_fails(es, p, i);
        let k = choose|j: int| 0 <= j < failed_paths(es, p).len() && failed_paths(es, p)[j] == m[i].0;
        if !line_verified(es, m.last()) {
            assert(failed_paths(es, m)[k] == m[i].0);
        }
    }
}

} // verus!
