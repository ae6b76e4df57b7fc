//! The manifest: normalized paths mapped to the digests of their contents,
//! one line per path, in order of first appearance.
use crate::bindings::{sha256_hex, sha256_hex_of};
use crate::model::{views, ManifestEntry, SourceFile};
use crate::paths::{normalize_path, normalized};
use vstd::prelude::*;

verus! {

/// No path appears on two lines.
pub open spec fn keys_unique(m: Seq<(Seq<char>, Seq<char>)>) -> bool {
    forall|i: int, j: int| 0 <= i < j < m.len() ==> m[i].0 != m[j].0
}

/// Some line of the manifest is for path `k`.
pub open spec fn has_key(m: Seq<(Seq<char>, Seq<char>)>, k: Seq<char>) -> bool {
    exists|i: int| 0 <= i < m.len() && m[i].0 == k
}

/// The manifest with `k` mapped to `d`: its line rewritten in place if `k`
/// is there already, else a new line at the end.
pub open spec fn upsert(m: Seq<(Seq<char>, Seq<char>)>, k: Seq<char>, d: Seq<char>) -> Seq<
    (Seq<char>, Seq<char>),
> {
    if has_key(m, k) {
        m.update(choose|i: int| 0 <= i < m.len() && m[i].0 == k, (k, d))
    } else {
        m.push((k, d))
    }
}

/// The manifest of a list of files: each normalized path with the digest of
/// the last file stored under it.
pub open spec fn manifest_of(files: Seq<(Seq<char>, Seq<u8>)>) -> Seq<(Seq<char>, Seq<char>)>
    decreases files.len(),
{
    if files.len() == 0 {
        Seq::empty()
    } else {
        upsert(
            manifest_of(files.drop_last()),
            normalized(files.last().0),
            sha256_hex(files.last().1),
        )
    }
}

/// Upserting into a manifest without repeated paths keeps it so, and the
/// paths it has are the old ones and `k`.
pub proof fn lemma_upsert(m: Seq<(Seq<char>, Seq<char>)>, k: Seq<char>, d: Seq<char>)
    requires
        keys_unique(m),
    ensures
        keys_unique(upsert(m, k, d)),
        forall|x: Seq<char>| has_key(upsert(m, k, d), x) <==> (has_key(m, x) || x == k),
        has_key(m, k) ==> upsert(m, k, d).len() == m.len(),
        !has_key(m, k) ==> upsert(m, k, d).len() == m.len() + 1,
{
    let u = upsert(m, k, d);
    if has_key(m, k) {
        let c = choose|i: int| 0 <= i < m.len() && m[i].0 == k;
        assert forall|x: Seq<char>| has_key(u, x) <==> (has_key(m, x) || x == k) by {
            if has_key(m, x) {
                let i = choose|i: int| 0 <= i < m.len() && m[i].0 == x;
                if i == c {
                    assert(u[c].0 == k);
                } else {
                    assert(u[i].0 == x);
                }
            }
            if x == k {
                assert(u[c].0 == k);
            }
            if has_key(u, x) {
                let i = choose|i: int| 0 <= i < u.len() && u[i].0 == x;
                if i != c {
                    assert(m[i].0 == x);
                }
            }
        }
    } else {
        assert forall|x: Seq<char>| has_key(u, x) <==> (has_key(m, x) || x == k) by {
            if has_key(m, x) {
                let i = choose|i: int| 0 <= i < m.len() && m[i].0 == x;
                assert(u[i].0 == x);
            }
            if x == k {
                assert(u[m.len() as int].0 == k);
            }
            if has_key(u, x) {
                let i = choose|i: int| 0 <= i < u.len() && u[i].0 == x;
                if i < m.len() {
                    assert(m[i].0 == x);
                }
            }
        }
    }
}

/// The manifest of a list of files has no repeated path, and its paths are
/// exactly the normalized paths of the files.
pub proof fn lemma_manifest_keys(files: Seq<(Seq<char>, Seq<u8>)>)
    ensures
        keys_unique(manifest_of(files)),
        forall|x: Seq<char>|
            has_key(manifest_of(files), x) <==> exists|i: int|
                0 <= i < files.len() && normalized(files[i].0) == x,
    decreases files.len(),
{
    if files.len() > 0 {
        let p = files.drop_last();
        lemma_manifest_keys(p);
        lemma_upsert(manifest_of(p), normalized(files.last().0), sha256_hex(files.last().1));
        assert forall|x: Seq<char>|
            has_key(manifest_of(files), x) <==> exists|i: int|
                0 <= i < files.len() && normalized(files[i].0) == x by {
            if exists|i: int| 0 <= i < files.len() && normalized(files[i].0) == x {
                let i = choose|i: int| 0 <= i < files.len() && normalized(files[i].0) == x;
                if i < files.len() - 1 {
                    assert(normalized(p[i].0) == x);
                }
            }
            if has_key(manifest_of(p), x) {
                let i = choose|i: int| 0 <= i < p.len() && normalized(p[i].0) == x;
                assert(normalized(files[i].0) == x);
            }
        }
    }
}

/// Builds the manifest of the files to back up: the normalized path of each
/// file mapped to the digest of its bytes; a path that comes twice keeps its
/// first place and takes the digest of its last file.
pub fn build_manifest(files: &Vec<SourceFile>) -> (m: Vec<ManifestEntry>)
    ensures
        views(m@) == manifest_of(views(files@)),
        keys_unique(views(m@)),
{
    let mut m: Vec<ManifestEntry> = Vec::new();
    let n: usize = files.len();
    let mut i: usize = 0;
    proof {
        assert(views(m@) =~= manifest_of(views(files@).subrange(0, 0)));
    }
    while i < n
        invariant
            n == files@.len(),
            i <= n,
            views(m@) == manifest_of(views(files@).subrange(0, i as int)),
            keys_unique(views(m@)),
        decreases n - i,
    {
        let key = normalize_path(files[i].rel_path.as_str());
        let digest = sha256_hex_of(files[i].data.as_slice());
        let ghost before = views(m@);
        let ghost prefix = views(files@).subrange(0, i + 1);
        proof {
            assert(prefix.drop_last() =~= views(files@).subrange(0, i as int));
            assert(prefix.last() == files@[i as int]@);
            lemma_upsert(before, key@, digest@);
        }
        let mut j: usize = 0;
        while j < m.len() && !(m[j].path == key)
            invariant
                j <= m@.len(),
                before == views(m@),
                forall|t: int| 0 <= t < j ==> m@[t].path@ != key@,
            decreases m@.len() - j,
        {
            j = j + 1;
        }
        if j < m.len() {
            proof {
                assert(before[j as int].0 == key@);
                let c = choose|t: int| 0 <= t < before.len() && before[t].0 == key@;
                assert(c == j);
            }
            m.set(j, ManifestEntry { path: key, digest });
            proof {
                assert(views(m@) =~= upsert(before, key@, digest@));
            }
        } else {
            proof {
                assert(!has_key(before, key@));
            }
            m.push(ManifestEntry { path: key, digest });
            proof {
                assert(views(m@) =~= upsert(before, key@, digest@));
            }
        }
        i = i + 1;
    }
    proof {
        assert(views(files@).subrange(0, n as int) =~= views(files@));
    }
    m
}

} // verus!
