use vstd::prelude::*;

verus! {

/// A file to back up: its relative path as the caller gave it, and its bytes.
pub struct SourceFile {
    pub rel_path: String,
    pub data: Vec<u8>,
}

impl View for SourceFile {
    type V = (Seq<char>, Seq<u8>);

    open spec fn view(&self) -> (Seq<char>, Seq<u8>) {
        (self.rel_path@, self.data@)
    }
}

/// One named blob of an archive.
pub struct ArchiveEntry {
    pub name: String,
    pub data: Vec<u8>,
}

impl View for ArchiveEntry {
    type V = (Seq<char>, Seq<u8>);

    open spec fn view(&self) -> (Seq<char>, Seq<u8>) {
        (self.name@, self.data@)
    }
}

/// One line of a manifest: a normalized path and the hex digest of its bytes.
pub struct ManifestEntry {
    pub path: String,
    pub digest: String,
}

impl View for ManifestEntry {
    type V = (Seq<char>, Seq<char>);

    open spec fn view(&self) -> (Seq<char>, Seq<char>) {
        (self.path@, self.digest@)
    }
}

/// The views of a sequence of values.
pub open spec fn views<T: View>(s: Seq<T>) -> Seq<T::V> {
    s.map_values(|x: T| x@)
}

} // verus!
