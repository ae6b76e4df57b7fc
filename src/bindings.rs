//! The calls into sha2, tar, zstd and serde_yaml_ng, and the names of what
//! they return.
use crate::model::{views, ArchiveEntry, ManifestEntry};
use vstd::prelude::*;

verus! {

#[verifier::external_type_specification]
#[verifier::external_body]
pub struct ExIoError(std::io::Error);

#[verifier::external_type_specification]
#[verifier::external_body]
pub struct ExYamlError(serde_yaml_ng::Error);

/// The lowercase hex SHA-256 digest of some bytes.
pub uninterp spec fn sha256_hex(data: Seq<u8>) -> Seq<char>;

/// The YAML text, as bytes, of a manifest written as a mapping from path to
/// digest in the manifest's order.
pub uninterp spec fn manifest_yaml(m: Seq<(Seq<char>, Seq<char>)>) -> Seq<u8>;

/// The manifest that a YAML mapping from path to digest holds, in document
/// order.
pub uninterp spec fn manifest_of_yaml(text: Seq<u8>) -> Seq<(Seq<char>, Seq<char>)>;

/// The entries appended so far to a tar stream under construction.
pub uninterp spec fn tar_pending(w: TarWriter) -> Seq<(Seq<char>, Seq<u8>)>;

/// The finished tar stream that holds the given entries in order.
pub uninterp spec fn tar_image(entries: Seq<(Seq<char>, Seq<u8>)>) -> Seq<u8>;

/// The entries that reading a tar stream yields, in order.
pub uninterp spec fn tar_listing(stream: Seq<u8>) -> Seq<(Seq<char>, Seq<u8>)>;

/// The zstd frame that compressing some bytes at a level produces.
pub uninterp spec fn zstd_frame(data: Seq<u8>, level: int) -> Seq<u8>;

/// The bytes that decompressing a zstd stream gives back.
pub uninterp spec fn zstd_content(stream: Seq<u8>) -> Seq<u8>;

/// tar accepts `name` as the path of an entry.
pub uninterp spec fn tar_accepts(name: Seq<char>) -> bool;

/// zstd compresses `data` at `level` without error.
pub uninterp spec fn zstd_encodes(data: Seq<u8>, level: int) -> bool;

/// `stream` is a zstd stream that decompresses without error.
pub uninterp spec fn zstd_decodes(stream: Seq<u8>) -> bool;

/// `stream` is a tar stream whose entries all read without error.
pub uninterp spec fn tar_reads(stream: Seq<u8>) -> bool;

/// The manifest encodes as YAML without error.
pub uninterp spec fn manifest_encodes(m: Seq<(Seq<char>, Seq<char>)>) -> bool;

/// `text` parses as a YAML mapping from strings to strings.
pub uninterp spec fn manifest_parses(text: Seq<u8>) -> bool;

/// Relies on sha2's `Sha256::digest`, printed with `{:x}`: the 32 bytes of
/// the digest of `data` as 64 lowercase hex digits.
#[verifier::external_body]
pub(crate) fn sha256_hex_of(data: &[u8]) -> (r: String)
    ensures
        r@ == sha256_hex(data@),
        r@.len() == 64,
        forall|i: int| 0 <= i < r@.len() ==> ('0' <= #[trigger] r@[i] <= '9' || 'a' <= r@[i] <= 'f'),
{
    format!("{:x}", <sha2::Sha256 as sha2::Digest>::digest(data))
}

/// Relies on `serde_yaml_ng::to_string` of an `IndexMap` built from the
/// entries in order.
#[verifier::external_body]
pub(crate) fn manifest_to_yaml(m: &Vec<ManifestEntry>) -> (r: Result<Vec<u8>, serde_yaml_ng::Error>)
    ensures
        r is Ok <==> manifest_encodes(views(m@)),
        r matches Ok(text) ==> text@ == manifest_yaml(views(m@)),
{
    let map: indexmap::IndexMap<&str, &str> = m.iter().map(
        |e| (e.path.as_str(), e.digest.as_str()),
    ).collect();
    serde_yaml_ng::to_string(&map).map(String::into_bytes)
}

/// Relies on `serde_yaml_ng::from_slice` into an `IndexMap<String, String>`,
/// whose entries come out in document order.
#[verifier::external_body]
pub(crate) fn manifest_from_yaml(text: &[u8]) -> (r: Result<Vec<ManifestEntry>, serde_yaml_ng::Error>)
    ensures
        r is Ok <==> manifest_parses(text@),
        r matches Ok(m) ==> views(m@) == manifest_of_yaml(text@),
{
    let map: indexmap::IndexMap<String, String> = serde_yaml_ng::from_slice(text)?;
    Ok(map.into_iter().map(|(path, digest)| ManifestEntry { path, digest }).collect())
}

/// A tar stream written into memory through tar's `Builder`.
#[verifier::external_body]
pub struct TarWriter {
    builder: tar::Builder<Vec<u8>>,
}

impl TarWriter {
    /// Relies on `tar::Builder::new` over an empty buffer: no entry yet.
    #[verifier::external_body]
    pub(crate) fn new() -> (w: TarWriter)
        ensures
            tar_pending(w) == Seq::<(Seq<char>, Seq<u8>)>::empty(),
    {
        TarWriter { builder: tar::Builder::new(Vec::new()) }
    }

    /// Relies on `tar::Builder::append_data` with a GNU header (size of
    /// `data`, mode 0o644): writing into a `Vec` fails only when the path is
    /// refused, and on success the entry follows the earlier ones.
    #[verifier::external_body]
    pub(crate) fn append(&mut self, name: &str, data: &[u8]) -> (r: Result<(), std::io::Error>)
        ensures
            r is Ok <==> tar_accepts(name@),
            r is Ok ==> tar_pending(*final(self)) == tar_pending(*old(self)).push((name@, data@)),
    {
        let mut header = tar::Header::new_gnu();
        header.set_size(data.len() as u64);
        header.set_mode(0o644);
        self.builder.append_data(&mut header, name, data)
    }

    /// Relies on `tar::Builder::into_inner`: it writes the end of the archive
    /// into the `Vec`, which cannot fail, and hands back the whole stream.
    #[verifier::external_body]
    pub(crate) fn finish(self) -> (r: Result<Vec<u8>, std::io::Error>)
        ensures
            r is Ok,
            r matches Ok(stream) ==> stream@ == tar_image(tar_pending(self)),
    {
        self.builder.into_inner()
    }
}

/// Relies on `tar::Archive::entries`: every entry of the stream in order, its
/// path read lossily as UTF-8 and its contents read to the end.
#[verifier::external_body]
pub(crate) fn tar_entries(stream: &[u8]) -> (r: Result<Vec<ArchiveEntry>, std::io::Error>)
    ensures
        r is Ok <==> tar_reads(stream@),
        r matches Ok(es) ==> views(es@) == tar_listing(stream@),
{
    let mut archive = tar::Archive::new(stream);
    archive.entries()?.map(|entry| {
        let mut entry = entry?;
        let name = entry.path()?.to_string_lossy().to_string();
        let mut data = Vec::new();
        std::io::Read::read_to_end(&mut entry, &mut data)?;
        Ok(ArchiveEntry { name, data })
    }).collect()
}

/// Relies on `zstd::stream::encode_all`: one zstd frame of `data` at `level`.
#[verifier::external_body]
pub(crate) fn zstd_compress(data: &[u8], level: i32) -> (r: Result<Vec<u8>, std::io::Error>)
    ensures
        r is Ok <==> zstd_encodes(data@, level as int),
        r matches Ok(frame) ==> frame@ == zstd_frame(data@, level as int),
{
    zstd::stream::encode_all(data, level)
}

/// Relies on `zstd::stream::decode_all`: the decompressed bytes of `stream`.
#[verifier::external_body]
pub(crate) fn zstd_decompress(stream: &[u8]) -> (r: Result<Vec<u8>, std::io::Error>)
    ensures
        r is Ok <==> zstd_decodes(stream@),
        r matches Ok(data) ==> data@ == zstd_content(stream@),
{
    zstd::stream::decode_all(stream)
}

} // verus!
