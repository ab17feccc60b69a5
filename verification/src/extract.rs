//! The archive extractor: decompresses the downloaded `.tar.xz` archive and
//! takes the one raw dump file out of the container.
use crate::helper::str_eq;
use vstd::prelude::*;

verus! {

/// The extractor's one failure: the compressed or container data cannot be
/// read, or the container holds no raw dump for the code.
#[derive(Debug, Clone, Copy)]
pub enum ExtractError {
    Corrupt,
}

/// What xz decompression yields for a byte string: `Some` of the plain bytes
/// exactly when the bytes form one well-formed xz stream. A function of the
/// compressed bytes alone.
pub uninterp spec fn xz_plain_of(data: Seq<u8>) -> Option<Seq<u8>>;

/// Relies on xz::read::XzDecoder (liblzma behind xz2): decompresses a single
/// xz stream, failing on corrupt data; the result depends on the compressed
/// bytes alone.
#[verifier::external_body]
fn xz_decompress(data: &[u8]) -> (r: Option<Vec<u8>>)
    ensures
        match r {
            Some(v) => xz_plain_of(data@) == Some(v@),
            None => xz_plain_of(data@) is None,
        },
{
    let mut decoder = xz::read::XzDecoder::new(data);
    let mut out: Vec<u8> = Vec::new();
    match std::io::Read::read_to_end(&mut decoder, &mut out) {
        Ok(_) => Some(out),
        Err(_) => None,
    }
}

/// What reading a tar container yields: `Some` of the archived files — path,
/// then content, in archive order — exactly when the container is well
/// formed. A function of the container bytes alone.
pub uninterp spec fn tar_entries_of(data: Seq<u8>) -> Option<Seq<(Seq<char>, Seq<u8>)>>;

/// The files of a tar listing, viewed.
pub open spec fn tar_entries_view(v: Seq<(String, Vec<u8>)>) -> Seq<(Seq<char>, Seq<u8>)> {
    Seq::new(v.len(), |i: int| (v[i].0@, v[i].1@))
}

/// Relies on tar::Archive::entries, tar::Entry::path and Read::read_to_end:
/// lists the container's files with their contents, failing on corrupt data;
/// the result depends on the container bytes alone.
#[verifier::external_body]
fn tar_entries(data: &[u8]) -> (r: Option<Vec<(String, Vec<u8>)>>)
    ensures
        match r {
            Some(v) => tar_entries_of(data@) == Some(tar_entries_view(v@)),
            None => tar_entries_of(data@) is None,
        },
{
    let mut archive = tar::Archive::new(data);
    let mut out: Vec<(String, Vec<u8>)> = Vec::new();
    for entry in archive.entries().ok()? {
        let mut entry = entry.ok()?;
        let name = entry.path().ok()?.to_string_lossy().into_owned();
        let mut content: Vec<u8> = Vec::new();
        std::io::Read::read_to_end(&mut entry, &mut content).ok()?;
        out.push((name, content));
    }
    Some(out)
}

/// Relies on String::from_utf8: succeeds exactly on valid UTF-8, decoding
/// the bytes to their characters.
#[verifier::external_body]
pub fn utf8_to_string(bytes: Vec<u8>) -> (r: Option<String>)
    ensures
        (r is Some) == vstd::utf8::valid_utf8(bytes@),
        r is Some ==> r.unwrap()@ == vstd::utf8::decode_utf8(bytes@),
{
    String::from_utf8(bytes).ok()
}

/// The name under which an archive stores its raw dump.
pub open spec fn dump_file_name(code: Seq<char>) -> Seq<char> {
    "incorrect_"@ + code + ".json"@
}

/// The content of the first archived file with the given name.
pub open spec fn spec_entry_content(entries: Seq<(Seq<char>, Seq<u8>)>, name: Seq<char>) -> Option<
    Seq<u8>,
>
    decreases entries.len(),
{
    if entries.len() == 0 {
        None
    } else if entries[0].0 == name {
        Some(entries[0].1)
    } else {
        spec_entry_content(entries.drop_first(), name)
    }
}

proof fn lemma_entry_content_at(entries: Seq<(Seq<char>, Seq<u8>)>, name: Seq<char>, i: int)
    requires
        0 <= i < entries.len(),
        entries[i].0 == name,
        forall|j: int| 0 <= j < i ==> entries[j].0 != name,
    ensures
        spec_entry_content(entries, name) == Some(entries[i].1),
    decreases entries.len(),
{
    if i > 0 {
        lemma_entry_content_at(entries.drop_first(), name, i - 1);
    }
}

proof fn lemma_entry_content_absent(entries: Seq<(Seq<char>, Seq<u8>)>, name: Seq<char>)
    requires
        forall|j: int| 0 <= j < entries.len() ==> entries[j].0 != name,
    ensures
        spec_entry_content(entries, name) is None,
    decreases entries.len(),
{
    if entries.len() > 0 {
        lemma_entry_content_absent(entries.drop_first(), name);
    }
}

/// What extraction yields for an archive: the raw dump bytes, or nothing
/// when the stream, the container, or the expected dump file is missing or
/// corrupt.
pub open spec fn spec_extract(archive: Seq<u8>, code: Seq<char>) -> Option<Seq<u8>> {
    match xz_plain_of(archive) {
        None => None,
        Some(plain) => match tar_entries_of(plain) {
            None => None,
            Some(entries) => spec_entry_content(entries, dump_file_name(code)),
        },
    }
}

/// Decompresses the archive and takes the raw dump file out of the
/// container; fails with `Corrupt` exactly when decompression or unpacking
/// fails or no dump for the code is inside.
pub fn extract(archive: &Vec<u8>, code: &str) -> (r: Result<Vec<u8>, ExtractError>)
    ensures
        match r {
            Ok(v) => spec_extract(archive@, code@) == Some(v@),
            Err(e) => e is Corrupt && spec_extract(archive@, code@) is None,
        },
{
    let plain = match xz_decompress(archive.as_slice()) {
        Some(p) => p,
        None => {
            return Err(ExtractError::Corrupt);
        },
    };
    let entries = match tar_entries(plain.as_slice()) {
        Some(e) => e,
        None => {
            return Err(ExtractError::Corrupt);
        },
    };
    let mut expected = String::from_str("incorrect_");
    expected.append(code);
    expected.append(".json");
    let ghost ev = tar_entries_view(entries@);
    let n = entries.len();
    let mut i: usize = 0;
    while i < n
        invariant
            i <= n,
            n == entries@.len(),
            ev == tar_entries_view(entries@),
            expected@ == dump_file_name(code@),
            spec_extract(archive@, code@) == spec_entry_content(ev, expected@),
            forall|j: int| 0 <= j < i ==> ev[j].0 != expected@,
        decreases n - i,
    {
        if str_eq(entries[i].0.as_str(), expected.as_str()) {
            let mut content: Vec<u8> = Vec::new();
            content.extend_from_slice(entries[i].1.as_slice());
            proof {
                lemma_entry_content_at(ev, expected@, i as int);
                assert(content@ =~= ev[i as int].1);
            }
            return Ok(content);
        }
        i += 1;
    }
    proof {
        lemma_entry_content_absent(ev, expected@);
    }
    Err(ExtractError::Corrupt)
}

} // verus!
