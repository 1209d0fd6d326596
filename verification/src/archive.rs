use vstd::prelude::*;
use crate::errors::ApkError;

verus! {

/// The classification of one payload entry, decided from entry metadata
/// alone: regular files and symbolic links are extracted, everything else
/// (directories, device nodes, ...) is skipped silently.
#[derive(Clone, Copy, Debug, PartialEq, Eq, Structural)]
pub enum EntryKind {
    Regular,
    Symlink,
    Other,
}

/// Ghost model of one archive entry.
pub struct EntryModel {
    pub typeflag: u8,
    pub path: Seq<u8>,
    pub link: Seq<u8>,
    pub content: Seq<u8>,
}

/// One entry of a tar stream, as plain values: the header's type flag, the
/// entry path, the link target (empty when the header carries none), and
/// the content bytes.
pub struct RawEntry {
    pub typeflag: u8,
    pub path: Vec<u8>,
    pub link: Vec<u8>,
    pub content: Vec<u8>,
}

impl View for RawEntry {
    type V = EntryModel;

    open spec fn view(&self) -> EntryModel {
        EntryModel {
            typeflag: self.typeflag,
            path: self.path@,
            link: self.link@,
            content: self.content@,
        }
    }
}

/// The classification a tar type flag encodes: `0x30` is a regular file
/// (the reader normalises the old-style NUL flag to it), `0x32` a symbolic
/// link, anything else is irrelevant to the output.
pub open spec fn kind_of(t: u8) -> EntryKind {
    if t == 0x30 {
        EntryKind::Regular
    } else if t == 0x32 {
        EntryKind::Symlink
    } else {
        EntryKind::Other
    }
}

/// Classifies a type flag.
pub fn classify(t: u8) -> (r: EntryKind)
    ensures
        r == kind_of(t),
{
    if t == 0x30 {
        EntryKind::Regular
    } else if t == 0x32 {
        EntryKind::Symlink
    } else {
        EntryKind::Other
    }
}

/// The entries of the tar stream `data`, in stream order: for each, its
/// normalised type flag, path bytes, link-target bytes and content bytes.
pub uninterp spec fn tar_entries_of(data: Seq<u8>) -> Seq<EntryModel>;

/// Whether `data` parses as a tar stream: whether reading its entries,
/// their headers, paths, link targets and contents succeeds. A function of
/// the bytes alone.
pub uninterp spec fn tar_ok(data: Seq<u8>) -> bool;

/// The bytes that gzip decompression of `data` yields.
pub uninterp spec fn gunzip_of(data: Seq<u8>) -> Seq<u8>;

/// Whether `data` decompresses as a gzip stream. A function of the bytes
/// alone.
pub uninterp spec fn gunzip_ok(data: Seq<u8>) -> bool;

/// Relies on tar::Archive and tar::Entry: `entries` walks the tar stream
/// once, in order; per entry, `entry_type().as_byte()` is the normalised
/// header type flag, `path_bytes` and `link_name_bytes` are the header's
/// path and link target, and `read_to_end` yields the entry's content. All
/// of it is a function of the input bytes alone.
#[verifier::external_body]
pub(crate) fn read_tar_entries(data: &Vec<u8>) -> (r: Result<Vec<RawEntry>, ApkError>)
    ensures
        r is Ok <==> tar_ok(data@),
        r matches Ok(v) ==> v@.map_values(|e: RawEntry| e@) == tar_entries_of(data@),
        r matches Err(e) ==> e == ApkError::ArchiveFormatError,
{
    let mut ar = tar::Archive::new(data.as_slice());
    let mut out: Vec<RawEntry> = Vec::new();
    for ent in ar.entries().map_err(|_| ApkError::ArchiveFormatError)? {
        let mut ent = ent.map_err(|_| ApkError::ArchiveFormatError)?;
        let typeflag = ent.header().entry_type().as_byte();
        let path = ent.path_bytes().to_vec();
        let link = match ent.link_name_bytes() {
            Some(l) => l.to_vec(),
            None => Vec::new(),
        };
        let mut content: Vec<u8> = Vec::new();
        std::io::Read::read_to_end(&mut ent, &mut content).map_err(|_| ApkError::ArchiveFormatError)?;
        out.push(RawEntry { typeflag, path, link, content });
    }
    Ok(out)
}

/// Relies on flate2::read::GzDecoder: gzip decompression, a function of the
/// input bytes alone.
#[verifier::external_body]
pub(crate) fn gunzip(data: &Vec<u8>) -> (r: Result<Vec<u8>, ApkError>)
    ensures
        r is Ok <==> gunzip_ok(data@),
        r matches Ok(v) ==> v@ == gunzip_of(data@),
        r matches Err(e) ==> e == ApkError::ArchiveFormatError,
{
    let mut dec = flate2::read::GzDecoder::new(data.as_slice());
    let mut out: Vec<u8> = Vec::new();
    match std::io::Read::read_to_end(&mut dec, &mut out) {
        Ok(_) => Ok(out),
        Err(_) => Err(ApkError::ArchiveFormatError),
    }
}

} // verus!
