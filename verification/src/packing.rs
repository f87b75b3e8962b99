//! Packing a local folder for upload: the files read from it, the check on
//! their paths, and the gzip-compressed tar archive that carries them.

use vstd::prelude::*;

use crate::paths::{escapes, sanitized};
use crate::tools::archive_member_allowed;

verus! {

/// A regular file to pack: its path under the folder, as bytes; its
/// permission bits, modification time, owner and group; and its contents.
pub struct ArchiveFile {
    pub path: Vec<u8>,
    pub mode: u32,
    pub mtime: u64,
    pub uid: u64,
    pub gid: u64,
    pub contents: Vec<u8>,
}

/// A file to pack as plain values.
pub struct ArchiveFileView {
    pub path: Seq<u8>,
    pub mode: u32,
    pub mtime: u64,
    pub uid: u64,
    pub gid: u64,
    pub contents: Seq<u8>,
}

impl View for ArchiveFile {
    type V = ArchiveFileView;

    open spec fn view(&self) -> ArchiveFileView {
        ArchiveFileView {
            path: self.path@,
            mode: self.mode,
            mtime: self.mtime,
            uid: self.uid,
            gid: self.gid,
            contents: self.contents@,
        }
    }
}

/// Files to pack as plain values.
pub open spec fn files_view(files: Seq<ArchiveFile>) -> Seq<ArchiveFileView> {
    files.map_values(|f: ArchiveFile| f@)
}

/// The gzip-compressed tar archive that `tar::Builder` over
/// `flate2::write::GzEncoder` writes for these files, in order, or `None`
/// where it refuses one of them.
pub uninterp spec fn tar_gz_encoding(files: Seq<ArchiveFileView>) -> Option<Seq<u8>>;

/// Writes the files, in order, as regular members of a tar archive
/// (`tar::Builder::append_data` with a GNU header carrying each file's size,
/// mode, modification time, owner and group, the fields that `append_file`
/// fills in from a file's metadata),
/// compressed by `flate2::write::GzEncoder` at the default level. A path
/// that is not UTF-8 is refused as `tar` refuses others. The contract says
/// only that the result is a function of the files; it does not say how the
/// archive is laid out.
#[verifier::external_body]
fn encode_tar_gz(files: &Vec<ArchiveFile>) -> (r: Option<Vec<u8>>)
    ensures
        match r {
            Some(b) => tar_gz_encoding(files_view(files@)) == Some(b@),
            None => tar_gz_encoding(files_view(files@)) is None,
        },
{
    let mut builder = tar::Builder::new(flate2::write::GzEncoder::new(Vec::new(), flate2::Compression::default()));
    for file in files.iter() {
        let mut header = tar::Header::new_gnu();
        header.set_entry_type(tar::EntryType::Regular);
        header.set_mode(file.mode);
        header.set_mtime(file.mtime);
        header.set_uid(file.uid);
        header.set_gid(file.gid);
        header.set_size(file.contents.len() as u64);
        let Ok(path) = std::str::from_utf8(&file.path) else { return None };
        if builder.append_data(&mut header, path, file.contents.as_slice()).is_err() { return None; }
    }
    let Ok(encoder) = builder.into_inner() else { return None };
    encoder.finish().ok()
}

/// Why a folder could not be packed.
#[derive(Clone, Copy, PartialEq, Eq, Structural, Debug)]
pub enum PackError {
    /// The file with this index has an absolute path or a `..` component.
    InvalidPath(usize),
    /// The archive could not be written.
    Encoding,
}

/// Whether none of the files has a path that escapes.
pub open spec fn all_paths_stay_inside(files: Seq<ArchiveFile>) -> bool {
    forall|j: int| 0 <= j < files.len() ==> !escapes(#[trigger] files[j].path@)
}

/// Packs the files read from a folder for upload: refuses the first whose
/// path is absolute or has a `..` component, else writes them as a
/// gzip-compressed tar archive.
pub fn build_upload_archive(files: &Vec<ArchiveFile>) -> (r: Result<Vec<u8>, PackError>)
    ensures
        match r {
            Err(PackError::InvalidPath(i)) => {
                &&& i < files@.len()
                &&& escapes(files@[i as int].path@)
                &&& forall|j: int| 0 <= j < i ==> !escapes(#[trigger] files@[j].path@)
            },
            Err(PackError::Encoding) => all_paths_stay_inside(files@) && tar_gz_encoding(
                files_view(files@),
            ) is None,
            Ok(b) => all_paths_stay_inside(files@) && tar_gz_encoding(files_view(files@)) == Some(
                b@,
            ),
        },
{
    let n = files.len();
    let mut i: usize = 0;
    while i < n
        invariant
            i <= n,
            n == files@.len(),
            forall|j: int| 0 <= j < i ==> !escapes(#[trigger] files@[j].path@),
        decreases n - i,
    {
        if !archive_member_allowed(files[i].path.as_slice()) {
            return Err(PackError::InvalidPath(i));
        }
        i = i + 1;
    }
    match encode_tar_gz(files) {
        Some(b) => Ok(b),
        None => Err(PackError::Encoding),
    }
}

/// Every path in an archive that packing produced passes the server's check
/// on member paths.
pub proof fn lemma_packed_paths_accepted(files: Seq<ArchiveFile>, k: int)
    requires
        all_paths_stay_inside(files),
        0 <= k < files.len(),
    ensures
        sanitized(files[k].path@) is Some,
{
    assert(!escapes(files[k].path@));
}

} // verus!
