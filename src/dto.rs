use vstd::prelude::*;

use crate::perms::{mode_to_permissions, perm_char};

verus! {

/// A query naming a target.
#[derive(Debug)]
pub struct QueryTargetId {
    pub target_id: i32,
}

/// A directory listing request: the directory's URI, and whether hidden
/// entries are wanted.
#[derive(Debug)]
pub struct SftpLsPayload {
    pub uri: String,
    pub all: Option<bool>,
}

/// A request naming one file by its URI.
#[derive(Debug)]
pub struct SftpFileUriPayload {
    pub uri: String,
}

/// A rename request: the file's URI and its new path.
#[derive(Debug)]
pub struct SftpRenamePayload {
    pub uri: String,
    pub target_path: String,
}

/// A request to retire one connection of a target.
#[derive(Debug)]
pub struct SshSessionExpirePayload {
    pub target_id: i32,
    pub connection_id: String,
}

/// A request to delete a stored target.
#[derive(Debug)]
pub struct TargetRemovePayload {
    pub id: i32,
}

/// The type of a directory entry.
#[derive(PartialEq, Eq, Structural, Clone, Copy, Debug)]
pub enum FileKind {
    File,
    Dir,
    Symlink,
    Other,
}

/// The letter a listing shows for an entry type.
pub open spec fn kind_letter(k: FileKind) -> char {
    match k {
        FileKind::File => 'f',
        FileKind::Dir => 'd',
        FileKind::Symlink => 'l',
        FileKind::Other => '?',
    }
}

/// One directory entry as the listing endpoints return it.
#[derive(Debug)]
pub struct SftpFile {
    pub name: String,
    /// `f` file, `d` directory, `l` symbolic link, `?` anything else.
    pub kind: char,
    pub size: Option<u64>,
    pub atime: Option<u32>,
    pub mtime: Option<u32>,
    /// The `rwxrwxrwx` rendering of the mode.
    pub permissions: String,
}

impl SftpFile {
    /// The entry `name` with the given attributes; a missing mode renders
    /// as no permission at all.
    pub fn from_name_attrs(
        name: String,
        kind: FileKind,
        size: Option<u64>,
        atime: Option<u32>,
        mtime: Option<u32>,
        mode: Option<u32>,
    ) -> (f: SftpFile)
        ensures
            f.name == name,
            f.kind == kind_letter(kind),
            f.size == size,
            f.atime == atime,
            f.mtime == mtime,
            f.permissions@.len() == 9,
            forall|k: int| 0 <= k < 9 ==> #[trigger] f.permissions@[k] == perm_char(
                match mode {
                    Some(m) => m,
                    None => 0u32,
                },
                k,
            ),
    {
        let letter = match kind {
            FileKind::File => 'f',
            FileKind::Dir => 'd',
            FileKind::Symlink => 'l',
            FileKind::Other => '?',
        };
        let bits = match mode {
            Some(m) => m,
            None => 0,
        };
        SftpFile { name, kind: letter, size, atime, mtime, permissions: mode_to_permissions(bits) }
    }
}

impl Default for SftpFile {
    fn default() -> (f: Self)
        ensures
            f.name@.len() == 0,
            f.kind == '?',
            f.size is None,
            f.atime is None,
            f.mtime is None,
            f.permissions@.len() == 0,
    {
        SftpFile {
            name: String::new(),
            kind: '?',
            size: None,
            atime: None,
            mtime: None,
            permissions: String::new(),
        }
    }
}

} // verus!
