//! The result data model of a scan: entry shapes, error records, and the
//! accumulated result set.

use vstd::prelude::*;

verus! {

/// Collected error records: pairs of (originating path, message).
pub type ErrorsType = Vec<(String, String)>;

/// Selects which entry shape a scan produces.
#[derive(Debug, Clone, PartialEq, PartialOrd)]
pub enum ReturnType {
    Base,
    Ext,
}

/// Plain stat information for one filesystem node, as the caller hands it
/// to the engine. Timestamps are nanoseconds since the Unix epoch; fields a
/// platform does not supply are zero (or `None` for the timestamps).
#[derive(Debug, Clone, Copy, PartialEq, Eq, Default)]
pub struct Metadata {
    pub is_symlink: bool,
    pub is_dir: bool,
    pub is_file: bool,
    pub st_ctime: Option<u64>,
    pub st_mtime: Option<u64>,
    pub st_atime: Option<u64>,
    pub st_size: u64,
    pub st_blksize: u64,
    pub st_blocks: u64,
    pub st_mode: u32,
    pub st_nlink: u64,
    pub st_uid: u32,
    pub st_gid: u32,
    pub st_ino: u64,
    pub st_dev: u64,
    pub st_rdev: u64,
}

/// A reported entry with basic metadata.
#[derive(Debug, Clone, PartialEq, Default)]
pub struct DirEntry {
    pub path: String,
    pub is_symlink: bool,
    pub is_dir: bool,
    pub is_file: bool,
    pub st_ctime: Option<u64>,
    pub st_mtime: Option<u64>,
    pub st_atime: Option<u64>,
    pub st_size: u64,
}

/// A reported entry with extended metadata.
#[derive(Debug, Clone, PartialEq, Default)]
pub struct DirEntryExt {
    pub path: String,
    pub is_symlink: bool,
    pub is_dir: bool,
    pub is_file: bool,
    /// Creation time in nanoseconds since the Unix epoch
    pub st_ctime: Option<u64>,
    /// Modification time in nanoseconds since the Unix epoch
    pub st_mtime: Option<u64>,
    /// Access time in nanoseconds since the Unix epoch
    pub st_atime: Option<u64>,
    /// Size of file / entry
    pub st_size: u64,
    /// File system block size
    pub st_blksize: u64,
    /// Number of used blocks on device / file system
    pub st_blocks: u64,
    /// File access mode / rights
    pub st_mode: u32,
    /// Number of hardlinks
    pub st_nlink: u64,
    /// User ID (Unix only)
    pub st_uid: u32,
    /// Group ID (Unix only)
    pub st_gid: u32,
    /// I-Node number (Unix only)
    pub st_ino: u64,
    /// Device number (Unix only)
    pub st_dev: u64,
    /// Device number (for character and block devices on Unix).
    pub st_rdev: u64,
}

/// One scan result item: a basic entry, an extended entry, or an error
/// record (originating path, message).
#[derive(Debug)]
pub enum ScandirResult {
    DirEntry(DirEntry),
    DirEntryExt(DirEntryExt),
    Error((String, String)),
}

/// The metadata value whose fields are all zero / absent; it stands in the
/// model wherever an item carries no metadata.
pub open spec fn meta_zero() -> Metadata {
    Metadata {
        is_symlink: false,
        is_dir: false,
        is_file: false,
        st_ctime: None,
        st_mtime: None,
        st_atime: None,
        st_size: 0,
        st_blksize: 0,
        st_blocks: 0,
        st_mode: 0,
        st_nlink: 0,
        st_uid: 0,
        st_gid: 0,
        st_ino: 0,
        st_dev: 0,
        st_rdev: 0,
    }
}

/// The basic part of a metadata value: the extended fields are zeroed, as a
/// basic entry drops them.
pub open spec fn meta_base_of(m: Metadata) -> Metadata {
    Metadata {
        is_symlink: m.is_symlink,
        is_dir: m.is_dir,
        is_file: m.is_file,
        st_ctime: m.st_ctime,
        st_mtime: m.st_mtime,
        st_atime: m.st_atime,
        st_size: m.st_size,
        st_blksize: 0,
        st_blocks: 0,
        st_mode: 0,
        st_nlink: 0,
        st_uid: 0,
        st_gid: 0,
        st_ino: 0,
        st_dev: 0,
        st_rdev: 0,
    }
}

/// The model of one scan result item: its path, whether it is an error
/// record (and with what message), which shape it has, and its metadata.
pub ghost struct ItemModel {
    pub path: Seq<char>,
    pub is_err: bool,
    pub msg: Seq<char>,
    pub ext: bool,
    pub meta: Metadata,
}

/// Maps a scan result item to its model.
pub open spec fn item_model(r: ScandirResult) -> ItemModel {
    match r {
        ScandirResult::DirEntry(e) => ItemModel {
            path: e.path@,
            is_err: false,
            msg: Seq::empty(),
            ext: false,
            meta: Metadata {
                is_symlink: e.is_symlink,
                is_dir: e.is_dir,
                is_file: e.is_file,
                st_ctime: e.st_ctime,
                st_mtime: e.st_mtime,
                st_atime: e.st_atime,
                st_size: e.st_size,
                st_blksize: 0,
                st_blocks: 0,
                st_mode: 0,
                st_nlink: 0,
                st_uid: 0,
                st_gid: 0,
                st_ino: 0,
                st_dev: 0,
                st_rdev: 0,
            },
        },
        ScandirResult::DirEntryExt(e) => ItemModel {
            path: e.path@,
            is_err: false,
            msg: Seq::empty(),
            ext: true,
            meta: Metadata {
                is_symlink: e.is_symlink,
                is_dir: e.is_dir,
                is_file: e.is_file,
                st_ctime: e.st_ctime,
                st_mtime: e.st_mtime,
                st_atime: e.st_atime,
                st_size: e.st_size,
                st_blksize: e.st_blksize,
                st_blocks: e.st_blocks,
                st_mode: e.st_mode,
                st_nlink: e.st_nlink,
                st_uid: e.st_uid,
                st_gid: e.st_gid,
                st_ino: e.st_ino,
                st_dev: e.st_dev,
                st_rdev: e.st_rdev,
            },
        },
        ScandirResult::Error(pm) => ItemModel {
            path: pm.0@,
            is_err: true,
            msg: pm.1@,
            ext: false,
            meta: meta_zero(),
        },
    }
}

/// Maps a run of scan result items to their models.
pub open spec fn items_models(s: Seq<ScandirResult>) -> Seq<ItemModel> {
    s.map_values(|r: ScandirResult| item_model(r))
}

/// Builds the entry item for a successfully stat'ed node: a basic entry
/// drops the extended fields, an extended entry keeps them all.
pub fn make_entry(path: String, m: &Metadata, rt: &ReturnType) -> (r: ScandirResult)
    ensures
        item_model(r) == (ItemModel {
            path: path@,
            is_err: false,
            msg: Seq::<char>::empty(),
            ext: rt is Ext,
            meta: if rt is Ext {
                *m
            } else {
                meta_base_of(*m)
            },
        }),
{
    match rt {
        ReturnType::Base => ScandirResult::DirEntry(DirEntry {
            path,
            is_symlink: m.is_symlink,
            is_dir: m.is_dir,
            is_file: m.is_file,
            st_ctime: m.st_ctime,
            st_mtime: m.st_mtime,
            st_atime: m.st_atime,
            st_size: m.st_size,
        }),
        ReturnType::Ext => ScandirResult::DirEntryExt(DirEntryExt {
            path,
            is_symlink: m.is_symlink,
            is_dir: m.is_dir,
            is_file: m.is_file,
            st_ctime: m.st_ctime,
            st_mtime: m.st_mtime,
            st_atime: m.st_atime,
            st_size: m.st_size,
            st_blksize: m.st_blksize,
            st_blocks: m.st_blocks,
            st_mode: m.st_mode,
            st_nlink: m.st_nlink,
            st_uid: m.st_uid,
            st_gid: m.st_gid,
            st_ino: m.st_ino,
            st_dev: m.st_dev,
            st_rdev: m.st_rdev,
        }),
    }
}

/// The accumulated results of a scan in store mode: entries in `results`,
/// error records in `errors`; both grow append-only while the scan runs.
#[derive(Debug)]
pub struct ScandirResults {
    pub results: Vec<ScandirResult>,
    pub errors: ErrorsType,
}

impl ScandirResults {
    /// An empty result set.
    pub fn new() -> (r: Self)
        ensures
            r.results@ == Seq::<ScandirResult>::empty(),
            r.errors@ == Seq::<(String, String)>::empty(),
    {
        ScandirResults { results: Vec::new(), errors: Vec::new() }
    }

    /// Files one streamed item: an error record lands in `errors`, every
    /// other item is appended to `results`. Nothing already stored moves.
    pub fn push(&mut self, item: ScandirResult)
        ensures
            item matches ScandirResult::Error(pm) ==> {
                &&& final(self).errors@ == old(self).errors@.push(pm)
                &&& final(self).results@ == old(self).results@
            },
            !(item is Error) ==> {
                &&& final(self).results@ == old(self).results@.push(item)
                &&& final(self).errors@ == old(self).errors@
            },
    {
        match item {
            ScandirResult::Error(pm) => self.errors.push(pm),
            other => self.results.push(other),
        }
    }
}

} // verus!
