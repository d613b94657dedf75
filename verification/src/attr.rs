//! The attributes that the mount reports of a node.

use vstd::prelude::*;

verus! {

/// A point in time: seconds and nanoseconds since the epoch.
#[derive(Clone, Copy, Debug, PartialEq, Eq, Structural)]
pub struct Timespec {
    pub sec: i64,
    pub nsec: i32,
}

/// The two kinds of node.
#[derive(Clone, Copy, Debug, PartialEq, Eq, Structural)]
pub enum FileType {
    Directory,
    RegularFile,
}

/// What the mount reports of one node.
#[derive(Clone, Copy, Debug, PartialEq, Eq, Structural)]
pub struct FileAttr {
    pub ino: u64,
    pub size: u64,
    pub blocks: u64,
    pub atime: Timespec,
    pub mtime: Timespec,
    pub ctime: Timespec,
    pub crtime: Timespec,
    pub kind: FileType,
    pub perm: u16,
    pub nlink: u32,
    pub uid: u32,
    pub gid: u32,
    pub rdev: u32,
    pub flags: u32,
}

/// The second at which every node was made and last changed.
pub const CREATE_SECONDS: i64 = 1381237736;

/// For how many seconds a client may keep an answer before it asks again.
pub const TTL_SECONDS: i64 = 1;

/// The permission bits of every node.
pub const PERMISSIONS: u16 = 0o644;

/// The user that owns every node.
pub const OWNER_UID: u32 = 501;

/// The group that owns every node.
pub const OWNER_GID: u32 = 20;

/// The time at which every node was made and last changed.
pub open spec fn create_time() -> Timespec {
    Timespec { sec: CREATE_SECONDS, nsec: 0 }
}

/// The attributes of a node of the given kind, inode and size: all the rest
/// is the same for every node.
pub open spec fn attr_spec(ino: u64, kind: FileType, size: u64) -> FileAttr {
    owned_attr_spec(ino, kind, size, OWNER_UID, OWNER_GID)
}

/// The attributes of a node of the given kind, inode, size and owner.
pub open spec fn owned_attr_spec(ino: u64, kind: FileType, size: u64, uid: u32, gid: u32) -> FileAttr {
    FileAttr {
        ino,
        size,
        blocks: 1,
        atime: create_time(),
        mtime: create_time(),
        ctime: create_time(),
        crtime: create_time(),
        kind,
        perm: PERMISSIONS,
        nlink: 1,
        uid,
        gid,
        rdev: 0,
        flags: 0,
    }
}

/// For how long a client may keep an answer before it asks again.
pub fn ttl() -> (t: Timespec)
    ensures
        t == (Timespec { sec: TTL_SECONDS, nsec: 0 }),
{
    Timespec { sec: TTL_SECONDS, nsec: 0 }
}

/// The attributes of a node of the given kind, inode and size.
pub fn make_attr(ino: u64, kind: FileType, size: u64) -> (attr: FileAttr)
    ensures
        attr == attr_spec(ino, kind, size),
{
    make_owned_attr(ino, kind, size, OWNER_UID, OWNER_GID)
}

/// The attributes of a node of the given kind, inode, size and owner.
pub fn make_owned_attr(ino: u64, kind: FileType, size: u64, uid: u32, gid: u32) -> (attr: FileAttr)
    ensures
        attr == owned_attr_spec(ino, kind, size, uid, gid),
{
    let created = Timespec { sec: CREATE_SECONDS, nsec: 0 };
    FileAttr {
        ino,
        size,
        blocks: 1,
        atime: created,
        mtime: created,
        ctime: created,
        crtime: created,
        kind,
        perm: PERMISSIONS,
        nlink: 1,
        uid,
        gid,
        rdev: 0,
        flags: 0,
    }
}

} // verus!
