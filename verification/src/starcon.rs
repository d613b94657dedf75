//! The smallest engine: one directory with one file, whose text changes
//! each time the file is opened.

use vstd::prelude::*;
use vstd::string::*;
use crate::attr::{attr_spec, make_attr, FileAttr, FileType, Timespec};
use crate::content::{byte_len, text_bytes};
use crate::error::EngineError;
use crate::fs::{
    dot_entries, dot_entry_list, entry_views, page, page_of, window, window_of, DirEntry,
    DirEntryView,
};

verus! {

/// The inode of the directory.
pub const STARCON_ROOT: u64 = 1;

/// The inode of the file.
pub const STARCON_FILE: u64 = 3;

/// The name of the file.
pub const STARCON_NAME: &'static str = "starcon.txt";

/// For how many seconds a client may keep an answer of this engine.
pub const STARCON_TTL_SECONDS: i64 = 2;

/// For how long a client may keep an answer of this engine before it asks
/// again.
pub fn starcon_ttl() -> (t: Timespec)
    ensures
        t == (Timespec { sec: STARCON_TTL_SECONDS, nsec: 0 }),
{
    Timespec { sec: STARCON_TTL_SECONDS, nsec: 0 }
}

/// What the file shows after it was opened `count` times: one of four
/// lines in turn.
pub open spec fn starcon_text(count: u64) -> Seq<char> {
    if count % 4 == 1 {
        "Hello StarCon!\n"@
    } else if count % 4 == 2 {
        "Also, good morning!\n"@
    } else if count % 4 == 3 {
        "Sorry!\n"@
    } else {
        "FUSE rocks!\n"@
    }
}

/// The attributes of the directory.
pub open spec fn starcon_root_attr() -> FileAttr {
    attr_spec(STARCON_ROOT, FileType::Directory, 0)
}

/// The attributes of the file after it was opened `count` times.
pub open spec fn starcon_attr(count: u64) -> FileAttr {
    attr_spec(STARCON_FILE, FileType::RegularFile, text_bytes(starcon_text(count)).len() as u64)
}

/// The listing of the directory.
pub open spec fn starcon_listing() -> Seq<DirEntryView> {
    dot_entries().push(
        DirEntryView {
            inode: STARCON_FILE,
            offset: 2,
            kind: FileType::RegularFile,
            name: STARCON_NAME@,
        },
    )
}

/// What the file shows after it was opened `count` times.
pub fn starcon_content(count: u64) -> (text: String)
    ensures
        text@ == starcon_text(count),
{
    let turn = count % 4;
    if turn == 1 {
        String::from_str("Hello StarCon!\n")
    } else if turn == 2 {
        String::from_str("Also, good morning!\n")
    } else if turn == 3 {
        String::from_str("Sorry!\n")
    } else {
        String::from_str("FUSE rocks!\n")
    }
}

/// The attributes of the file after it was opened `count` times: its size
/// is the number of bytes of what it then shows.
pub fn starcon_file_attr(count: u64) -> (attr: FileAttr)
    ensures
        attr == starcon_attr(count),
{
    let text = starcon_content(count);
    make_attr(STARCON_FILE, FileType::RegularFile, byte_len(&text))
}

/// The engine: it counts how often the file was opened.
pub struct StarConFS {
    count: u64,
}

impl View for StarConFS {
    type V = u64;

    closed spec fn view(&self) -> u64 {
        self.count
    }
}

impl StarConFS {
    /// What `lookup` answers.
    pub open spec fn lookup_spec(count: u64, parent: u64, name: Seq<char>) -> Result<
        FileAttr,
        EngineError,
    > {
        if parent == STARCON_ROOT && name == STARCON_NAME@ {
            Ok(starcon_attr(count))
        } else {
            Err(EngineError::NotFound)
        }
    }

    /// What `getattr` answers.
    pub open spec fn getattr_spec(count: u64, ino: u64) -> Result<FileAttr, EngineError> {
        if ino == STARCON_ROOT {
            Ok(starcon_root_attr())
        } else if ino == STARCON_FILE {
            Ok(starcon_attr(count))
        } else {
            Err(EngineError::NotFound)
        }
    }

    /// What `read` answers.
    pub open spec fn read_spec(count: u64, ino: u64, offset: u64, size: u32) -> Result<
        Seq<u8>,
        EngineError,
    > {
        if ino == STARCON_FILE {
            Ok(window(text_bytes(starcon_text(count)), offset as int, size as int))
        } else {
            Err(EngineError::NotFound)
        }
    }

    /// What `readdir` answers.
    pub open spec fn readdir_spec(ino: u64, cursor: u64) -> Result<
        Seq<DirEntryView>,
        EngineError,
    > {
        if ino == STARCON_ROOT {
            Ok(page(starcon_listing(), cursor))
        } else {
            Err(EngineError::NotFound)
        }
    }

    /// An engine whose file was never opened.
    pub fn new() -> (fs: StarConFS)
        ensures
            fs@ == 0,
    {
        StarConFS { count: 0 }
    }

    /// How often the file was opened.
    pub fn count(&self) -> (count: u64)
        ensures
            count == self@,
    {
        self.count
    }

    /// The attributes of the file, found by its name in the directory.
    pub fn lookup(&self, parent: u64, name: &str) -> (found: Result<FileAttr, EngineError>)
        ensures
            found == Self::lookup_spec(self@, parent, name@),
    {
        let wanted = String::from_str(name);
        let own = String::from_str(STARCON_NAME);
        if parent == STARCON_ROOT && wanted == own {
            Ok(starcon_file_attr(self.count))
        } else {
            Err(EngineError::NotFound)
        }
    }

    /// The attributes of the directory or of the file.
    pub fn getattr(&self, ino: u64) -> (attr: Result<FileAttr, EngineError>)
        ensures
            attr == Self::getattr_spec(self@, ino),
    {
        if ino == STARCON_ROOT {
            Ok(make_attr(STARCON_ROOT, FileType::Directory, 0))
        } else if ino == STARCON_FILE {
            Ok(starcon_file_attr(self.count))
        } else {
            Err(EngineError::NotFound)
        }
    }

    /// Counts one more opening, and hands the inode back as the handle.
    pub fn open(&mut self, ino: u64) -> (handle: u64)
        requires
            old(self)@ < u64::MAX,
        ensures
            final(self)@ == old(self)@ + 1,
            handle == ino,
    {
        self.count = self.count + 1;
        ino
    }

    /// Up to `size` bytes of what the file now shows, from `offset` on.
    pub fn read(&self, ino: u64, offset: u64, size: u32) -> (data: Result<Vec<u8>, EngineError>)
        ensures
            match data {
                Ok(bytes) => Self::read_spec(self@, ino, offset, size) == Ok::<
                    Seq<u8>,
                    EngineError,
                >(bytes@),
                Err(error) => Self::read_spec(self@, ino, offset, size) == Err::<
                    Seq<u8>,
                    EngineError,
                >(error),
            },
    {
        if ino == STARCON_FILE {
            let text = starcon_content(self.count);
            Ok(window_of(&text, offset, size))
        } else {
            Err(EngineError::NotFound)
        }
    }

    /// The page of the directory's listing that `cursor` asks for.
    pub fn readdir(&self, ino: u64, cursor: u64) -> (entries: Result<Vec<DirEntry>, EngineError>)
        ensures
            match entries {
                Ok(list) => Self::readdir_spec(ino, cursor) == Ok::<Seq<DirEntryView>, EngineError>(
                    entry_views(list@),
                ),
                Err(error) => Self::readdir_spec(ino, cursor) == Err::<
                    Seq<DirEntryView>,
                    EngineError,
                >(error),
            },
    {
        if ino != STARCON_ROOT {
            return Err(EngineError::NotFound);
        }
        let mut all = dot_entry_list();
        let ghost dots = all@;
        all.push(
            DirEntry {
                inode: STARCON_FILE,
                offset: 2,
                kind: FileType::RegularFile,
                name: String::from_str(STARCON_NAME),
            },
        );
        assert(entry_views(all@) =~= entry_views(dots).push(all@[2]@));
        assert(entry_views(all@) =~= starcon_listing());
        Ok(page_of(all, cursor))
    }
}

} // verus!
