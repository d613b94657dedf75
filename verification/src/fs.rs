//! The engine behind the mount: look a name up, report attributes, read
//! what a file shows, list a directory page by page, and pet a kitty by
//! writing to its file.

use std::collections::HashMap;
use vstd::prelude::*;
use vstd::slice::{slice_subrange, slice_to_vec};
use vstd::string::*;
use crate::attr::{FileAttr, FileType};
use crate::content::{text_bytes, GameStatus, Mood};
use crate::entity::{EntityView, GameEntity};
use crate::error::EngineError;
use crate::projection::{
    law_projection_is_well_formed, lemma_counter_keeps_wf, table_wf, with_counter,
};
use crate::table::{
    count_mood, distinct_inodes, game_status, shown_attr, shown_content, shown_file_attr,
    shown_text, table_of, table_view,
};
use crate::tree::GameDir;
use crate::validate::table_is_well_formed;

verus! {

broadcast use vstd::std_specs::hash::group_hash_axioms;

/// The inode under which every listing shows the entry `.`.
pub const DOT_INODE: u64 = 11;

/// The inode under which every listing shows the entry `..`.
pub const DOT_DOT_INODE: u64 = 12;

/// One entry of a directory listing. `offset` is the entry's place in the
/// whole listing, counted from 0: the cursor with which a client resumes
/// after it.
#[derive(Debug)]
pub struct DirEntry {
    pub inode: u64,
    pub offset: u64,
    pub kind: FileType,
    pub name: String,
}

/// What a [`DirEntry`] is.
pub struct DirEntryView {
    pub inode: u64,
    pub offset: u64,
    pub kind: FileType,
    pub name: Seq<char>,
}

impl View for DirEntry {
    type V = DirEntryView;

    open spec fn view(&self) -> DirEntryView {
        DirEntryView { inode: self.inode, offset: self.offset, kind: self.kind, name: self.name@ }
    }
}

/// The entries of a list, each as what it is.
pub open spec fn entry_views(entries: Seq<DirEntry>) -> Seq<DirEntryView> {
    entries.map_values(|e: DirEntry| e@)
}

/// The two entries that open a listing, under the given inodes.
pub open spec fn dots(dot: u64, dot_dot: u64) -> Seq<DirEntryView> {
    seq![
        DirEntryView { inode: dot, offset: 0, kind: FileType::Directory, name: "."@ },
        DirEntryView { inode: dot_dot, offset: 1, kind: FileType::Directory, name: ".."@ },
    ]
}

/// The two entries that open every listing of this engine.
pub open spec fn dot_entries() -> Seq<DirEntryView> {
    dots(DOT_INODE, DOT_DOT_INODE)
}

/// The entries of the given children in their stored order, the first of
/// them at offset 2. A child that the table does not hold has no entry.
pub open spec fn child_entries(table: Map<u64, EntityView>, children: Seq<u64>) -> Seq<
    DirEntryView,
>
    decreases children.len(),
{
    if children.len() == 0 {
        Seq::empty()
    } else {
        let before = child_entries(table, children.drop_last());
        let child = children.last();
        if table.contains_key(child) {
            before.push(
                DirEntryView {
                    inode: table[child].inode(),
                    offset: (2 + before.len()) as u64,
                    kind: table[child].kind(),
                    name: table[child].name(),
                },
            )
        } else {
            before
        }
    }
}

/// The whole listing of a directory: `.` and `..`, then its children in
/// their stored order.
pub open spec fn listing(table: Map<u64, EntityView>, dir: EntityView) -> Seq<DirEntryView> {
    dot_entries() + child_entries(table, dir.children())
}

/// How many entries of a listing of `total` entries a cursor leaves out:
/// none for cursor 0, else the entry at the cursor and all before it.
pub open spec fn skipped(cursor: u64, total: nat) -> int {
    if cursor == 0 {
        0
    } else if cursor + 1 <= total {
        cursor + 1
    } else {
        total as int
    }
}

/// The page of a listing that a cursor asks for.
pub open spec fn page(entries: Seq<DirEntryView>, cursor: u64) -> Seq<DirEntryView> {
    entries.skip(skipped(cursor, entries.len()))
}

/// The predicate that holds of the inodes that the table holds under the
/// given name.
pub open spec fn named(table: Map<u64, EntityView>, name: Seq<char>) -> spec_fn(u64) -> bool {
    |child: u64| table.contains_key(child) && table[child].name() == name
}

/// What `lookup` answers.
pub open spec fn lookup_spec(table: Map<u64, EntityView>, parent: u64, name: Seq<char>) -> Result<
    FileAttr,
    EngineError,
> {
    if table.contains_key(parent) && table[parent] is Directory {
        let found = table[parent].children().filter(named(table, name));
        if found.len() == 1 {
            Ok(shown_attr(table, table[found[0]]))
        } else {
            Err(EngineError::NotFound)
        }
    } else {
        Err(EngineError::NotFound)
    }
}

/// What `getattr` answers.
pub open spec fn getattr_spec(table: Map<u64, EntityView>, ino: u64) -> Result<
    FileAttr,
    EngineError,
> {
    if table.contains_key(ino) {
        Ok(shown_attr(table, table[ino]))
    } else {
        Err(EngineError::NotFound)
    }
}

/// The part of `bytes` that starts at `offset` and has at most `size`
/// bytes, both cut down to what there is.
pub open spec fn window(bytes: Seq<u8>, offset: int, size: int) -> Seq<u8> {
    let start = if offset < bytes.len() {
        offset
    } else {
        bytes.len() as int
    };
    let end = if offset + size < bytes.len() {
        offset + size
    } else {
        bytes.len() as int
    };
    bytes.subrange(start, end)
}

/// What `read` answers.
pub open spec fn read_spec(table: Map<u64, EntityView>, ino: u64, offset: u64, size: u32) -> Result<
    Seq<u8>,
    EngineError,
> {
    if table.contains_key(ino) && table[ino] is File {
        Ok(window(text_bytes(shown_text(table, table[ino])), offset as int, size as int))
    } else {
        Err(EngineError::NotFound)
    }
}

/// What `readdir` answers.
pub open spec fn readdir_spec(table: Map<u64, EntityView>, ino: u64, cursor: u64) -> Result<
    Seq<DirEntryView>,
    EngineError,
> {
    if table.contains_key(ino) && table[ino] is Directory {
        Ok(page(listing(table, table[ino]), cursor))
    } else {
        Err(EngineError::NotFound)
    }
}

/// The one token that a write may carry.
pub open spec fn pets_token() -> Seq<u8> {
    seq![112u8, 101u8, 116u8, 115u8]
}

/// Whether the payload is the token `pets`, alone or followed by one
/// newline.
pub open spec fn is_pets(data: Seq<u8>) -> bool {
    data == pets_token() || data == pets_token().push(10u8)
}

/// Whether a write of `data` to `ino` is accepted: the node is a file, the
/// payload is the token, and the file is not yet mad.
pub open spec fn accepts_write(table: Map<u64, EntityView>, ino: u64, data: Seq<u8>) -> bool {
    &&& table.contains_key(ino)
    &&& table[ino] matches EntityView::File { pets_needed, .. }
    &&& pets_needed >= 0
    &&& is_pets(data)
}

/// The node after one accepted write: a file needs one pet less.
pub open spec fn petted(entity: EntityView) -> EntityView {
    match entity {
        EntityView::File { pets_needed, .. } => with_counter(entity, (pets_needed - 1) as i32),
        EntityView::Directory { .. } => entity,
    }
}

/// The table after a write of `data` to `ino`: an accepted write pets the
/// file, any other leaves the table as it was.
pub open spec fn after_write(table: Map<u64, EntityView>, ino: u64, data: Seq<u8>) -> Map<
    u64,
    EntityView,
> {
    if accepts_write(table, ino, data) {
        table.insert(ino, petted(table[ino]))
    } else {
        table
    }
}

/// What `write` answers: the length of an accepted payload.
pub open spec fn write_spec(table: Map<u64, EntityView>, ino: u64, data: Seq<u8>) -> Result<
    u32,
    EngineError,
> {
    if accepts_write(table, ino, data) {
        Ok(data.len() as u32)
    } else {
        Err(EngineError::NotFound)
    }
}

/// Whether the payload is the token `pets`, alone or followed by one
/// newline.
pub fn is_pets_payload(data: &[u8]) -> (yes: bool)
    ensures
        yes == is_pets(data@),
{
    let n = data.len();
    let yes = (n == 4 || n == 5) && data[0] == 112 && data[1] == 101 && data[2] == 116 && data[3]
        == 115 && (n == 4 || data[4] == 10);
    proof {
        if yes {
            if n == 4 {
                assert(data@ =~= pets_token());
            } else {
                assert(data@ =~= pets_token().push(10u8));
            }
        }
    }
    yes
}

/// The part of what a text takes in bytes that starts at `offset` and has
/// at most `size` bytes.
pub fn window_of(text: &String, offset: u64, size: u32) -> (bytes: Vec<u8>)
    ensures
        bytes@ == window(text_bytes(text@), offset as int, size as int),
{
    let all = text.as_str().as_bytes();
    let len = all.len();
    let start: usize = if offset < len as u64 {
        offset as usize
    } else {
        len
    };
    let end: usize = if (size as u64) < (len - start) as u64 {
        start + size as usize
    } else {
        len
    };
    slice_to_vec(slice_subrange(all, start, end))
}

/// The two entries that open every listing of this engine.
pub fn dot_entry_list() -> (entries: Vec<DirEntry>)
    ensures
        entry_views(entries@) == dot_entries(),
{
    dot_list(DOT_INODE, DOT_DOT_INODE)
}

/// The two entries that open a listing, under the given inodes.
pub fn dot_list(dot: u64, dot_dot: u64) -> (entries: Vec<DirEntry>)
    ensures
        entry_views(entries@) == dots(dot, dot_dot),
{
    let mut entries: Vec<DirEntry> = Vec::new();
    entries.push(
        DirEntry {
            inode: dot,
            offset: 0,
            kind: FileType::Directory,
            name: String::from_str("."),
        },
    );
    entries.push(
        DirEntry {
            inode: dot_dot,
            offset: 1,
            kind: FileType::Directory,
            name: String::from_str(".."),
        },
    );
    assert(entry_views(entries@) =~= dots(dot, dot_dot));
    entries
}

/// The page of a listing that a cursor asks for.
pub fn page_of(listing: Vec<DirEntry>, cursor: u64) -> (rest: Vec<DirEntry>)
    ensures
        entry_views(rest@) == page(entry_views(listing@), cursor),
{
    let mut all = listing;
    let total = all.len();
    let skip: usize = if cursor == 0 {
        0
    } else if cursor < total as u64 {
        (cursor + 1) as usize
    } else {
        total
    };
    let rest = all.split_off(skip);
    assert(entry_views(rest@) =~= entry_views(listing@).skip(skip as int));
    rest
}

/// A mounted tree: the inode table and nothing else. Only `write` changes
/// it, and only the counter of one file.
pub struct HelloFS {
    inode_table: HashMap<u64, GameEntity>,
}

impl View for HelloFS {
    type V = Map<u64, EntityView>;

    closed spec fn view(&self) -> Map<u64, EntityView> {
        table_view(self.inode_table@)
    }
}

impl HelloFS {
    /// Whether the table of the engine is well formed. Both constructors
    /// make it so, and `write` keeps it so.
    pub open spec fn wf(&self) -> bool {
        table_wf(self@)
    }

    /// The engine over a table that was put together by hand. A table that
    /// is not well formed makes no engine: a node under another inode than
    /// its own, a child that is missing or names another parent, a parent
    /// that is missing or does not list the node, a child listed twice, or
    /// two nodes without a parent.
    pub fn new(inode_table: HashMap<u64, GameEntity>) -> (made: Result<HelloFS, EngineError>)
        ensures
            match made {
                Ok(fs) => fs@ == table_view(inode_table@) && fs.wf(),
                Err(error) => error == EngineError::InvariantViolation && !table_wf(
                    table_view(inode_table@),
                ),
            },
    {
        if table_is_well_formed(&inode_table) {
            Ok(HelloFS { inode_table })
        } else {
            Err(EngineError::InvariantViolation)
        }
    }

    /// The engine over the table of the given tree. Two nodes that share an
    /// inode make no table.
    pub fn from_tree(root: &GameDir) -> (mounted: Result<HelloFS, EngineError>)
        ensures
            match mounted {
                Ok(fs) => distinct_inodes(root@.entities(None)) && fs@ == table_of(
                    root@.entities(None),
                ) && fs.wf(),
                Err(error) => error == EngineError::InvariantViolation && !distinct_inodes(
                    root@.entities(None),
                ),
            },
    {
        match root.to_entity_hash_map() {
            Ok(inode_table) => {
                proof {
                    law_projection_is_well_formed(root@);
                }
                Ok(HelloFS { inode_table })
            },
            Err(error) => Err(error),
        }
    }

    /// The tally of the table's kitties.
    pub fn game_status(&self) -> (status: GameStatus)
        ensures
            status.kitties_needing_pets == count_mood(self@, Mood::Needing),
            status.kitties_at_peace == count_mood(self@, Mood::AtPeace),
            status.kitties_mad == count_mood(self@, Mood::Mad),
    {
        game_status(&self.inode_table)
    }

    /// The attributes of the one child of `parent` with the given name.
    /// Refused where `parent` is unknown or no directory, and where not
    /// exactly one of its children has that name.
    pub fn lookup(&self, parent: u64, name: &str) -> (found: Result<FileAttr, EngineError>)
        ensures
            found == lookup_spec(self@, parent, name@),
    {
        let ghost table = self@;
        match self.inode_table.get(&parent) {
            Some(GameEntity::Directory { children, .. }) => {
                let wanted = String::from_str(name);
                let mut matches: Vec<u64> = Vec::new();
                let mut i: usize = 0;
                assert(children@.take(0).filter(named(table, name@)) =~= Seq::<u64>::empty()) by {
                    reveal(Seq::filter);
                }
                while i < children.len()
                    invariant
                        i <= children.len(),
                        table == self@,
                        wanted@ == name@,
                        matches@ == children@.take(i as int).filter(named(table, name@)),
                    decreases children.len() - i,
                {
                    let child = children[i];
                    proof {
                        assert(children@.take(i + 1) =~= children@.take(i as int).push(child));
                        children@.take(i as int).lemma_filter_push(child, named(table, name@));
                    }
                    match self.inode_table.get(&child) {
                        Some(entity) => {
                            if entity.has_name(&wanted) {
                                matches.push(child);
                            }
                        },
                        None => {},
                    }
                    i = i + 1;
                }
                assert(children@.take(children.len() as int) =~= children@);
                if matches.len() == 1 {
                    match self.inode_table.get(&matches[0]) {
                        Some(entity) => Ok(shown_file_attr(&self.inode_table, entity)),
                        None => {
                            proof {
                                children@.lemma_filter_pred(named(table, name@), 0);
                            }
                            Err(EngineError::NotFound)
                        },
                    }
                } else {
                    Err(EngineError::NotFound)
                }
            },
            _ => Err(EngineError::NotFound),
        }
    }

    /// The attributes of a node. Refused where the inode is unknown.
    pub fn getattr(&self, ino: u64) -> (attr: Result<FileAttr, EngineError>)
        ensures
            attr == getattr_spec(self@, ino),
    {
        match self.inode_table.get(&ino) {
            Some(entity) => Ok(shown_file_attr(&self.inode_table, entity)),
            None => Err(EngineError::NotFound),
        }
    }

    /// Up to `size` bytes of what a file shows at this moment, from
    /// `offset` on. An offset at or past the end gives no bytes and no
    /// error. Refused where the inode is unknown or no file.
    pub fn read(&self, ino: u64, offset: u64, size: u32) -> (data: Result<Vec<u8>, EngineError>)
        ensures
            match data {
                Ok(bytes) => read_spec(self@, ino, offset, size) == Ok::<Seq<u8>, EngineError>(
                    bytes@,
                ),
                Err(error) => read_spec(self@, ino, offset, size) == Err::<Seq<u8>, EngineError>(
                    error,
                ),
            },
            self@.contains_key(ino) && self@[ino] is File && offset >= text_bytes(
                shown_text(self@, self@[ino]),
            ).len() ==> (data matches Ok(bytes) && bytes@.len() == 0),
    {
        match self.inode_table.get(&ino) {
            Some(entity) => {
                match entity {
                    GameEntity::File { .. } => {
                        let text = shown_content(&self.inode_table, entity);
                        Ok(window_of(&text, offset, size))
                    },
                    GameEntity::Directory { .. } => Err(EngineError::NotFound),
                }
            },
            None => Err(EngineError::NotFound),
        }
    }

    /// The page of a directory's listing that `cursor` asks for: with
    /// cursor 0 the whole listing, else what follows the entry at
    /// `cursor`. Refused where the inode is unknown or no directory.
    pub fn readdir(&self, ino: u64, cursor: u64) -> (entries: Result<Vec<DirEntry>, EngineError>)
        ensures
            match entries {
                Ok(list) => readdir_spec(self@, ino, cursor) == Ok::<
                    Seq<DirEntryView>,
                    EngineError,
                >(entry_views(list@)),
                Err(error) => readdir_spec(self@, ino, cursor) == Err::<
                    Seq<DirEntryView>,
                    EngineError,
                >(error),
            },
    {
        let ghost table = self@;
        match self.inode_table.get(&ino) {
            Some(GameEntity::Directory { children, .. }) => {
                let mut all = dot_entry_list();
                assert(entry_views(all@) =~= dot_entries() + child_entries(
                    table,
                    children@.take(0),
                ));
                let mut i: usize = 0;
                while i < children.len()
                    invariant
                        i <= children.len(),
                        table == self@,
                        entry_views(all@) == dot_entries() + child_entries(
                            table,
                            children@.take(i as int),
                        ),
                    decreases children.len() - i,
                {
                    let child = children[i];
                    let ghost before = all@;
                    proof {
                        assert(children@.take(i + 1).drop_last() =~= children@.take(i as int));
                    }
                    match self.inode_table.get(&child) {
                        Some(entity) => {
                            let entry = DirEntry {
                                inode: entity.get_inode(),
                                offset: all.len() as u64,
                                kind: entity.kind(),
                                name: String::from_str(entity.get_name()),
                            };
                            all.push(entry);
                            assert(entry_views(all@) =~= entry_views(before).push(entry@));
                        },
                        None => {},
                    }
                    i = i + 1;
                    assert(entry_views(all@) =~= dot_entries() + child_entries(
                        table,
                        children@.take(i as int),
                    ));
                }
                assert(children@.take(children.len() as int) =~= children@);
                Ok(page_of(all, cursor))
            },
            _ => Err(EngineError::NotFound),
        }
    }

    /// Pets the kitty of a file. The only payload accepted is the token
    /// `pets`, alone or followed by one newline; it takes one from the
    /// number of pets that the file needs, and the whole length of the
    /// payload is reported as written. A file that is already mad accepts
    /// nothing more. A refused write changes nothing.
    pub fn write(&mut self, ino: u64, data: &[u8]) -> (written: Result<u32, EngineError>)
        ensures
            written == write_spec(old(self)@, ino, data@),
            final(self)@ == after_write(old(self)@, ino, data@),
            !is_pets(data@) ==> written is Err && final(self)@ == old(self)@,
            old(self).wf() ==> final(self).wf(),
    {
        match self.inode_table.get(&ino) {
            Some(GameEntity::File { inode, name, parent, content, life, pets_needed }) => {
                if is_pets_payload(data) && *pets_needed >= 0 {
                    let ghost left = (*pets_needed - 1) as i32;
                    let petted_file = GameEntity::File {
                        inode: *inode,
                        name: name.clone(),
                        parent: *parent,
                        content: content.clone(),
                        life: *life,
                        pets_needed: *pets_needed - 1,
                    };
                    self.inode_table.insert(ino, petted_file);
                    assert(self@ =~= after_write(old(self)@, ino, data@));
                    proof {
                        if old(self).wf() {
                            lemma_counter_keeps_wf(old(self)@, ino, left);
                        }
                    }
                    Ok(data.len() as u32)
                } else {
                    Err(EngineError::NotFound)
                }
            },
            _ => Err(EngineError::NotFound),
        }
    }
}

} // verus!
