//! A second engine, for reading only: it keeps the tree as it was built
//! and finds its nodes through two tables, one from an inode to its node
//! and one from the inode of a directory to its children. Its kitties have
//! pictures of their own, its nodes an owner of their own, and its
//! listings open with inodes of their own.

use std::collections::HashMap;
use vstd::prelude::*;
use vstd::string::*;
use vstd::std_specs::iter::IteratorSpec;
use crate::attr::{make_owned_attr, owned_attr_spec, FileAttr, FileType};
use crate::content::{
    byte_len, decimal, mood_of, push_signed_decimal, status_text, text_bytes, GameStatus, Mood,
    GREETING, NEED_PETS_MIDDLE,
};
use crate::error::EngineError;
use crate::fs::{dot_list, dots, entry_views, page, page_of, window, window_of, DirEntry, DirEntryView};
use crate::table::{
    count_where, distinct_inodes, is_journal_name, lemma_count_where, JOURNAL_NAME,
};
use crate::tree::{GameDir, GameDirView, GameFile, GameFileView};

verus! {

broadcast use vstd::std_specs::hash::group_hash_axioms;

/// What follows the number of pets that a kitty of this engine still
/// needs.
pub const NEED_PETS_TAIL: &'static str = r#" pets
                           __ _..._ _
                           \ `)    `(/
                           /`       \
                           |   d  b  |
             .-"````"=-..--\=    Y  /=
           /`               `-.__=.'
    _     / /\                 /o
   ( \   / / |                 |
    \ '-' /   >    /`""--.    /
     '---'   /    ||      |   \\
             \___,,))      \_,,))

"#;

/// What follows the name of a kitty of this engine that has had exactly
/// enough pets.
pub const HAPPY_TAIL: &'static str = r#"

WOW! YOU GAVE ME ENOUGH PETS!! ❤❤❤❤❤❤❤

     _ _..._ __
    \)`    (` /
     /      `\
    |  d  b   |
    =\  Y    =/--..-="````"-.
      '.=__.-'               `\
         o/                 /\ \
          |                 | \ \   / )
           \    .--""`\    <   \ '-' /
          //   |      ||    \   '---'
         ((,,_/      ((,,___/

"#;

/// What follows the name of a kitty of this engine that was petted too
/// much.
pub const FICKLE_TAIL: &'static str = r#"

MY HEART IS FICKLE! NO MORE PETS!!!!

      ,-~-,       ,-~~~~-,    /\  /\
(\   / ,-, \    ,'        ', /  ~~  \
 \'-' /   \ \  /     _      #  <0 0> \
  '--'     \ \/    .' '.    # =  Y  =/
            \     / \   \   `#-..!.-'
             \   \   \   `\ \\
              )  />  /     \ \\
             / /`/ /`__     \ \\__
            (____)))_)))     \__)))

"#;

/// The user that owns every node of this engine.
pub const TREE_UID: u32 = 1000;

/// The group that owns every node of this engine.
pub const TREE_GID: u32 = 100;

/// The inode under which a listing of this engine shows the entry `.`.
pub const TREE_DOT_INODE: u64 = 1111;

/// The inode under which a listing of this engine shows the entry `..`.
pub const TREE_DOT_DOT_INODE: u64 = 11112;

/// What a kitty of this engine that still needs `pets_needed` pets shows.
pub open spec fn need_pets_text(name: Seq<char>, pets_needed: int) -> Seq<char> {
    GREETING@ + name + NEED_PETS_MIDDLE@ + decimal(pets_needed) + NEED_PETS_TAIL@
}

/// What a kitty of this engine that has had exactly enough pets shows.
pub open spec fn happy_kitty_text(name: Seq<char>) -> Seq<char> {
    GREETING@ + name + HAPPY_TAIL@
}

/// What a kitty of this engine that was petted too much shows.
pub open spec fn no_more_pets_text(name: Seq<char>) -> Seq<char> {
    GREETING@ + name + FICKLE_TAIL@
}

/// What a kitty of this engine shows: a function of its name and its
/// counter alone.
pub open spec fn kitty_text(name: Seq<char>, pets_needed: int) -> Seq<char> {
    match mood_of(pets_needed) {
        Mood::Needing => need_pets_text(name, pets_needed),
        Mood::AtPeace => happy_kitty_text(name),
        Mood::Mad => no_more_pets_text(name),
    }
}

/// The text of a kitty of this engine that still needs pets.
pub fn need_pets_content(name: &String, pets_needed: i32) -> (text: String)
    ensures
        text@ == need_pets_text(name@, pets_needed as int),
{
    let mut text = String::from_str(GREETING);
    text.append(name.as_str());
    text.append(NEED_PETS_MIDDLE);
    push_signed_decimal(&mut text, pets_needed);
    text.append(NEED_PETS_TAIL);
    text
}

/// The text of a kitty of this engine that has had exactly enough pets.
pub fn happy_kitty_content(name: &String) -> (text: String)
    ensures
        text@ == happy_kitty_text(name@),
{
    let mut text = String::from_str(GREETING);
    text.append(name.as_str());
    text.append(HAPPY_TAIL);
    text
}

/// The text of a kitty of this engine that was petted too much.
pub fn no_more_pets(name: &String) -> (text: String)
    ensures
        text@ == no_more_pets_text(name@),
{
    let mut text = String::from_str(GREETING);
    text.append(name.as_str());
    text.append(FICKLE_TAIL);
    text
}

/// The text of a kitty of this engine with the given name and counter,
/// whatever its state.
pub fn kitty_content(name: &String, pets_needed: i32) -> (text: String)
    ensures
        text@ == kitty_text(name@, pets_needed as int),
{
    if pets_needed > 0 {
        need_pets_content(name, pets_needed)
    } else if pets_needed == 0 {
        happy_kitty_content(name)
    } else {
        no_more_pets(name)
    }
}

/// A node of a tree that stays where it was built: a directory or a file.
#[derive(Debug)]
pub enum Either<'a> {
    Directory { dir: &'a GameDir },
    File { file: &'a GameFile },
}

/// What an [`Either`] is.
pub enum EitherView {
    Directory { dir: GameDirView },
    File { file: GameFileView },
}

impl EitherView {
    /// The node's inode.
    pub open spec fn inode(self) -> u64 {
        match self {
            EitherView::Directory { dir } => dir.inode,
            EitherView::File { file } => file.inode,
        }
    }

    /// The node's name.
    pub open spec fn name(self) -> Seq<char> {
        match self {
            EitherView::Directory { dir } => dir.name,
            EitherView::File { file } => file.name,
        }
    }
}

impl<'a> View for Either<'a> {
    type V = EitherView;

    open spec fn view(&self) -> EitherView {
        match self {
            Either::Directory { dir } => EitherView::Directory { dir: dir@ },
            Either::File { file } => EitherView::File { file: file@ },
        }
    }
}

impl<'a> Either<'a> {
    /// The node's name.
    pub fn name(&self) -> (name: String)
        ensures
            name@ == self@.name(),
    {
        match self {
            Either::File { file } => file.name.clone(),
            Either::Directory { dir } => {
                proof {
                    dir.lemma_view();
                }
                dir.name.clone()
            },
        }
    }

    /// The node's inode.
    pub fn inode(&self) -> (inode: u64)
        ensures
            inode == self@.inode(),
    {
        match self {
            Either::File { file } => file.inode,
            Either::Directory { dir } => {
                proof {
                    dir.lemma_view();
                }
                dir.inode
            },
        }
    }

    /// The same node once more.
    pub fn share(&self) -> (other: Either<'a>)
        ensures
            other@ == self@,
    {
        match self {
            Either::File { file } => Either::File { file: *file },
            Either::Directory { dir } => Either::Directory { dir: *dir },
        }
    }
}

/// The nodes of a list, each as what it is.
pub open spec fn either_views(nodes: Seq<Either>) -> Seq<EitherView> {
    nodes.map_values(|e: Either| e@)
}

/// What a table of nodes holds.
pub open spec fn node_table(table: Map<u64, Either>) -> Map<u64, EitherView> {
    table.map_values(|e: Either| e@)
}

/// What a table of children holds.
pub open spec fn child_table(table: Map<u64, Vec<Either>>) -> Map<u64, Seq<EitherView>> {
    table.map_values(|v: Vec<Either>| either_views(v@))
}

/// The files of a directory as nodes.
pub open spec fn file_nodes(dir: GameDirView) -> Seq<EitherView> {
    dir.files.map_values(|f: GameFileView| EitherView::File { file: f })
}

/// The subdirectories of a directory as nodes.
pub open spec fn dir_nodes(dir: GameDirView) -> Seq<EitherView> {
    dir.sub_dirs.map_values(|d: GameDirView| EitherView::Directory { dir: d })
}

/// The nodes of a tree: the directory, its files, then the nodes of each
/// subdirectory in turn.
pub open spec fn nodes_of(dir: GameDirView) -> Seq<EitherView>
    decreases dir,
{
    seq![EitherView::Directory { dir }] + file_nodes(dir) + nodes_below(
        dir.sub_dirs,
        dir.sub_dirs.len(),
    )
}

/// The nodes of the first `n` trees of a list, one tree after the other.
pub open spec fn nodes_below(dirs: Seq<GameDirView>, n: nat) -> Seq<EitherView>
    decreases dirs, n,
{
    if n == 0 || n > dirs.len() {
        Seq::empty()
    } else {
        nodes_below(dirs, (n - 1) as nat) + nodes_of(dirs[n - 1])
    }
}

/// The table after each node of the list was put under its inode, one
/// after the other.
pub open spec fn with_nodes(table: Map<u64, EitherView>, nodes: Seq<EitherView>) -> Map<
    u64,
    EitherView,
>
    decreases nodes.len(),
{
    if nodes.len() == 0 {
        table
    } else {
        with_nodes(table, nodes.drop_last()).insert(nodes.last().inode(), nodes.last())
    }
}

/// Putting two lists in one after the other is putting their
/// concatenation in.
pub proof fn lemma_with_nodes_add(
    table: Map<u64, EitherView>,
    first: Seq<EitherView>,
    second: Seq<EitherView>,
)
    ensures
        with_nodes(table, first + second) == with_nodes(with_nodes(table, first), second),
    decreases second.len(),
{
    if second.len() == 0 {
        assert(first + second =~= first);
    } else {
        lemma_with_nodes_add(table, first, second.drop_last());
        assert((first + second).drop_last() =~= first + second.drop_last());
    }
}

/// Puts every node of the tree into the table under its inode: the
/// directory, its files, then each subdirectory with all that is below it.
pub fn update_inode_map<'a>(gamedir: &'a GameDir, hash_map: &mut HashMap<u64, Either<'a>>)
    ensures
        node_table(final(hash_map)@) == with_nodes(node_table(old(hash_map)@), nodes_of(gamedir@)),
    decreases gamedir,
{
    let ghost start = node_table(hash_map@);
    let ghost dir = gamedir@;
    proof {
        gamedir.lemma_view();
    }
    hash_map.insert(gamedir.inode, Either::Directory { dir: gamedir });
    let ghost head = seq![EitherView::Directory { dir }];
    assert(node_table(hash_map@) =~= with_nodes(start, head)) by {
        assert(head.drop_last() =~= Seq::<EitherView>::empty());
        assert(with_nodes(start, head.drop_last()) == start);
        assert(head.last() == (EitherView::Directory { dir }));
    }
    let mut i: usize = 0;
    assert(head + file_nodes(dir).take(0) =~= head);
    while i < gamedir.files.len()
        invariant
            i <= gamedir.files.len(),
            dir == gamedir@,
            dir.files == gamedir.files@.map_values(|f: GameFile| f@),
            head == seq![EitherView::Directory { dir }],
            node_table(hash_map@) == with_nodes(start, head + file_nodes(dir).take(i as int)),
        decreases gamedir.files.len() - i,
    {
        let file = &gamedir.files[i];
        let ghost before = head + file_nodes(dir).take(i as int);
        let ghost after = head + file_nodes(dir).take(i + 1);
        hash_map.insert(file.inode, Either::File { file });
        assert(after.drop_last() =~= before);
        assert(after.last() == (EitherView::File { file: file@ }));
        assert(node_table(hash_map@) =~= with_nodes(start, after));
        i = i + 1;
    }
    assert(file_nodes(dir).take(gamedir.files.len() as int) =~= file_nodes(dir));
    let mut j: usize = 0;
    assert(head + file_nodes(dir) + nodes_below(dir.sub_dirs, 0) =~= head + file_nodes(dir));
    while j < gamedir.sub_dirs.len()
        invariant
            j <= gamedir.sub_dirs.len(),
            dir == gamedir@,
            dir.sub_dirs.len() == gamedir.sub_dirs@.len(),
            forall|k: int|
                0 <= k < gamedir.sub_dirs@.len() ==> #[trigger] dir.sub_dirs[k]
                    == gamedir.sub_dirs@[k]@,
            head == seq![EitherView::Directory { dir }],
            node_table(hash_map@) == with_nodes(
                start,
                head + file_nodes(dir) + nodes_below(dir.sub_dirs, j as nat),
            ),
        decreases gamedir.sub_dirs.len() - j,
    {
        let ghost before = head + file_nodes(dir) + nodes_below(dir.sub_dirs, j as nat);
        update_inode_map(&gamedir.sub_dirs[j], hash_map);
        proof {
            lemma_with_nodes_add(start, before, nodes_of(dir.sub_dirs[j as int]));
            assert(before + nodes_of(dir.sub_dirs[j as int]) =~= head + file_nodes(dir)
                + nodes_below(dir.sub_dirs, (j + 1) as nat));
        }
        j = j + 1;
    }
}

/// The children of a directory as nodes: its files, then its
/// subdirectories.
pub open spec fn children_of(dir: GameDirView) -> Seq<EitherView> {
    file_nodes(dir) + dir_nodes(dir)
}

/// The directories of a tree: the directory itself, then those of each
/// subdirectory in turn.
pub open spec fn dirs_of(dir: GameDirView) -> Seq<GameDirView>
    decreases dir,
{
    seq![dir] + dirs_below(dir.sub_dirs, dir.sub_dirs.len())
}

/// The directories of the first `n` trees of a list.
pub open spec fn dirs_below(dirs: Seq<GameDirView>, n: nat) -> Seq<GameDirView>
    decreases dirs, n,
{
    if n == 0 || n > dirs.len() {
        Seq::empty()
    } else {
        dirs_below(dirs, (n - 1) as nat) + dirs_of(dirs[n - 1])
    }
}

/// The table after the children of each directory of the list were put
/// under the directory's inode, one directory after the other.
pub open spec fn with_children(table: Map<u64, Seq<EitherView>>, dirs: Seq<GameDirView>) -> Map<
    u64,
    Seq<EitherView>,
>
    decreases dirs.len(),
{
    if dirs.len() == 0 {
        table
    } else {
        with_children(table, dirs.drop_last()).insert(
            dirs.last().inode,
            children_of(dirs.last()),
        )
    }
}

/// Putting two lists of directories in one after the other is putting
/// their concatenation in.
pub proof fn lemma_with_children_add(
    table: Map<u64, Seq<EitherView>>,
    first: Seq<GameDirView>,
    second: Seq<GameDirView>,
)
    ensures
        with_children(table, first + second) == with_children(
            with_children(table, first),
            second,
        ),
    decreases second.len(),
{
    if second.len() == 0 {
        assert(first + second =~= first);
    } else {
        lemma_with_children_add(table, first, second.drop_last());
        assert((first + second).drop_last() =~= first + second.drop_last());
    }
}

/// The children of a directory as nodes: its files, then its
/// subdirectories.
pub fn children_nodes<'a>(gamedir: &'a GameDir) -> (nodes: Vec<Either<'a>>)
    ensures
        either_views(nodes@) == children_of(gamedir@),
{
    let ghost dir = gamedir@;
    proof {
        gamedir.lemma_view();
    }
    let mut nodes: Vec<Either<'a>> = Vec::new();
    let mut i: usize = 0;
    while i < gamedir.files.len()
        invariant
            i <= gamedir.files.len(),
            dir == gamedir@,
            dir.files == gamedir.files@.map_values(|f: GameFile| f@),
            either_views(nodes@) == file_nodes(dir).take(i as int),
        decreases gamedir.files.len() - i,
    {
        let ghost before = nodes@;
        let node = Either::File { file: &gamedir.files[i] };
        nodes.push(node);
        i = i + 1;
        assert(either_views(nodes@) =~= either_views(before).push(node@));
        assert(either_views(nodes@) =~= file_nodes(dir).take(i as int));
    }
    assert(file_nodes(dir).take(gamedir.files.len() as int) =~= file_nodes(dir));
    let mut j: usize = 0;
    assert(file_nodes(dir) + dir_nodes(dir).take(0) =~= file_nodes(dir));
    while j < gamedir.sub_dirs.len()
        invariant
            j <= gamedir.sub_dirs.len(),
            dir == gamedir@,
            dir.sub_dirs.len() == gamedir.sub_dirs@.len(),
            forall|k: int|
                0 <= k < gamedir.sub_dirs@.len() ==> #[trigger] dir.sub_dirs[k]
                    == gamedir.sub_dirs@[k]@,
            either_views(nodes@) == file_nodes(dir) + dir_nodes(dir).take(j as int),
        decreases gamedir.sub_dirs.len() - j,
    {
        let ghost before = nodes@;
        let node = Either::Directory { dir: &gamedir.sub_dirs[j] };
        nodes.push(node);
        j = j + 1;
        assert(either_views(nodes@) =~= either_views(before).push(node@));
        assert(either_views(nodes@) =~= file_nodes(dir) + dir_nodes(dir).take(j as int));
    }
    assert(dir_nodes(dir).take(gamedir.sub_dirs.len() as int) =~= dir_nodes(dir));
    nodes
}

/// Puts the children of every directory of the tree into the table under
/// the directory's inode: those of the directory itself, then those of
/// each subdirectory with all that is below it.
pub fn update_parent_map<'a>(gamedir: &'a GameDir, hash_map: &mut HashMap<u64, Vec<Either<'a>>>)
    ensures
        child_table(final(hash_map)@) == with_children(
            child_table(old(hash_map)@),
            dirs_of(gamedir@),
        ),
    decreases gamedir,
{
    let ghost start = child_table(hash_map@);
    let ghost dir = gamedir@;
    proof {
        gamedir.lemma_view();
    }
    let nodes = children_nodes(gamedir);
    hash_map.insert(gamedir.inode, nodes);
    let ghost head = seq![dir];
    assert(child_table(hash_map@) =~= with_children(start, head)) by {
        assert(head.drop_last() =~= Seq::<GameDirView>::empty());
        assert(with_children(start, head.drop_last()) == start);
        assert(head.last() == dir);
    }
    let mut j: usize = 0;
    assert(head + dirs_below(dir.sub_dirs, 0) =~= head);
    while j < gamedir.sub_dirs.len()
        invariant
            j <= gamedir.sub_dirs.len(),
            dir == gamedir@,
            dir.sub_dirs.len() == gamedir.sub_dirs@.len(),
            forall|k: int|
                0 <= k < gamedir.sub_dirs@.len() ==> #[trigger] dir.sub_dirs[k]
                    == gamedir.sub_dirs@[k]@,
            head == seq![dir],
            child_table(hash_map@) == with_children(
                start,
                head + dirs_below(dir.sub_dirs, j as nat),
            ),
        decreases gamedir.sub_dirs.len() - j,
    {
        let ghost before = head + dirs_below(dir.sub_dirs, j as nat);
        update_parent_map(&gamedir.sub_dirs[j], hash_map);
        proof {
            lemma_with_children_add(start, before, dirs_of(dir.sub_dirs[j as int]));
            assert(before + dirs_of(dir.sub_dirs[j as int]) =~= head + dirs_below(
                dir.sub_dirs,
                (j + 1) as nat,
            ));
        }
        j = j + 1;
    }
}

/// Whether the node counts as a kitty in the given state: a file other than
/// the journal whose life stands for that state.
pub open spec fn counted_as(node: EitherView, mood: Mood) -> bool {
    node matches EitherView::File { file } && file.name != JOURNAL_NAME@ && mood_of(
        file.life as int,
    ) == mood
}

/// How many kitties of the table are in the given state.
pub open spec fn count_life(table: Map<u64, EitherView>, mood: Mood) -> nat {
    table.dom().filter(|k: u64| counted_as(table[k], mood)).len()
}

/// What a node of the table shows: the journal the tally of all the other
/// files, any other file its kitty's text, a directory nothing.
pub open spec fn node_text(table: Map<u64, EitherView>, node: EitherView) -> Seq<char> {
    match node {
        EitherView::Directory { .. } => Seq::empty(),
        EitherView::File { file } => if file.name == JOURNAL_NAME@ {
            status_text(
                count_life(table, Mood::Needing) as int,
                count_life(table, Mood::AtPeace) as int,
                count_life(table, Mood::Mad) as int,
            )
        } else {
            kitty_text(file.content, file.life as int)
        },
    }
}

/// The attributes of a node of the table: a directory has size 0, a file
/// the number of bytes of what it now shows.
pub open spec fn node_attr(table: Map<u64, EitherView>, node: EitherView) -> FileAttr {
    match node {
        EitherView::Directory { dir } => owned_attr_spec(
            dir.inode,
            FileType::Directory,
            0,
            TREE_UID,
            TREE_GID,
        ),
        EitherView::File { file } => owned_attr_spec(
            file.inode,
            FileType::RegularFile,
            text_bytes(node_text(table, node)).len() as u64,
            TREE_UID,
            TREE_GID,
        ),
    }
}

/// The listing of a directory: `.` and `..` under their inodes of this
/// engine, then its subdirectories, then its files, each at the offset of
/// its place.
pub open spec fn tree_listing(dir: GameDirView) -> Seq<DirEntryView> {
    Seq::new(
        2 + dir.sub_dirs.len() + dir.files.len(),
        |i: int|
            if i < 2 {
                dots(TREE_DOT_INODE, TREE_DOT_DOT_INODE)[i]
            } else if i < 2 + dir.sub_dirs.len() {
                DirEntryView {
                    inode: dir.sub_dirs[i - 2].inode,
                    offset: i as u64,
                    kind: FileType::Directory,
                    name: dir.sub_dirs[i - 2].name,
                }
            } else {
                DirEntryView {
                    inode: dir.files[i - 2 - dir.sub_dirs.len()].inode,
                    offset: i as u64,
                    kind: FileType::RegularFile,
                    name: dir.files[i - 2 - dir.sub_dirs.len()].name,
                }
            },
    )
}

/// The predicate that holds of the nodes with the given name.
pub open spec fn called(name: Seq<char>) -> spec_fn(EitherView) -> bool {
    |node: EitherView| node.name() == name
}

/// The engine for reading only, over a tree that stays where it was built.
pub struct FuschiaFS<'a> {
    inode_table: HashMap<u64, Either<'a>>,
    parent_table: HashMap<u64, Vec<Either<'a>>>,
}

impl<'a> FuschiaFS<'a> {
    /// The table from an inode to its node.
    pub closed spec fn nodes(&self) -> Map<u64, EitherView> {
        node_table(self.inode_table@)
    }

    /// The table from the inode of a directory to its children.
    pub closed spec fn children(&self) -> Map<u64, Seq<EitherView>> {
        child_table(self.parent_table@)
    }

    /// What `lookup` answers.
    pub open spec fn lookup_spec(&self, parent: u64, name: Seq<char>) -> Result<
        FileAttr,
        EngineError,
    > {
        if self.children().contains_key(parent) {
            let found = self.children()[parent].filter(called(name));
            if found.len() == 1 {
                Ok(node_attr(self.nodes(), found[0]))
            } else {
                Err(EngineError::NotFound)
            }
        } else {
            Err(EngineError::NotFound)
        }
    }

    /// What `getattr` answers.
    pub open spec fn getattr_spec(&self, ino: u64) -> Result<FileAttr, EngineError> {
        if self.nodes().contains_key(ino) {
            Ok(node_attr(self.nodes(), self.nodes()[ino]))
        } else {
            Err(EngineError::NotFound)
        }
    }

    /// What `read` answers.
    pub open spec fn read_spec(&self, ino: u64, offset: u64, size: u32) -> Result<
        Seq<u8>,
        EngineError,
    > {
        if self.nodes().contains_key(ino) && self.nodes()[ino] is File {
            Ok(
                window(
                    text_bytes(node_text(self.nodes(), self.nodes()[ino])),
                    offset as int,
                    size as int,
                ),
            )
        } else {
            Err(EngineError::NotFound)
        }
    }

    /// What `readdir` answers.
    pub open spec fn readdir_spec(&self, ino: u64, cursor: u64) -> Result<
        Seq<DirEntryView>,
        EngineError,
    > {
        if self.nodes().contains_key(ino) {
            match self.nodes()[ino] {
                EitherView::Directory { dir } => Ok(page(tree_listing(dir), cursor)),
                EitherView::File { .. } => Err(EngineError::NotFound),
            }
        } else {
            Err(EngineError::NotFound)
        }
    }

    /// The engine over the given tree: both tables are filled from it. A
    /// tree in which two nodes share an inode makes no engine.
    pub fn new(root: &'a GameDir) -> (made: Result<FuschiaFS<'a>, EngineError>)
        ensures
            match made {
                Ok(fs) => distinct_inodes(root@.entities(None)) && fs.nodes() == with_nodes(
                    Map::empty(),
                    nodes_of(root@),
                ) && fs.children() == with_children(Map::empty(), dirs_of(root@)),
                Err(error) => error == EngineError::InvariantViolation && !distinct_inodes(
                    root@.entities(None),
                ),
            },
    {
        if !root.has_distinct_inodes() {
            return Err(EngineError::InvariantViolation);
        }
        let mut inode_table: HashMap<u64, Either<'a>> = HashMap::new();
        let mut parent_table: HashMap<u64, Vec<Either<'a>>> = HashMap::new();
        assert(node_table(inode_table@) =~= Map::empty());
        assert(child_table(parent_table@) =~= Map::empty());
        update_inode_map(root, &mut inode_table);
        update_parent_map(root, &mut parent_table);
        Ok(FuschiaFS { inode_table, parent_table })
    }

    /// The tally of the table's kitties: every file but the journal counts
    /// once, by the state that its life stands for.
    pub fn game_status(&self) -> (status: GameStatus)
        ensures
            status.kitties_needing_pets == count_life(self.nodes(), Mood::Needing),
            status.kitties_at_peace == count_life(self.nodes(), Mood::AtPeace),
            status.kitties_mad == count_life(self.nodes(), Mood::Mad),
    {
        let ghost table = self.nodes();
        let ghost needing = |k: u64| counted_as(table[k], Mood::Needing);
        let ghost at_peace = |k: u64| counted_as(table[k], Mood::AtPeace);
        let ghost mad = |k: u64| counted_as(table[k], Mood::Mad);
        let mut needing_pets_count: u64 = 0;
        let mut at_peace_count: u64 = 0;
        let mut mad_count: u64 = 0;
        let ghost keys = vstd::std_specs::hash::spec_keys_iter(
            &self.inode_table,
        ).remaining().unref();
        let total = self.inode_table.len();
        proof {
            vstd::std_specs::hash::axiom_spec_keys_iter(&self.inode_table);
        }
        for key in it: self.inode_table.keys()
            invariant
                table == self.nodes(),
                keys.len() == total,
                keys == it.seq().unref(),
                needing == |k: u64| counted_as(table[k], Mood::Needing),
                at_peace == |k: u64| counted_as(table[k], Mood::AtPeace),
                mad == |k: u64| counted_as(table[k], Mood::Mad),
                keys.to_set() == self.inode_table@.dom(),
                keys.no_duplicates(),
                needing_pets_count == count_where(keys.take(it.index()), needing),
                at_peace_count == count_where(keys.take(it.index()), at_peace),
                mad_count == count_where(keys.take(it.index()), mad),
                needing_pets_count + at_peace_count + mad_count <= it.index(),
        {
            let ghost i = it.index();
            assert(keys.take(i + 1).drop_last() =~= keys.take(i));
            assert(keys[i] == *key);
            assert(keys.to_set().contains(*key));
            match self.inode_table.get(key) {
                Some(Either::File { file }) => {
                    if !is_journal_name(&file.name) {
                        if file.life > 0 {
                            needing_pets_count = needing_pets_count + 1;
                        } else if file.life == 0 {
                            at_peace_count = at_peace_count + 1;
                        } else {
                            mad_count = mad_count + 1;
                        }
                    }
                },
                _ => {},
            }
        }
        proof {
            assert(keys.take(keys.len() as int) =~= keys);
            lemma_count_where(keys, needing);
            lemma_count_where(keys, at_peace);
            lemma_count_where(keys, mad);
            assert(keys.to_set().filter(needing) =~= table.dom().filter(
                |k: u64| counted_as(table[k], Mood::Needing),
            ));
            assert(keys.to_set().filter(at_peace) =~= table.dom().filter(
                |k: u64| counted_as(table[k], Mood::AtPeace),
            ));
            assert(keys.to_set().filter(mad) =~= table.dom().filter(
                |k: u64| counted_as(table[k], Mood::Mad),
            ));
        }
        GameStatus::new(needing_pets_count, at_peace_count, mad_count)
    }

    /// What a node shows, rendered anew.
    pub fn content_of(&self, either: &Either) -> (text: String)
        ensures
            text@ == node_text(self.nodes(), either@),
    {
        match either {
            Either::Directory { .. } => String::new(),
            Either::File { file } => {
                if is_journal_name(&file.name) {
                    let status = self.game_status();
                    status.to_content()
                } else {
                    kitty_content(&file.content, file.life)
                }
            },
        }
    }

    /// The attributes of a node. The size of a file is computed from what
    /// it shows at this moment, the journal included, and never kept.
    pub fn to_file_attr(&self, either: &Either) -> (attr: FileAttr)
        ensures
            attr == node_attr(self.nodes(), either@),
    {
        match either {
            Either::Directory { dir } => {
                proof {
                    dir.lemma_view();
                }
                make_owned_attr(dir.inode, FileType::Directory, 0, TREE_UID, TREE_GID)
            },
            Either::File { file } => {
                let text = self.content_of(either);
                make_owned_attr(
                    file.inode,
                    FileType::RegularFile,
                    byte_len(&text),
                    TREE_UID,
                    TREE_GID,
                )
            },
        }
    }

    /// The attributes of the one child of `parent` with the given name.
    /// Refused where `parent` is no directory of the tree, and where not
    /// exactly one of its children has that name.
    pub fn lookup(&self, parent: u64, name: &str) -> (found: Result<FileAttr, EngineError>)
        ensures
            found == self.lookup_spec(parent, name@),
    {
        match self.parent_table.get(&parent) {
            Some(children) => {
                let ghost all = either_views(children@);
                let wanted = String::from_str(name);
                let mut first: usize = 0;
                let mut count: usize = 0;
                let mut i: usize = 0;
                assert(all.take(0).filter(called(name@)) =~= Seq::<EitherView>::empty()) by {
                    reveal(Seq::filter);
                }
                while i < children.len()
                    invariant
                        i <= children.len(),
                        all == either_views(children@),
                        wanted@ == name@,
                        count == all.take(i as int).filter(called(name@)).len(),
                        count <= i,
                        count > 0 ==> first < i && all.take(i as int).filter(called(name@))[0]
                            == all[first as int],
                    decreases children.len() - i,
                {
                    let child = &children[i];
                    proof {
                        assert(all.take(i + 1) =~= all.take(i as int).push(child@));
                        all.take(i as int).lemma_filter_push(child@, called(name@));
                    }
                    let own = child.name();
                    if own == wanted {
                        if count == 0 {
                            first = i;
                        }
                        count = count + 1;
                    }
                    i = i + 1;
                }
                assert(all.take(children.len() as int) =~= all);
                if count == 1 {
                    Ok(self.to_file_attr(&children[first]))
                } else {
                    Err(EngineError::NotFound)
                }
            },
            None => Err(EngineError::NotFound),
        }
    }

    /// The attributes of a node. Refused where the inode is unknown.
    pub fn getattr(&self, ino: u64) -> (attr: Result<FileAttr, EngineError>)
        ensures
            attr == self.getattr_spec(ino),
    {
        match self.inode_table.get(&ino) {
            Some(either) => Ok(self.to_file_attr(either)),
            None => Err(EngineError::NotFound),
        }
    }

    /// Up to `size` bytes of what a file shows, from `offset` on. An offset
    /// at or past the end gives no bytes and no error. Refused where the
    /// inode is unknown or no file.
    pub fn read(&self, ino: u64, offset: u64, size: u32) -> (data: Result<Vec<u8>, EngineError>)
        ensures
            match data {
                Ok(bytes) => self.read_spec(ino, offset, size) == Ok::<Seq<u8>, EngineError>(
                    bytes@,
                ),
                Err(error) => self.read_spec(ino, offset, size) == Err::<Seq<u8>, EngineError>(
                    error,
                ),
            },
    {
        match self.inode_table.get(&ino) {
            Some(either) => {
                match either {
                    Either::File { .. } => {
                        let text = self.content_of(either);
                        Ok(window_of(&text, offset, size))
                    },
                    Either::Directory { .. } => Err(EngineError::NotFound),
                }
            },
            None => Err(EngineError::NotFound),
        }
    }

    /// The page of a directory's listing that `cursor` asks for: with
    /// cursor 0 the whole listing, else what follows the entry at
    /// `cursor`. Refused where the inode is unknown or no directory.
    pub fn readdir(&self, ino: u64, cursor: u64) -> (entries: Result<Vec<DirEntry>, EngineError>)
        ensures
            match entries {
                Ok(list) => self.readdir_spec(ino, cursor) == Ok::<Seq<DirEntryView>, EngineError>(
                    entry_views(list@),
                ),
                Err(error) => self.readdir_spec(ino, cursor) == Err::<
                    Seq<DirEntryView>,
                    EngineError,
                >(error),
            },
    {
        match self.inode_table.get(&ino) {
            Some(Either::Directory { dir: gamedir }) => {
                let ghost dir = gamedir@;
                let ghost whole = tree_listing(dir);
                proof {
                    gamedir.lemma_view();
                }
                let mut all = dot_list(TREE_DOT_INODE, TREE_DOT_DOT_INODE);
                assert(entry_views(all@) =~= whole.take(2));
                let mut j: usize = 0;
                while j < gamedir.sub_dirs.len()
                    invariant
                        j <= gamedir.sub_dirs.len(),
                        dir == gamedir@,
                        whole == tree_listing(dir),
                        dir.sub_dirs.len() == gamedir.sub_dirs@.len(),
                        forall|k: int|
                            0 <= k < gamedir.sub_dirs@.len() ==> #[trigger] dir.sub_dirs[k]
                                == gamedir.sub_dirs@[k]@,
                        all@.len() == 2 + j,
                        entry_views(all@) == whole.take(2 + j),
                    decreases gamedir.sub_dirs.len() - j,
                {
                    let sub_dir = &gamedir.sub_dirs[j];
                    let ghost before = all@;
                    proof {
                        sub_dir.lemma_view();
                    }
                    let entry = DirEntry {
                        inode: sub_dir.inode,
                        offset: all.len() as u64,
                        kind: FileType::Directory,
                        name: sub_dir.name.clone(),
                    };
                    all.push(entry);
                    j = j + 1;
                    assert(entry_views(all@) =~= entry_views(before).push(entry@));
                    assert(entry_views(all@) =~= whole.take(2 + j));
                }
                let mut i: usize = 0;
                while i < gamedir.files.len()
                    invariant
                        i <= gamedir.files.len(),
                        dir == gamedir@,
                        whole == tree_listing(dir),
                        dir.sub_dirs.len() == gamedir.sub_dirs@.len(),
                        dir.files == gamedir.files@.map_values(|f: GameFile| f@),
                        all@.len() == 2 + dir.sub_dirs.len() + i,
                        entry_views(all@) == whole.take(2 + dir.sub_dirs.len() + i),
                    decreases gamedir.files.len() - i,
                {
                    let file = &gamedir.files[i];
                    let ghost before = all@;
                    let entry = DirEntry {
                        inode: file.inode,
                        offset: all.len() as u64,
                        kind: FileType::RegularFile,
                        name: file.name.clone(),
                    };
                    all.push(entry);
                    i = i + 1;
                    assert(entry_views(all@) =~= entry_views(before).push(entry@));
                    assert(entry_views(all@) =~= whole.take(2 + dir.sub_dirs.len() + i));
                }
                assert(whole.take(whole.len() as int) =~= whole);
                Ok(page_of(all, cursor))
            },
            _ => Err(EngineError::NotFound),
        }
    }
}

/// The nodes of a tree are as many as its entities, and stand in the same
/// order with the same inodes.
pub proof fn lemma_node_inodes(dir: GameDirView, parent: Option<u64>)
    ensures
        nodes_of(dir).len() == dir.entities(parent).len(),
        forall|i: int|
            0 <= i < nodes_of(dir).len() ==> (#[trigger] nodes_of(dir)[i]).inode()
                == dir.entities(parent)[i].inode(),
    decreases dir, 0nat,
{
    lemma_nodes_below_inodes(dir, dir.sub_dirs.len());
}

/// The same of the nodes of the first `n` trees below a directory.
pub proof fn lemma_nodes_below_inodes(dir: GameDirView, n: nat)
    requires
        n <= dir.sub_dirs.len(),
    ensures
        nodes_below(dir.sub_dirs, n).len() == dir.sub_dir_entities(n).len(),
        forall|i: int|
            0 <= i < nodes_below(dir.sub_dirs, n).len() ==> (#[trigger] nodes_below(
                dir.sub_dirs,
                n,
            )[i]).inode() == dir.sub_dir_entities(n)[i].inode(),
    decreases dir.sub_dirs, n,
{
    if n > 0 {
        lemma_nodes_below_inodes(dir, (n - 1) as nat);
        lemma_node_inodes(dir.sub_dirs[n - 1], Some(dir.inode));
    }
}

/// Whether no two nodes of the list share an inode.
pub open spec fn distinct_nodes(nodes: Seq<EitherView>) -> bool {
    forall|i: int, j: int| 0 <= i < j < nodes.len() ==> nodes[i].inode() != nodes[j].inode()
}

/// The keys of a table filled with a list are those of the table before
/// and the inodes of the nodes, and where no two nodes share an inode,
/// each stands under its own.
pub proof fn lemma_with_nodes(table: Map<u64, EitherView>, nodes: Seq<EitherView>)
    ensures
        forall|k: u64|
            with_nodes(table, nodes).contains_key(k) <==> table.contains_key(k) || exists|i: int|
                0 <= i < nodes.len() && #[trigger] nodes[i].inode() == k,
        distinct_nodes(nodes) ==> forall|i: int|
            0 <= i < nodes.len() ==> with_nodes(table, nodes)[#[trigger] nodes[i].inode()]
                == nodes[i],
    decreases nodes.len(),
{
    if nodes.len() > 0 {
        let init = nodes.drop_last();
        let last = nodes.last();
        lemma_with_nodes(table, init);
        assert forall|k: u64| with_nodes(table, nodes).contains_key(k) implies table.contains_key(
            k,
        ) || exists|i: int| 0 <= i < nodes.len() && #[trigger] nodes[i].inode() == k by {
            if k == last.inode() {
                assert(nodes[nodes.len() - 1].inode() == k);
            } else if !table.contains_key(k) {
                let i = choose|i: int| 0 <= i < init.len() && #[trigger] init[i].inode() == k;
                assert(nodes[i].inode() == k);
            }
        }
        assert forall|k: u64|
            table.contains_key(k) || (exists|i: int|
                0 <= i < nodes.len() && #[trigger] nodes[i].inode() == k) implies with_nodes(
            table,
            nodes,
        ).contains_key(k) by {
            if !table.contains_key(k) {
                let i = choose|i: int| 0 <= i < nodes.len() && #[trigger] nodes[i].inode() == k;
                if i < nodes.len() - 1 {
                    assert(init[i].inode() == k);
                }
            }
        }
        if distinct_nodes(nodes) {
            assert(distinct_nodes(init)) by {
                assert forall|i: int, j: int| 0 <= i < j < init.len() implies init[i].inode()
                    != init[j].inode() by {
                    assert(nodes[i].inode() != nodes[j].inode());
                }
            }
            assert forall|i: int| 0 <= i < nodes.len() implies with_nodes(
                table,
                nodes,
            )[#[trigger] nodes[i].inode()] == nodes[i] by {
                if i < nodes.len() - 1 {
                    assert(init[i] == nodes[i]);
                    assert(nodes[i].inode() != nodes[nodes.len() - 1].inode());
                }
            }
        }
    }
}

/// The table of the nodes of a tree in which no two nodes share an inode
/// holds every node of the tree under its own inode, and nothing else.
pub proof fn law_node_table_holds_every_node(dir: GameDirView)
    requires
        distinct_inodes(dir.entities(None)),
    ensures
        forall|k: u64|
            with_nodes(Map::empty(), nodes_of(dir)).contains_key(k) <==> exists|i: int|
                0 <= i < nodes_of(dir).len() && #[trigger] nodes_of(dir)[i].inode() == k,
        forall|i: int|
            0 <= i < nodes_of(dir).len() ==> with_nodes(
                Map::empty(),
                nodes_of(dir),
            )[#[trigger] nodes_of(dir)[i].inode()] == nodes_of(dir)[i],
{
    let nodes = nodes_of(dir);
    lemma_node_inodes(dir, None);
    assert(distinct_nodes(nodes)) by {
        assert forall|i: int, j: int| 0 <= i < j < nodes.len() implies nodes[i].inode()
            != nodes[j].inode() by {
            assert(dir.entities(None)[i].inode() != dir.entities(None)[j].inode());
        }
    }
    let start = Map::<u64, EitherView>::empty();
    lemma_with_nodes(start, nodes);
    assert forall|k: u64| with_nodes(start, nodes).contains_key(k) <==> exists|i: int|
        0 <= i < nodes.len() && #[trigger] nodes[i].inode() == k by {
        assert(!start.contains_key(k));
    }
}

} // verus!
