//! A tree of directories and files as its builder writes it down, and its
//! projection into a list of nodes that name each other by inode.

use std::collections::HashMap;
use vstd::prelude::*;
use vstd::string::*;
use crate::attr::{attr_spec, make_attr, FileAttr, FileType};
use crate::content::{byte_len, kitty_content, kitty_text, text_bytes};
use crate::entity::{entity_views, EntityView, GameEntity};
use crate::error::EngineError;
use crate::table::{distinct_inodes, lemma_table_of, table_of, table_view};

verus! {

broadcast use vstd::std_specs::hash::group_hash_axioms;

/// The life that a file of the builder starts with.
pub const STARTING_LIFE: i32 = 5;

/// A file as the builder writes it down.
#[derive(Debug)]
pub struct GameFile {
    pub name: String,
    pub inode: u64,
    pub content: String,
    pub life: i32,
}

/// What a [`GameFile`] is.
pub struct GameFileView {
    pub name: Seq<char>,
    pub inode: u64,
    pub content: Seq<char>,
    pub life: i32,
}

impl GameFileView {
    /// The node that the file becomes in a table, before its parent is set:
    /// it needs as many pets as the file has life.
    pub open spec fn entity(self) -> EntityView {
        EntityView::File {
            inode: self.inode,
            name: self.name,
            parent: None,
            content: self.content,
            life: self.life,
            pets_needed: self.life,
        }
    }
}

impl View for GameFile {
    type V = GameFileView;

    open spec fn view(&self) -> GameFileView {
        GameFileView { name: self.name@, inode: self.inode, content: self.content@, life: self.life }
    }
}

impl GameFile {
    /// A file with the given inode, name and template, and the starting life.
    pub fn new(inode: u64, name: String, content: String) -> (file: GameFile)
        ensures
            file@ == (GameFileView {
                name: name@,
                inode,
                content: content@,
                life: STARTING_LIFE,
            }),
    {
        GameFile { name, inode, content, life: STARTING_LIFE }
    }

    /// The same file with another template.
    pub fn content(self, content: &str) -> (file: GameFile)
        ensures
            file@ == (GameFileView { content: content@, ..self@ }),
    {
        let mut file = self;
        file.content = String::from_str(content);
        file
    }

    /// What the file shows: its kitty's text for the life it has left.
    pub fn get_content(&self) -> (text: String)
        ensures
            text@ == kitty_text(self@.content, self@.life as int),
    {
        kitty_content(&self.content, self.life)
    }

    /// Takes one from the file's life.
    pub fn dec_life(&mut self)
        requires
            old(self).life > i32::MIN,
        ensures
            final(self)@ == (GameFileView { life: (old(self).life - 1) as i32, ..old(self)@ }),
    {
        self.life = self.life - 1;
    }

    /// The attributes of the file: its size is the number of bytes of what
    /// it now shows.
    pub fn to_file_attr(&self) -> (attr: FileAttr)
        ensures
            attr == attr_spec(
                self@.inode,
                FileType::RegularFile,
                text_bytes(kitty_text(self@.content, self@.life as int)).len() as u64,
            ),
    {
        let text = self.get_content();
        make_attr(self.inode, FileType::RegularFile, byte_len(&text))
    }

    /// The node that the file becomes in a table, before its parent is set.
    pub fn to_game_entity(&self) -> (entity: GameEntity)
        ensures
            entity@ == self@.entity(),
    {
        GameEntity::File {
            inode: self.inode,
            name: self.name.clone(),
            parent: None,
            content: self.content.clone(),
            life: self.life,
            pets_needed: self.life,
        }
    }
}

/// A directory as the builder writes it down: its files, then its
/// subdirectories, each in the order in which they were added.
#[derive(Debug)]
pub struct GameDir {
    pub name: String,
    pub inode: u64,
    pub files: Vec<GameFile>,
    pub sub_dirs: Vec<GameDir>,
}

/// What a [`GameDir`] is.
pub struct GameDirView {
    pub name: Seq<char>,
    pub inode: u64,
    pub files: Seq<GameFileView>,
    pub sub_dirs: Seq<GameDirView>,
}

impl View for GameDir {
    type V = GameDirView;

    open spec fn view(&self) -> GameDirView {
        dir_view(*self)
    }
}

/// What a directory is: its name and inode, and what its files and
/// subdirectories are, in their order.
pub open spec fn dir_view(dir: GameDir) -> GameDirView
    decreases dir,
{
    GameDirView {
        name: dir.name@,
        inode: dir.inode,
        files: dir.files@.map_values(|f: GameFile| f@),
        sub_dirs: dir_views(dir.sub_dirs@, dir.sub_dirs@.len()),
    }
}

/// What the first `n` directories of a list are.
pub open spec fn dir_views(dirs: Seq<GameDir>, n: nat) -> Seq<GameDirView>
    decreases dirs, n,
{
    if n == 0 || n > dirs.len() {
        Seq::empty()
    } else {
        dir_views(dirs, (n - 1) as nat).push(dir_view(dirs[n - 1]))
    }
}

/// The views of the first `n` directories are `n`, one for each directory.
pub proof fn lemma_dir_views(dirs: Seq<GameDir>, n: nat)
    requires
        n <= dirs.len(),
    ensures
        dir_views(dirs, n).len() == n,
        forall|i: int| 0 <= i < n ==> #[trigger] dir_views(dirs, n)[i] == dirs[i]@,
    decreases n,
{
    if n > 0 {
        lemma_dir_views(dirs, (n - 1) as nat);
    }
}

impl GameDirView {
    /// The inodes of the directory's children in their stored order: the
    /// files first, then the subdirectories.
    pub open spec fn child_inodes(self) -> Seq<u64> {
        self.files.map_values(|f: GameFileView| f.inode) + self.sub_dirs.map_values(
            |d: GameDirView| d.inode,
        )
    }

    /// The node that the directory itself becomes under the given parent.
    pub open spec fn entity(self, parent: Option<u64>) -> EntityView {
        EntityView::Directory {
            inode: self.inode,
            name: self.name,
            parent,
            children: self.child_inodes(),
        }
    }

    /// The nodes of the directory's files, each with this directory as its
    /// parent.
    pub open spec fn file_entities(self) -> Seq<EntityView> {
        self.files.map_values(|f: GameFileView| f.entity().with_parent(self.inode))
    }

    /// The nodes of the whole tree under the given parent: the directory,
    /// its files, then the nodes of each subdirectory in turn.
    pub open spec fn entities(self, parent: Option<u64>) -> Seq<EntityView>
        decreases self, 1int, 0nat,
    {
        seq![self.entity(parent)] + self.file_entities() + self.sub_dir_entities(
            self.sub_dirs.len(),
        )
    }

    /// The nodes of the first `n` subdirectories, one tree after the other.
    pub open spec fn sub_dir_entities(self, n: nat) -> Seq<EntityView>
        decreases self, 0int, n,
    {
        if n == 0 || n > self.sub_dirs.len() {
            Seq::empty()
        } else {
            self.sub_dir_entities((n - 1) as nat) + self.sub_dirs[n - 1].entities(
                Some(self.inode),
            )
        }
    }
}

impl GameDir {
    /// What the view of a directory holds, field by field.
    pub proof fn lemma_view(&self)
        ensures
            self@.name == self.name@,
            self@.inode == self.inode,
            self@.files == self.files@.map_values(|f: GameFile| f@),
            self@.sub_dirs.len() == self.sub_dirs@.len(),
            forall|i: int|
                0 <= i < self.sub_dirs@.len() ==> #[trigger] self@.sub_dirs[i]
                    == self.sub_dirs@[i]@,
    {
        lemma_dir_views(self.sub_dirs@, self.sub_dirs@.len());
    }

    /// A directory with the given inode and name, and nothing in it.
    pub fn new(inode: u64, name: String) -> (dir: GameDir)
        ensures
            dir@ == (GameDirView {
                name: name@,
                inode,
                files: Seq::empty(),
                sub_dirs: Seq::empty(),
            }),
    {
        let dir = GameDir { name, inode, files: Vec::new(), sub_dirs: Vec::new() };
        proof {
            dir.lemma_view();
        }
        assert(dir@.files =~= Seq::empty());
        assert(dir@.sub_dirs =~= Seq::empty());
        dir
    }

    /// The same directory with one more file at the end of its files.
    pub fn with_file(self, file: GameFile) -> (dir: GameDir)
        ensures
            dir@ == (GameDirView { files: self@.files.push(file@), ..self@ }),
    {
        let mut dir = self;
        dir.files.push(file);
        proof {
            self.lemma_view();
            dir.lemma_view();
        }
        assert(dir@.files =~= self@.files.push(file@));
        assert(dir@.sub_dirs =~= self@.sub_dirs);
        dir
    }

    /// The same directory with one more subdirectory at the end of its
    /// subdirectories.
    pub fn with_dir(self, sub_dir: GameDir) -> (dir: GameDir)
        ensures
            dir@ == (GameDirView { sub_dirs: self@.sub_dirs.push(sub_dir@), ..self@ }),
    {
        let mut dir = self;
        dir.sub_dirs.push(sub_dir);
        proof {
            self.lemma_view();
            dir.lemma_view();
        }
        assert(dir@.files =~= self@.files);
        assert(dir@.sub_dirs =~= self@.sub_dirs.push(sub_dir@));
        dir
    }

    /// The attributes of the directory: its size is 0.
    pub fn to_file_attr(&self) -> (attr: FileAttr)
        ensures
            attr == attr_spec(self@.inode, FileType::Directory, 0),
    {
        make_attr(self.inode, FileType::Directory, 0)
    }

    /// The nodes of the whole tree, the directory first: each file and each
    /// subdirectory has the directory that holds it as its parent, and the
    /// directory itself has `parent`.
    pub fn to_game_entities(&self, parent: Option<u64>) -> (entities: Vec<GameEntity>)
        ensures
            entity_views(entities@) == self@.entities(parent),
        decreases self,
    {
        proof {
            self.lemma_view();
        }
        let mut children: Vec<u64> = Vec::new();
        let mut i: usize = 0;
        while i < self.files.len()
            invariant
                i <= self.files.len(),
                children@ == self@.files.take(i as int).map_values(|f: GameFileView| f.inode),
            decreases self.files.len() - i,
        {
            proof {
                self.lemma_view();
            }
            children.push(self.files[i].inode);
            i = i + 1;
            assert(self@.files.take(i as int) =~= self@.files.take(i - 1).push(
                self@.files[i - 1],
            ));
        }
        assert(self@.files.take(self.files.len() as int) =~= self@.files);
        let mut j: usize = 0;
        while j < self.sub_dirs.len()
            invariant
                j <= self.sub_dirs.len(),
                children@ == self@.files.map_values(|f: GameFileView| f.inode)
                    + self@.sub_dirs.take(j as int).map_values(|d: GameDirView| d.inode),
            decreases self.sub_dirs.len() - j,
        {
            proof {
                self.lemma_view();
                self.sub_dirs@[j as int].lemma_view();
            }
            children.push(self.sub_dirs[j].inode);
            j = j + 1;
            assert(self@.sub_dirs.take(j as int) =~= self@.sub_dirs.take(j - 1).push(
                self@.sub_dirs[j - 1],
            ));
        }
        assert(self@.sub_dirs.take(self.sub_dirs.len() as int) =~= self@.sub_dirs);
        let mut entities: Vec<GameEntity> = Vec::new();
        entities.push(
            GameEntity::Directory {
                inode: self.inode,
                name: self.name.clone(),
                parent,
                children,
            },
        );
        assert(entity_views(entities@) =~= seq![self@.entity(parent)]);
        let mut k: usize = 0;
        while k < self.files.len()
            invariant
                k <= self.files.len(),
                entity_views(entities@) == seq![self@.entity(parent)]
                    + self@.file_entities().take(k as int),
            decreases self.files.len() - k,
        {
            proof {
                self.lemma_view();
            }
            let ghost before = entities@;
            let mut entity = self.files[k].to_game_entity();
            entity.set_parent(self.inode);
            entities.push(entity);
            k = k + 1;
            assert(entity_views(entities@) =~= entity_views(before).push(entity@));
            assert(self@.file_entities()[k - 1] == entity@);
            assert(self@.file_entities().take(k as int) =~= self@.file_entities().take(
                k - 1,
            ).push(entity@));
        }
        assert(self@.file_entities().take(self.files.len() as int) =~= self@.file_entities());
        let mut n: usize = 0;
        while n < self.sub_dirs.len()
            invariant
                n <= self.sub_dirs.len(),
                entity_views(entities@) == seq![self@.entity(parent)] + self@.file_entities()
                    + self@.sub_dir_entities(n as nat),
            decreases self.sub_dirs.len() - n,
        {
            proof {
                self.lemma_view();
            }
            let mut below = self.sub_dirs[n].to_game_entities(Some(self.inode));
            let ghost before = entities@;
            let ghost added = below@;
            entities.append(&mut below);
            n = n + 1;
            assert(entity_views(before + added) =~= entity_views(before) + entity_views(added));
            assert(self@.sub_dirs[n - 1] == self.sub_dirs@[n - 1]@);
        }
        entities
    }

    /// Whether no two nodes of the tree share an inode.
    pub fn has_distinct_inodes(&self) -> (yes: bool)
        ensures
            yes == distinct_inodes(self@.entities(None)),
    {
        match self.to_entity_hash_map() {
            Ok(_) => true,
            Err(_) => false,
        }
    }

    /// The inode table of the whole tree: every node under its own inode.
    /// Two nodes that share an inode make no table.
    pub fn to_entity_hash_map(&self) -> (table: Result<HashMap<u64, GameEntity>, EngineError>)
        ensures
            match table {
                Ok(map) => distinct_inodes(self@.entities(None)) && table_view(map@) == table_of(
                    self@.entities(None),
                ),
                Err(error) => error == EngineError::InvariantViolation && !distinct_inodes(
                    self@.entities(None),
                ),
            },
    {
        let entities = self.to_game_entities(None);
        let ghost all = entities@;
        let ghost views = entity_views(all);
        let mut hash_map: HashMap<u64, GameEntity> = HashMap::new();
        assert(table_view(hash_map@) =~= table_of(views.take(0)));
        for entity in it: entities
            invariant
                it.seq() == all,
                views == entity_views(all),
                views == self@.entities(None),
                table_view(hash_map@) == table_of(views.take(it.index())),
                distinct_inodes(views.take(it.index())),
        {
            let ghost i = it.index();
            let ghost before = views.take(i);
            let ghost node = entity@;
            assert(views[i] == node);
            assert(views.take(i + 1).drop_last() =~= before);
            let inode = entity.get_inode();
            proof {
                lemma_table_of(before);
                assert(table_view(hash_map@).contains_key(inode) == hash_map@.contains_key(inode));
                assert(table_of(before).contains_key(inode) == hash_map@.contains_key(inode));
            }
            if hash_map.contains_key(&inode) {
                proof {
                    let j = choose|j: int| 0 <= j < before.len() && #[trigger] before[j].inode() == inode;
                    assert(views[j].inode() == views[i].inode());
                }
                return Err(EngineError::InvariantViolation);
            }
            hash_map.insert(inode, entity);
            assert(table_view(hash_map@) =~= table_of(views.take(i + 1)));
            let ghost upto = views.take(i + 1);
            assert(distinct_inodes(upto)) by {
                assert forall|a: int, b: int| 0 <= a < b < upto.len() implies #[trigger] upto[a].inode()
                    != #[trigger] upto[b].inode() by {
                    if b < i {
                        assert(before[a].inode() != before[b].inode());
                    } else {
                        assert(before[a].inode() == upto[a].inode());
                        assert(upto[b].inode() == inode);
                    }
                }
            }
        }
        assert(views.take(views.len() as int) =~= views);
        Ok(hash_map)
    }
}

/// A directory with the given inode and name, and nothing in it.
pub fn dir(inode: u64, name: &str) -> (dir: GameDir)
    ensures
        dir@ == (GameDirView { name: name@, inode, files: Seq::empty(), sub_dirs: Seq::empty() }),
{
    GameDir::new(inode, String::from_str(name))
}

/// A file with the given inode and name, an empty template and the starting
/// life.
pub fn file(inode: u64, name: &str) -> (file: GameFile)
    ensures
        file@ == (GameFileView {
            name: name@,
            inode,
            content: Seq::empty(),
            life: STARTING_LIFE,
        }),
{
    GameFile::new(inode, String::from_str(name), String::new())
}

} // verus!
