//! The two kinds of node, as the inode table holds them.

use vstd::prelude::*;
use vstd::string::*;
use crate::attr::{attr_spec, make_attr, FileAttr, FileType};
use crate::content::{byte_len, kitty_content, kitty_text, text_bytes};

verus! {

/// The life that a file made by [`GameEntity::file`] starts with.
pub const INITIAL_LIFE: i32 = 100;

/// The number of pets that a new file needs.
pub const INITIAL_PETS: i32 = 5;

/// A node of the tree: a directory with its children, or a file with its
/// template and counters. Parents and children are named by inode.
#[derive(Debug)]
pub enum GameEntity {
    Directory { inode: u64, name: String, parent: Option<u64>, children: Vec<u64> },
    File {
        inode: u64,
        name: String,
        parent: Option<u64>,
        content: String,
        life: i32,
        pets_needed: i32,
    },
}

/// What a node is, with texts and lists as mathematical sequences.
pub enum EntityView {
    Directory { inode: u64, name: Seq<char>, parent: Option<u64>, children: Seq<u64> },
    File {
        inode: u64,
        name: Seq<char>,
        parent: Option<u64>,
        content: Seq<char>,
        life: i32,
        pets_needed: i32,
    },
}

impl EntityView {
    /// The node's inode.
    pub open spec fn inode(self) -> u64 {
        match self {
            EntityView::Directory { inode, .. } => inode,
            EntityView::File { inode, .. } => inode,
        }
    }

    /// The node's name.
    pub open spec fn name(self) -> Seq<char> {
        match self {
            EntityView::Directory { name, .. } => name,
            EntityView::File { name, .. } => name,
        }
    }

    /// The inode of the directory that holds the node, if one was set.
    pub open spec fn parent(self) -> Option<u64> {
        match self {
            EntityView::Directory { parent, .. } => parent,
            EntityView::File { parent, .. } => parent,
        }
    }

    /// The inodes of a directory's children in their stored order; a file
    /// has none.
    pub open spec fn children(self) -> Seq<u64> {
        match self {
            EntityView::Directory { children, .. } => children,
            EntityView::File { .. } => Seq::empty(),
        }
    }

    /// The kind of node.
    pub open spec fn kind(self) -> FileType {
        match self {
            EntityView::Directory { .. } => FileType::Directory,
            EntityView::File { .. } => FileType::RegularFile,
        }
    }

    /// What the node shows by itself: a file its kitty's text, a directory
    /// nothing.
    pub open spec fn own_text(self) -> Seq<char> {
        match self {
            EntityView::Directory { .. } => Seq::empty(),
            EntityView::File { content, pets_needed, .. } => kitty_text(
                content,
                pets_needed as int,
            ),
        }
    }

    /// The same node with its parent set.
    pub open spec fn with_parent(self, parent_inode: u64) -> EntityView {
        match self {
            EntityView::Directory { inode, name, parent, children } => EntityView::Directory {
                inode,
                name,
                parent: Some(parent_inode),
                children,
            },
            EntityView::File { inode, name, parent, content, life, pets_needed } => EntityView::File {
                inode,
                name,
                parent: Some(parent_inode),
                content,
                life,
                pets_needed,
            },
        }
    }

    /// The same node with one more child, if it is a directory.
    pub open spec fn with_child(self, child_inode: u64) -> EntityView {
        match self {
            EntityView::Directory { inode, name, parent, children } => EntityView::Directory {
                inode,
                name,
                parent,
                children: children.push(child_inode),
            },
            EntityView::File { .. } => self,
        }
    }

    /// The attributes of the node when it shows its own text.
    pub open spec fn own_attr(self) -> FileAttr {
        match self {
            EntityView::Directory { inode, .. } => attr_spec(inode, FileType::Directory, 0),
            EntityView::File { inode, .. } => attr_spec(
                inode,
                FileType::RegularFile,
                text_bytes(self.own_text()).len() as u64,
            ),
        }
    }
}

impl View for GameEntity {
    type V = EntityView;

    open spec fn view(&self) -> EntityView {
        match self {
            GameEntity::Directory { inode, name, parent, children } => EntityView::Directory {
                inode: *inode,
                name: name@,
                parent: *parent,
                children: children@,
            },
            GameEntity::File { inode, name, parent, content, life, pets_needed } => EntityView::File {
                inode: *inode,
                name: name@,
                parent: *parent,
                content: content@,
                life: *life,
                pets_needed: *pets_needed,
            },
        }
    }
}

impl Clone for GameEntity {
    fn clone(&self) -> (copy: GameEntity)
        ensures
            copy@ == self@,
    {
        match self {
            GameEntity::Directory { inode, name, parent, children } => GameEntity::Directory {
                inode: *inode,
                name: name.clone(),
                parent: *parent,
                children: children.clone(),
            },
            GameEntity::File { inode, name, parent, content, life, pets_needed } => GameEntity::File {
                inode: *inode,
                name: name.clone(),
                parent: *parent,
                content: content.clone(),
                life: *life,
                pets_needed: *pets_needed,
            },
        }
    }
}

impl GameEntity {
    /// A directory without parent or children.
    pub fn dir(inode: u64, name: &str) -> (entity: GameEntity)
        ensures
            entity@ == (EntityView::Directory {
                inode,
                name: name@,
                parent: None,
                children: Seq::empty(),
            }),
    {
        GameEntity::Directory {
            inode,
            name: String::from_str(name),
            parent: None,
            children: Vec::new(),
        }
    }

    /// A file without parent, with the given template, that needs the
    /// initial number of pets.
    pub fn file(inode: u64, name: &str, content: &str) -> (entity: GameEntity)
        ensures
            entity@ == (EntityView::File {
                inode,
                name: name@,
                parent: None,
                content: content@,
                life: INITIAL_LIFE,
                pets_needed: INITIAL_PETS,
            }),
    {
        GameEntity::File {
            inode,
            name: String::from_str(name),
            parent: None,
            content: String::from_str(content),
            life: INITIAL_LIFE,
            pets_needed: INITIAL_PETS,
        }
    }

    /// The node's name.
    pub fn get_name(&self) -> (name: &str)
        ensures
            name@ == self@.name(),
    {
        match self {
            GameEntity::Directory { name, .. } => name.as_str(),
            GameEntity::File { name, .. } => name.as_str(),
        }
    }

    /// Whether the node has the given name.
    pub fn has_name(&self, name: &String) -> (yes: bool)
        ensures
            yes == (self@.name() == name@),
    {
        match self {
            GameEntity::Directory { name: own, .. } => *own == *name,
            GameEntity::File { name: own, .. } => *own == *name,
        }
    }

    /// The kind of node.
    pub fn kind(&self) -> (kind: FileType)
        ensures
            kind == self@.kind(),
    {
        match self {
            GameEntity::Directory { .. } => FileType::Directory,
            GameEntity::File { .. } => FileType::RegularFile,
        }
    }

    /// The node's inode.
    pub fn get_inode(&self) -> (inode: u64)
        ensures
            inode == self@.inode(),
    {
        match self {
            GameEntity::Directory { inode, .. } => *inode,
            GameEntity::File { inode, .. } => *inode,
        }
    }

    /// The inode of the directory that holds the node, if one was set.
    pub fn get_parent(&self) -> (parent: Option<u64>)
        ensures
            parent == self@.parent(),
    {
        match self {
            GameEntity::Directory { parent, .. } => *parent,
            GameEntity::File { parent, .. } => *parent,
        }
    }

    /// The inodes of a directory's children in their stored order; a file
    /// has none.
    pub fn get_children(&self) -> (children: Vec<u64>)
        ensures
            children@ == self@.children(),
    {
        match self {
            GameEntity::Directory { children, .. } => children.clone(),
            GameEntity::File { .. } => Vec::new(),
        }
    }

    /// What the node shows by itself, rendered anew from its counter: the
    /// text of a kitty that needs pets while the counter is positive, of one
    /// at peace when it is zero, of a mad one below that. A directory shows
    /// nothing.
    pub fn get_content(&self) -> (text: String)
        ensures
            text@ == self@.own_text(),
    {
        match self {
            GameEntity::File { content, pets_needed, .. } => kitty_content(content, *pets_needed),
            GameEntity::Directory { .. } => String::new(),
        }
    }

    /// Sets the node's parent and leaves the rest as it was.
    pub fn set_parent(&mut self, parent_inode: u64)
        ensures
            final(self)@ == old(self)@.with_parent(parent_inode),
    {
        match self {
            GameEntity::Directory { parent, .. } => {
                *parent = Some(parent_inode);
            },
            GameEntity::File { parent, .. } => {
                *parent = Some(parent_inode);
            },
        }
    }

    /// Adds a child at the end of a directory's list; a file stays as it
    /// was.
    pub fn push_child(&mut self, child_inode: u64)
        ensures
            final(self)@ == old(self)@.with_child(child_inode),
    {
        match self {
            GameEntity::Directory { children, .. } => {
                children.push(child_inode);
            },
            _ => {},
        }
    }

    /// The attributes of the node when it shows its own text: a directory
    /// has size 0, a file the number of bytes of what it now shows.
    pub fn to_file_attr(&self) -> (attr: FileAttr)
        ensures
            attr == self@.own_attr(),
    {
        match self {
            GameEntity::Directory { inode, .. } => make_attr(*inode, FileType::Directory, 0),
            GameEntity::File { inode, .. } => {
                let text = self.get_content();
                make_attr(*inode, FileType::RegularFile, byte_len(&text))
            },
        }
    }
}

/// The nodes of a list, each as what it is.
pub open spec fn entity_views(entities: Seq<GameEntity>) -> Seq<EntityView> {
    entities.map_values(|e: GameEntity| e@)
}

} // verus!
