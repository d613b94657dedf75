//! The tree of directories and files that a document of markup stands
//! for: an element that starts with a text is a file with that text, any
//! other node a directory, and inodes are handed out along the way.

use vstd::prelude::*;
use vstd::string::*;
use crate::ingest_laws::law_ingested_tree_has_distinct_inodes;
use crate::table::distinct_inodes;
use crate::tree::{
    dir_views, lemma_dir_views, GameDir, GameDirView, GameFile, GameFileView, STARTING_LIFE,
};
use crate::xml::{
    declares_entity, edge_views, edges_of_document, filter_edges, filtered_text,
    has_entity_declaration, parse_document, parsed_edges, NodeKind, XmlEdge, XmlEdgeView,
};
use crate::xml_tree::{tree_of, tree_of_edges, walk_from, XmlNode, XmlNodeView};

verus! {

/// Whether the node becomes a file: it has children, and the first of them
/// is a text.
pub open spec fn is_file_node(node: XmlNodeView) -> bool {
    node.children.len() > 0 && node.children[0].kind == NodeKind::Text
        && node.children[0].text is Some
}

/// How many inodes a node takes as a directory: one for itself, those of
/// its children, and one that is left out behind them.
pub open spec fn inodes_taken(node: XmlNodeView) -> nat
    decreases node,
{
    2 + taken_by(node.children, node.children.len())
}

/// How many inodes the first `n` children take: a root none, a file one, a
/// directory what it takes with all that is below it.
pub open spec fn taken_by(children: Seq<XmlNodeView>, n: nat) -> nat
    decreases children, n,
{
    if n == 0 || n > children.len() {
        0
    } else {
        let child = children[n - 1];
        taken_by(children, (n - 1) as nat) + if child.kind == NodeKind::Root {
            0
        } else if is_file_node(child) {
            1
        } else {
            inodes_taken(child)
        }
    }
}

/// The directory that a node stands for when `first` is the next free
/// inode: it has the node's tag as its name and `first` as its inode, and
/// its children take the inodes that follow, in their order.
pub open spec fn dir_of(node: XmlNodeView, first: int) -> GameDirView
    decreases node,
{
    GameDirView {
        name: node.tag,
        inode: first as u64,
        files: files_of(node.children, node.children.len(), first + 1),
        sub_dirs: sub_dirs_of(node.children, node.children.len(), first + 1),
    }
}

/// The files among the first `n` children, when `base` is the inode of the
/// first child: each has its element's tag as its name and the text of the
/// element's first child as its template.
pub open spec fn files_of(children: Seq<XmlNodeView>, n: nat, base: int) -> Seq<GameFileView>
    decreases children, n,
{
    if n == 0 || n > children.len() {
        Seq::empty()
    } else {
        let before = files_of(children, (n - 1) as nat, base);
        let child = children[n - 1];
        if child.kind != NodeKind::Root && is_file_node(child) {
            before.push(
                GameFileView {
                    name: child.tag,
                    inode: (base + taken_by(children, (n - 1) as nat)) as u64,
                    content: child.children[0].text->0,
                    life: STARTING_LIFE,
                },
            )
        } else {
            before
        }
    }
}

/// The directories among the first `n` children, when `base` is the inode
/// of the first child.
pub open spec fn sub_dirs_of(children: Seq<XmlNodeView>, n: nat, base: int) -> Seq<GameDirView>
    decreases children, n,
{
    if n == 0 || n > children.len() {
        Seq::empty()
    } else {
        let before = sub_dirs_of(children, (n - 1) as nat, base);
        let child = children[n - 1];
        if child.kind != NodeKind::Root && !is_file_node(child) {
            before.push(dir_of(child, base + taken_by(children, (n - 1) as nat)))
        } else {
            before
        }
    }
}

/// The more children, the more inodes they take.
pub proof fn lemma_taken_by_grows(children: Seq<XmlNodeView>, m: nat, n: nat)
    requires
        m <= n <= children.len(),
    ensures
        taken_by(children, m) <= taken_by(children, n),
    decreases n,
{
    if m < n {
        lemma_taken_by_grows(children, m, (n - 1) as nat);
    }
}

/// The text of the first child where the node becomes a file.
fn file_text(node: &XmlNode) -> (text: Option<String>)
    ensures
        match text {
            Some(t) => is_file_node(node@) && t@ == node@.children[0].text->0,
            None => !is_file_node(node@),
        },
{
    proof {
        node.lemma_view();
    }
    if node.children.len() > 0 {
        let first = &node.children[0];
        proof {
            first.lemma_view();
        }
        match first.kind {
            NodeKind::Text => match &first.text {
                Some(t) => Some(t.clone()),
                None => None,
            },
            _ => None,
        }
    } else {
        None
    }
}

/// The directory that a node stands for. The node takes the next free
/// inode, then each child in turn: an element that starts with a text
/// becomes a file with that text and takes one inode, any other child
/// becomes a directory in the same way. One inode is left out behind
/// the children of each directory.
pub fn document_to_game_dir(document: &XmlNode, inode_counter: &mut u64) -> (dir: GameDir)
    requires
        *old(inode_counter) + inodes_taken(document@) <= u64::MAX,
    ensures
        dir@ == dir_of(document@, *old(inode_counter) as int),
        *final(inode_counter) == *old(inode_counter) + inodes_taken(document@),
    decreases document,
{
    let ghost first = *inode_counter as int;
    let ghost children = document@.children;
    proof {
        document.lemma_view();
    }
    let inode = *inode_counter;
    *inode_counter = *inode_counter + 1;
    let mut files: Vec<GameFile> = Vec::new();
    let mut sub_dirs: Vec<GameDir> = Vec::new();
    let mut i: usize = 0;
    while i < document.children.len()
        invariant
            i <= document.children.len(),
            children == document@.children,
            children.len() == document.children@.len(),
            forall|j: int|
                0 <= j < children.len() ==> #[trigger] children[j] == document.children@[j]@,
            first + inodes_taken(document@) <= u64::MAX,
            *inode_counter == first + 1 + taken_by(children, i as nat),
            files@.map_values(|f: GameFile| f@) == files_of(children, i as nat, first + 1),
            dir_views(sub_dirs@, sub_dirs@.len()) == sub_dirs_of(children, i as nat, first + 1),
        decreases document.children.len() - i,
    {
        let child = &document.children[i];
        let ghost files_before = files@;
        let ghost dirs_before = sub_dirs@;
        proof {
            lemma_taken_by_grows(children, (i + 1) as nat, children.len());
            lemma_dir_views(dirs_before, dirs_before.len());
        }
        match child.kind {
            NodeKind::Root => {},
            _ => {
                match file_text(child) {
                    Some(content) => {
                        let file = GameFile::new(*inode_counter, child.tag.clone(), content);
                        proof {
                            child.lemma_view();
                        }
                        files.push(file);
                        *inode_counter = *inode_counter + 1;
                        assert(files@.map_values(|f: GameFile| f@) =~= files_before.map_values(
                            |f: GameFile| f@,
                        ).push(file@));
                    },
                    None => {
                        let below = document_to_game_dir(child, inode_counter);
                        sub_dirs.push(below);
                        proof {
                            lemma_dir_views(sub_dirs@, sub_dirs@.len());
                            assert(dir_views(sub_dirs@, sub_dirs@.len()) =~= dir_views(
                                dirs_before,
                                dirs_before.len(),
                            ).push(below@));
                        }
                    },
                }
            },
        }
        i = i + 1;
    }
    *inode_counter = *inode_counter + 1;
    let dir = GameDir { name: document.tag.clone(), inode, files, sub_dirs };
    proof {
        dir.lemma_view();
    }
    dir
}

/// A node takes no more inodes than its walk has edges, and a walk has an
/// even number of edges.
pub proof fn lemma_inodes_fit(node: XmlNodeView)
    ensures
        inodes_taken(node) <= node.edges().len(),
        node.edges().len() % 2 == 0,
    decreases node, 0nat,
{
    lemma_children_fit(node.children, 0);
}

/// The children of a list from the `k`-th on take no more inodes than
/// their walks have edges.
pub proof fn lemma_children_fit(children: Seq<XmlNodeView>, k: nat)
    requires
        k <= children.len(),
    ensures
        taken_by(children, children.len()) - taken_by(children, k) <= walk_from(children, k).len(),
        walk_from(children, k).len() % 2 == 0,
    decreases children, children.len() - k,
{
    if k < children.len() {
        lemma_inodes_fit(children[k as int]);
        lemma_children_fit(children, k + 1);
    }
}

/// Why a text or a list of edges stands for no tree of directories and
/// files.
#[derive(Clone, Copy, Debug, PartialEq, Eq, Structural)]
pub enum IngestError {
    /// The text declares an entity, and no such text is read.
    DeclaresEntity,
    /// The text is no well-formed document.
    Malformed,
    /// The document was read, but the text that is left of it without
    /// white space is no well-formed document, or declares an entity.
    Unfilterable,
    /// The edges are not the walk of a tree.
    NoTree,
}

/// What a list of edges stands for: the directory of the tree of which it
/// is the walk, with inodes from 1 on.
pub open spec fn dir_of_edges(edges: Seq<XmlEdgeView>) -> Result<GameDirView, IngestError> {
    match tree_of(edges) {
        Some(tree) => Ok(dir_of(tree, 1)),
        None => Err(IngestError::NoTree),
    }
}

/// What is left of a text when it is parsed and the white space around
/// its texts is filtered away. A text that declares an entity is not
/// parsed.
pub open spec fn filtered_of_text(text: Seq<char>) -> Result<Seq<char>, IngestError> {
    if declares_entity(text) {
        Err(IngestError::DeclaresEntity)
    } else {
        match parsed_edges(text) {
            None => Err(IngestError::Malformed),
            Some(raw) => Ok(filtered_text(raw)),
        }
    }
}

/// What a filtered text stands for: it is parsed, and the tree of that
/// document becomes a directory with inodes from 1 on.
pub open spec fn dir_of_filtered(filtered: Seq<char>) -> Result<GameDirView, IngestError> {
    if declares_entity(filtered) {
        Err(IngestError::Unfilterable)
    } else {
        match parsed_edges(filtered) {
            None => Err(IngestError::Unfilterable),
            Some(edges) => dir_of_edges(edges),
        }
    }
}

/// What a text stands for: it is parsed, the white space around its texts
/// is filtered away, what is left is parsed again, and the tree of that
/// document becomes a directory with inodes from 1 on.
pub open spec fn dir_of_text(text: Seq<char>) -> Result<GameDirView, IngestError> {
    match filtered_of_text(text) {
        Err(error) => Err(error),
        Ok(filtered) => dir_of_filtered(filtered),
    }
}

/// The directory that a list of edges stands for, with inodes from 1 on.
/// No two nodes of its tree share an inode.
pub fn game_dir_from_edges(edges: &Vec<XmlEdge>) -> (built: Result<GameDir, IngestError>)
    ensures
        match built {
            Ok(dir) => dir_of_edges(edge_views(edges@)) == Ok::<GameDirView, IngestError>(dir@)
                && distinct_inodes(dir@.entities(None)),
            Err(error) => dir_of_edges(edge_views(edges@)) == Err::<GameDirView, IngestError>(
                error,
            ),
        },
{
    let total = edges.len();
    match tree_of_edges(edges) {
        Some(tree) => {
            proof {
                lemma_inodes_fit(tree@);
                assert(tree@.edges().len() == total);
                law_ingested_tree_has_distinct_inodes(tree@, 1);
            }
            let mut inode_counter: u64 = 1;
            Ok(document_to_game_dir(&tree, &mut inode_counter))
        },
        None => Err(IngestError::NoTree),
    }
}

/// What is left of a text of markup when the white space around its
/// texts is filtered away: the tags of its elements and the trimmed texts
/// between them.
pub fn filter_xml(text: &str) -> (filtered: Result<String, IngestError>)
    ensures
        match filtered {
            Ok(left) => filtered_of_text(text@) == Ok::<Seq<char>, IngestError>(left@),
            Err(error) => filtered_of_text(text@) == Err::<Seq<char>, IngestError>(error),
        },
{
    if has_entity_declaration(text) {
        return Err(IngestError::DeclaresEntity);
    }
    match parse_document(text) {
        Err(_) => Err(IngestError::Malformed),
        Ok(raw) => {
            let raw_edges = edges_of_document(&raw);
            Ok(filter_edges(&raw_edges))
        },
    }
}

/// The directory that a filtered text stands for, with inodes from 1 on.
/// No two nodes of its tree share an inode.
pub fn game_dir_from_filtered(filtered: &str) -> (built: Result<GameDir, IngestError>)
    ensures
        match built {
            Ok(dir) => dir_of_filtered(filtered@) == Ok::<GameDirView, IngestError>(dir@)
                && distinct_inodes(dir@.entities(None)),
            Err(error) => dir_of_filtered(filtered@) == Err::<GameDirView, IngestError>(error),
        },
{
    if has_entity_declaration(filtered) {
        return Err(IngestError::Unfilterable);
    }
    match parse_document(filtered) {
        Err(_) => Err(IngestError::Unfilterable),
        Ok(document) => {
            let edges = edges_of_document(&document);
            game_dir_from_edges(&edges)
        },
    }
}

/// The directory that a text of markup stands for, with inodes from 1 on.
/// No two nodes of its tree share an inode.
pub fn game_dir_from_xml(text: &str) -> (built: Result<GameDir, IngestError>)
    ensures
        match built {
            Ok(dir) => dir_of_text(text@) == Ok::<GameDirView, IngestError>(dir@)
                && distinct_inodes(dir@.entities(None)),
            Err(error) => dir_of_text(text@) == Err::<GameDirView, IngestError>(error),
        },
{
    match filter_xml(text) {
        Err(error) => Err(error),
        Ok(filtered) => game_dir_from_filtered(filtered.as_str()),
    }
}

} // verus!
