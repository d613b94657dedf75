//! What holds of the tree that a document stands for: its nodes have
//! inodes of their own, all from the first one on.

use vstd::prelude::*;
use crate::entity::EntityView;
use crate::ingest::{dir_of, files_of, inodes_taken, is_file_node, sub_dirs_of, taken_by};
use crate::projection::lemma_sub_layout;
use crate::table::distinct_inodes;
use crate::tree::GameDirView;
use crate::xml::NodeKind;
use crate::xml_tree::XmlNodeView;

verus! {

/// Whether the inodes of all the nodes lie from `lo` on and below `hi`.
pub open spec fn inodes_within(nodes: Seq<EntityView>, lo: int, hi: int) -> bool {
    forall|x: int| 0 <= x < nodes.len() ==> lo <= (#[trigger] nodes[x]).inode() < hi
}

/// Whether no node of the first list shares an inode with one of the
/// second.
pub open spec fn apart(first: Seq<EntityView>, second: Seq<EntityView>) -> bool {
    forall|x: int, y: int|
        0 <= x < first.len() && 0 <= y < second.len() ==> (#[trigger] first[x]).inode() != (
        #[trigger] second[y]).inode()
}

/// The tree among those below a directory in which a place falls, and the
/// place within that tree.
pub proof fn lemma_place_below(dir: GameDirView, place: int, n: nat) -> (found: (nat, int))
    requires
        n <= dir.sub_dirs.len(),
        0 <= place < dir.sub_dir_entities(n).len(),
    ensures
        found.0 < n,
        0 <= found.1 < dir.sub_dirs[found.0 as int].entities(Some(dir.inode)).len(),
        place == dir.sub_dir_entities(found.0).len() + found.1,
        dir.sub_dir_entities(n)[place] == dir.sub_dirs[found.0 as int].entities(
            Some(dir.inode),
        )[found.1],
    decreases n,
{
    let before = dir.sub_dir_entities((n - 1) as nat).len();
    if place >= before {
        ((n - 1) as nat, place - before)
    } else {
        let found = lemma_place_below(dir, place, (n - 1) as nat);
        lemma_sub_layout(dir, found.0, n);
        found
    }
}

/// Of the files and directories that the first `n` children stand for:
/// their inodes lie from `base` on and below what the children take, and
/// no two nodes among them share one.
pub proof fn lemma_children_inodes(
    children: Seq<XmlNodeView>,
    n: nat,
    base: int,
    parent: Option<u64>,
)
    requires
        n <= children.len(),
        0 <= base,
        base + taken_by(children, n) <= u64::MAX,
    ensures
        forall|a: int|
            0 <= a < files_of(children, n, base).len() ==> base <= (#[trigger] files_of(
                children,
                n,
                base,
            )[a]).inode < base + taken_by(children, n),
        forall|a: int, b: int|
            0 <= a < b < files_of(children, n, base).len() ==> (#[trigger] files_of(
                children,
                n,
                base,
            )[a]).inode != (#[trigger] files_of(children, n, base)[b]).inode,
        forall|b: int|
            0 <= b < sub_dirs_of(children, n, base).len() ==> inodes_within(
                (#[trigger] sub_dirs_of(children, n, base)[b]).entities(parent),
                base,
                base + taken_by(children, n),
            ) && distinct_inodes(sub_dirs_of(children, n, base)[b].entities(parent)),
        forall|a: int, b: int|
            0 <= a < b < sub_dirs_of(children, n, base).len() ==> apart(
                (#[trigger] sub_dirs_of(children, n, base)[a]).entities(parent),
                (#[trigger] sub_dirs_of(children, n, base)[b]).entities(parent),
            ),
        forall|a: int, b: int, y: int|
            0 <= a < files_of(children, n, base).len() && 0 <= b < sub_dirs_of(
                children,
                n,
                base,
            ).len() && 0 <= y < sub_dirs_of(children, n, base)[b].entities(parent).len() ==> (
            #[trigger] files_of(children, n, base)[a]).inode != (#[trigger] sub_dirs_of(
                children,
                n,
                base,
            )[b].entities(parent)[y]).inode(),
    decreases children, n,
{
    if n > 0 {
        let child = children[n - 1];
        let lo = base + taken_by(children, (n - 1) as nat);
        let hi = base + taken_by(children, n);
        let files = files_of(children, n, base);
        let dirs = sub_dirs_of(children, n, base);
        let files_before = files_of(children, (n - 1) as nat, base);
        let dirs_before = sub_dirs_of(children, (n - 1) as nat, base);
        lemma_children_inodes(children, (n - 1) as nat, base, parent);
        assert forall|b: int| 0 <= b < dirs_before.len() implies inodes_within(
            (#[trigger] dirs_before[b]).entities(parent),
            base,
            hi,
        ) by {
            assert(inodes_within(dirs_before[b].entities(parent), base, lo));
        }
        if child.kind == NodeKind::Root {
        } else if is_file_node(child) {
            assert(files == files_before.push(files[files.len() - 1]));
            assert(files[files.len() - 1].inode == lo);
            assert forall|a: int| 0 <= a < files.len() implies base <= (#[trigger] files[a]).inode
                < hi by {
                if a < files_before.len() {
                    assert(files[a] == files_before[a]);
                }
            }
            assert forall|a: int, b: int| 0 <= a < b < files.len() implies (#[trigger] files[a]).inode
                != (#[trigger] files[b]).inode by {
                assert(files[a] == files_before[a]);
                if b < files_before.len() {
                    assert(files[b] == files_before[b]);
                }
            }
            assert forall|a: int, b: int, y: int|
                0 <= a < files.len() && 0 <= b < dirs.len() && 0 <= y < dirs[b].entities(
                    parent,
                ).len() implies (#[trigger] files[a]).inode != (#[trigger] dirs[b].entities(
                parent,
            )[y]).inode() by {
                if a < files_before.len() {
                    assert(files[a] == files_before[a]);
                } else {
                    assert(inodes_within(dirs_before[b].entities(parent), base, lo));
                }
            }
        } else {
            let below = dir_of(child, lo);
            lemma_ingested_inodes(child, lo, parent);
            assert(dirs == dirs_before.push(below));
            assert forall|b: int| 0 <= b < dirs.len() implies inodes_within(
                (#[trigger] dirs[b]).entities(parent),
                base,
                hi,
            ) && distinct_inodes(dirs[b].entities(parent)) by {
                if b < dirs_before.len() {
                    assert(dirs[b] == dirs_before[b]);
                } else {
                    assert(dirs[b] == below);
                }
            }
            assert forall|a: int, b: int| 0 <= a < b < dirs.len() implies apart(
                (#[trigger] dirs[a]).entities(parent),
                (#[trigger] dirs[b]).entities(parent),
            ) by {
                assert(dirs[a] == dirs_before[a]);
                if b < dirs_before.len() {
                    assert(dirs[b] == dirs_before[b]);
                } else {
                    assert(dirs[b] == below);
                    assert(inodes_within(dirs_before[a].entities(parent), base, lo));
                }
            }
            assert forall|a: int, b: int, y: int|
                0 <= a < files.len() && 0 <= b < dirs.len() && 0 <= y < dirs[b].entities(
                    parent,
                ).len() implies (#[trigger] files[a]).inode != (#[trigger] dirs[b].entities(
                parent,
            )[y]).inode() by {
                if b < dirs_before.len() {
                    assert(dirs[b] == dirs_before[b]);
                } else {
                    assert(dirs[b] == below);
                    assert(files[a].inode < lo);
                }
            }
        }
    }
}

/// The nodes of the tree that a document stands for have inodes of their
/// own: no two share one, the directory at the top has the first, and all
/// the others lie behind it and below what the document takes.
pub proof fn lemma_ingested_inodes(node: XmlNodeView, first: int, parent: Option<u64>)
    requires
        0 <= first,
        first + inodes_taken(node) <= u64::MAX,
    ensures
        distinct_inodes(dir_of(node, first).entities(parent)),
        inodes_within(dir_of(node, first).entities(parent), first, first + inodes_taken(node)),
        dir_of(node, first).entities(parent)[0].inode() == first,
        forall|x: int|
            0 < x < dir_of(node, first).entities(parent).len() ==> (#[trigger] dir_of(
                node,
                first,
            ).entities(parent)[x]).inode() > first,
    decreases node, 0nat,
{
    let dir = dir_of(node, first);
    let all = dir.entities(parent);
    let inner = Some(dir.inode);
    let m = dir.files.len() as int;
    let subs = dir.sub_dirs.len();
    let below = dir.sub_dir_entities(subs);
    let files = dir.file_entities();
    let hi = first + inodes_taken(node);
    let kids = node.children;
    let made_files = files_of(kids, kids.len(), first + 1);
    let made_dirs = sub_dirs_of(kids, kids.len(), first + 1);
    lemma_children_inodes(kids, kids.len(), first + 1, inner);
    assert(dir.files == made_files);
    assert(dir.sub_dirs == made_dirs);
    assert(hi - 1 == first + 1 + taken_by(kids, kids.len()));
    assert(all[0].inode() == first);
    assert forall|c: int| 0 <= c < m implies all[1 + c] == #[trigger] files[c] && files[c].inode()
        == dir.files[c].inode by {}
    assert forall|y: int| 0 <= y < below.len() implies all[1 + m + y] == #[trigger] below[y] by {}
    assert forall|x: int| 0 < x < all.len() implies first < (#[trigger] all[x]).inode() < hi by {
        if x < 1 + m {
            assert(all[1 + (x - 1)] == files[x - 1]);
            assert(made_files[x - 1].inode < hi - 1);
        } else {
            let y = x - 1 - m;
            let found = lemma_place_below(dir, y, subs);
            assert(all[1 + m + y] == below[y]);
            assert(inodes_within(made_dirs[found.0 as int].entities(inner), first + 1, hi - 1));
        }
    }
    assert forall|i: int, j: int| 0 <= i < j < all.len() implies all[i].inode()
        != all[j].inode() by {
        if i == 0 {
            assert(first < all[j].inode());
        } else if j < 1 + m {
            assert(all[1 + (i - 1)] == files[i - 1]);
            assert(all[1 + (j - 1)] == files[j - 1]);
            assert(made_files[i - 1].inode != made_files[j - 1].inode);
        } else if i < 1 + m {
            let y = j - 1 - m;
            let found = lemma_place_below(dir, y, subs);
            assert(all[1 + (i - 1)] == files[i - 1]);
            assert(all[1 + m + y] == below[y]);
            assert(made_files[i - 1].inode != made_dirs[found.0 as int].entities(
                inner,
            )[found.1].inode());
        } else {
            let yi = i - 1 - m;
            let yj = j - 1 - m;
            let at_i = lemma_place_below(dir, yi, subs);
            let at_j = lemma_place_below(dir, yj, subs);
            assert(all[1 + m + yi] == below[yi]);
            assert(all[1 + m + yj] == below[yj]);
            let part_i = made_dirs[at_i.0 as int].entities(inner);
            let part_j = made_dirs[at_j.0 as int].entities(inner);
            if at_i.0 == at_j.0 {
                assert(distinct_inodes(part_i));
                assert(at_i.1 < at_j.1);
            } else if at_i.0 < at_j.0 {
                assert(apart(part_i, part_j));
            } else {
                assert(apart(part_j, part_i));
            }
        }
    }
}

/// A tree that a document stands for mounts: no two of its nodes share an
/// inode, and the directory at the top has the smallest.
pub proof fn law_ingested_tree_has_distinct_inodes(node: XmlNodeView, first: int)
    requires
        0 <= first,
        first + inodes_taken(node) <= u64::MAX,
    ensures
        distinct_inodes(dir_of(node, first).entities(None)),
        dir_of(node, first).inode == first,
        forall|x: int|
            0 < x < dir_of(node, first).entities(None).len() ==> (#[trigger] dir_of(
                node,
                first,
            ).entities(None)[x]).inode() > first,
{
    lemma_ingested_inodes(node, first, None);
}

} // verus!
