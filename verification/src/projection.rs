//! What the inode table of a tree is like: every node under its own inode,
//! every child in the table with its directory as parent, and every node
//! but the root listed once by the directory that holds it.

use vstd::prelude::*;
use crate::entity::EntityView;
use crate::table::{distinct_inodes, lemma_table_of, table_of};
use crate::tree::GameDirView;

verus! {

/// Whether `child` stands in the table with `k` as its parent.
pub open spec fn child_linked(table: Map<u64, EntityView>, k: u64, child: u64) -> bool {
    table.contains_key(child) && table[child].parent() == Some(k)
}

/// Whether the parent of the node under `k`, if it has one, is a
/// directory of the table that lists `k` among its children.
pub open spec fn parent_linked(table: Map<u64, EntityView>, k: u64) -> bool {
    match table[k].parent() {
        Some(p) => table.contains_key(p) && table[p] is Directory && table[p].children().contains(
            k,
        ),
        None => true,
    }
}

/// Whether the node under `k` is as it should be: it has `k` as its
/// inode; its children stand in the table, each once and with `k` as its
/// parent; and its parent, if it has one, is a directory of the table
/// that lists it.
pub open spec fn node_wf(table: Map<u64, EntityView>, k: u64) -> bool {
    &&& table[k].inode() == k
    &&& forall|c: int|
        0 <= c < table[k].children().len() ==> child_linked(
            table,
            k,
            #[trigger] table[k].children()[c],
        )
    &&& table[k].children().no_duplicates()
    &&& parent_linked(table, k)
}

/// Whether at most one node of the table, the root, has no parent.
pub open spec fn one_root(table: Map<u64, EntityView>) -> bool {
    forall|a: u64, b: u64|
        #![trigger table.contains_key(a), table.contains_key(b)]
        table.contains_key(a) && table.contains_key(b) && table[a].parent() is None
            && table[b].parent() is None ==> a == b
}

/// Whether the table is well formed: every node is as it should be, and at
/// most one has no parent.
pub open spec fn table_wf(table: Map<u64, EntityView>) -> bool {
    &&& forall|k: u64| #[trigger] table.contains_key(k) ==> node_wf(table, k)
    &&& one_root(table)
}

/// Whether the children of the `i`-th node of the list stand in the list
/// at the given places, each with that node as its parent, and the places
/// go upwards.
pub open spec fn placed(nodes: Seq<EntityView>, i: int, places: Seq<int>) -> bool {
    &&& places.len() == nodes[i].children().len()
    &&& forall|c: int|
        0 <= c < places.len() ==> 0 <= #[trigger] places[c] < nodes.len()
            && nodes[places[c]].inode() == nodes[i].children()[c] && nodes[places[c]].parent()
            == Some(nodes[i].inode())
    &&& forall|a: int, b: int|
        0 <= a < b < places.len() ==> #[trigger] places[a] < #[trigger] places[b]
}

/// Whether the children of the `i`-th node stand in the list.
pub open spec fn children_found(nodes: Seq<EntityView>, i: int) -> bool {
    exists|places: Seq<int>| placed(nodes, i, places)
}

/// Whether the node at place `p` is a directory that is the parent of the
/// `i`-th node and lists it.
pub open spec fn has_parent_at(nodes: Seq<EntityView>, i: int, p: int) -> bool {
    &&& 0 <= p < nodes.len()
    &&& nodes[p] is Directory
    &&& nodes[i].parent() == Some(nodes[p].inode())
    &&& nodes[p].children().contains(nodes[i].inode())
}

/// Whether the parent of the `i`-th node stands in the list.
pub open spec fn parent_found(nodes: Seq<EntityView>, i: int) -> bool {
    exists|p: int| has_parent_at(nodes, i, p)
}

/// Whether the nodes of the list are linked among themselves: the children
/// of each stand in the list, and so does the parent of each but the
/// first.
pub open spec fn linked(nodes: Seq<EntityView>) -> bool {
    &&& forall|i: int| 0 <= i < nodes.len() ==> #[trigger] children_found(nodes, i)
    &&& forall|i: int| 0 < i < nodes.len() ==> #[trigger] parent_found(nodes, i)
}

/// A list that is linked stays so where it stands inside a longer list.
pub proof fn lemma_embedded(all: Seq<EntityView>, part: Seq<EntityView>, at: int)
    requires
        0 <= at,
        at + part.len() <= all.len(),
        forall|x: int| 0 <= x < part.len() ==> all[at + x] == #[trigger] part[x],
        linked(part),
    ensures
        forall|x: int| 0 <= x < part.len() ==> #[trigger] children_found(all, at + x),
        forall|x: int| 0 < x < part.len() ==> #[trigger] parent_found(all, at + x),
{
    assert forall|x: int| 0 <= x < part.len() implies #[trigger] children_found(all, at + x) by {
        assert(children_found(part, x));
        let places = choose|places: Seq<int>| placed(part, x, places);
        let moved = Seq::new(places.len(), |c: int| places[c] + at);
        assert(all[at + x] == part[x]);
        assert forall|c: int| 0 <= c < moved.len() implies 0 <= #[trigger] moved[c] < all.len()
            && all[moved[c]].inode() == all[at + x].children()[c] && all[moved[c]].parent()
            == Some(all[at + x].inode()) by {
            assert(all[at + places[c]] == part[places[c]]);
        }
        assert(placed(all, at + x, moved));
    }
    assert forall|x: int| 0 < x < part.len() implies #[trigger] parent_found(all, at + x) by {
        assert(parent_found(part, x));
        let p = choose|p: int| has_parent_at(part, x, p);
        assert(all[at + x] == part[x]);
        assert(all[at + p] == part[p]);
        assert(has_parent_at(all, at + x, at + p));
    }
}

/// The block in which a place falls, where the blocks start at the given
/// places one behind the other.
pub proof fn lemma_find_block(starts: Seq<int>, place: int, n: int) -> (k: int)
    requires
        0 < n < starts.len(),
        forall|j: int| 0 <= j < n ==> #[trigger] starts[j] < starts[j + 1],
        starts[0] <= place < starts[n],
    ensures
        0 <= k < n,
        starts[k] <= place < starts[k + 1],
    decreases n,
{
    if place >= starts[n - 1] {
        n - 1
    } else {
        lemma_find_block(starts, place, n - 1)
    }
}

/// The starts of blocks that are not empty go upwards.
pub proof fn lemma_starts_grow(starts: Seq<int>, a: int, b: int)
    requires
        0 <= a < b < starts.len(),
        forall|j: int| 0 <= j < starts.len() - 1 ==> #[trigger] starts[j] < starts[j + 1],
    ensures
        starts[a] < starts[b],
    decreases b,
{
    if a < b - 1 {
        lemma_starts_grow(starts, a, b - 1);
    }
}

/// A list is linked where it is made of a directory, then the files that
/// the directory lists, then one linked block for each subdirectory that
/// it lists, each block starting with that subdirectory.
pub proof fn lemma_linked_from_blocks(
    all: Seq<EntityView>,
    m: int,
    parts: Seq<Seq<EntityView>>,
    starts: Seq<int>,
)
    requires
        all.len() >= 1,
        all[0] is Directory,
        0 <= m,
        all[0].children().len() == m + parts.len(),
        starts.len() == parts.len() + 1,
        starts[0] == 1 + m,
        all.len() == starts[parts.len() as int],
        forall|k: int|
            0 <= k < parts.len() ==> (#[trigger] parts[k]).len() >= 1 && starts[k + 1] == starts[k]
                + parts[k].len() && linked(parts[k]) && parts[k][0].inode()
                == all[0].children()[m + k] && parts[k][0].parent() == Some(all[0].inode()),
        forall|k: int, x: int|
            0 <= k < parts.len() && 0 <= x < parts[k].len() ==> all[starts[k] + x]
                == #[trigger] parts[k][x],
        forall|c: int|
            0 <= c < m ==> (#[trigger] all[1 + c]) is File && all[1 + c].inode()
                == all[0].children()[c] && all[1 + c].parent() == Some(all[0].inode()),
    ensures
        linked(all),
{
    let n = parts.len() as int;
    assert forall|j: int| 0 <= j < starts.len() - 1 implies #[trigger] starts[j] < starts[j
        + 1] by {
        assert(parts[j].len() >= 1);
    }
    let places = Seq::new(
        all[0].children().len(),
        |c: int|
            if c < m {
                1 + c
            } else {
                starts[c - m]
            },
    );
    assert(placed(all, 0, places)) by {
        assert forall|c: int| 0 <= c < places.len() implies 0 <= #[trigger] places[c] < all.len()
            && all[places[c]].inode() == all[0].children()[c] && all[places[c]].parent() == Some(
            all[0].inode(),
        ) by {
            if c < m {
                assert(all[1 + c] is File);
                if n > 0 {
                    lemma_starts_grow(starts, 0, n);
                }
            } else {
                let k = c - m;
                assert(parts[k].len() >= 1);
                assert(all[starts[k] + 0] == parts[k][0]);
                if k > 0 {
                    lemma_starts_grow(starts, 0, k);
                }
                if k + 1 < n {
                    lemma_starts_grow(starts, k + 1, n);
                }
            }
        }
        assert forall|a: int, b: int| 0 <= a < b < places.len() implies #[trigger] places[a]
            < #[trigger] places[b] by {
            if b >= m {
                if a >= m {
                    lemma_starts_grow(starts, a - m, b - m);
                } else if b > m {
                    lemma_starts_grow(starts, 0, b - m);
                }
            }
        }
    }
    assert forall|i: int| 0 <= i < all.len() implies #[trigger] children_found(all, i) by {
        if i == 0 {
            assert(placed(all, 0, places));
        } else if i < 1 + m {
            assert(all[1 + (i - 1)] is File);
            assert(placed(all, i, Seq::<int>::empty()));
        } else {
            let k = lemma_find_block(starts, i, n);
            let part = parts[k];
            if k > 0 {
                lemma_starts_grow(starts, 0, k);
            }
            assert forall|x: int| 0 <= x < part.len() implies all[starts[k] + x]
                == #[trigger] part[x] by {
                assert(all[starts[k] + x] == parts[k][x]);
            }
            if k + 1 < n {
                lemma_starts_grow(starts, k + 1, n);
            }
            lemma_embedded(all, part, starts[k]);
            assert(children_found(all, starts[k] + (i - starts[k])));
        }
    }
    assert forall|i: int| 0 < i < all.len() implies #[trigger] parent_found(all, i) by {
        if i < 1 + m {
            assert(all[1 + (i - 1)] is File);
            assert(all[0].children()[i - 1] == all[i].inode());
            assert(has_parent_at(all, i, 0));
        } else {
            let k = lemma_find_block(starts, i, n);
            let part = parts[k];
            if k > 0 {
                lemma_starts_grow(starts, 0, k);
            }
            assert forall|x: int| 0 <= x < part.len() implies all[starts[k] + x]
                == #[trigger] part[x] by {
                assert(all[starts[k] + x] == parts[k][x]);
            }
            if k + 1 < n {
                lemma_starts_grow(starts, k + 1, n);
            }
            if i == starts[k] {
                assert(all[starts[k] + 0] == parts[k][0]);
                assert(all[0].children()[m + k] == all[i].inode());
                assert(has_parent_at(all, i, 0));
            } else {
                lemma_embedded(all, part, starts[k]);
                assert(parent_found(all, starts[k] + (i - starts[k])));
            }
        }
    }
}

/// The nodes of the trees below a directory stand one tree after the
/// other: the tree of the `k`-th subdirectory starts behind the trees of
/// the `k` before it.
pub proof fn lemma_sub_layout(dir: GameDirView, k: nat, n: nat)
    requires
        k < n <= dir.sub_dirs.len(),
    ensures
        dir.sub_dir_entities(k).len() + dir.sub_dirs[k as int].entities(Some(dir.inode)).len()
            == dir.sub_dir_entities(k + 1).len(),
        dir.sub_dir_entities(k + 1).len() <= dir.sub_dir_entities(n).len(),
        forall|x: int|
            0 <= x < dir.sub_dirs[k as int].entities(Some(dir.inode)).len()
                ==> dir.sub_dir_entities(n)[dir.sub_dir_entities(k).len() + x]
                == #[trigger] dir.sub_dirs[k as int].entities(Some(dir.inode))[x],
    decreases n,
{
    if n > k + 1 {
        lemma_sub_layout(dir, k, (n - 1) as nat);
    }
}

/// The nodes of a tree are linked among themselves, the first of them is
/// its directory, and every other has a parent.
pub proof fn lemma_entities_linked(dir: GameDirView, parent: Option<u64>)
    ensures
        dir.entities(parent).len() >= 1,
        dir.entities(parent)[0] == dir.entity(parent),
        linked(dir.entities(parent)),
    decreases dir,
{
    let all = dir.entities(parent);
    let files = dir.file_entities();
    let m = dir.files.len() as int;
    let subs = dir.sub_dirs.len();
    let below = dir.sub_dir_entities(subs);
    let parts = Seq::new(subs, |k: int| dir.sub_dirs[k].entities(Some(dir.inode)));
    let starts = Seq::new(subs + 1, |k: int| 1 + m + dir.sub_dir_entities(k as nat).len());
    assert(all.len() == 1 + m + below.len());
    assert(all[0] == dir.entity(parent));
    assert forall|k: int| 0 <= k < parts.len() implies (#[trigger] parts[k]).len() >= 1
        && starts[k + 1] == starts[k] + parts[k].len() && linked(parts[k]) && parts[k][0].inode()
        == all[0].children()[m + k] && parts[k][0].parent() == Some(all[0].inode()) by {
        lemma_entities_linked(dir.sub_dirs[k], Some(dir.inode));
        lemma_sub_layout(dir, k as nat, subs);
    }
    assert forall|k: int, x: int| 0 <= k < parts.len() && 0 <= x < parts[k].len() implies all[starts[k]
        + x] == #[trigger] parts[k][x] by {
        lemma_sub_layout(dir, k as nat, subs);
        let part = dir.sub_dirs[k].entities(Some(dir.inode));
        assert(below[dir.sub_dir_entities(k as nat).len() + x] == part[x]);
        assert(all[1 + m + (dir.sub_dir_entities(k as nat).len() + x)] == below[dir.sub_dir_entities(
            k as nat,
        ).len() + x]);
    }
    assert forall|c: int| 0 <= c < m implies (#[trigger] all[1 + c]) is File && all[1 + c].inode()
        == all[0].children()[c] && all[1 + c].parent() == Some(all[0].inode()) by {
        assert(all[1 + c] == files[c]);
    }
    lemma_linked_from_blocks(all, m, parts, starts);
}

/// The inode table of a tree in which no two nodes share an inode is well
/// formed, and its root is the one node without a parent.
pub proof fn law_projection_is_well_formed(dir: GameDirView)
    requires
        distinct_inodes(dir.entities(None)),
    ensures
        table_wf(table_of(dir.entities(None))),
        table_of(dir.entities(None)).contains_key(dir.inode),
        table_of(dir.entities(None))[dir.inode] == dir.entity(None),
{
    let all = dir.entities(None);
    let table = table_of(all);
    lemma_entities_linked(dir, None);
    lemma_table_of(all);
    assert(all[0].inode() == dir.inode);
    assert forall|k: u64| #[trigger] table.contains_key(k) implies node_wf(table, k) by {
        let i = choose|i: int| 0 <= i < all.len() && #[trigger] all[i].inode() == k;
        assert(table[all[i].inode()] == all[i]);
        assert(children_found(all, i));
        let places = choose|places: Seq<int>| placed(all, i, places);
        assert forall|a: int, b: int|
            0 <= a < all[i].children().len() && 0 <= b < all[i].children().len() && a
                != b implies all[i].children()[a] != all[i].children()[b] by {
            if a < b {
                assert(places[a] < places[b]);
                assert(all[places[a]].inode() != all[places[b]].inode());
            } else {
                assert(places[b] < places[a]);
                assert(all[places[b]].inode() != all[places[a]].inode());
            }
        }
        assert forall|c: int| 0 <= c < table[k].children().len() implies child_linked(
            table,
            k,
            #[trigger] table[k].children()[c],
        ) by {
            let j = places[c];
            assert(table[all[j].inode()] == all[j]);
        }
        if i > 0 {
            assert(parent_found(all, i));
            let p = choose|p: int| has_parent_at(all, i, p);
            assert(table[all[p].inode()] == all[p]);
        }
    }
    assert forall|a: u64, b: u64|
        table.contains_key(a) && table.contains_key(b) && table[a].parent() is None
            && table[b].parent() is None implies a == b by {
        let i = choose|i: int| 0 <= i < all.len() && #[trigger] all[i].inode() == a;
        let j = choose|j: int| 0 <= j < all.len() && #[trigger] all[j].inode() == b;
        assert(table[all[i].inode()] == all[i]);
        assert(table[all[j].inode()] == all[j]);
        if i > 0 {
            assert(parent_found(all, i));
            let p = choose|p: int| has_parent_at(all, i, p);
        }
        if j > 0 {
            assert(parent_found(all, j));
            let p = choose|p: int| has_parent_at(all, j, p);
        }
    }
}

/// A table that is well formed stays so when the counter of one of its
/// files changes.
pub proof fn lemma_counter_keeps_wf(
    table: Map<u64, EntityView>,
    ino: u64,
    pets_needed: i32,
)
    requires
        table_wf(table),
        table.contains_key(ino),
        table[ino] is File,
    ensures
        table_wf(table.insert(ino, with_counter(table[ino], pets_needed))),
{
    let after = table.insert(ino, with_counter(table[ino], pets_needed));
    assert forall|k: u64| #[trigger] after.contains_key(k) implies node_wf(after, k) by {
        assert(table.contains_key(k));
        assert(node_wf(table, k));
        assert(after[k].children() == table[k].children());
        assert forall|c: int| 0 <= c < after[k].children().len() implies child_linked(
            after,
            k,
            #[trigger] after[k].children()[c],
        ) by {
            assert(child_linked(table, k, table[k].children()[c]));
        }
        match after[k].parent() {
            Some(p) => {
                assert(table.contains_key(p));
                assert(after[p].children() == table[p].children());
            },
            None => {},
        }
    }
    assert forall|a: u64, b: u64|
        after.contains_key(a) && after.contains_key(b) && after[a].parent() is None
            && after[b].parent() is None implies a == b by {
        assert(table.contains_key(a) && table.contains_key(b));
    }
}

/// The same node with another counter, if it is a file.
pub open spec fn with_counter(entity: EntityView, counter: i32) -> EntityView {
    match entity {
        EntityView::File { inode, name, parent, content, life, pets_needed } => EntityView::File {
            inode,
            name,
            parent,
            content,
            life,
            pets_needed: counter,
        },
        EntityView::Directory { .. } => entity,
    }
}

} // verus!
