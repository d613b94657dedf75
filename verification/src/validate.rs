//! Whether a table that was put together by hand is well formed.

use std::collections::HashMap;
use vstd::prelude::*;
use vstd::std_specs::iter::IteratorSpec;
use crate::entity::GameEntity;
use crate::projection::{child_linked, node_wf, one_root, parent_linked, table_wf};
use crate::table::table_view;

verus! {

broadcast use vstd::std_specs::hash::group_hash_axioms;

/// Whether the list holds the inode.
pub fn contains_inode(inodes: &Vec<u64>, wanted: u64) -> (yes: bool)
    ensures
        yes == inodes@.contains(wanted),
{
    let mut i: usize = 0;
    while i < inodes.len()
        invariant
            i <= inodes.len(),
            forall|j: int| 0 <= j < i ==> inodes@[j] != wanted,
        decreases inodes.len() - i,
    {
        if inodes[i] == wanted {
            return true;
        }
        i = i + 1;
    }
    false
}

/// Whether no inode stands twice in the list.
pub fn has_no_duplicates(inodes: &Vec<u64>) -> (yes: bool)
    ensures
        yes == inodes@.no_duplicates(),
{
    let mut i: usize = 0;
    while i < inodes.len()
        invariant
            i <= inodes.len(),
            forall|a: int, b: int| 0 <= a < b < i ==> inodes@[a] != inodes@[b],
        decreases inodes.len() - i,
    {
        let mut j: usize = 0;
        while j < i
            invariant
                j <= i < inodes.len(),
                forall|a: int| 0 <= a < j ==> inodes@[a] != inodes@[i as int],
            decreases i - j,
        {
            if inodes[j] == inodes[i] {
                return false;
            }
            j = j + 1;
        }
        i = i + 1;
    }
    true
}

/// Whether the table holds a node under `key` that is as it should be.
pub fn node_is_well_formed(inode_map: &HashMap<u64, GameEntity>, key: u64) -> (ok: bool)
    ensures
        ok == (inode_map@.contains_key(key) && node_wf(table_view(inode_map@), key)),
{
    let ghost table = table_view(inode_map@);
    let entity = match inode_map.get(&key) {
        Some(entity) => entity,
        None => {
            return false;
        },
    };
    assert(table[key] == entity@);
    if entity.get_inode() != key {
        return false;
    }
    match entity.get_parent() {
        Some(p) => {
            match inode_map.get(&p) {
                Some(GameEntity::Directory { children, .. }) => {
                    if !contains_inode(children, key) {
                        return false;
                    }
                },
                _ => {
                    return false;
                },
            }
        },
        None => {},
    }
    assert(parent_linked(table, key));
    match entity {
        GameEntity::Directory { children, .. } => {
            if !has_no_duplicates(children) {
                return false;
            }
            let mut c: usize = 0;
            while c < children.len()
                invariant
                    c <= children.len(),
                    table == table_view(inode_map@),
                    table[key].children() == children@,
                    forall|j: int| 0 <= j < c ==> child_linked(table, key, #[trigger] children@[j]),
                decreases children.len() - c,
            {
                match inode_map.get(&children[c]) {
                    Some(child) => {
                        match child.get_parent() {
                            Some(p) => {
                                if p != key {
                                    assert(!child_linked(table, key, table[key].children()[c as int]));
                                    return false;
                                }
                            },
                            None => {
                                assert(!child_linked(table, key, table[key].children()[c as int]));
                                return false;
                            },
                        }
                    },
                    None => {
                        assert(!child_linked(table, key, table[key].children()[c as int]));
                        return false;
                    },
                }
                c = c + 1;
            }
            true
        },
        GameEntity::File { .. } => true,
    }
}

/// Whether the table is well formed: every node stands under its own
/// inode, children and parents name each other, nothing is listed twice,
/// and at most one node has no parent.
pub fn table_is_well_formed(inode_map: &HashMap<u64, GameEntity>) -> (ok: bool)
    ensures
        ok == table_wf(table_view(inode_map@)),
{
    let ghost table = table_view(inode_map@);
    let ghost keys = vstd::std_specs::hash::spec_keys_iter(inode_map).remaining().unref();
    let mut root: Option<u64> = None;
    proof {
        vstd::std_specs::hash::axiom_spec_keys_iter(inode_map);
    }
    for key in it: inode_map.keys()
        invariant
            table == table_view(inode_map@),
            keys == it.seq().unref(),
            keys.to_set() == inode_map@.dom(),
            keys.no_duplicates(),
            forall|j: int| 0 <= j < it.index() ==> node_wf(table, #[trigger] keys[j]),
            forall|j: int|
                0 <= j < it.index() && table[#[trigger] keys[j]].parent() is None ==> root == Some(
                    keys[j],
                ),
            root matches Some(r) ==> table[r].parent() is None && exists|j: int|
                0 <= j < it.index() && keys[j] == r,
    {
        let ghost i = it.index();
        assert(keys[i] == *key);
        assert(keys.to_set().contains(*key));
        assert(table.contains_key(*key));
        if !node_is_well_formed(inode_map, *key) {
            return false;
        }
        match inode_map.get(key) {
            Some(entity) => {
                match entity.get_parent() {
                    None => {
                        match root {
                            Some(other) => {
                                proof {
                                    let j = choose|j: int| 0 <= j < i && keys[j] == other;
                                    assert(keys[j] != keys[i]);
                                    assert(keys.to_set().contains(other));
                                    assert(table.contains_key(other) && table.contains_key(*key));
                                    assert(!one_root(table));
                                }
                                return false;
                            },
                            None => {
                                root = Some(*key);
                            },
                        }
                    },
                    Some(_) => {},
                }
            },
            None => {},
        }
    }
    proof {
        assert forall|k: u64| #[trigger] table.contains_key(k) implies node_wf(table, k) by {
            assert(keys.to_set().contains(k));
            let j = choose|j: int| 0 <= j < keys.len() && keys[j] == k;
            assert(node_wf(table, keys[j]));
        }
        assert forall|a: u64, b: u64|
            table.contains_key(a) && table.contains_key(b) && table[a].parent() is None
                && table[b].parent() is None implies a == b by {
            assert(keys.to_set().contains(a));
            assert(keys.to_set().contains(b));
            let ja = choose|j: int| 0 <= j < keys.len() && keys[j] == a;
            let jb = choose|j: int| 0 <= j < keys.len() && keys[j] == b;
            assert(root == Some(keys[ja]));
            assert(root == Some(keys[jb]));
        }
    }
    true
}

} // verus!
