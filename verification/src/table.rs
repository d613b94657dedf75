//! The inode table: every node of the tree under its inode, the tally of
//! its kitties, and what each node shows when the journal is taken into
//! account.

use std::collections::HashMap;
use vstd::prelude::*;
use vstd::std_specs::iter::IteratorSpec;
use vstd::string::*;
use crate::attr::{attr_spec, make_attr, FileAttr, FileType};
use crate::content::{byte_len, status_text, text_bytes, GameStatus, Mood, mood_of};
use crate::entity::{EntityView, GameEntity};

verus! {

broadcast use vstd::std_specs::hash::group_hash_axioms;

/// The name of the file that shows the journal in place of a kitty.
pub const JOURNAL_NAME: &'static str = "LiveJournal.txt";

/// What a table holds: each node as what it is, under its key.
pub open spec fn table_view(table: Map<u64, GameEntity>) -> Map<u64, EntityView> {
    table.map_values(|e: GameEntity| e@)
}

/// Whether the node is the journal: a file with the reserved name.
pub open spec fn is_journal(entity: EntityView) -> bool {
    entity is File && entity.name() == JOURNAL_NAME@
}

/// Whether the node counts as a kitty in the given state: a file other than
/// the journal whose counter stands for that state.
pub open spec fn counted_in(entity: EntityView, mood: Mood) -> bool {
    entity matches EntityView::File { name, pets_needed, .. } && name != JOURNAL_NAME@ && mood_of(
        pets_needed as int,
    ) == mood
}

/// The keys of the table under which a kitty in the given state stands.
pub open spec fn keys_in(table: Map<u64, EntityView>, mood: Mood) -> Set<u64> {
    table.dom().filter(|k: u64| counted_in(table[k], mood))
}

/// How many kitties of the table are in the given state.
pub open spec fn count_mood(table: Map<u64, EntityView>, mood: Mood) -> nat {
    keys_in(table, mood).len()
}

/// The journal's text for the table: the tally of its kitties.
pub open spec fn journal_text(table: Map<u64, EntityView>) -> Seq<char> {
    status_text(
        count_mood(table, Mood::Needing) as int,
        count_mood(table, Mood::AtPeace) as int,
        count_mood(table, Mood::Mad) as int,
    )
}

/// What a node of the table shows: the journal the tally of all the other
/// files, any other node its own text.
pub open spec fn shown_text(table: Map<u64, EntityView>, entity: EntityView) -> Seq<char> {
    if is_journal(entity) {
        journal_text(table)
    } else {
        entity.own_text()
    }
}

/// The attributes of a node of the table: a directory has size 0, a file
/// the number of bytes of what it now shows.
pub open spec fn shown_attr(table: Map<u64, EntityView>, entity: EntityView) -> FileAttr {
    match entity {
        EntityView::Directory { inode, .. } => attr_spec(inode, FileType::Directory, 0),
        EntityView::File { inode, .. } => attr_spec(
            inode,
            FileType::RegularFile,
            text_bytes(shown_text(table, entity)).len() as u64,
        ),
    }
}

/// How many of the keys satisfy the predicate.
pub open spec fn count_where(keys: Seq<u64>, wanted: spec_fn(u64) -> bool) -> nat
    decreases keys.len(),
{
    if keys.len() == 0 {
        0
    } else {
        count_where(keys.drop_last(), wanted) + if wanted(keys.last()) {
            1nat
        } else {
            0nat
        }
    }
}

/// Counting along a list without repetitions gives the size of the set of
/// its members that satisfy the predicate.
pub proof fn lemma_count_where(keys: Seq<u64>, wanted: spec_fn(u64) -> bool)
    requires
        keys.no_duplicates(),
    ensures
        count_where(keys, wanted) == keys.to_set().filter(wanted).len(),
        count_where(keys, wanted) <= keys.len(),
    decreases keys.len(),
{
    broadcast use vstd::set::group_set_axioms;
    broadcast use vstd::seq_lib::seq_to_set_is_finite;

    if keys.len() == 0 {
        assert(keys.to_set().filter(wanted) =~= Set::empty());
    } else {
        let init = keys.drop_last();
        let last = keys.last();
        lemma_count_where(init, wanted);
        assert(!init.contains(last));
        assert(keys.to_set() =~= init.to_set().insert(last)) by {
            assert forall|k: u64| keys.to_set().contains(k) implies init.to_set().insert(
                last,
            ).contains(k) by {
                let i = choose|i: int| 0 <= i < keys.len() && keys[i] == k;
                if i < keys.len() - 1 {
                    assert(init[i] == k);
                }
            }
            assert forall|k: u64| init.to_set().insert(last).contains(k) implies keys.to_set().contains(
                k,
            ) by {
                if k == last {
                    assert(keys[keys.len() - 1] == k);
                } else {
                    let i = choose|i: int| 0 <= i < init.len() && init[i] == k;
                    assert(keys[i] == k);
                }
            }
        }
        if wanted(last) {
            assert(keys.to_set().filter(wanted) =~= init.to_set().filter(wanted).insert(last));
        } else {
            assert(keys.to_set().filter(wanted) =~= init.to_set().filter(wanted));
        }
    }
}

/// Whether the name is the journal's.
pub fn is_journal_name(name: &String) -> (yes: bool)
    ensures
        yes == (name@ == JOURNAL_NAME@),
{
    let journal = String::from_str(JOURNAL_NAME);
    *name == journal
}

/// The tally of the table's kitties: every file but the journal counts
/// once, by the state that its counter stands for.
pub fn game_status(inode_map: &HashMap<u64, GameEntity>) -> (status: GameStatus)
    ensures
        status.kitties_needing_pets == count_mood(table_view(inode_map@), Mood::Needing),
        status.kitties_at_peace == count_mood(table_view(inode_map@), Mood::AtPeace),
        status.kitties_mad == count_mood(table_view(inode_map@), Mood::Mad),
{
    let ghost table = table_view(inode_map@);
    let ghost needing = |k: u64| counted_in(table[k], Mood::Needing);
    let ghost at_peace = |k: u64| counted_in(table[k], Mood::AtPeace);
    let ghost mad = |k: u64| counted_in(table[k], Mood::Mad);
    let mut needing_pets_count: u64 = 0;
    let mut at_peace_count: u64 = 0;
    let mut mad_count: u64 = 0;
    let ghost keys = vstd::std_specs::hash::spec_keys_iter(inode_map).remaining().unref();
    let total = inode_map.len();
    proof {
        vstd::std_specs::hash::axiom_spec_keys_iter(inode_map);
    }
    for key in it: inode_map.keys()
        invariant
            table == table_view(inode_map@),
            keys.len() == total,
            keys == it.seq().unref(),
            needing == |k: u64| counted_in(table[k], Mood::Needing),
            at_peace == |k: u64| counted_in(table[k], Mood::AtPeace),
            mad == |k: u64| counted_in(table[k], Mood::Mad),
            keys.to_set() == inode_map@.dom(),
            keys.no_duplicates(),
            needing_pets_count == count_where(keys.take(it.index()), needing),
            at_peace_count == count_where(keys.take(it.index()), at_peace),
            mad_count == count_where(keys.take(it.index()), mad),
            needing_pets_count + at_peace_count + mad_count <= it.index(),
    {
        let ghost i = it.index();
        assert(keys.take(i + 1).drop_last() =~= keys.take(i));
        assert(keys[i] == *key);
        assert(keys.to_set().contains(*key));
        match inode_map.get(key) {
            Some(GameEntity::File { name, pets_needed, .. }) => {
                if !is_journal_name(name) {
                    if *pets_needed > 0 {
                        needing_pets_count = needing_pets_count + 1;
                    } else if *pets_needed == 0 {
                        at_peace_count = at_peace_count + 1;
                    } else {
                        mad_count = mad_count + 1;
                    }
                }
            },
            _ => {},
        }
    }
    proof {
        assert(keys.take(keys.len() as int) =~= keys);
        lemma_count_where(keys, needing);
        lemma_count_where(keys, at_peace);
        lemma_count_where(keys, mad);
        assert(keys.to_set().filter(needing) =~= keys_in(table, Mood::Needing));
        assert(keys.to_set().filter(at_peace) =~= keys_in(table, Mood::AtPeace));
        assert(keys.to_set().filter(mad) =~= keys_in(table, Mood::Mad));
    }
    GameStatus::new(needing_pets_count, at_peace_count, mad_count)
}

/// What a node of the table shows, rendered anew: the journal the tally of
/// all the other files, any other node its own text.
pub fn shown_content(inode_map: &HashMap<u64, GameEntity>, entity: &GameEntity) -> (text: String)
    ensures
        text@ == shown_text(table_view(inode_map@), entity@),
{
    match entity {
        GameEntity::File { name, .. } => {
            if is_journal_name(name) {
                let status = game_status(inode_map);
                status.to_content()
            } else {
                entity.get_content()
            }
        },
        GameEntity::Directory { .. } => entity.get_content(),
    }
}

/// The attributes of a node of the table. The size of a file is computed
/// from what it shows at this moment, and never kept.
pub fn shown_file_attr(inode_map: &HashMap<u64, GameEntity>, entity: &GameEntity) -> (attr:
    FileAttr)
    ensures
        attr == shown_attr(table_view(inode_map@), entity@),
{
    match entity {
        GameEntity::Directory { inode, .. } => make_attr(*inode, FileType::Directory, 0),
        GameEntity::File { inode, .. } => {
            let text = shown_content(inode_map, entity);
            make_attr(*inode, FileType::RegularFile, byte_len(&text))
        },
    }
}

/// Whether no two nodes of the list share an inode.
pub open spec fn distinct_inodes(entities: Seq<EntityView>) -> bool {
    forall|i: int, j: int|
        0 <= i < j < entities.len() ==> entities[i].inode() != entities[j].inode()
}

/// The table that holds each node of the list under its inode.
pub open spec fn table_of(entities: Seq<EntityView>) -> Map<u64, EntityView>
    decreases entities.len(),
{
    if entities.len() == 0 {
        Map::empty()
    } else {
        table_of(entities.drop_last()).insert(entities.last().inode(), entities.last())
    }
}

/// The keys of the table of a list are the inodes of its nodes, and where
/// no two nodes share an inode, each node stands under its own.
pub proof fn lemma_table_of(entities: Seq<EntityView>)
    ensures
        forall|k: u64|
            table_of(entities).contains_key(k) <==> exists|i: int|
                0 <= i < entities.len() && #[trigger] entities[i].inode() == k,
        distinct_inodes(entities) ==> forall|i: int|
            0 <= i < entities.len() ==> table_of(entities)[#[trigger] entities[i].inode()]
                == entities[i],
        table_of(entities).dom().finite(),
    decreases entities.len(),
{
    if entities.len() > 0 {
        let init = entities.drop_last();
        let last = entities.last();
        lemma_table_of(init);
        assert forall|k: u64| table_of(entities).contains_key(k) implies exists|i: int|
            0 <= i < entities.len() && #[trigger] entities[i].inode() == k by {
            if k == last.inode() {
                assert(entities[entities.len() - 1].inode() == k);
            } else {
                let i = choose|i: int| 0 <= i < init.len() && #[trigger] init[i].inode() == k;
                assert(entities[i].inode() == k);
            }
        }
        assert forall|k: u64|
            (exists|i: int|
                0 <= i < entities.len() && #[trigger] entities[i].inode()
                    == k) implies table_of(entities).contains_key(k) by {
            let i = choose|i: int| 0 <= i < entities.len() && #[trigger] entities[i].inode() == k;
            if i < entities.len() - 1 {
                assert(init[i].inode() == k);
            }
        }
        if distinct_inodes(entities) {
            assert(distinct_inodes(init)) by {
                assert forall|i: int, j: int| 0 <= i < j < init.len() implies init[i].inode()
                    != init[j].inode() by {
                    assert(entities[i].inode() != entities[j].inode());
                }
            }
            assert forall|i: int| 0 <= i < entities.len() implies table_of(
                entities,
            )[#[trigger] entities[i].inode()] == entities[i] by {
                if i < entities.len() - 1 {
                    assert(init[i] == entities[i]);
                    assert(entities[i].inode() != entities[entities.len() - 1].inode());
                }
            }
        }
    }
}

} // verus!
