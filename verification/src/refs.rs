//! The files of a tree by inode, each where it stands in the tree.

use std::collections::HashMap;
use vstd::prelude::*;
use crate::tree::{GameDir, GameDirView, GameFile, GameFileView};

verus! {

broadcast use vstd::std_specs::hash::group_hash_axioms;

/// A directory or a file of a tree, where it stands.
#[derive(Debug)]
pub enum DirOrFile<'a> {
    Dir(&'a GameDir),
    File(&'a GameFile),
}

/// What a [`DirOrFile`] is.
pub enum DirOrFileView {
    Dir(GameDirView),
    File(GameFileView),
}

impl<'a> View for DirOrFile<'a> {
    type V = DirOrFileView;

    open spec fn view(&self) -> DirOrFileView {
        match self {
            DirOrFile::Dir(dir) => DirOrFileView::Dir(dir@),
            DirOrFile::File(file) => DirOrFileView::File(file@),
        }
    }
}

/// The pairs of a list, each as what it is.
pub open spec fn ref_views(refs: Seq<(u64, DirOrFile)>) -> Seq<(u64, DirOrFileView)> {
    refs.map_values(|r: (u64, DirOrFile)| (r.0, r.1@))
}

/// What a table of references holds.
pub open spec fn ref_table(table: Map<u64, DirOrFile>) -> Map<u64, DirOrFileView> {
    table.map_values(|r: DirOrFile| r@)
}

/// The files of a directory, each with its inode.
pub open spec fn own_file_refs(dir: GameDirView) -> Seq<(u64, DirOrFileView)> {
    dir.files.map_values(|f: GameFileView| (f.inode, DirOrFileView::File(f)))
}

/// The files of a tree, each with its inode: those of the directory, then
/// those of each subdirectory in turn.
pub open spec fn file_refs(dir: GameDirView) -> Seq<(u64, DirOrFileView)>
    decreases dir,
{
    own_file_refs(dir) + file_refs_below(dir.sub_dirs, dir.sub_dirs.len())
}

/// The files of the first `n` trees of a list.
pub open spec fn file_refs_below(dirs: Seq<GameDirView>, n: nat) -> Seq<(u64, DirOrFileView)>
    decreases dirs, n,
{
    if n == 0 || n > dirs.len() {
        Seq::empty()
    } else {
        file_refs_below(dirs, (n - 1) as nat) + file_refs(dirs[n - 1])
    }
}

/// The table after each reference of the list was put under its inode, one
/// after the other.
pub open spec fn with_refs(table: Map<u64, DirOrFileView>, refs: Seq<(u64, DirOrFileView)>) -> Map<
    u64,
    DirOrFileView,
>
    decreases refs.len(),
{
    if refs.len() == 0 {
        table
    } else {
        with_refs(table, refs.drop_last()).insert(refs.last().0, refs.last().1)
    }
}

impl GameDir {
    /// The files of the tree, each with its inode: those of the directory,
    /// then those of each subdirectory in turn.
    pub fn to_references<'a>(&'a self) -> (refs: Vec<(u64, DirOrFile<'a>)>)
        ensures
            ref_views(refs@) == file_refs(self@),
        decreases self,
    {
        let ghost dir = self@;
        proof {
            self.lemma_view();
        }
        let mut refs: Vec<(u64, DirOrFile<'a>)> = Vec::new();
        let mut i: usize = 0;
        while i < self.files.len()
            invariant
                i <= self.files.len(),
                dir == self@,
                dir.files == self.files@.map_values(|f: GameFile| f@),
                ref_views(refs@) == own_file_refs(dir).take(i as int),
            decreases self.files.len() - i,
        {
            let ghost before = refs@;
            let file = &self.files[i];
            let pair = (file.inode, DirOrFile::File(file));
            refs.push(pair);
            i = i + 1;
            assert(ref_views(refs@) =~= ref_views(before).push((pair.0, pair.1@)));
            assert(ref_views(refs@) =~= own_file_refs(dir).take(i as int));
        }
        assert(own_file_refs(dir).take(self.files.len() as int) =~= own_file_refs(dir));
        let mut j: usize = 0;
        assert(own_file_refs(dir) + file_refs_below(dir.sub_dirs, 0) =~= own_file_refs(dir));
        while j < self.sub_dirs.len()
            invariant
                j <= self.sub_dirs.len(),
                dir == self@,
                dir.sub_dirs.len() == self.sub_dirs@.len(),
                forall|k: int|
                    0 <= k < self.sub_dirs@.len() ==> #[trigger] dir.sub_dirs[k]
                        == self.sub_dirs@[k]@,
                ref_views(refs@) == own_file_refs(dir) + file_refs_below(dir.sub_dirs, j as nat),
            decreases self.sub_dirs.len() - j,
        {
            let ghost before = refs@;
            let mut below = self.sub_dirs[j].to_references();
            let ghost added = below@;
            refs.append(&mut below);
            j = j + 1;
            assert(ref_views(before + added) =~= ref_views(before) + ref_views(added));
        }
        refs
    }
}

/// The table of the files of a tree: each file under its inode. Where two
/// files share an inode, the table holds the one that comes later.
pub fn gamedir_to_hash_map<'a>(gamedir: &'a GameDir) -> (hash_map: HashMap<u64, DirOrFile<'a>>)
    ensures
        ref_table(hash_map@) == with_refs(Map::empty(), file_refs(gamedir@)),
{
    let refs = gamedir.to_references();
    let ghost all = ref_views(refs@);
    let mut hash_map: HashMap<u64, DirOrFile<'a>> = HashMap::new();
    assert(ref_table(hash_map@) =~= with_refs(Map::empty(), all.take(0)));
    for pair in it: refs
        invariant
            all == file_refs(gamedir@),
            ref_views(it.seq()) == all,
            ref_table(hash_map@) == with_refs(Map::empty(), all.take(it.index())),
    {
        let ghost i = it.index();
        let (inode, dir_or_file) = pair;
        assert(all[i] == (inode, dir_or_file@));
        assert(all.take(i + 1).drop_last() =~= all.take(i));
        hash_map.insert(inode, dir_or_file);
        assert(ref_table(hash_map@) =~= with_refs(Map::empty(), all.take(i + 1)));
    }
    assert(all.take(all.len() as int) =~= all);
    hash_map
}

} // verus!
