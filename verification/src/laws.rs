//! What holds of the engine over any table: listings resume without loss
//! or repetition, a kitty takes a fixed number of pets, and the size that
//! is reported is the size that is read.

use vstd::prelude::*;
use crate::content::text_bytes;
use crate::entity::EntityView;
use crate::error::EngineError;
use crate::fs::{
    after_write, child_entries, getattr_spec, is_pets, listing, page, read_spec,
    skipped, window, write_spec, DirEntryView,
};
use crate::fuschia::{node_text, tree_listing, FuschiaFS};
use crate::starcon::{starcon_listing, starcon_text, StarConFS};
use crate::table::shown_text;
use crate::tree::GameDirView;

verus! {

/// The entries of the children of a directory stand at the offsets from 2
/// on, one after the other.
pub proof fn lemma_child_entry_offsets(table: Map<u64, EntityView>, children: Seq<u64>)
    requires
        2 + children.len() <= u64::MAX,
    ensures
        child_entries(table, children).len() <= children.len(),
        forall|i: int|
            0 <= i < child_entries(table, children).len() ==> (#[trigger] child_entries(
                table,
                children,
            )[i]).offset == 2 + i,
    decreases children.len(),
{
    if children.len() > 0 {
        lemma_child_entry_offsets(table, children.drop_last());
    }
}

/// Every entry of a listing carries its own place in the listing as its
/// offset.
pub proof fn lemma_listing_offsets(table: Map<u64, EntityView>, dir: EntityView)
    requires
        2 + dir.children().len() <= u64::MAX,
    ensures
        2 <= listing(table, dir).len() <= 2 + dir.children().len(),
        forall|i: int|
            0 <= i < listing(table, dir).len() ==> (#[trigger] listing(table, dir)[i]).offset == i,
{
    lemma_child_entry_offsets(table, dir.children());
}

/// What a client has in hand after it read a listing in pages. It asks for
/// the page at `cursor`, keeps the first `takes[0]` entries of it, and asks
/// again with the offset of the last entry that it kept; when `takes` is
/// used up, or a page has no more than it would keep, it keeps the whole
/// page and stops.
pub open spec fn paged(entries: Seq<DirEntryView>, cursor: u64, takes: Seq<nat>) -> Seq<
    DirEntryView,
>
    decreases takes.len(),
{
    let answer = page(entries, cursor);
    if takes.len() == 0 || takes[0] == 0 || takes[0] >= answer.len() {
        answer
    } else {
        answer.take(takes[0] as int) + paged(
            entries,
            answer[takes[0] - 1].offset,
            takes.drop_first(),
        )
    }
}

/// Resuming after the entry at `cursor` gives what the listing holds after
/// that entry, however the rest is cut into pages.
pub proof fn lemma_resume(entries: Seq<DirEntryView>, cursor: u64, takes: Seq<nat>)
    requires
        entries.len() <= u64::MAX,
        forall|i: int| 0 <= i < entries.len() ==> (#[trigger] entries[i]).offset == i,
        cursor > 0,
    ensures
        paged(entries, cursor, takes) == entries.skip(skipped(cursor, entries.len())),
    decreases takes.len(),
{
    let start = skipped(cursor, entries.len());
    let answer = page(entries, cursor);
    if !(takes.len() == 0 || takes[0] == 0 || takes[0] >= answer.len()) {
        let kept = takes[0] as int;
        let next = answer[kept - 1].offset;
        assert(answer[kept - 1] == entries[start + kept - 1]);
        assert(next == start + kept - 1);
        lemma_resume(entries, next, takes.drop_first());
        assert(skipped(next, entries.len()) == start + kept);
        assert(answer.take(kept) + entries.skip(start + kept) =~= answer);
    }
}

/// Whether every entry of the list carries its own place in the list as
/// its offset.
pub open spec fn numbered(entries: Seq<DirEntryView>) -> bool {
    &&& entries.len() <= u64::MAX
    &&& forall|i: int| 0 <= i < entries.len() ==> (#[trigger] entries[i]).offset == i
}

/// A numbered list read in pages from cursor 0 on is the list read at
/// once, unless the client keeps a single entry of its first page.
pub proof fn lemma_pages_make_the_list(entries: Seq<DirEntryView>, takes: Seq<nat>)
    requires
        numbered(entries),
        takes.len() > 0 ==> takes[0] != 1,
    ensures
        paged(entries, 0, takes) == entries,
{
    let answer = page(entries, 0);
    assert(answer =~= entries);
    if !(takes.len() == 0 || takes[0] == 0 || takes[0] >= answer.len()) {
        let kept = takes[0] as int;
        let next = answer[kept - 1].offset;
        assert(next == kept - 1);
        lemma_resume(entries, next, takes.drop_first());
        assert(skipped(next, entries.len()) == kept);
        assert(answer.take(kept) + entries.skip(kept) =~= entries);
    }
}

/// A listing read in pages is the listing read at once: from cursor 0 on,
/// each page asked for with the offset of the last entry taken, every
/// entry comes exactly once and in the same order. The one client left out
/// is the one that keeps a single entry of its first page: the cursor that
/// it then holds is 0, which asks for the whole listing again.
pub proof fn law_pages_make_the_listing(
    table: Map<u64, EntityView>,
    dir: EntityView,
    takes: Seq<nat>,
)
    requires
        2 + dir.children().len() <= u64::MAX,
        takes.len() > 0 ==> takes[0] != 1,
    ensures
        paged(listing(table, dir), 0, takes) == listing(table, dir),
{
    lemma_listing_offsets(table, dir);
    lemma_pages_make_the_list(listing(table, dir), takes);
}

/// The same of the listing of a directory of a tree that stays where it
/// was built.
pub proof fn law_pages_make_the_tree_listing(dir: GameDirView, takes: Seq<nat>)
    requires
        2 + dir.sub_dirs.len() + dir.files.len() <= u64::MAX,
        takes.len() > 0 ==> takes[0] != 1,
    ensures
        paged(tree_listing(dir), 0, takes) == tree_listing(dir),
{
    lemma_pages_make_the_list(tree_listing(dir), takes);
}

/// The same of the listing of the directory with the one file.
pub proof fn law_pages_make_the_starcon_listing(takes: Seq<nat>)
    requires
        takes.len() > 0 ==> takes[0] != 1,
    ensures
        paged(starcon_listing(), 0, takes) == starcon_listing(),
{
    lemma_pages_make_the_list(starcon_listing(), takes);
}

/// The table after `n` writes of the same payload to the same inode.
pub open spec fn after_writes(table: Map<u64, EntityView>, ino: u64, data: Seq<u8>, n: nat) -> Map<
    u64,
    EntityView,
>
    decreases n,
{
    if n == 0 {
        table
    } else {
        after_write(after_writes(table, ino, data, (n - 1) as nat), ino, data)
    }
}

/// The number of pets that the file under `ino` needs.
pub open spec fn pets_needed_at(table: Map<u64, EntityView>, ino: u64) -> int {
    match table[ino] {
        EntityView::File { pets_needed, .. } => pets_needed as int,
        EntityView::Directory { .. } => 0,
    }
}

/// A file that needs `p >= 0` pets accepts exactly `p + 1` writes of the
/// token: each takes one from its counter, the last of them makes it mad,
/// and the write after that is refused and changes nothing.
pub proof fn law_pets_until_mad(table: Map<u64, EntityView>, ino: u64, data: Seq<u8>, n: nat)
    requires
        table.contains_key(ino),
        table[ino] is File,
        pets_needed_at(table, ino) >= 0,
        is_pets(data),
        n <= pets_needed_at(table, ino) + 1,
    ensures
        after_writes(table, ino, data, n).contains_key(ino),
        after_writes(table, ino, data, n)[ino] is File,
        pets_needed_at(after_writes(table, ino, data, n), ino) == pets_needed_at(table, ino) - n,
        n <= pets_needed_at(table, ino) ==> write_spec(after_writes(table, ino, data, n), ino, data)
            == Ok::<u32, EngineError>(data.len() as u32),
        n == pets_needed_at(table, ino) + 1 ==> write_spec(
            after_writes(table, ino, data, n),
            ino,
            data,
        ) == Err::<u32, EngineError>(EngineError::NotFound) && after_write(
            after_writes(table, ino, data, n),
            ino,
            data,
        ) == after_writes(table, ino, data, n),
    decreases n,
{
    if n > 0 {
        law_pets_until_mad(table, ino, data, (n - 1) as nat);
    }
}

/// A write of anything but the token is refused and changes nothing,
/// whatever the table holds.
pub proof fn law_refusal_changes_nothing(table: Map<u64, EntityView>, ino: u64, data: Seq<u8>)
    requires
        !is_pets(data),
    ensures
        write_spec(table, ino, data) == Err::<u32, EngineError>(EngineError::NotFound),
        after_write(table, ino, data) == table,
{
}

/// Reading at or past the end of what a file shows gives no bytes, and no
/// error.
pub proof fn law_read_past_the_end(table: Map<u64, EntityView>, ino: u64, offset: u64, size: u32)
    requires
        table.contains_key(ino),
        table[ino] is File,
        offset >= text_bytes(shown_text(table, table[ino])).len(),
    ensures
        read_spec(table, ino, offset, size) == Ok::<Seq<u8>, EngineError>(Seq::empty()),
{
    let bytes = text_bytes(shown_text(table, table[ino]));
    assert(window(bytes, offset as int, size as int) =~= Seq::empty());
}

/// The size that `getattr` reports of a file is the number of bytes that
/// a `read` from its start gives, when the read asks for no less than the
/// file shows.
pub proof fn law_size_is_what_is_read(table: Map<u64, EntityView>, ino: u64, size: u32)
    requires
        table.contains_key(ino),
        table[ino] is File,
        text_bytes(shown_text(table, table[ino])).len() <= size,
    ensures
        getattr_spec(table, ino) is Ok,
        read_spec(table, ino, 0, size) is Ok,
        getattr_spec(table, ino)->Ok_0.size == read_spec(table, ino, 0, size)->Ok_0.len(),
{
    let bytes = text_bytes(shown_text(table, table[ino]));
    assert(window(bytes, 0, size as int) =~= bytes);
}

/// The same of the engine for reading only.
pub proof fn law_tree_size_is_what_is_read(fs: FuschiaFS, ino: u64, size: u32)
    requires
        fs.nodes().contains_key(ino),
        fs.nodes()[ino] is File,
        text_bytes(node_text(fs.nodes(), fs.nodes()[ino])).len() <= size,
    ensures
        fs.getattr_spec(ino) is Ok,
        fs.read_spec(ino, 0, size) is Ok,
        fs.getattr_spec(ino)->Ok_0.size == fs.read_spec(ino, 0, size)->Ok_0.len(),
{
    let bytes = text_bytes(node_text(fs.nodes(), fs.nodes()[ino]));
    assert(window(bytes, 0, size as int) =~= bytes);
}

/// The same of the engine with the one file, however often it was opened.
pub proof fn law_starcon_size_is_what_is_read(count: u64, size: u32)
    requires
        text_bytes(starcon_text(count)).len() <= size,
    ensures
        StarConFS::getattr_spec(count, crate::starcon::STARCON_FILE)->Ok_0.size
            == StarConFS::read_spec(count, crate::starcon::STARCON_FILE, 0, size)->Ok_0.len(),
{
    let bytes = text_bytes(starcon_text(count));
    assert(window(bytes, 0, size as int) =~= bytes);
}

} // verus!
