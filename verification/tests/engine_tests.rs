use kitty_fs::attr::{FileAttr, FileType, Timespec};
use kitty_fs::content::{happy_kitty_content, need_pets_content, no_more_pets, GameStatus};
use kitty_fs::error::EngineError;
use kitty_fs::fs::{dot_entry_list, is_pets_payload, page_of, window_of, HelloFS};
use kitty_fs::tree;
use kitty_fs::tree::{dir, GameDir};

const ROOT: u64 = 1;
const JOURNAL: u64 = 2;
const CAT: u64 = 3;

fn small_tree() -> GameDir {
    dir(ROOT, "root")
        .with_file(tree::file(JOURNAL, "LiveJournal.txt"))
        .with_file(tree::file(CAT, "cat.kitty").content("Tom"))
}

fn mounted() -> HelloFS {
    HelloFS::from_tree(&small_tree()).unwrap()
}

fn read_all(fs: &HelloFS, ino: u64) -> String {
    String::from_utf8(fs.read(ino, 0, u32::MAX).unwrap()).unwrap()
}

#[test]
fn a_new_kitty_needs_five_pets() {
    let fs = mounted();
    assert_eq!(read_all(&fs, CAT), need_pets_content(&"Tom".to_string(), 5));
    assert!(read_all(&fs, CAT).contains("Please send me 5 pets"));
}

#[test]
fn each_accepted_write_takes_one_pet() {
    let mut fs = mounted();
    assert_eq!(fs.write(CAT, b"pets"), Ok(4));
    assert_eq!(read_all(&fs, CAT), need_pets_content(&"Tom".to_string(), 4));
    assert_eq!(fs.write(CAT, b"pets\n"), Ok(5));
    assert_eq!(read_all(&fs, CAT), need_pets_content(&"Tom".to_string(), 3));
}

#[test]
fn a_kitty_takes_six_pets_and_no_more() {
    let mut fs = mounted();
    for left in [4, 3, 2, 1] {
        assert_eq!(fs.write(CAT, b"pets"), Ok(4));
        assert_eq!(read_all(&fs, CAT), need_pets_content(&"Tom".to_string(), left));
    }
    assert_eq!(fs.write(CAT, b"pets"), Ok(4));
    assert_eq!(read_all(&fs, CAT), happy_kitty_content(&"Tom".to_string()));
    assert_eq!(fs.write(CAT, b"pets"), Ok(4));
    assert_eq!(read_all(&fs, CAT), no_more_pets(&"Tom".to_string()));
    assert_eq!(fs.write(CAT, b"pets"), Err(EngineError::NotFound));
    assert_eq!(read_all(&fs, CAT), no_more_pets(&"Tom".to_string()));
    assert_eq!(fs.write(CAT, b"pets\n"), Err(EngineError::NotFound));
    assert_eq!(read_all(&fs, CAT), no_more_pets(&"Tom".to_string()));
}

#[test]
fn any_other_payload_is_refused_and_changes_nothing() {
    let mut fs = mounted();
    let before = read_all(&fs, CAT);
    let payloads: [&[u8]; 10] = [
        b"",
        b"pet",
        b"pets ",
        b"pets\n\n",
        b"Pets",
        b"pets\r\n",
        b" pets",
        b"petsx",
        b"\xff\xfe\xfd\xfc",
        b"pet\xc3",
    ];
    for payload in payloads {
        assert_eq!(fs.write(CAT, payload), Err(EngineError::NotFound));
        assert_eq!(read_all(&fs, CAT), before);
        assert_eq!(fs.game_status(), GameStatus::new(1, 0, 0));
    }
    for _ in 0..6 {
        assert_eq!(fs.write(CAT, b"pets"), Ok(4));
    }
    let mad = read_all(&fs, CAT);
    for payload in payloads {
        assert_eq!(fs.write(CAT, payload), Err(EngineError::NotFound));
        assert_eq!(read_all(&fs, CAT), mad);
    }
}

#[test]
fn a_write_to_a_directory_or_an_unknown_inode_is_refused() {
    let mut fs = mounted();
    assert_eq!(fs.write(ROOT, b"pets"), Err(EngineError::NotFound));
    assert_eq!(fs.write(99, b"pets"), Err(EngineError::NotFound));
}

#[test]
fn the_journal_tallies_the_other_files() {
    let tree = dir(ROOT, "root")
        .with_file(tree::file(JOURNAL, "LiveJournal.txt"))
        .with_file(tree::file(CAT, "cat.kitty").content("Tom"))
        .with_file(tree::file(4, "dog.kitty").content("Rex"));
    let mut fs = HelloFS::from_tree(&tree).unwrap();
    assert_eq!(fs.game_status(), GameStatus::new(2, 0, 0));
    for _ in 0..5 {
        assert_eq!(fs.write(CAT, b"pets"), Ok(4));
    }
    assert_eq!(fs.game_status(), GameStatus::new(1, 1, 0));
    let journal = read_all(&fs, JOURNAL);
    assert_eq!(journal, GameStatus::new(1, 1, 0).to_content());
    assert!(journal.contains("* 1 kitties still need pets\n* 1 kitties are at peace with the world\n* 0 kitties are mad because I petted them too much!\n"));
    assert_eq!(fs.write(CAT, b"pets"), Ok(4));
    assert_eq!(fs.game_status(), GameStatus::new(1, 0, 1));
    for _ in 0..5 {
        assert_eq!(fs.write(4, b"pets"), Ok(4));
    }
    assert_eq!(fs.game_status(), GameStatus::new(0, 1, 1));
    assert!(read_all(&fs, JOURNAL).starts_with("GAME OVER!!!\n\nSO MANY KITIES ARE MAD AT U"));
}

#[test]
fn the_journal_does_not_count_itself() {
    let tree = dir(ROOT, "root").with_file(tree::file(JOURNAL, "LiveJournal.txt"));
    let mut fs = HelloFS::from_tree(&tree).unwrap();
    assert_eq!(fs.game_status(), GameStatus::new(0, 0, 0));
    assert!(read_all(&fs, JOURNAL).starts_with("GAME OVER!!\n\nAll the kitties are at peace!!!"));
    assert_eq!(fs.write(JOURNAL, b"pets"), Ok(4));
    assert_eq!(fs.game_status(), GameStatus::new(0, 0, 0));
}

#[test]
fn all_at_peace_ends_the_game() {
    let mut fs = mounted();
    for _ in 0..5 {
        fs.write(CAT, b"pets").unwrap();
    }
    assert_eq!(fs.game_status(), GameStatus::new(0, 1, 0));
    assert!(read_all(&fs, JOURNAL).starts_with("GAME OVER!!\n"));
}

#[test]
fn the_reported_size_is_the_size_read() {
    let mut fs = mounted();
    for _ in 0..8 {
        for ino in [JOURNAL, CAT] {
            let attr = fs.getattr(ino).unwrap();
            assert_eq!(attr.size, fs.read(ino, 0, u32::MAX).unwrap().len() as u64);
            assert_eq!(attr.kind, FileType::RegularFile);
            assert_eq!(attr.ino, ino);
        }
        let _ = fs.write(CAT, b"pets");
    }
}

#[test]
fn the_size_counts_bytes_not_characters() {
    let tree = dir(ROOT, "root").with_file(tree::file(CAT, "cat.kitty").content("Tom\u{2764}"));
    let fs = HelloFS::from_tree(&tree).unwrap();
    let text = need_pets_content(&"Tom\u{2764}".to_string(), 5);
    assert_eq!(text.len(), 467 + 6 + 1);
    assert_eq!(text.chars().count(), 467 + 4 + 1);
    assert_eq!(fs.getattr(CAT).unwrap().size, text.len() as u64);
    assert_eq!(fs.read(CAT, 0, u32::MAX).unwrap(), text.as_bytes().to_vec());
}

#[test]
fn a_new_kitty_of_an_entity_shows_four_hundred_and_seventy_one_bytes() {
    let fs = mounted();
    assert_eq!(fs.getattr(CAT).unwrap().size, 471);
    assert_eq!(fs.read(CAT, 0, u32::MAX).unwrap().len(), 471);
}

#[test]
fn attributes_are_fixed_but_for_inode_kind_and_size() {
    let fs = mounted();
    let created = Timespec { sec: 1381237736, nsec: 0 };
    assert_eq!(
        fs.getattr(ROOT),
        Ok(FileAttr {
            ino: ROOT,
            size: 0,
            blocks: 1,
            atime: created,
            mtime: created,
            ctime: created,
            crtime: created,
            kind: FileType::Directory,
            perm: 0o644,
            nlink: 1,
            uid: 501,
            gid: 20,
            rdev: 0,
            flags: 0,
        })
    );
    assert_eq!(fs.getattr(77), Err(EngineError::NotFound));
}

#[test]
fn read_cuts_the_range_down_to_what_there_is() {
    let fs = mounted();
    let whole = fs.read(CAT, 0, u32::MAX).unwrap();
    let len = whole.len() as u64;
    assert_eq!(fs.read(CAT, 0, 10).unwrap(), whole[..10].to_vec());
    assert_eq!(fs.read(CAT, 7, 10).unwrap(), whole[7..17].to_vec());
    assert_eq!(fs.read(CAT, len - 3, 10).unwrap(), whole[whole.len() - 3..].to_vec());
    assert_eq!(fs.read(CAT, 5, 0).unwrap(), Vec::<u8>::new());
    assert_eq!(fs.read(CAT, len, 10).unwrap(), Vec::<u8>::new());
    assert_eq!(fs.read(CAT, len + 1, 10).unwrap(), Vec::<u8>::new());
    assert_eq!(fs.read(CAT, u64::MAX, u32::MAX).unwrap(), Vec::<u8>::new());
    assert_eq!(fs.read(CAT, len - 1, u32::MAX).unwrap(), whole[whole.len() - 1..].to_vec());
}

#[test]
fn read_of_a_directory_or_an_unknown_inode_is_refused() {
    let fs = mounted();
    assert_eq!(fs.read(ROOT, 0, 10), Err(EngineError::NotFound));
    assert_eq!(fs.read(99, 0, 10), Err(EngineError::NotFound));
}

#[test]
fn lookup_finds_a_child_by_name() {
    let fs = mounted();
    assert_eq!(fs.lookup(ROOT, "cat.kitty"), fs.getattr(CAT));
    assert_eq!(fs.lookup(ROOT, "LiveJournal.txt"), fs.getattr(JOURNAL));
    assert_eq!(fs.lookup(ROOT, "dog.kitty"), Err(EngineError::NotFound));
    assert_eq!(fs.lookup(ROOT, ""), Err(EngineError::NotFound));
    assert_eq!(fs.lookup(CAT, "cat.kitty"), Err(EngineError::NotFound));
    assert_eq!(fs.lookup(99, "cat.kitty"), Err(EngineError::NotFound));
}

#[test]
fn lookup_refuses_a_name_that_two_children_share() {
    let tree = dir(ROOT, "root").with_file(tree::file(2, "twin")).with_file(tree::file(3, "twin"));
    let fs = HelloFS::from_tree(&tree).unwrap();
    assert_eq!(fs.lookup(ROOT, "twin"), Err(EngineError::NotFound));
}

#[test]
fn lookup_sees_only_the_children_of_the_parent() {
    let tree = dir(ROOT, "root")
        .with_file(tree::file(2, "top"))
        .with_dir(dir(4, "deep").with_file(tree::file(5, "low")));
    let fs = HelloFS::from_tree(&tree).unwrap();
    assert_eq!(fs.lookup(ROOT, "low"), Err(EngineError::NotFound));
    assert_eq!(fs.lookup(4, "low"), fs.getattr(5));
    assert_eq!(fs.lookup(ROOT, "deep").unwrap().kind, FileType::Directory);
    assert_eq!(fs.lookup(4, "top"), Err(EngineError::NotFound));
}

fn names(fs: &HelloFS, ino: u64, cursor: u64) -> Vec<(u64, u64, FileType, String)> {
    fs.readdir(ino, cursor)
        .unwrap()
        .into_iter()
        .map(|e| (e.inode, e.offset, e.kind, e.name))
        .collect()
}

fn wide_tree() -> GameDir {
    dir(ROOT, "root")
        .with_file(tree::file(2, "a"))
        .with_file(tree::file(3, "b"))
        .with_dir(dir(4, "c").with_file(tree::file(5, "d")))
        .with_dir(dir(6, "e"))
}

#[test]
fn a_listing_starts_with_the_two_dots_and_keeps_the_stored_order() {
    let fs = HelloFS::from_tree(&wide_tree()).unwrap();
    assert_eq!(
        names(&fs, ROOT, 0),
        vec![
            (11, 0, FileType::Directory, ".".to_string()),
            (12, 1, FileType::Directory, "..".to_string()),
            (2, 2, FileType::RegularFile, "a".to_string()),
            (3, 3, FileType::RegularFile, "b".to_string()),
            (4, 4, FileType::Directory, "c".to_string()),
            (6, 5, FileType::Directory, "e".to_string()),
        ]
    );
    assert_eq!(
        names(&fs, 6, 0),
        vec![
            (11, 0, FileType::Directory, ".".to_string()),
            (12, 1, FileType::Directory, "..".to_string()),
        ]
    );
}

#[test]
fn a_cursor_resumes_after_the_entry_that_it_names() {
    let fs = HelloFS::from_tree(&wide_tree()).unwrap();
    let whole = names(&fs, ROOT, 0);
    for cursor in 1..6u64 {
        assert_eq!(names(&fs, ROOT, cursor), whole[cursor as usize + 1..].to_vec());
    }
    assert_eq!(names(&fs, ROOT, 5), vec![]);
    assert_eq!(names(&fs, ROOT, 6), vec![]);
    assert_eq!(names(&fs, ROOT, u64::MAX), vec![]);
}

#[test]
fn pages_of_any_size_make_the_whole_listing() {
    let fs = HelloFS::from_tree(&wide_tree()).unwrap();
    let whole = names(&fs, ROOT, 0);
    for first in 2..=whole.len() {
        for later in 1..=whole.len() {
            let mut seen: Vec<(u64, u64, FileType, String)> = Vec::new();
            let mut cursor = 0u64;
            let mut take = first;
            loop {
                let answer = names(&fs, ROOT, cursor);
                if answer.len() <= take {
                    seen.extend(answer);
                    break;
                }
                seen.extend(answer[..take].to_vec());
                cursor = answer[take - 1].1;
                take = later;
            }
            assert_eq!(seen, whole);
        }
    }
}

#[test]
fn a_client_that_keeps_one_entry_of_the_first_page_starts_again() {
    let fs = HelloFS::from_tree(&wide_tree()).unwrap();
    let whole = names(&fs, ROOT, 0);
    let cursor = whole[0].1;
    assert_eq!(cursor, 0);
    assert_eq!(names(&fs, ROOT, cursor), whole);
}

#[test]
fn readdir_of_a_file_or_an_unknown_inode_is_refused() {
    let fs = mounted();
    assert!(matches!(fs.readdir(CAT, 0), Err(EngineError::NotFound)));
    assert!(matches!(fs.readdir(99, 0), Err(EngineError::NotFound)));
}

#[test]
fn two_nodes_with_one_inode_make_no_table() {
    let tree = dir(ROOT, "root").with_file(tree::file(2, "a")).with_file(tree::file(2, "b"));
    assert!(matches!(HelloFS::from_tree(&tree), Err(EngineError::InvariantViolation)));
    let tree = dir(ROOT, "root").with_dir(dir(3, "a").with_file(tree::file(ROOT, "b")));
    assert!(matches!(HelloFS::from_tree(&tree), Err(EngineError::InvariantViolation)));
    let tree = dir(ROOT, "root").with_dir(dir(3, "a")).with_dir(dir(3, "b"));
    assert!(matches!(tree.to_entity_hash_map(), Err(EngineError::InvariantViolation)));
}

#[test]
fn an_error_says_what_it_is() {
    assert_eq!(EngineError::NotFound.message(), "not found");
    assert_eq!(EngineError::InvariantViolation.message(), "invariant violation");
}

#[test]
fn the_token_is_pets_with_or_without_a_newline() {
    assert!(is_pets_payload(b"pets"));
    assert!(is_pets_payload(b"pets\n"));
    assert!(!is_pets_payload(b"pets\n\n"));
    assert!(!is_pets_payload(b"pet"));
    assert!(!is_pets_payload(b"petz"));
    assert!(!is_pets_payload(b"petsx"));
    assert!(!is_pets_payload(b""));
}

#[test]
fn a_window_is_cut_from_the_bytes_of_a_text() {
    let text = "a\u{2764}b".to_string();
    assert_eq!(window_of(&text, 0, 100), text.as_bytes().to_vec());
    assert_eq!(window_of(&text, 1, 3), vec![0xe2, 0x9d, 0xa4]);
    assert_eq!(window_of(&text, 4, 3), b"b".to_vec());
    assert_eq!(window_of(&text, 5, 3), Vec::<u8>::new());
    assert_eq!(window_of(&text, 2, 0), Vec::<u8>::new());
    assert_eq!(window_of(&text, u64::MAX, u32::MAX), Vec::<u8>::new());
}

#[test]
fn a_page_leaves_out_the_entry_at_the_cursor_and_all_before_it() {
    let offsets = |cursor: u64| -> Vec<u64> {
        page_of(dot_entry_list(), cursor).iter().map(|e| e.offset).collect()
    };
    assert_eq!(offsets(0), vec![0, 1]);
    assert_eq!(offsets(1), Vec::<u64>::new());
    assert_eq!(offsets(2), Vec::<u64>::new());
    assert_eq!(page_of(Vec::new(), 0).len(), 0);
    assert_eq!(page_of(Vec::new(), 7).len(), 0);
}
