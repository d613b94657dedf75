use kitty_fs::attr::FileType;
use kitty_fs::content::GameStatus;
use kitty_fs::error::EngineError;
use kitty_fs::fuschia::{
    children_nodes, happy_kitty_content, kitty_content, need_pets_content, no_more_pets,
    update_inode_map, update_parent_map, Either, FuschiaFS,
};
use kitty_fs::refs::{gamedir_to_hash_map, DirOrFile};
use kitty_fs::tree;
use kitty_fs::tree::{dir, GameDir};
use std::collections::HashMap;

fn big_tree() -> GameDir {
    dir(1, "cool")
        .with_file(tree::file(2, "LiveJournal.txt"))
        .with_file(tree::file(3, "3.txt").content("Three"))
        .with_dir(
            dir(4, "xxx")
                .with_file(tree::file(5, "5.txt"))
                .with_file(tree::file(6, "6.txt"))
                .with_dir(dir(7, "xxxxx").with_file(tree::file(8, "8.txt"))),
        )
        .with_dir(dir(9, "lskdjf").with_file(tree::file(10, "10.txt")))
}

fn label(e: &Either) -> String {
    match e {
        Either::Directory { dir } => format!("d{}", dir.inode),
        Either::File { file } => format!("f{}", file.inode),
    }
}

#[test]
fn either_has_the_name_and_inode_of_its_node() {
    let root = big_tree();
    let d = Either::Directory { dir: &root };
    let f = Either::File { file: &root.files[1] };
    assert_eq!(d.name(), "cool");
    assert_eq!(f.name(), "3.txt");
    assert_eq!(d.inode(), 1);
    assert_eq!(f.inode(), 3);
    assert_eq!(label(&d.share()), "d1");
    assert_eq!(label(&f.share()), "f3");
}

#[test]
fn the_inode_map_holds_every_node_of_the_tree() {
    let root = big_tree();
    let mut map: HashMap<u64, Either> = HashMap::new();
    update_inode_map(&root, &mut map);
    let mut got: Vec<(u64, String)> = map.iter().map(|(k, v)| (*k, label(v))).collect();
    got.sort();
    let want: Vec<(u64, String)> = [
        (1, "d1"), (2, "f2"), (3, "f3"), (4, "d4"), (5, "f5"),
        (6, "f6"), (7, "d7"), (8, "f8"), (9, "d9"), (10, "f10"),
    ]
    .iter()
    .map(|(k, v)| (*k, v.to_string()))
    .collect();
    assert_eq!(got, want);
}

#[test]
fn the_inode_map_keeps_what_it_held_and_the_later_of_two_nodes_wins() {
    let other = dir(50, "other");
    let root = dir(1, "r").with_file(tree::file(2, "a")).with_dir(dir(2, "b"));
    let mut map: HashMap<u64, Either> = HashMap::new();
    update_inode_map(&other, &mut map);
    update_inode_map(&root, &mut map);
    assert_eq!(map.len(), 3);
    assert_eq!(label(&map[&50]), "d50");
    assert_eq!(label(&map[&2]), "d2");
}

#[test]
fn the_parent_map_lists_files_then_subdirectories() {
    let root = big_tree();
    let mut map: HashMap<u64, Vec<Either>> = HashMap::new();
    update_parent_map(&root, &mut map);
    let mut got: Vec<(u64, Vec<String>)> =
        map.iter().map(|(k, v)| (*k, v.iter().map(label).collect())).collect();
    got.sort();
    let want: Vec<(u64, Vec<String>)> = vec![
        (1, vec!["f2", "f3", "d4", "d9"]),
        (4, vec!["f5", "f6", "d7"]),
        (7, vec!["f8"]),
        (9, vec!["f10"]),
    ]
    .into_iter()
    .map(|(k, v)| (k, v.into_iter().map(|s| s.to_string()).collect()))
    .collect();
    assert_eq!(got, want);
    let kids: Vec<String> = children_nodes(&root).iter().map(label).collect();
    assert_eq!(kids, vec!["f2", "f3", "d4", "d9"]);
}

#[test]
fn the_status_counts_every_file_but_the_journal() {
    let root = big_tree();
    let fs = FuschiaFS::new(&root).unwrap();
    assert_eq!(fs.game_status(), GameStatus::new(5, 0, 0));
    let mut tired = big_tree();
    for _ in 0..5 {
        tired.files[1].dec_life();
    }
    for _ in 0..6 {
        tired.sub_dirs[1].files[0].dec_life();
        tired.files[0].dec_life();
    }
    let fs = FuschiaFS::new(&tired).unwrap();
    assert_eq!(fs.game_status(), GameStatus::new(3, 1, 1));
}

#[test]
fn the_engine_reads_what_a_file_shows() {
    let root = big_tree();
    let fs = FuschiaFS::new(&root).unwrap();
    let text = need_pets_content(&"Three".to_string(), 5);
    assert_eq!(fs.read(3, 0, u32::MAX).unwrap(), text.as_bytes().to_vec());
    assert_eq!(fs.read(3, 6, 7).unwrap(), text.as_bytes()[6..13].to_vec());
    assert_eq!(fs.read(3, text.len() as u64, 7).unwrap(), Vec::<u8>::new());
    assert_eq!(fs.read(3, u64::MAX, 7).unwrap(), Vec::<u8>::new());
    assert_eq!(fs.read(1, 0, 7), Err(EngineError::NotFound));
    assert_eq!(fs.read(77, 0, 7), Err(EngineError::NotFound));
    let journal = String::from_utf8(fs.read(2, 0, u32::MAX).unwrap()).unwrap();
    assert_eq!(journal, GameStatus::new(5, 0, 0).to_content());
    assert_eq!(fs.content_of(&Either::Directory { dir: &root }), "");
}

#[test]
fn the_engine_reports_the_size_that_it_reads() {
    let root = big_tree();
    let fs = FuschiaFS::new(&root).unwrap();
    for ino in [2u64, 3, 5, 6, 8, 10] {
        let attr = fs.getattr(ino).unwrap();
        assert_eq!(attr.kind, FileType::RegularFile);
        assert_eq!(attr.ino, ino);
        assert_eq!((attr.uid, attr.gid), (1000, 100));
        assert_eq!(attr.size, fs.read(ino, 0, u32::MAX).unwrap().len() as u64);
    }
    for ino in [1u64, 4, 7, 9] {
        let attr = fs.getattr(ino).unwrap();
        assert_eq!(attr.kind, FileType::Directory);
        assert_eq!(attr.size, 0);
        assert_eq!((attr.uid, attr.gid, attr.perm, attr.nlink, attr.blocks), (1000, 100, 0o644, 1, 1));
    }
    assert_eq!(fs.getattr(11), Err(EngineError::NotFound));
    assert_eq!(fs.to_file_attr(&Either::File { file: &root.files[1] }), fs.getattr(3).unwrap());
}

#[test]
fn the_engine_looks_a_child_up_by_name() {
    let root = big_tree();
    let fs = FuschiaFS::new(&root).unwrap();
    assert_eq!(fs.lookup(1, "3.txt"), fs.getattr(3));
    assert_eq!(fs.lookup(1, "xxx"), fs.getattr(4));
    assert_eq!(fs.lookup(4, "xxxxx"), fs.getattr(7));
    assert_eq!(fs.lookup(7, "8.txt"), fs.getattr(8));
    assert_eq!(fs.lookup(1, "8.txt"), Err(EngineError::NotFound));
    assert_eq!(fs.lookup(3, "3.txt"), Err(EngineError::NotFound));
    assert_eq!(fs.lookup(77, "3.txt"), Err(EngineError::NotFound));
    let twins = dir(1, "r").with_file(tree::file(2, "t")).with_dir(dir(3, "t"));
    assert_eq!(FuschiaFS::new(&twins).unwrap().lookup(1, "t"), Err(EngineError::NotFound));
}

#[test]
fn the_engine_lists_subdirectories_before_files() {
    let root = big_tree();
    let fs = FuschiaFS::new(&root).unwrap();
    let list: Vec<(u64, u64, FileType, String)> =
        fs.readdir(1, 0).unwrap().into_iter().map(|e| (e.inode, e.offset, e.kind, e.name)).collect();
    assert_eq!(
        list,
        vec![
            (1111, 0, FileType::Directory, ".".to_string()),
            (11112, 1, FileType::Directory, "..".to_string()),
            (4, 2, FileType::Directory, "xxx".to_string()),
            (9, 3, FileType::Directory, "lskdjf".to_string()),
            (2, 4, FileType::RegularFile, "LiveJournal.txt".to_string()),
            (3, 5, FileType::RegularFile, "3.txt".to_string()),
        ]
    );
    for cursor in 1..8u64 {
        let page: Vec<u64> = fs.readdir(1, cursor).unwrap().iter().map(|e| e.offset).collect();
        let want: Vec<u64> = (cursor + 1..6).collect();
        assert_eq!(page, want);
    }
    assert!(matches!(fs.readdir(3, 0), Err(EngineError::NotFound)));
    assert!(matches!(fs.readdir(77, 0), Err(EngineError::NotFound)));
}

#[test]
fn the_references_are_the_files_of_the_tree() {
    let root = big_tree();
    let refs = root.to_references();
    let got: Vec<(u64, String)> = refs
        .iter()
        .map(|(inode, r)| match r {
            DirOrFile::File(f) => (*inode, f.name.clone()),
            DirOrFile::Dir(d) => (*inode, d.name.clone()),
        })
        .collect();
    let want: Vec<(u64, String)> = [
        (2, "LiveJournal.txt"), (3, "3.txt"), (5, "5.txt"), (6, "6.txt"), (8, "8.txt"), (10, "10.txt"),
    ]
    .iter()
    .map(|(k, v)| (*k, v.to_string()))
    .collect();
    assert_eq!(got, want);
    let table = gamedir_to_hash_map(&root);
    assert_eq!(table.len(), 6);
    assert!(matches!(table[&8], DirOrFile::File(f) if f.name == "8.txt"));
    let twins = dir(1, "r").with_file(tree::file(2, "a")).with_dir(dir(3, "d").with_file(tree::file(2, "b")));
    let table = gamedir_to_hash_map(&twins);
    assert_eq!(table.len(), 1);
    assert!(matches!(table[&2], DirOrFile::File(f) if f.name == "b"));
}

#[test]
fn a_tree_with_a_shared_inode_makes_no_engine() {
    let shared = dir(1, "r").with_file(tree::file(2, "a")).with_dir(dir(2, "b"));
    assert!(!shared.has_distinct_inodes());
    assert!(matches!(FuschiaFS::new(&shared), Err(EngineError::InvariantViolation)));
    assert!(big_tree().has_distinct_inodes());
    assert!(FuschiaFS::new(&big_tree()).is_ok());
}

#[test]
fn the_kitties_of_this_engine_have_their_own_pictures() {
    let name = "Tom".to_string();
    let needing = need_pets_content(&name, 5);
    assert!(needing.starts_with("Hello StarCon!\nMy name is: Tom\n\nI NEED TO BE PETTED\n\nPlease send me 5 pets\n"));
    assert!(needing.ends_with("\\_,,))\n\n"));
    assert_eq!(needing.len(), 472);
    let happy = happy_kitty_content(&name);
    assert!(happy.starts_with("Hello StarCon!\nMy name is: Tom\n\nWOW! YOU GAVE ME ENOUGH PETS!! "));
    assert_eq!(happy.chars().filter(|c| *c == '\u{2764}').count(), 7);
    assert_eq!(happy.chars().count(), 378);
    assert_eq!(happy.len(), 378 + 14);
    let mad = no_more_pets(&name);
    assert!(mad.starts_with("Hello StarCon!\nMy name is: Tom\n\nMY HEART IS FICKLE! NO MORE PETS!!!!\n"));
    assert_eq!(mad.len(), 396);
    assert_eq!(kitty_content(&name, 2), need_pets_content(&name, 2));
    assert_eq!(kitty_content(&name, 0), happy);
    assert_eq!(kitty_content(&name, -3), mad);
}

#[test]
fn the_size_of_a_happy_kitty_counts_bytes_not_characters() {
    let mut tree = dir(1, "r").with_file(tree::file(2, "cat").content("Tom"));
    for _ in 0..5 {
        tree.files[0].dec_life();
    }
    let fs = FuschiaFS::new(&tree).unwrap();
    let text = happy_kitty_content(&"Tom".to_string());
    assert_eq!(fs.getattr(2).unwrap().size, text.len() as u64);
    assert_eq!(fs.getattr(2).unwrap().size, 392);
    assert_eq!(fs.read(2, 0, u32::MAX).unwrap(), text.as_bytes().to_vec());
}
