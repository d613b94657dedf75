use kitty_fs::attr::FileType;
use kitty_fs::content::{happy_kitty_content, need_pets_content, no_more_pets};
use kitty_fs::entity::GameEntity;
use kitty_fs::tree;
use kitty_fs::tree::{dir, GameDir, GameFile};

fn as_tuple(e: &GameEntity) -> (u64, String, Option<u64>, Vec<u64>, Option<(String, i32, i32)>) {
    match e {
        GameEntity::Directory { inode, name, parent, children } => {
            (*inode, name.clone(), *parent, children.clone(), None)
        }
        GameEntity::File { inode, name, parent, content, life, pets_needed } => (
            *inode,
            name.clone(),
            *parent,
            vec![],
            Some((content.clone(), *life, *pets_needed)),
        ),
    }
}

#[test]
fn a_new_entity_has_no_parent() {
    let d = GameEntity::dir(7, "d");
    assert_eq!(as_tuple(&d), (7, "d".to_string(), None, vec![], None));
    let f = GameEntity::file(8, "f", "Tom");
    assert_eq!(as_tuple(&f), (8, "f".to_string(), None, vec![], Some(("Tom".to_string(), 100, 5))));
    assert_eq!(d.get_name(), "d");
    assert_eq!(f.get_name(), "f");
    assert_eq!(d.get_inode(), 7);
    assert_eq!(f.get_inode(), 8);
    assert_eq!(d.get_parent(), None);
    assert_eq!(d.kind(), FileType::Directory);
    assert_eq!(f.kind(), FileType::RegularFile);
    assert!(f.has_name(&"f".to_string()));
    assert!(!f.has_name(&"g".to_string()));
}

#[test]
fn set_parent_and_push_child_change_one_field() {
    let mut d = GameEntity::dir(7, "d");
    d.set_parent(1);
    d.push_child(8);
    d.push_child(9);
    assert_eq!(as_tuple(&d), (7, "d".to_string(), Some(1), vec![8, 9], None));
    assert_eq!(d.get_children(), vec![8, 9]);
    let mut f = GameEntity::file(8, "f", "Tom");
    f.set_parent(7);
    f.push_child(3);
    assert_eq!(as_tuple(&f), (8, "f".to_string(), Some(7), vec![], Some(("Tom".to_string(), 100, 5))));
    assert_eq!(f.get_parent(), Some(7));
    assert_eq!(f.get_children(), Vec::<u64>::new());
}

#[test]
fn an_entity_shows_its_kitty_by_its_counter() {
    let name = "Tom".to_string();
    let f = GameEntity::file(8, "f", "Tom");
    assert_eq!(f.get_content(), need_pets_content(&name, 5));
    let at_peace = GameEntity::File {
        inode: 8,
        name: "f".to_string(),
        parent: None,
        content: "Tom".to_string(),
        life: 100,
        pets_needed: 0,
    };
    assert_eq!(at_peace.get_content(), happy_kitty_content(&name));
    let mad = GameEntity::File {
        inode: 8,
        name: "f".to_string(),
        parent: None,
        content: "Tom".to_string(),
        life: 100,
        pets_needed: -1,
    };
    assert_eq!(mad.get_content(), no_more_pets(&name));
    assert_eq!(GameEntity::dir(7, "d").get_content(), "");
    assert_eq!(f.to_file_attr().size, need_pets_content(&name, 5).len() as u64);
    assert_eq!(f.to_file_attr().size, 471);
    assert_eq!(f.get_content().len(), 471);
    assert_eq!(f.to_file_attr().ino, 8);
    assert_eq!((f.to_file_attr().uid, f.to_file_attr().gid), (501, 20));
    assert_eq!(f.to_file_attr().kind, FileType::RegularFile);
    assert_eq!(GameEntity::dir(7, "d").to_file_attr().size, 0);
    assert_eq!(GameEntity::dir(7, "d").to_file_attr().kind, FileType::Directory);
    assert_eq!(at_peace.to_file_attr().size, happy_kitty_content(&name).len() as u64);
    let copy = mad.clone();
    assert_eq!(as_tuple(&copy), as_tuple(&mad));
}

#[test]
fn a_new_file_has_five_lives() {
    let f = GameFile::new(3, "cat".to_string(), "Tom".to_string());
    assert_eq!((f.inode, f.name.as_str(), f.content.as_str(), f.life), (3, "cat", "Tom", 5));
    let f = tree::file(4, "dog");
    assert_eq!((f.inode, f.name.as_str(), f.content.as_str(), f.life), (4, "dog", "", 5));
    let f = f.content("Rex");
    assert_eq!((f.inode, f.name.as_str(), f.content.as_str(), f.life), (4, "dog", "Rex", 5));
}

#[test]
fn a_file_shows_its_kitty_by_its_life() {
    let name = "Rex".to_string();
    let mut f = tree::file(4, "dog").content("Rex");
    assert_eq!(f.get_content(), need_pets_content(&name, 5));
    assert_eq!(f.to_file_attr().size, need_pets_content(&name, 5).len() as u64);
    assert_eq!(f.to_file_attr().ino, 4);
    for _ in 0..5 {
        f.dec_life();
    }
    assert_eq!(f.life, 0);
    assert_eq!(f.get_content(), happy_kitty_content(&name));
    f.dec_life();
    assert_eq!(f.get_content(), no_more_pets(&name));
    assert_eq!(f.to_file_attr().size, no_more_pets(&name).len() as u64);
}

#[test]
fn a_file_becomes_an_entity_that_needs_as_many_pets_as_it_has_life() {
    let mut f = tree::file(4, "dog").content("Rex");
    f.dec_life();
    let e = f.to_game_entity();
    assert_eq!(as_tuple(&e), (4, "dog".to_string(), None, vec![], Some(("Rex".to_string(), 4, 4))));
}

fn sample() -> GameDir {
    dir(1, "cool_dir")
        .with_file(tree::file(3, "cool_file.txt").content("LAPTOP"))
        .with_dir(dir(4, "deep_dir").with_file(tree::file(5, "deep_file.txt").content("WIFI")))
}

#[test]
fn the_builder_keeps_the_order_of_additions() {
    let d = GameDir::new(1, "d".to_string());
    assert_eq!((d.inode, d.name.as_str(), d.files.len(), d.sub_dirs.len()), (1, "d", 0, 0));
    let d = d.with_file(tree::file(2, "a")).with_dir(dir(3, "b")).with_file(tree::file(4, "c")).with_dir(dir(5, "e"));
    assert_eq!(d.files.iter().map(|f| f.inode).collect::<Vec<_>>(), vec![2, 4]);
    assert_eq!(d.sub_dirs.iter().map(|f| f.inode).collect::<Vec<_>>(), vec![3, 5]);
    assert_eq!(d.to_file_attr().kind, FileType::Directory);
    assert_eq!(d.to_file_attr().size, 0);
    assert_eq!(d.to_file_attr().ino, 1);
}

#[test]
fn the_entities_of_a_tree_name_their_parents_and_children() {
    let entities = sample().to_game_entities(None);
    let got: Vec<_> = entities.iter().map(as_tuple).collect();
    assert_eq!(
        got,
        vec![
            (1, "cool_dir".to_string(), None, vec![3, 4], None),
            (3, "cool_file.txt".to_string(), Some(1), vec![], Some(("LAPTOP".to_string(), 5, 5))),
            (4, "deep_dir".to_string(), Some(1), vec![5], None),
            (5, "deep_file.txt".to_string(), Some(4), vec![], Some(("WIFI".to_string(), 5, 5))),
        ]
    );
    let under = sample().to_game_entities(Some(9));
    assert_eq!(as_tuple(&under[0]).2, Some(9));
}

#[test]
fn the_entities_list_files_before_subdirectories_and_trees_in_turn() {
    let tree = dir(1, "r")
        .with_dir(dir(2, "a").with_dir(dir(3, "aa").with_file(tree::file(4, "x"))).with_file(tree::file(5, "y")))
        .with_file(tree::file(6, "z"))
        .with_dir(dir(7, "b"));
    let entities = tree.to_game_entities(None);
    let inodes: Vec<u64> = entities.iter().map(|e| e.get_inode()).collect();
    assert_eq!(inodes, vec![1, 6, 2, 5, 3, 4, 7]);
    assert_eq!(as_tuple(&entities[0]).3, vec![6, 2, 7]);
    assert_eq!(as_tuple(&entities[2]).3, vec![5, 3]);
    let parents: Vec<Option<u64>> = entities.iter().map(|e| e.get_parent()).collect();
    assert_eq!(parents, vec![None, Some(1), Some(1), Some(2), Some(2), Some(3), Some(1)]);
}

#[test]
fn the_table_holds_every_node_under_its_inode() {
    let table = sample().to_entity_hash_map().unwrap();
    assert_eq!(table.len(), 4);
    for (inode, entity) in table.iter() {
        assert_eq!(*inode, entity.get_inode());
    }
    assert_eq!(table[&5].get_name(), "deep_file.txt");
    assert_eq!(table[&5].get_parent(), Some(4));
    assert_eq!(as_tuple(&table[&1]).3, vec![3, 4]);
}
