use kitty_fs::attr::FileType;
use kitty_fs::error::EngineError;
use kitty_fs::attr::Timespec;
use kitty_fs::starcon::{starcon_content, starcon_file_attr, starcon_ttl, StarConFS};

#[test]
fn the_text_takes_four_turns() {
    assert_eq!(starcon_content(0), "FUSE rocks!\n");
    assert_eq!(starcon_content(1), "Hello StarCon!\n");
    assert_eq!(starcon_content(2), "Also, good morning!\n");
    assert_eq!(starcon_content(3), "Sorry!\n");
    assert_eq!(starcon_content(4), "FUSE rocks!\n");
    assert_eq!(starcon_content(5), "Hello StarCon!\n");
    assert_eq!(starcon_content(u64::MAX), "Sorry!\n");
}

#[test]
fn the_size_follows_the_text() {
    for count in 0..9u64 {
        let attr = starcon_file_attr(count);
        assert_eq!(attr.size, starcon_content(count).len() as u64);
        assert_eq!(attr.ino, 3);
        assert_eq!(attr.kind, FileType::RegularFile);
    }
}

#[test]
fn each_opening_turns_the_text() {
    let mut fs = StarConFS::new();
    assert_eq!(fs.count(), 0);
    assert_eq!(fs.read(3, 0, 100).unwrap(), b"FUSE rocks!\n".to_vec());
    assert_eq!(fs.open(3), 3);
    assert_eq!(fs.count(), 1);
    assert_eq!(fs.read(3, 0, 100).unwrap(), b"Hello StarCon!\n".to_vec());
    assert_eq!(fs.getattr(3).unwrap().size, 15);
    assert_eq!(fs.open(1), 1);
    assert_eq!(fs.read(3, 6, 4).unwrap(), b"good".to_vec());
    assert_eq!(fs.read(3, 20, 4).unwrap(), Vec::<u8>::new());
    assert_eq!(fs.read(3, 19, 4).unwrap(), b"\n".to_vec());
    assert_eq!(fs.read(1, 0, 4), Err(EngineError::NotFound));
    assert_eq!(fs.read(2, 0, 4), Err(EngineError::NotFound));
}

#[test]
fn the_directory_holds_the_one_file() {
    let fs = StarConFS::new();
    assert_eq!(fs.lookup(1, "starcon.txt"), fs.getattr(3));
    assert_eq!(fs.lookup(1, "other.txt"), Err(EngineError::NotFound));
    assert_eq!(fs.lookup(3, "starcon.txt"), Err(EngineError::NotFound));
    let root = fs.getattr(1).unwrap();
    assert_eq!((root.ino, root.kind, root.size), (1, FileType::Directory, 0));
    assert_eq!(fs.getattr(2), Err(EngineError::NotFound));
    let list: Vec<(u64, u64, FileType, String)> =
        fs.readdir(1, 0).unwrap().into_iter().map(|e| (e.inode, e.offset, e.kind, e.name)).collect();
    assert_eq!(
        list,
        vec![
            (11, 0, FileType::Directory, ".".to_string()),
            (12, 1, FileType::Directory, "..".to_string()),
            (3, 2, FileType::RegularFile, "starcon.txt".to_string()),
        ]
    );
    assert_eq!(fs.readdir(1, 1).unwrap().len(), 1);
    assert_eq!(fs.readdir(1, 2).unwrap().len(), 0);
    assert_eq!(fs.readdir(1, 3).unwrap().len(), 0);
    assert_eq!(fs.readdir(1, u64::MAX).unwrap().len(), 0);
    assert!(matches!(fs.readdir(3, 0), Err(EngineError::NotFound)));
}

#[test]
fn an_answer_may_be_kept_for_two_seconds() {
    assert_eq!(starcon_ttl(), Timespec { sec: 2, nsec: 0 });
    assert_eq!(kitty_fs::attr::ttl(), Timespec { sec: 1, nsec: 0 });
}
