use base64::Engine as _;
use inpr_os::fs::encoding::EncodingError;
use inpr_os::fs::{Filesystem, FilesystemData, FilesystemEntry};

fn file_text(fs: &Filesystem, path: &str) -> String {
    String::from_utf8(fs.read_file(path, None).unwrap().to_vec()).unwrap()
}

#[test]
fn fresh_image_holds_the_commands() {
    let fs = Filesystem::init();
    assert_eq!(file_text(&fs, "/bin/echo"), "Echo the input");
    assert_eq!(file_text(&fs, "/usr/bin/ps"), "List processes");
    assert_eq!(file_text(&fs, "/tmp/easter_egg"), "nothing but a decoy. keep looking!");
    assert!(fs.resolve_read("/home/inparsian/.sheesh_history", None).is_some());
}

#[test]
fn resolve_path_normalises() {
    let fs = Filesystem::init();
    assert_eq!(fs.resolve_path("../../etc/./hostname", Some("/home/inparsian")), Some("/etc/hostname".to_owned()));
    assert_eq!(fs.resolve_path("bin//echo", Some("/")), Some("/bin/echo".to_owned()));
    assert_eq!(fs.resolve_path("/", None), Some("/".to_owned()));
    assert_eq!(fs.resolve_path("/nowhere", None), None);
}

#[test]
fn resolve_read_of_root_is_a_nameless_directory() {
    let fs = Filesystem::init();
    let root = fs.resolve_read("/", None).unwrap();
    assert_eq!(root.name, "");
    match root.data {
        FilesystemData::Directory { children } => assert_eq!(children.len(), fs.root.len()),
        _ => panic!("root is not a directory"),
    }
}

#[test]
fn read_after_create() {
    let mut fs = Filesystem::init();
    assert_eq!(fs.create_file("notes.txt", Some("/tmp"), b"hello"), Ok(()));
    assert_eq!(fs.read_file("/tmp/notes.txt", None), Ok(&b"hello"[..]));
}

#[test]
fn read_after_write() {
    let mut fs = Filesystem::init();
    assert_eq!(fs.write_file("/etc/hostname", None, b"box"), Ok(()));
    assert_eq!(file_text(&fs, "/etc/hostname"), "box");
}

#[test]
fn create_errors() {
    let mut fs = Filesystem::init();
    assert_eq!(fs.create_file("/bin/echo", None, b""), Err("File already exists".to_owned()));
    assert_eq!(fs.create_directory("/bin", None), Err("Directory already exists".to_owned()));
    assert_eq!(fs.create_file("/nope/x", None, b""), Err("Parent directory does not exist".to_owned()));
    assert_eq!(
        fs.create_file("/bin/echo/x", None, b""),
        Err("Path is not a directory: /bin/echo/x".to_owned())
    );
}

#[test]
fn read_and_write_errors() {
    let mut fs = Filesystem::init();
    assert_eq!(fs.read_file("/bin", None), Err("Path is not a file: /bin".to_owned()));
    assert_eq!(fs.read_file("/missing", None), Err("File does not exist: /missing".to_owned()));
    assert_eq!(fs.write_file("/tmp", None, b"x"), Err("Path is not a file: /tmp".to_owned()));
    assert_eq!(fs.write_file("/missing", None, b"x"), Err("File does not exist: /missing".to_owned()));
}

#[test]
fn remove_undoes_create() {
    let mut fs = Filesystem::init();
    let before = fs.encode();
    fs.create_file("/tmp/scratch", None, b"data").unwrap();
    assert_ne!(fs.encode(), before);
    assert_eq!(fs.remove("/tmp/scratch", None), Ok(()));
    assert_eq!(fs.encode(), before);
}

#[test]
fn remove_errors() {
    let mut fs = Filesystem::init();
    assert_eq!(fs.remove("/", None), Err("Cannot remove root".to_owned()));
    assert_eq!(fs.remove("/tmp/none", None), Err("Path does not exist: /tmp/none".to_owned()));
    assert_eq!(fs.remove("/nope/x", None), Err("Parent directory does not exist".to_owned()));
    assert_eq!(fs.remove("/bin/echo/x", None), Err("Parent path is not a directory".to_owned()));
    assert_eq!(fs.remove("/sbin", None), Ok(()));
    assert!(fs.resolve_read("/sbin", None).is_none());
}

#[test]
fn resolve_read_dir_lists_children() {
    let fs = Filesystem::init();
    let dev = fs.resolve_read_dir("/dev", None).unwrap();
    let names: Vec<&str> = dev.iter().map(|e| e.name.as_str()).collect();
    assert_eq!(names, vec!["sda", "sda1", "null", "zero"]);
    assert!(fs.resolve_read_dir("/etc/hostname", None).is_none());
}

#[test]
fn sizes_count_files_and_bytes() {
    let dir = FilesystemEntry::new_dir(
        "d",
        vec![FilesystemEntry::new_file("a", "12"), FilesystemEntry::new_file("b", "345")],
    );
    assert_eq!(dir.size_entries(), 2);
    assert_eq!(dir.size_bytes(), 5);
    assert_eq!(FilesystemEntry::new_file("x", "héllo").size_bytes(), 6);
}

#[test]
fn image_round_trip() {
    let mut fs = Filesystem::init();
    fs.create_file("/tmp/ünïcode", None, "ß".as_bytes()).unwrap();
    let text = fs.encode();
    let back = Filesystem::decode(&text).unwrap();
    assert_eq!(back.root, fs.root);
    assert_eq!(back.encode(), text);
}

#[test]
fn empty_image_encodes_magic_and_count() {
    let fs = Filesystem { root: Vec::new() };
    // "IFS1" followed by a zero count, in URL-safe Base64 without padding
    assert_eq!(fs.encode(), "SUZTMQAAAAA");
    assert_eq!(Filesystem::decode("SUZTMQAAAAA").unwrap().root.len(), 0);
}

#[test]
fn decode_errors() {
    assert!(matches!(Filesystem::decode("!!!"), Err(EncodingError::InvalidBase64(_))));
    // "IFS2" with a zero count
    assert_eq!(
        Filesystem::decode("SUZTMgAAAAA").err(),
        Some(EncodingError::InvalidFormat("wrong magic header"))
    );
    // the magic alone
    assert_eq!(Filesystem::decode("SUZTMQ").err(), Some(EncodingError::UnexpectedEnd));
    // a zero count, then one stray byte
    assert_eq!(
        Filesystem::decode("SUZTMQAAAAAA").err(),
        Some(EncodingError::InvalidFormat("trailing bytes"))
    );
}

#[test]
fn encoding_error_messages() {
    assert_eq!(EncodingError::UnexpectedEnd.to_string(), "unexpected end of filesystem data");
    assert_eq!(
        EncodingError::InvalidFormat("trailing bytes").to_string(),
        "invalid filesystem format: trailing bytes"
    );
    assert_eq!(EncodingError::TooManyEntries.to_string(), "filesystem contains too many entries");
}

#[test]
fn resolve_write_changes_the_entry_in_place() {
    let mut fs = Filesystem::init();
    {
        let entry = fs.resolve_write("hostname", Some("/etc")).unwrap();
        assert_eq!(entry.name, "hostname");
        entry.data = FilesystemData::File { content: b"box".to_vec() };
    }
    assert_eq!(file_text(&fs, "/etc/hostname"), "box");
    assert!(fs.resolve_write("/etc/missing", None).is_none());
    assert!(fs.resolve_write("/etc/hostname/deeper", None).is_none());
}

#[test]
fn resolve_write_of_root_hands_out_a_copy() {
    let mut fs = Filesystem::init();
    let before = fs.encode();
    {
        let root = fs.resolve_write("/", None).unwrap();
        assert_eq!(root.name, "");
        if let FilesystemData::Directory { children } = &mut root.data {
            children.clear();
        } else {
            panic!("the root is a directory");
        }
    }
    assert_eq!(fs.encode(), before);
    assert!(fs.resolve_read("/bin/echo", None).is_some());
}

#[test]
fn decode_reports_the_base64_failure() {
    assert_eq!(
        Filesystem::decode("!!!!").err(),
        Some(EncodingError::InvalidBase64("Invalid symbol 33, offset 0.".to_owned()))
    );
    assert_eq!(
        Filesystem::decode("A").err(),
        Some(EncodingError::InvalidBase64("Invalid input length: 1".to_owned()))
    );
    for text in ["!!!!", "A", "AB==", "AC"] {
        let theirs = base64::engine::general_purpose::URL_SAFE_NO_PAD.decode(text).unwrap_err().to_string();
        assert_eq!(Filesystem::decode(text).err(), Some(EncodingError::InvalidBase64(theirs)));
    }
}

#[test]
fn child_path_resolves_below_its_parent() {
    let fs = Filesystem::init();
    let parent = fs.resolve_path("../etc", Some("/home")).unwrap();
    let child = fs.resolve_path("../etc/hostname", Some("/home")).unwrap();
    assert_eq!(child, format!("{}/hostname", parent));
}

#[test]
fn remove_takes_out_only_the_entry() {
    let mut fs = Filesystem::init();
    let before: Vec<String> = fs.resolve_read_dir("/etc", None).unwrap().into_iter().map(|e| e.name).collect();
    fs.remove("hosts", Some("/etc")).unwrap();
    assert!(fs.resolve_read("/etc/hosts", None).is_none());
    let after: Vec<String> = fs.resolve_read_dir("/etc", None).unwrap().into_iter().map(|e| e.name).collect();
    let expected: Vec<String> = before.into_iter().filter(|n| n != "hosts").collect();
    assert_eq!(after, expected);
}

#[test]
fn resolved_path_is_the_same_from_anywhere() {
    let fs = Filesystem::init();
    let q = fs.resolve_path("../../etc/./hostname", Some("/home/inparsian")).unwrap();
    for pwd in [None, Some("/"), Some("/tmp"), Some("/home/inparsian")] {
        assert_eq!(fs.resolve_path(&q, pwd), Some(q.clone()));
        assert_eq!(fs.resolve_read(&q, pwd), fs.resolve_read("../../etc/./hostname", Some("/home/inparsian")));
    }
}

#[test]
fn decode_after_encode_gives_the_filesystem_back() {
    let fs = Filesystem::init();
    let back = Filesystem::decode(&fs.encode()).unwrap();
    assert_eq!(back.root, fs.root);
    let image = inpr_os::fs::encoding::encode_image(&fs);
    assert_eq!(inpr_os::fs::encoding::decode_image(&image).unwrap().root, fs.root);
}

#[test]
fn sizes_sum_children_and_skip_directories() {
    assert_eq!(FilesystemEntry::new_dir("d", vec![]).size_entries(), 0);
    let nested = FilesystemEntry::new_dir(
        "d",
        vec![FilesystemEntry::new_file("a", "x"), FilesystemEntry::new_dir("e", vec![FilesystemEntry::new_file("b", "")])],
    );
    assert_eq!(nested.size_entries(), 2);
    assert_eq!(nested.size_bytes(), 1);
    let link = FilesystemEntry { name: "l".to_owned(), data: FilesystemData::SymbolicLink { target: "/etc".to_owned() } };
    assert_eq!((link.size_entries(), link.size_bytes()), (1, 0));
}

fn names_in(fs: &Filesystem, dir: &str) -> Vec<String> {
    fs.resolve_read_dir(dir, None).unwrap().into_iter().map(|e| e.name).collect()
}

fn total_entries(fs: &Filesystem) -> usize {
    fs.root.iter().map(|e| e.size_entries()).sum()
}

#[test]
fn write_file_leaves_the_rest() {
    let mut fs = Filesystem::init();
    let hosts = fs.resolve_read("/etc/hosts", None);
    let echo = fs.resolve_read("/bin/echo", None);
    let etc = names_in(&fs, "/etc");
    fs.write_file("hostname", Some("/etc"), b"box").unwrap();
    assert_eq!(file_text(&fs, "/etc/hostname"), "box");
    assert_eq!(fs.resolve_read("/etc/hosts", None), hosts);
    assert_eq!(fs.resolve_read("/bin/echo", None), echo);
    assert_eq!(names_in(&fs, "/etc"), etc);
}

#[test]
fn create_file_appends_last_and_leaves_the_rest() {
    let mut fs = Filesystem::init();
    let hosts = fs.resolve_read("/etc/hosts", None);
    let mut etc = names_in(&fs, "/etc");
    fs.create_file("/etc/banner", None, b"hi").unwrap();
    etc.push("banner".to_owned());
    assert_eq!(names_in(&fs, "/etc"), etc);
    assert_eq!(file_text(&fs, "/etc/banner"), "hi");
    assert_eq!(fs.resolve_read("/etc/hosts", None), hosts);
}

#[test]
fn remove_drops_the_removed_entry_count() {
    let mut fs = Filesystem::init();
    let before = total_entries(&fs);
    let removed = fs.resolve_read("/usr", None).unwrap().size_entries();
    let hostname = fs.resolve_read("/etc/hostname", None);
    fs.remove("/usr", None).unwrap();
    assert_eq!(total_entries(&fs), before - removed);
    assert!(fs.resolve_read("/usr/bin/ps", None).is_none());
    assert_eq!(fs.resolve_read("/etc/hostname", None), hostname);
}
