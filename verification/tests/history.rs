use inpr_os::fs::Filesystem;
use inpr_os::shell::history::{add_to_history, read_history};

#[test]
fn history_keeps_entries_in_order() {
    let mut fs = Filesystem::init();
    assert!(read_history(&fs).is_empty());
    add_to_history(&mut fs, "ls");
    add_to_history(&mut fs, "cat /etc/motd");
    assert_eq!(read_history(&fs), vec!["".to_owned(), "ls".to_owned(), "cat /etc/motd".to_owned()]);
    let text = String::from_utf8(fs.read_file("/home/inparsian/.sheesh_history", None).unwrap().to_vec()).unwrap();
    assert_eq!(text, "\r\nls\r\ncat /etc/motd");
}

#[test]
fn history_file_is_made_when_missing() {
    let mut fs = Filesystem::init();
    fs.remove("/home/inparsian/.sheesh_history", None).unwrap();
    add_to_history(&mut fs, "pwd");
    assert_eq!(read_history(&fs), vec!["".to_owned(), "pwd".to_owned()]);
}
