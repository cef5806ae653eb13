use inpr_os::bins::ProcessEntry;
use inpr_os::fs::Filesystem;
use inpr_os::shell::Shell;

fn shell() -> Shell {
    Shell::new(Filesystem::init(), vec![ProcessEntry { id: 1, name: "systemd".to_owned() }])
}

fn type_text(sh: &mut Shell, text: &str) {
    for c in text.chars() {
        let mut key = String::new();
        key.push(c);
        sh.handle_stdin(&key);
    }
}

const PROMPT: &str = "~ \x1b[31m›\x1b[0m ";

#[test]
fn prompt_shows_home_as_tilde() {
    let mut sh = shell();
    assert_eq!(sh.prompt(), PROMPT);
    sh.handle_stdin("c");
    sh.handle_stdin("d");
    sh.handle_stdin(" ");
    sh.handle_stdin("/");
    let out = sh.handle_stdin("\r");
    assert_eq!(out, vec!["\r\n".to_owned(), "/ \x1b[31m›\x1b[0m ".to_owned()]);
}

#[test]
fn typing_echoes_and_enter_runs() {
    let mut sh = shell();
    assert_eq!(sh.handle_stdin("e"), vec!["e\x1b[K".to_owned()]);
    type_text(&mut sh, "cho hi");
    assert_eq!(sh.buffer, "echo hi");
    let out = sh.handle_stdin("\r");
    assert_eq!(out, vec!["\r\n".to_owned(), "hi\r\n".to_owned(), PROMPT.to_owned()]);
    assert_eq!(sh.history, vec!["echo hi".to_owned()]);
    assert_eq!(sh.buffer, "");
    assert_eq!(sh.pos, 0);
}

#[test]
fn cursor_moves_and_inserts_in_the_middle() {
    let mut sh = shell();
    type_text(&mut sh, "ac");
    assert_eq!(sh.handle_stdin("\x1B[D"), vec!["\x1B[D".to_owned()]);
    assert_eq!(sh.pos, 1);
    assert_eq!(sh.handle_stdin("b"), vec!["b\x1b[Kc\x1b[1D".to_owned()]);
    assert_eq!(sh.buffer, "abc");
    assert_eq!(sh.pos, 2);
    assert_eq!(sh.handle_stdin("\x1B[C"), vec!["\x1B[C".to_owned()]);
    assert!(sh.handle_stdin("\x1B[C").is_empty());
    assert_eq!(sh.pos, 3);
}

#[test]
fn backspace_deletes_before_the_cursor() {
    let mut sh = shell();
    type_text(&mut sh, "héllo");
    assert_eq!(sh.handle_stdin("\u{7f}"), vec!["\x1B[D\x1B[K".to_owned()]);
    assert_eq!(sh.buffer, "héll");
    sh.handle_stdin("\x1B[D");
    sh.handle_stdin("\x1B[D");
    assert_eq!(sh.handle_stdin("\u{7f}"), vec!["\x1B[D\x1B[Kll\x1B[2D".to_owned()]);
    assert_eq!(sh.buffer, "hll");
    assert_eq!(sh.pos, 1);
    sh.handle_stdin("\x1B[D");
    assert!(sh.handle_stdin("\u{7f}").is_empty());
}

#[test]
fn history_walks_back_and_forth() {
    let mut sh = shell();
    type_text(&mut sh, "echo one");
    sh.handle_stdin("\r");
    type_text(&mut sh, "echo two");
    sh.handle_stdin("\r");
    type_text(&mut sh, "draft");
    let up = sh.handle_stdin("\x1B[A");
    assert_eq!(up, vec![format!("\r{}echo two\x1B[K", PROMPT)]);
    sh.handle_stdin("\x1B[A");
    assert_eq!(sh.buffer, "echo one");
    sh.handle_stdin("\x1B[B");
    assert_eq!(sh.buffer, "echo two");
    sh.handle_stdin("\x1B[B");
    assert_eq!(sh.buffer, "draft");
    assert_eq!(sh.history_pos, None);
    assert!(sh.handle_stdin("\x1B[B").is_empty());
}

#[test]
fn tab_completes_a_single_command() {
    let mut sh = shell();
    type_text(&mut sh, "wh");
    sh.handle_stdin("\t");
    assert_eq!(sh.buffer, "whoami");
    assert_eq!(sh.pos, 6);
}

#[test]
fn tab_cycles_through_a_menu() {
    let mut sh = shell();
    type_text(&mut sh, "c");
    sh.handle_stdin("\t");
    assert_eq!(sh.buffer, "cat");
    assert_eq!(sh.completion_menu_lines, 3);
    sh.handle_stdin("\t");
    assert_eq!(sh.buffer, "cd");
    sh.handle_stdin("\t");
    assert_eq!(sh.buffer, "clear");
    sh.handle_stdin("\t");
    assert_eq!(sh.buffer, "cat");
    sh.handle_stdin("\x1B[Z");
    assert_eq!(sh.buffer, "clear");
}

#[test]
fn tab_completes_paths() {
    let mut sh = shell();
    type_text(&mut sh, "cat /tmp/ea");
    sh.handle_stdin("\t");
    assert_eq!(sh.buffer, "cat /tmp/easter_egg");
    let mut sh = shell();
    type_text(&mut sh, "cd /bo");
    sh.handle_stdin("\t");
    assert_eq!(sh.buffer, "cd /boot/");
    let mut sh = shell();
    type_text(&mut sh, "echo x > /tm");
    sh.handle_stdin("\t");
    assert_eq!(sh.buffer, "echo x > /tmp/");
}

#[test]
fn completion_candidates_for_a_line() {
    let mut sh = shell();
    let all: Vec<String> = ["cat", "cd", "clear", "echo", "fastfetch", "kill", "ls", "neofetch", "ps", "pwd", "rm", "whoami"]
        .iter()
        .map(|s| s.to_string())
        .collect();
    assert_eq!(sh.handle_complete("ls /e"), all);
    sh.pos = 5;
    assert_eq!(sh.handle_complete("ls /e"), vec!["/etc/".to_owned()]);
    sh.pos = 2;
    assert_eq!(sh.handle_complete("ne"), vec!["neofetch".to_owned()]);
    sh.pos = 2;
    assert_eq!(sh.handle_complete("fa"), vec!["fastfetch".to_owned()]);
}

#[test]
fn accepts_keys_at_character_boundaries() {
    let mut sh = shell();
    assert!(sh.accepts("a"));
    assert!(sh.accepts("\t"));
    type_text(&mut sh, "é");
    assert!(sh.accepts("\x1b[D"));
    sh.handle_stdin("\x1b[D");
    assert_eq!(sh.pos, 1);
    assert!(!sh.accepts("a"));
    assert!(!sh.accepts("\u{7f}"));
    assert!(!sh.accepts("\t"));
    assert!(sh.accepts("\x1b[A"));
    assert!(sh.accepts("\r"));
}
