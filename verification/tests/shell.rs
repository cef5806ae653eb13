use inpr_os::bins::{CommandContext, ProcessEntry};
use inpr_os::fs::Filesystem;
use inpr_os::shell::execution::{handle_cmd, handle_cmd_result};
use inpr_os::shell::lexer::{tokenize_shell, ShellOp, ShellToken};
use inpr_os::shell::parser::{completion_segment, parse_command_chains, ChainCondition};

fn context() -> CommandContext {
    CommandContext {
        pwd: "/home/inparsian".to_owned(),
        fs: Filesystem::init(),
        processes: vec![
            ProcessEntry { id: 1, name: "systemd".to_owned() },
            ProcessEntry { id: 2, name: "about".to_owned() },
        ],
        killed: Vec::new(),
    }
}

fn words(tokens: &[ShellToken]) -> Vec<String> {
    tokens
        .iter()
        .map(|t| match t {
            ShellToken::Word(w) => format!("w:{}", w),
            ShellToken::Op(op) => format!("o:{:?}", op),
        })
        .collect()
}

#[test]
fn tokenize_words_quotes_and_operators() {
    let t = tokenize_shell("echo 'a b' \"c\\\"d\" e\\ f|cat>>out 2>err&&x||y;z<in 2>>log >o").unwrap();
    assert_eq!(
        words(&t),
        vec![
            "w:echo", "w:a b", "w:c\"d", "w:e f", "o:Pipe", "w:cat", "o:RedirectAppend", "w:out", "o:RedirectErrOut",
            "w:err", "o:AndIf", "w:x", "o:OrIf", "w:y", "o:Sequence", "w:z", "o:RedirectIn", "w:in",
            "o:RedirectErrAppend", "w:log", "o:RedirectOut", "w:o",
        ]
    );
}

#[test]
fn tokenize_errors() {
    assert_eq!(tokenize_shell("a & b").err(), Some("syntax error near unexpected token '&'".to_owned()));
    assert_eq!(tokenize_shell("echo 'open").err(), Some("Invalid quotes or escape sequence".to_owned()));
    assert_eq!(tokenize_shell("echo \\").err(), Some("Invalid quotes or escape sequence".to_owned()));
    assert!(tokenize_shell("   ").unwrap().is_empty());
}

#[test]
fn parse_chains_and_pipelines() {
    let t = tokenize_shell("a x | b > f; c && d || e").unwrap();
    let chains = parse_command_chains(&t).unwrap();
    assert_eq!(chains.len(), 4);
    assert!(chains[0].0.is_none());
    assert_eq!(chains[0].1.commands.len(), 2);
    assert_eq!(chains[0].1.commands[0].argv, vec!["a".to_owned(), "x".to_owned()]);
    assert_eq!(chains[0].1.commands[1].stdout, Some(("f".to_owned(), false)));
    assert_eq!(chains[1].0, Some(ChainCondition::Always));
    assert_eq!(chains[2].0, Some(ChainCondition::AndIf));
    assert_eq!(chains[3].0, Some(ChainCondition::OrIf));
}

#[test]
fn parse_errors() {
    let check = |line: &str, msg: &str| {
        let t = tokenize_shell(line).unwrap();
        assert_eq!(parse_command_chains(&t).err(), Some(msg.to_owned()), "{}", line);
    };
    check("echo a;", "syntax error near unexpected token 'newline'");
    check("echo >", "syntax error near unexpected token '>'");
    check("cat <", "syntax error near unexpected token '<'");
    check("ls |", "syntax error near unexpected token");
    check("; ls", "syntax error near unexpected token");
    check("a 2>> ;", "syntax error near unexpected token '2>>'");
}

#[test]
fn echo_prints_its_arguments() {
    let mut ctx = context();
    assert_eq!(handle_cmd(&mut ctx, "echo hello   world"), "hello world\r\n");
    assert_eq!(handle_cmd(&mut ctx, "echo -n hi"), "hi");
    assert_eq!(handle_cmd(&mut ctx, "echo -e 'a\\tb\\nc'"), "a\tb\nc\r\n");
    assert_eq!(handle_cmd(&mut ctx, "echo 'a\\tb'"), "a\\tb\r\n");
    assert_eq!(handle_cmd(&mut ctx, "echo -ne 'x\\\\y'"), "x\\y");
    assert_eq!(handle_cmd(&mut ctx, "echo"), "\r\n");
}

#[test]
fn cd_and_pwd() {
    let mut ctx = context();
    assert_eq!(handle_cmd(&mut ctx, "pwd"), "/home/inparsian\r\n");
    assert_eq!(handle_cmd(&mut ctx, "cd ../../tmp"), "");
    assert_eq!(handle_cmd(&mut ctx, "pwd"), "/tmp\r\n");
    assert_eq!(handle_cmd(&mut ctx, "cd easter_egg"), "cd: easter_egg: Not a directory\r\n");
    assert_eq!(handle_cmd(&mut ctx, "cd nowhere"), "cd: nowhere: No such file or directory\r\n");
    assert_eq!(handle_cmd(&mut ctx, "cd"), "");
    assert_eq!(ctx.pwd, "/home/inparsian");
}

#[test]
fn ls_and_cat() {
    let mut ctx = context();
    assert_eq!(handle_cmd(&mut ctx, "ls /tmp"), "easter_egg\r\n");
    assert_eq!(handle_cmd(&mut ctx, "ls /tmp/easter_egg"), "easter_egg\r\n");
    assert_eq!(handle_cmd(&mut ctx, "ls /void"), "ls: cannot access '/void': No such file or directory\r\n");
    assert_eq!(handle_cmd(&mut ctx, "cat /tmp/easter_egg"), "nothing but a decoy. keep looking!\r\n");
    assert_eq!(handle_cmd(&mut ctx, "cat /void"), "cat: File does not exist: /void\r\n");
    assert_eq!(handle_cmd(&mut ctx, "cat"), "cat: not enough arguments\r\n");
}

#[test]
fn pipes_feed_the_next_command() {
    let mut ctx = context();
    assert_eq!(handle_cmd(&mut ctx, "echo piped | cat"), "piped\r\n");
    assert_eq!(handle_cmd(&mut ctx, "cat < /tmp/easter_egg"), "nothing but a decoy. keep looking!");
}

#[test]
fn redirected_output_can_be_read_back() {
    let mut ctx = context();
    assert_eq!(handle_cmd(&mut ctx, "echo first > /tmp/out"), "");
    assert_eq!(handle_cmd(&mut ctx, "cat /tmp/out"), "first\r\n");
    assert_eq!(handle_cmd(&mut ctx, "echo second >> /tmp/out"), "");
    assert_eq!(handle_cmd(&mut ctx, "cat /tmp/out"), "first\r\nsecond\r\n");
    assert_eq!(handle_cmd(&mut ctx, "echo third > /tmp/out"), "");
    assert_eq!(handle_cmd(&mut ctx, "cat /tmp/out"), "third\r\n");
    assert_eq!(handle_cmd(&mut ctx, "cat /void 2> /tmp/err"), "");
    assert_eq!(handle_cmd(&mut ctx, "cat /tmp/err"), "cat: File does not exist: /void\r\n");
    assert_eq!(handle_cmd(&mut ctx, "echo x > /tmp"), "Path is not a file: /tmp\r\n");
}

#[test]
fn chains_follow_the_last_status() {
    let mut ctx = context();
    assert_eq!(handle_cmd(&mut ctx, "foo"), "sheesh: Unknown command: foo\r\n");
    assert_eq!(handle_cmd_result(&mut ctx, "foo").status, 127);
    assert_eq!(handle_cmd(&mut ctx, "foo || echo ok"), "sheesh: Unknown command: foo\r\nok\r\n");
    assert_eq!(handle_cmd(&mut ctx, "foo && echo ok"), "sheesh: Unknown command: foo\r\n");
    assert_eq!(handle_cmd(&mut ctx, "echo a; echo b"), "a\r\nb\r\n");
    assert_eq!(handle_cmd(&mut ctx, "echo a && foo; echo c"), "a\r\nsheesh: Unknown command: foo\r\nc\r\n");
    assert_eq!(handle_cmd_result(&mut ctx, "echo a || foo").status, 0);
}

#[test]
fn syntax_errors_are_reported() {
    let mut ctx = context();
    assert_eq!(handle_cmd(&mut ctx, "echo 'x"), "sheesh: Invalid quotes or escape sequence\r\n");
    assert_eq!(handle_cmd(&mut ctx, "echo a |"), "sheesh: syntax error near unexpected token\r\n");
    assert_eq!(handle_cmd(&mut ctx, ""), "");
}

#[test]
fn commands_need_their_file() {
    let mut ctx = context();
    assert_eq!(handle_cmd(&mut ctx, "rm /bin/whoami"), "");
    assert_eq!(handle_cmd(&mut ctx, "whoami"), "inparsian\r\n");
    assert_eq!(handle_cmd(&mut ctx, "rm /usr/bin/whoami"), "");
    assert_eq!(handle_cmd(&mut ctx, "whoami"), "sheesh: Unknown command: whoami\r\n");
    assert_eq!(handle_cmd(&mut ctx, "mkdir x"), "sheesh: Unknown command: mkdir\r\n");
}

#[test]
fn processes_are_listed_and_killed() {
    let mut ctx = context();
    assert_eq!(handle_cmd(&mut ctx, "ps"), "PID   COMMAND   \r\n1     systemd   \r\n2     about     \r\n");
    assert_eq!(handle_cmd(&mut ctx, "kill 2"), "");
    assert_eq!(ctx.killed, vec![2]);
    assert_eq!(handle_cmd(&mut ctx, "ps"), "PID   COMMAND   \r\n1     systemd   \r\n");
    assert_eq!(handle_cmd(&mut ctx, "kill 2"), "kill: sending signal to 2 failed: No such process\r\n");
    assert_eq!(handle_cmd(&mut ctx, "kill two"), "kill: cannot find process \"two\"\r\n");
    assert_eq!(handle_cmd(&mut ctx, "kill"), "kill: not enough arguments\r\n");
    assert_eq!(handle_cmd(&mut ctx, "kill +1"), "");
    assert_eq!(ctx.killed, vec![2, 1]);
}

#[test]
fn rm_removes_and_reports() {
    let mut ctx = context();
    assert_eq!(handle_cmd(&mut ctx, "rm /tmp/easter_egg"), "");
    assert_eq!(handle_cmd(&mut ctx, "ls /tmp"), "");
    assert_eq!(handle_cmd(&mut ctx, "rm"), "rm: not enough arguments\r\n");
    assert_eq!(handle_cmd(&mut ctx, "rm /tmp/gone"), "rm: Path does not exist: /tmp/gone\r\n");
    let r = handle_cmd_result(&mut ctx, "rm /tmp/gone");
    assert_eq!((r.output.as_str(), r.error.as_str(), r.status), ("rm: Path does not exist: /tmp/gone\r\n", "", 0));
}

#[test]
fn other_commands() {
    let mut ctx = context();
    assert_eq!(handle_cmd(&mut ctx, "whoami"), "inparsian\r\n");
    assert_eq!(handle_cmd(&mut ctx, "clear"), "\x1b[2J\x1b[H\x1b[0m");
    let fetched = handle_cmd(&mut ctx, "fastfetch");
    assert_eq!(fetched, handle_cmd(&mut ctx, "neofetch"));
    assert_eq!(fetched.matches("\r\n").count(), 13);
    assert!(fetched.contains("I-USE-AWCH-UWU"));
}

#[test]
fn segment_after_the_last_separator() {
    assert_eq!(completion_segment("ls | ca"), " ca");
    assert_eq!(completion_segment("a && b || c"), " c");
    assert_eq!(completion_segment("echo 'x | y'"), "echo 'x | y'");
    assert_eq!(completion_segment("a; b"), " b");
    assert_eq!(completion_segment("x\\|y"), "x\\|y");
}

#[test]
fn operators_are_compared_by_value() {
    assert_eq!(ShellOp::Pipe, ShellOp::Pipe);
    assert_ne!(ShellOp::AndIf, ShellOp::OrIf);
}

#[test]
fn completion_segment_is_its_own_segment() {
    for line in ["ls | ca", "a && b || c", "echo 'x;y' ; cat \"a|b\" f", "plain", "x \\| y", ""] {
        let r = completion_segment(line);
        assert!(line.ends_with(&r));
        assert_eq!(completion_segment(&r), r);
    }
}
