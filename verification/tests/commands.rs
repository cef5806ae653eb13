use inpr_os::bins::cat::Cat;
use inpr_os::bins::echo::{echo_output, Echo};
use inpr_os::bins::kill::parse_u32_exec;
use inpr_os::bins::mkdir::{create_dir_all, Mkdir};
use inpr_os::bins::touch::Touch;
use inpr_os::bins::uname::{uname_run, Uname};
use inpr_os::bins::{bins, complete_path, find, Bin, Command, CommandContext, CommandResult};
use inpr_os::fs::Filesystem;
use inpr_os::order::sort_dedup;
use inpr_os::text::decimal_string;

fn context() -> CommandContext {
    CommandContext { pwd: "/home/inparsian".to_owned(), fs: Filesystem::init(), processes: Vec::new(), killed: Vec::new() }
}

fn args(list: &[&str]) -> Vec<String> {
    list.iter().map(|s| s.to_string()).collect()
}

#[test]
fn command_result_renders_output_then_error() {
    let ok = CommandResult::ok("out".to_owned());
    assert_eq!((ok.output.as_str(), ok.error.as_str(), ok.status), ("out", "", 0));
    let err = CommandResult::err("bad".to_owned());
    assert_eq!((err.output.as_str(), err.error.as_str(), err.status), ("", "bad", 1));
    let both = CommandResult { output: "a".to_owned(), error: "b".to_owned(), status: 3 };
    assert_eq!(both.render(), "ab");
}

#[test]
fn find_by_name_or_alias() {
    assert_eq!(find("echo"), Some(Bin::Echo));
    assert_eq!(find("fastfetch"), Some(Bin::Neofetch));
    assert_eq!(find("neofetch"), Some(Bin::Neofetch));
    assert_eq!(find("mkdir"), None);
    assert_eq!(find("cd"), None);
    assert_eq!(bins().len(), 10);
    assert_eq!(Bin::Neofetch.aliases(), &["fastfetch"]);
    assert_eq!(Bin::Ps.name(), "ps");
}

#[test]
fn echo_flags() {
    assert_eq!(echo_output(&args(&["-n", "-e", "a\\nb"])), "a\nb");
    assert_eq!(echo_output(&args(&["-en", "x"])), "x");
    assert_eq!(echo_output(&args(&["-x", "-n"])), "-x -n\r\n");
    assert_eq!(echo_output(&args(&["-e", "\\\\n"])), "\n\r\n");
    assert_eq!(echo_output(&args(&["-e", "\\0\\r"])), "\0\r\r\n");
    let mut ctx = context();
    let r = Echo.run(&mut ctx, &args(&["hi"]), None);
    assert_eq!(r.output, "hi\r\n");
}

#[test]
fn cat_reads_input_without_arguments() {
    let mut ctx = context();
    let r = Cat.run(&mut ctx, &[], Some("from a pipe"));
    assert_eq!((r.output.as_str(), r.status), ("from a pipe", 0));
    let r = Cat.run(&mut ctx, &args(&["/etc/hostname", "/missing", "/etc/group"]), None);
    assert_eq!(r.status, 1);
    assert_eq!(r.error, "I-USE-AWCH-UWUcat: File does not exist: /missing\r\nroot:x:0:root\r\n");
}

#[test]
fn kill_parses_ids_like_str_parse() {
    assert_eq!(parse_u32_exec("42"), Some(42));
    assert_eq!(parse_u32_exec("+7"), Some(7));
    assert_eq!(parse_u32_exec("4294967295"), Some(4294967295));
    assert_eq!(parse_u32_exec("4294967296"), None);
    assert_eq!(parse_u32_exec("-1"), None);
    assert_eq!(parse_u32_exec("+"), None);
    assert_eq!(parse_u32_exec(""), None);
    assert_eq!(parse_u32_exec("1x"), None);
    assert_eq!(parse_u32_exec("007"), Some(7));
}

#[test]
fn decimal_spelling() {
    assert_eq!(decimal_string(0), "0");
    assert_eq!(decimal_string(10), "10");
    assert_eq!(decimal_string(18446744073709551615), "18446744073709551615");
}

#[test]
fn mkdir_makes_directories() {
    let mut ctx = context();
    let r = Mkdir.run(&mut ctx, &args(&["a", "/tmp/b"]), None);
    assert_eq!((r.output.as_str(), r.error.as_str(), r.status), ("", "", 0));
    assert!(ctx.fs.resolve_read_dir("/home/inparsian/a", None).is_some());
    assert!(ctx.fs.resolve_read_dir("/tmp/b", None).is_some());
    let r = Mkdir.run(&mut ctx, &args(&["a"]), None);
    assert_eq!(r.output, "mkdir: Directory already exists\r\n");
    let r = Mkdir.run(&mut ctx, &args(&["x/y/z"]), None);
    assert_eq!(r.output, "mkdir: Parent directory does not exist\r\n");
    let r = Mkdir.run(&mut ctx, &args(&["-p", "x/y/z"]), None);
    assert_eq!(r.status, 0);
    assert!(ctx.fs.resolve_read_dir("/home/inparsian/x/y/z", None).is_some());
    let r = Mkdir.run(&mut ctx, &args(&["-q", "k"]), None);
    assert_eq!(r.output, "mkdir: invalid option -- 'q'\r\n");
    let r = Mkdir.run(&mut ctx, &args(&["-p"]), None);
    assert_eq!(r.output, "mkdir: not enough arguments\r\n");
    assert_eq!((r.error.as_str(), r.status), ("", 0));
    let r = Mkdir.run(&mut ctx, &args(&["--", "-p"]), None);
    assert_eq!(r.status, 0);
    assert!(ctx.fs.resolve_read_dir("/home/inparsian/-p", None).is_some());
}

#[test]
fn create_dir_all_walks_the_path() {
    let mut fs = Filesystem::init();
    assert_eq!(create_dir_all(&mut fs, "/tmp/./p/../q/r", None), Ok(()));
    assert!(fs.resolve_read_dir("/tmp/p", None).is_some());
    assert!(fs.resolve_read_dir("/tmp/q/r", None).is_some());
    assert_eq!(create_dir_all(&mut fs, "/tmp/q", None), Ok(()));
    assert_eq!(
        create_dir_all(&mut fs, "/etc/hostname/x", None),
        Err("Path is not a directory: /etc/hostname".to_owned())
    );
    assert_eq!(create_dir_all(&mut fs, "/etc/hostname", None), Err("Path is not a directory: /etc/hostname".to_owned()));
    assert_eq!(create_dir_all(&mut fs, "s", Some("/tmp/")), Ok(()));
    assert!(fs.resolve_read_dir("/tmp/s", None).is_some());
}

#[test]
fn touch_makes_missing_files() {
    let mut ctx = context();
    let r = Touch.run(&mut ctx, &args(&["new.txt", "help.txt"]), None);
    assert_eq!(r.status, 0);
    assert_eq!(ctx.fs.read_file("/home/inparsian/new.txt", None), Ok(&b""[..]));
    let r = Touch.run(&mut ctx, &args(&["/nope/x"]), None);
    assert_eq!(r.error, "touch: Parent directory does not exist\r\n");
    let r = Touch.run(&mut ctx, &[], None);
    assert_eq!(r.error, "touch: not enough arguments\r\n");
}

#[test]
fn uname_options() {
    let run = |a: &[&str]| uname_run(&args(a));
    assert_eq!(run(&[]).output, "Linux\r\n");
    assert_eq!(run(&["-s"]).output, "Linux\r\n");
    assert_eq!(run(&["-nrm"]).output, "I-USE-AWCH-UWU 7.1.5-arch1-2 x86_64\r\n");
    assert_eq!(
        run(&["-a"]).output,
        "Linux I-USE-AWCH-UWU 7.1.5-arch1-2 #1 SMP PREEMPT_DYNAMIC Tue, 28 Jul 2026 13:49:51 +0000 x86_64 x86_64 GNU/Linux\r\n"
    );
    assert_eq!(run(&["-p", "-i"]).output, "unknown x86_64\r\n");
    assert_eq!(run(&["--mach"]).output, "x86_64\r\n");
    assert_eq!(run(&["--operating-system"]).output, "GNU/Linux\r\n");
    assert_eq!(
        run(&["--ker"]).output,
        "uname: option '--ker' is ambiguous; possibilities: '--kernel-name' '--kernel-release' '--kernel-version'\r\nTry 'uname --help' for more information.\r\n"
    );
    assert_eq!(run(&["--x"]).output, "uname: unrecognized option '--x'\r\nTry 'uname --help' for more information.\r\n");
    assert_eq!(run(&["-z"]).output, "uname: invalid option -- 'z'\r\nTry 'uname --help' for more information.\r\n");
    assert_eq!(run(&["-"]).output, "uname: unrecognized option '-'\r\nTry 'uname --help' for more information.\r\n");
    assert_eq!((run(&["x"]).error.as_str(), run(&["x"]).status), ("", 0));
    assert_eq!(run(&["x"]).output, "uname: extra operand 'x'\r\nTry 'uname --help' for more information.\r\n");
    assert_eq!(run(&["--", "-a"]).output, "uname: extra operand '-a'\r\nTry 'uname --help' for more information.\r\n");
    assert_eq!(run(&["--"]).output, "Linux\r\n");
    assert!(run(&["--help"]).output.starts_with("Usage: uname [OPTION]..."));
    assert!(run(&["--version"]).output.starts_with("uname (GNU coreutils) 9.11"));
    assert_eq!(run(&["--help"]).status, 0);
}

#[test]
fn uname_completion() {
    let mut ctx = context();
    assert_eq!(Uname.complete(&mut ctx, &args(&["--ke"]), 0), args(&["--kernel-name", "--kernel-release", "--kernel-version"]));
    assert_eq!(Uname.complete(&mut ctx, &args(&["-"]), 0).len(), 9);
    assert_eq!(Uname.complete(&mut ctx, &[], 0).len(), 20);
    assert!(Uname.complete(&mut ctx, &args(&["--", "-"]), 0).is_empty());
    assert!(Uname.complete(&mut ctx, &args(&["x"]), 0).is_empty());
    assert_eq!(Uname.complete(&mut ctx, &args(&["-a"]), 0), args(&["-a"]));
}

#[test]
fn mkdir_completes_directories_after_options() {
    let mut ctx = context();
    assert_eq!(Mkdir.complete(&mut ctx, &args(&["-p", "/b"]), 0), args(&["/bin/", "/boot/"]));
    let all_dirs = Mkdir.complete(&mut ctx, &args(&["-p"]), 0);
    assert!(all_dirs.is_empty());
}

#[test]
fn path_completion() {
    let ctx = context();
    assert_eq!(complete_path(&ctx, &args(&["/e"]), 0, false), args(&["/etc/"]));
    assert_eq!(complete_path(&ctx, &args(&["/etc/ho"]), 0, false), args(&["/etc/hostname", "/etc/hosts"]));
    assert_eq!(complete_path(&ctx, &args(&["/etc/ho"]), 0, true), Vec::<String>::new());
    assert_eq!(complete_path(&ctx, &args(&["h"]), 0, false), args(&["help.txt"]));
    assert_eq!(complete_path(&ctx, &args(&["x"]), 3, false).len(), 3);
}

#[test]
fn sorting_removes_repeats() {
    assert_eq!(sort_dedup(args(&["b", "a", "b", "ab", ""])), args(&["", "a", "ab", "b"]));
    assert_eq!(sort_dedup(args(&["é", "z"])), args(&["z", "é"]));
}

#[test]
fn find_gives_the_first_command_answering() {
    assert_eq!(find("ls"), Some(Bin::Ls));
    assert_eq!(find(""), None);
    for name in ["echo", "clear", "pwd", "whoami", "neofetch", "fastfetch", "ls", "cat", "rm", "kill", "ps"] {
        let b = find(name).unwrap();
        assert!(b.name() == name || b.aliases().contains(&name));
    }
}

#[test]
fn create_dir_all_leaves_the_path_a_directory() {
    let mut fs = Filesystem::init();
    assert_eq!(create_dir_all(&mut fs, "/tmp/a/b/c", None), Ok(()));
    assert!(fs.resolve_read_dir("/tmp/a/b/c", None).unwrap().is_empty());
    assert_eq!(create_dir_all(&mut fs, "x/./y/", Some("/home/inparsian/")), Ok(()));
    assert!(fs.resolve_read_dir("/home/inparsian/x/y", None).is_some());
    // a directory made directly under the root is not kept
    assert_eq!(create_dir_all(&mut fs, "/newtop", None), Ok(()));
    assert!(fs.resolve_read("/newtop", None).is_none());
}

#[test]
fn create_dir_all_goes_back_up_and_keeps_the_rest() {
    let mut fs = Filesystem::init();
    let hosts = fs.resolve_read("/etc/hosts", None);
    assert_eq!(create_dir_all(&mut fs, "/tmp/a/b/../c/..", None), Ok(()));
    assert!(fs.resolve_read_dir("/tmp/a/b", None).unwrap().is_empty());
    assert!(fs.resolve_read_dir("/tmp/a/c", None).unwrap().is_empty());
    assert_eq!(fs.resolve_read("/etc/hosts", None), hosts);
    assert_eq!(create_dir_all(&mut fs, "../../tmp/d", Some("/home/inparsian")), Ok(()));
    assert!(fs.resolve_read_dir("/tmp/d", None).is_some());
    // a walk through a name missing at the root fails
    assert_eq!(create_dir_all(&mut fs, "/nope/a", None), Err("Parent directory does not exist".to_owned()));
}
