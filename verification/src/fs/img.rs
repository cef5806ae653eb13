//! The filesystem that a fresh system starts with.
use vstd::prelude::*;
use vstd::utf8::encode_utf8;
use super::{models_of, DataModel, EntryModel, FilesystemEntry};

verus! {

broadcast use super::lemma_models_of;

/// A file model whose content is the UTF-8 encoding of `content`.
pub open spec fn file_model(name: Seq<char>, content: Seq<char>) -> EntryModel {
    EntryModel { name, data: DataModel::File(encode_utf8(content)) }
}

/// A directory model.
pub open spec fn dir_model(name: Seq<char>, children: Seq<EntryModel>) -> EntryModel {
    EntryModel { name, data: DataModel::Directory(children) }
}

/// The files of `/bin` (and `/usr/bin`): one per command, holding its description.
pub open spec fn bin_model() -> Seq<EntryModel> {
    seq![
        file_model("sheesh"@, "this used to be a fish, but the fish has been defished and is thus no longer a fish."@),
        file_model("echo"@, "Echo the input"@),
        file_model("clear"@, "Clear the terminal"@),
        file_model("pwd"@, "Print name of current/working directory"@),
        file_model("whoami"@, "Print the current user"@),
        file_model("neofetch"@, "A fast, highly customizable system info script"@),
        file_model("cd"@, "Change the shell working directory"@),
        file_model("ls"@, "List directory contents"@),
        file_model("cat"@, "Concatenate files and print on the standard output"@),
        file_model("rm"@, "Remove files or directories"@),
        file_model("kill"@, "Terminate a process"@),
        file_model("ps"@, "List processes"@),
    ]
}

/// The whole initial tree.
pub open spec fn image_model() -> Seq<EntryModel> {
    seq![
        dir_model("bin"@, bin_model()),
        dir_model("sbin"@, Seq::empty()),
        dir_model("tmp"@, seq![
            file_model("easter_egg"@, "nothing but a decoy. keep looking!"@),
        ]),
        dir_model("boot"@, seq![
            file_model("vmlinuz-linux"@, "Linux kernel image 6.9.7-arch1-1"@),
            file_model("initramfs-linux.img"@, "Primary initramfs image"@),
            dir_model("grub"@, seq![
                file_model("grub.cfg"@, "set default=0\r\nset timeout=5\r\n\r\nmenuentry \"Arch Linux\" {\r\n    linux /vmlinuz-linux root=UUID=BtWwb66M-7YKy-S6j7-PSPk-sEovrVwHJpnbr rw quiet\r\n    initrd /initramfs-linux.img\r\n}\r\n\r\nmenuentry \"Arch Linux (fallback initramfs)\" {\r\n    linux /vmlinuz-linux root=UUID=BtWwb66M-7YKy-S6j7-PSPk-sEovrVwHJpnbr rw\r\n    initrd /initramfs-linux-fallback.img\r\n}"@),
            ]),
        ]),
        dir_model("dev"@, seq![
            file_model("sda"@, "3zczuCZujViZaMj6zajVCNsEHQl65Z6fELA94CMEt3Syvnx21DRG6QFKUDNh6jgwwEHo2ovps3RtlunKRzSwMvjDHGywswrWjfQ89dyAT5wQgc5cFx8HNiUEYd56vaflscE5OqjGXFH6QeLggA4dbgyyEL4M1SIeA7shkpv2j34tgGcWOODS5cFOKjIoL2uZsncEgrX1haTT2O1CzaD2G9W2hHbBduCURKHMKx6n5pl7yKdkntoEL"@),
            file_model("sda1"@, "3lolgOLgvHuLmYv6lmvHOZeQTCx65L6rQXM94OYQf3Ekhzj21PDS6CRWGPZt6vsiiQTa2ahbe3DfxgzWDlEiYhvPTSkieidIvrC89pkMF5iCso5oRj8TZuGQKp56hmrxeoQ5AcvSJRT6CqXssM4pnskkQX4Y1EUqM7etwbh2v34fsSoIAAPE5oRAWvUaX2gLezoQsdJ1tmFF2A1OlmP2S9I2tTnNpgOGDWTYWj6z5bx7kWpwzfaQX"@),
            file_model("null"@, ""@),
            file_model("zero"@, ""@),
        ]),
        dir_model("proc"@, Seq::empty()),
        dir_model("sys"@, Seq::empty()),
        dir_model("etc"@, seq![
            file_model("locale.conf"@, "LANG=en_US.UTF-8"@),
            file_model("lsb-release"@, "DISTRIB_ID=\"Arch\"\r\n                        DISTRIB_RELEASE=\"rolling\"\r\n                        DISTRIB_DESCRIPTION=\"Arch Linux\""@),
            file_model("passwd"@, "root:x:0:0:root:/root:/bin/sheesh\r\n                    inparsian:x:1000:1000:inparsian:/home/inparsian:/bin/sheesh"@),
            file_model("motd"@, "sheesh, version 4.2.0\r\n                    Type <span class=\"fg-aqua-light\">help</span> for a list of commands"@),
            file_model("issue"@, "issue? we all have issues. but you know what? i just want you to know that you are doing great! :)"@),
            file_model("hostname"@, "I-USE-AWCH-UWU"@),
            file_model("hosts"@, "# Static table lookup for hostnames.\r\n                        # See hosts(5) for details.\r\n                        &nbsp;\r\n                        127.0.0.1&nbsp;&nbsp;&nbsp;&nbsp;&nbsp;&nbsp;&nbsp;&nbsp;&nbsp;&nbsp;&nbsp;&nbsp;&nbsp;&nbsp;&nbsp;&nbsp;localhost"@),
            file_model("fstab"@, "# Static information about the filesystems.\r\n                        # See fstab(5) for details.\r\n                        &nbsp;\r\n                        # <file system> <dir> <type> <options> <dump> <pass>\r\n                        # /dev/sda1\r\n                        UUID=BtWwb66M-7YKy-S6j7-PSPk-sEovrVwHJpnbr / ext4 rw,relatime 0 1"@),
            file_model("group"@, "root:x:0:root"@),
            file_model("gshadow"@, "root:::root"@),
            file_model("shadow"@, "I AM ATOMIC"@),
            file_model("sudoers"@, "## sudoers file.\r\n                        ##\r\n                        ## This file MUST be edited with the 'visudo' command as root.\r\n                        ## Failing to use 'visudo' may result in syntax or file permission errors\r\n                        ## that prevent sudo from running.\r\n                        ##\r\n                        ## See the sudoers man page for the details on how to write a sudoers file.\r\n                        ##\r\n                        &nbsp;\r\n                        root ALL=(ALL) ALL\r\n                        inparsian ALL=(ALL) NOPASSWD: ALL"@),
        ]),
        dir_model("home"@, seq![
            dir_model("inparsian"@, seq![
                file_model("peptobisdog.txt"@, "what the fuck why would you cover a hotdog in pepto bis- EUUUUGH"@),
                file_model("help.txt"@, "This is just a simulated shell, so not everything works. However, it's more complete than you think. Here are some commands you can try:\r\n\x1b[31mhelp\x1b[0m - show this message\r\n\x1b[31mclear\x1b[0m - clear the terminal\r\n\x1b[31mecho\x1b[0m - echo the input\r\n\x1b[31mexit\x1b[0m - close the terminal"@),
                file_model(".sheesh_history"@, ""@),
            ]),
        ]),
        dir_model("lib"@, Seq::empty()),
        dir_model("usr"@, seq![
            dir_model("bin"@, bin_model()),
        ]),
        dir_model("var"@, Seq::empty()),
    ]
}

/// The files of `/bin`.
pub fn bin() -> (res: Vec<FilesystemEntry>)
    ensures
        models_of(res@) == bin_model(),
{
    let res = vec![
        FilesystemEntry::new_file("sheesh", "this used to be a fish, but the fish has been defished and is thus no longer a fish."),
        FilesystemEntry::new_file("echo", "Echo the input"),
        FilesystemEntry::new_file("clear", "Clear the terminal"),
        FilesystemEntry::new_file("pwd", "Print name of current/working directory"),
        FilesystemEntry::new_file("whoami", "Print the current user"),
        FilesystemEntry::new_file("neofetch", "A fast, highly customizable system info script"),
        FilesystemEntry::new_file("cd", "Change the shell working directory"),
        FilesystemEntry::new_file("ls", "List directory contents"),
        FilesystemEntry::new_file("cat", "Concatenate files and print on the standard output"),
        FilesystemEntry::new_file("rm", "Remove files or directories"),
        FilesystemEntry::new_file("kill", "Terminate a process"),
        FilesystemEntry::new_file("ps", "List processes"),
    ];
    assert(models_of(res@) =~= bin_model());
    res
}

/// The initial filesystem tree.
pub fn image() -> (res: Vec<FilesystemEntry>)
    ensures
        models_of(res@) == image_model(),
{
    let res: Vec<FilesystemEntry> = vec![
        FilesystemEntry::new_dir("bin", bin()),
        FilesystemEntry::new_dir("sbin", vec![]),
        initial_tmp(),
        initial_boot(),
        initial_dev(),
        FilesystemEntry::new_dir("proc", vec![]),
        FilesystemEntry::new_dir("sys", vec![]),
        initial_etc(),
        initial_home(),
        FilesystemEntry::new_dir("lib", vec![]),
        initial_usr(),
        FilesystemEntry::new_dir("var", vec![]),
    ];
    assert(models_of(res@) =~= image_model());
    res
}

/// The `tmp` directory of the initial tree.
fn initial_tmp() -> (res: FilesystemEntry)
    ensures
        res.model() == dir_model("tmp"@, seq![file_model("easter_egg"@, "nothing but a decoy. keep looking!"@)]),
{
    let children: Vec<FilesystemEntry> = vec![
        FilesystemEntry::new_file("easter_egg", "nothing but a decoy. keep looking!"),
    ];
    assert(models_of(children@) =~= seq![file_model("easter_egg"@, "nothing but a decoy. keep looking!"@)]);
    FilesystemEntry::new_dir("tmp", children)
}

/// The `grub` directory of the initial tree.
fn initial_boot_grub() -> (res: FilesystemEntry)
    ensures
        res.model() == dir_model("grub"@, seq![file_model("grub.cfg"@, "set default=0\r\nset timeout=5\r\n\r\nmenuentry \"Arch Linux\" {\r\n    linux /vmlinuz-linux root=UUID=BtWwb66M-7YKy-S6j7-PSPk-sEovrVwHJpnbr rw quiet\r\n    initrd /initramfs-linux.img\r\n}\r\n\r\nmenuentry \"Arch Linux (fallback initramfs)\" {\r\n    linux /vmlinuz-linux root=UUID=BtWwb66M-7YKy-S6j7-PSPk-sEovrVwHJpnbr rw\r\n    initrd /initramfs-linux-fallback.img\r\n}"@)]),
{
    let children: Vec<FilesystemEntry> = vec![
        FilesystemEntry::new_file("grub.cfg", "set default=0\r\nset timeout=5\r\n\r\nmenuentry \"Arch Linux\" {\r\n    linux /vmlinuz-linux root=UUID=BtWwb66M-7YKy-S6j7-PSPk-sEovrVwHJpnbr rw quiet\r\n    initrd /initramfs-linux.img\r\n}\r\n\r\nmenuentry \"Arch Linux (fallback initramfs)\" {\r\n    linux /vmlinuz-linux root=UUID=BtWwb66M-7YKy-S6j7-PSPk-sEovrVwHJpnbr rw\r\n    initrd /initramfs-linux-fallback.img\r\n}"),
    ];
    assert(models_of(children@) =~= seq![file_model("grub.cfg"@, "set default=0\r\nset timeout=5\r\n\r\nmenuentry \"Arch Linux\" {\r\n    linux /vmlinuz-linux root=UUID=BtWwb66M-7YKy-S6j7-PSPk-sEovrVwHJpnbr rw quiet\r\n    initrd /initramfs-linux.img\r\n}\r\n\r\nmenuentry \"Arch Linux (fallback initramfs)\" {\r\n    linux /vmlinuz-linux root=UUID=BtWwb66M-7YKy-S6j7-PSPk-sEovrVwHJpnbr rw\r\n    initrd /initramfs-linux-fallback.img\r\n}"@)]);
    FilesystemEntry::new_dir("grub", children)
}

/// The `boot` directory of the initial tree.
fn initial_boot() -> (res: FilesystemEntry)
    ensures
        res.model() == dir_model("boot"@, seq![file_model("vmlinuz-linux"@, "Linux kernel image 6.9.7-arch1-1"@), file_model("initramfs-linux.img"@, "Primary initramfs image"@), dir_model("grub"@, seq![file_model("grub.cfg"@, "set default=0\r\nset timeout=5\r\n\r\nmenuentry \"Arch Linux\" {\r\n    linux /vmlinuz-linux root=UUID=BtWwb66M-7YKy-S6j7-PSPk-sEovrVwHJpnbr rw quiet\r\n    initrd /initramfs-linux.img\r\n}\r\n\r\nmenuentry \"Arch Linux (fallback initramfs)\" {\r\n    linux /vmlinuz-linux root=UUID=BtWwb66M-7YKy-S6j7-PSPk-sEovrVwHJpnbr rw\r\n    initrd /initramfs-linux-fallback.img\r\n}"@)])]),
{
    let children: Vec<FilesystemEntry> = vec![
        FilesystemEntry::new_file("vmlinuz-linux", "Linux kernel image 6.9.7-arch1-1"),
        FilesystemEntry::new_file("initramfs-linux.img", "Primary initramfs image"),
        initial_boot_grub(),
    ];
    assert(models_of(children@) =~= seq![file_model("vmlinuz-linux"@, "Linux kernel image 6.9.7-arch1-1"@), file_model("initramfs-linux.img"@, "Primary initramfs image"@), dir_model("grub"@, seq![file_model("grub.cfg"@, "set default=0\r\nset timeout=5\r\n\r\nmenuentry \"Arch Linux\" {\r\n    linux /vmlinuz-linux root=UUID=BtWwb66M-7YKy-S6j7-PSPk-sEovrVwHJpnbr rw quiet\r\n    initrd /initramfs-linux.img\r\n}\r\n\r\nmenuentry \"Arch Linux (fallback initramfs)\" {\r\n    linux /vmlinuz-linux root=UUID=BtWwb66M-7YKy-S6j7-PSPk-sEovrVwHJpnbr rw\r\n    initrd /initramfs-linux-fallback.img\r\n}"@)])]);
    FilesystemEntry::new_dir("boot", children)
}

/// The `dev` directory of the initial tree.
fn initial_dev() -> (res: FilesystemEntry)
    ensures
        res.model() == dir_model("dev"@, seq![file_model("sda"@, "3zczuCZujViZaMj6zajVCNsEHQl65Z6fELA94CMEt3Syvnx21DRG6QFKUDNh6jgwwEHo2ovps3RtlunKRzSwMvjDHGywswrWjfQ89dyAT5wQgc5cFx8HNiUEYd56vaflscE5OqjGXFH6QeLggA4dbgyyEL4M1SIeA7shkpv2j34tgGcWOODS5cFOKjIoL2uZsncEgrX1haTT2O1CzaD2G9W2hHbBduCURKHMKx6n5pl7yKdkntoEL"@), file_model("sda1"@, "3lolgOLgvHuLmYv6lmvHOZeQTCx65L6rQXM94OYQf3Ekhzj21PDS6CRWGPZt6vsiiQTa2ahbe3DfxgzWDlEiYhvPTSkieidIvrC89pkMF5iCso5oRj8TZuGQKp56hmrxeoQ5AcvSJRT6CqXssM4pnskkQX4Y1EUqM7etwbh2v34fsSoIAAPE5oRAWvUaX2gLezoQsdJ1tmFF2A1OlmP2S9I2tTnNpgOGDWTYWj6z5bx7kWpwzfaQX"@), file_model("null"@, ""@), file_model("zero"@, ""@)]),
{
    let children: Vec<FilesystemEntry> = vec![
        FilesystemEntry::new_file("sda", "3zczuCZujViZaMj6zajVCNsEHQl65Z6fELA94CMEt3Syvnx21DRG6QFKUDNh6jgwwEHo2ovps3RtlunKRzSwMvjDHGywswrWjfQ89dyAT5wQgc5cFx8HNiUEYd56vaflscE5OqjGXFH6QeLggA4dbgyyEL4M1SIeA7shkpv2j34tgGcWOODS5cFOKjIoL2uZsncEgrX1haTT2O1CzaD2G9W2hHbBduCURKHMKx6n5pl7yKdkntoEL"),
        FilesystemEntry::new_file("sda1", "3lolgOLgvHuLmYv6lmvHOZeQTCx65L6rQXM94OYQf3Ekhzj21PDS6CRWGPZt6vsiiQTa2ahbe3DfxgzWDlEiYhvPTSkieidIvrC89pkMF5iCso5oRj8TZuGQKp56hmrxeoQ5AcvSJRT6CqXssM4pnskkQX4Y1EUqM7etwbh2v34fsSoIAAPE5oRAWvUaX2gLezoQsdJ1tmFF2A1OlmP2S9I2tTnNpgOGDWTYWj6z5bx7kWpwzfaQX"),
        FilesystemEntry::new_file("null", ""),
        FilesystemEntry::new_file("zero", ""),
    ];
    assert(models_of(children@) =~= seq![file_model("sda"@, "3zczuCZujViZaMj6zajVCNsEHQl65Z6fELA94CMEt3Syvnx21DRG6QFKUDNh6jgwwEHo2ovps3RtlunKRzSwMvjDHGywswrWjfQ89dyAT5wQgc5cFx8HNiUEYd56vaflscE5OqjGXFH6QeLggA4dbgyyEL4M1SIeA7shkpv2j34tgGcWOODS5cFOKjIoL2uZsncEgrX1haTT2O1CzaD2G9W2hHbBduCURKHMKx6n5pl7yKdkntoEL"@), file_model("sda1"@, "3lolgOLgvHuLmYv6lmvHOZeQTCx65L6rQXM94OYQf3Ekhzj21PDS6CRWGPZt6vsiiQTa2ahbe3DfxgzWDlEiYhvPTSkieidIvrC89pkMF5iCso5oRj8TZuGQKp56hmrxeoQ5AcvSJRT6CqXssM4pnskkQX4Y1EUqM7etwbh2v34fsSoIAAPE5oRAWvUaX2gLezoQsdJ1tmFF2A1OlmP2S9I2tTnNpgOGDWTYWj6z5bx7kWpwzfaQX"@), file_model("null"@, ""@), file_model("zero"@, ""@)]);
    FilesystemEntry::new_dir("dev", children)
}

/// The `etc` directory of the initial tree.
fn initial_etc() -> (res: FilesystemEntry)
    ensures
        res.model() == dir_model("etc"@, seq![file_model("locale.conf"@, "LANG=en_US.UTF-8"@), file_model("lsb-release"@, "DISTRIB_ID=\"Arch\"\r\n                        DISTRIB_RELEASE=\"rolling\"\r\n                        DISTRIB_DESCRIPTION=\"Arch Linux\""@), file_model("passwd"@, "root:x:0:0:root:/root:/bin/sheesh\r\n                    inparsian:x:1000:1000:inparsian:/home/inparsian:/bin/sheesh"@), file_model("motd"@, "sheesh, version 4.2.0\r\n                    Type <span class=\"fg-aqua-light\">help</span> for a list of commands"@), file_model("issue"@, "issue? we all have issues. but you know what? i just want you to know that you are doing great! :)"@), file_model("hostname"@, "I-USE-AWCH-UWU"@), file_model("hosts"@, "# Static table lookup for hostnames.\r\n                        # See hosts(5) for details.\r\n                        &nbsp;\r\n                        127.0.0.1&nbsp;&nbsp;&nbsp;&nbsp;&nbsp;&nbsp;&nbsp;&nbsp;&nbsp;&nbsp;&nbsp;&nbsp;&nbsp;&nbsp;&nbsp;&nbsp;localhost"@), file_model("fstab"@, "# Static information about the filesystems.\r\n                        # See fstab(5) for details.\r\n                        &nbsp;\r\n                        # <file system> <dir> <type> <options> <dump> <pass>\r\n                        # /dev/sda1\r\n                        UUID=BtWwb66M-7YKy-S6j7-PSPk-sEovrVwHJpnbr / ext4 rw,relatime 0 1"@), file_model("group"@, "root:x:0:root"@), file_model("gshadow"@, "root:::root"@), file_model("shadow"@, "I AM ATOMIC"@), file_model("sudoers"@, "## sudoers file.\r\n                        ##\r\n                        ## This file MUST be edited with the 'visudo' command as root.\r\n                        ## Failing to use 'visudo' may result in syntax or file permission errors\r\n                        ## that prevent sudo from running.\r\n                        ##\r\n                        ## See the sudoers man page for the details on how to write a sudoers file.\r\n                        ##\r\n                        &nbsp;\r\n                        root ALL=(ALL) ALL\r\n                        inparsian ALL=(ALL) NOPASSWD: ALL"@)]),
{
    let children: Vec<FilesystemEntry> = vec![
        FilesystemEntry::new_file("locale.conf", "LANG=en_US.UTF-8"),
        FilesystemEntry::new_file("lsb-release", "DISTRIB_ID=\"Arch\"\r\n                        DISTRIB_RELEASE=\"rolling\"\r\n                        DISTRIB_DESCRIPTION=\"Arch Linux\""),
        FilesystemEntry::new_file("passwd", "root:x:0:0:root:/root:/bin/sheesh\r\n                    inparsian:x:1000:1000:inparsian:/home/inparsian:/bin/sheesh"),
        FilesystemEntry::new_file("motd", "sheesh, version 4.2.0\r\n                    Type <span class=\"fg-aqua-light\">help</span> for a list of commands"),
        FilesystemEntry::new_file("issue", "issue? we all have issues. but you know what? i just want you to know that you are doing great! :)"),
        FilesystemEntry::new_file("hostname", "I-USE-AWCH-UWU"),
        FilesystemEntry::new_file("hosts", "# Static table lookup for hostnames.\r\n                        # See hosts(5) for details.\r\n                        &nbsp;\r\n                        127.0.0.1&nbsp;&nbsp;&nbsp;&nbsp;&nbsp;&nbsp;&nbsp;&nbsp;&nbsp;&nbsp;&nbsp;&nbsp;&nbsp;&nbsp;&nbsp;&nbsp;localhost"),
        FilesystemEntry::new_file("fstab", "# Static information about the filesystems.\r\n                        # See fstab(5) for details.\r\n                        &nbsp;\r\n                        # <file system> <dir> <type> <options> <dump> <pass>\r\n                        # /dev/sda1\r\n                        UUID=BtWwb66M-7YKy-S6j7-PSPk-sEovrVwHJpnbr / ext4 rw,relatime 0 1"),
        FilesystemEntry::new_file("group", "root:x:0:root"),
        FilesystemEntry::new_file("gshadow", "root:::root"),
        FilesystemEntry::new_file("shadow", "I AM ATOMIC"),
        FilesystemEntry::new_file("sudoers", "## sudoers file.\r\n                        ##\r\n                        ## This file MUST be edited with the 'visudo' command as root.\r\n                        ## Failing to use 'visudo' may result in syntax or file permission errors\r\n                        ## that prevent sudo from running.\r\n                        ##\r\n                        ## See the sudoers man page for the details on how to write a sudoers file.\r\n                        ##\r\n                        &nbsp;\r\n                        root ALL=(ALL) ALL\r\n                        inparsian ALL=(ALL) NOPASSWD: ALL"),
    ];
    assert(models_of(children@) =~= seq![file_model("locale.conf"@, "LANG=en_US.UTF-8"@), file_model("lsb-release"@, "DISTRIB_ID=\"Arch\"\r\n                        DISTRIB_RELEASE=\"rolling\"\r\n                        DISTRIB_DESCRIPTION=\"Arch Linux\""@), file_model("passwd"@, "root:x:0:0:root:/root:/bin/sheesh\r\n                    inparsian:x:1000:1000:inparsian:/home/inparsian:/bin/sheesh"@), file_model("motd"@, "sheesh, version 4.2.0\r\n                    Type <span class=\"fg-aqua-light\">help</span> for a list of commands"@), file_model("issue"@, "issue? we all have issues. but you know what? i just want you to know that you are doing great! :)"@), file_model("hostname"@, "I-USE-AWCH-UWU"@), file_model("hosts"@, "# Static table lookup for hostnames.\r\n                        # See hosts(5) for details.\r\n                        &nbsp;\r\n                        127.0.0.1&nbsp;&nbsp;&nbsp;&nbsp;&nbsp;&nbsp;&nbsp;&nbsp;&nbsp;&nbsp;&nbsp;&nbsp;&nbsp;&nbsp;&nbsp;&nbsp;localhost"@), file_model("fstab"@, "# Static information about the filesystems.\r\n                        # See fstab(5) for details.\r\n                        &nbsp;\r\n                        # <file system> <dir> <type> <options> <dump> <pass>\r\n                        # /dev/sda1\r\n                        UUID=BtWwb66M-7YKy-S6j7-PSPk-sEovrVwHJpnbr / ext4 rw,relatime 0 1"@), file_model("group"@, "root:x:0:root"@), file_model("gshadow"@, "root:::root"@), file_model("shadow"@, "I AM ATOMIC"@), file_model("sudoers"@, "## sudoers file.\r\n                        ##\r\n                        ## This file MUST be edited with the 'visudo' command as root.\r\n                        ## Failing to use 'visudo' may result in syntax or file permission errors\r\n                        ## that prevent sudo from running.\r\n                        ##\r\n                        ## See the sudoers man page for the details on how to write a sudoers file.\r\n                        ##\r\n                        &nbsp;\r\n                        root ALL=(ALL) ALL\r\n                        inparsian ALL=(ALL) NOPASSWD: ALL"@)]);
    FilesystemEntry::new_dir("etc", children)
}

/// The `inparsian` directory of the initial tree.
fn initial_home_inparsian() -> (res: FilesystemEntry)
    ensures
        res.model() == dir_model("inparsian"@, seq![file_model("peptobisdog.txt"@, "what the fuck why would you cover a hotdog in pepto bis- EUUUUGH"@), file_model("help.txt"@, "This is just a simulated shell, so not everything works. However, it's more complete than you think. Here are some commands you can try:\r\n\x1b[31mhelp\x1b[0m - show this message\r\n\x1b[31mclear\x1b[0m - clear the terminal\r\n\x1b[31mecho\x1b[0m - echo the input\r\n\x1b[31mexit\x1b[0m - close the terminal"@), file_model(".sheesh_history"@, ""@)]),
{
    let children: Vec<FilesystemEntry> = vec![
        FilesystemEntry::new_file("peptobisdog.txt", "what the fuck why would you cover a hotdog in pepto bis- EUUUUGH"),
        FilesystemEntry::new_file("help.txt", "This is just a simulated shell, so not everything works. However, it's more complete than you think. Here are some commands you can try:\r\n\x1b[31mhelp\x1b[0m - show this message\r\n\x1b[31mclear\x1b[0m - clear the terminal\r\n\x1b[31mecho\x1b[0m - echo the input\r\n\x1b[31mexit\x1b[0m - close the terminal"),
        FilesystemEntry::new_file(".sheesh_history", ""),
    ];
    assert(models_of(children@) =~= seq![file_model("peptobisdog.txt"@, "what the fuck why would you cover a hotdog in pepto bis- EUUUUGH"@), file_model("help.txt"@, "This is just a simulated shell, so not everything works. However, it's more complete than you think. Here are some commands you can try:\r\n\x1b[31mhelp\x1b[0m - show this message\r\n\x1b[31mclear\x1b[0m - clear the terminal\r\n\x1b[31mecho\x1b[0m - echo the input\r\n\x1b[31mexit\x1b[0m - close the terminal"@), file_model(".sheesh_history"@, ""@)]);
    FilesystemEntry::new_dir("inparsian", children)
}

/// The `home` directory of the initial tree.
fn initial_home() -> (res: FilesystemEntry)
    ensures
        res.model() == dir_model("home"@, seq![dir_model("inparsian"@, seq![file_model("peptobisdog.txt"@, "what the fuck why would you cover a hotdog in pepto bis- EUUUUGH"@), file_model("help.txt"@, "This is just a simulated shell, so not everything works. However, it's more complete than you think. Here are some commands you can try:\r\n\x1b[31mhelp\x1b[0m - show this message\r\n\x1b[31mclear\x1b[0m - clear the terminal\r\n\x1b[31mecho\x1b[0m - echo the input\r\n\x1b[31mexit\x1b[0m - close the terminal"@), file_model(".sheesh_history"@, ""@)])]),
{
    let children: Vec<FilesystemEntry> = vec![
        initial_home_inparsian(),
    ];
    assert(models_of(children@) =~= seq![dir_model("inparsian"@, seq![file_model("peptobisdog.txt"@, "what the fuck why would you cover a hotdog in pepto bis- EUUUUGH"@), file_model("help.txt"@, "This is just a simulated shell, so not everything works. However, it's more complete than you think. Here are some commands you can try:\r\n\x1b[31mhelp\x1b[0m - show this message\r\n\x1b[31mclear\x1b[0m - clear the terminal\r\n\x1b[31mecho\x1b[0m - echo the input\r\n\x1b[31mexit\x1b[0m - close the terminal"@), file_model(".sheesh_history"@, ""@)])]);
    FilesystemEntry::new_dir("home", children)
}

/// The `usr` directory of the initial tree.
fn initial_usr() -> (res: FilesystemEntry)
    ensures
        res.model() == dir_model("usr"@, seq![dir_model("bin"@, bin_model())]),
{
    let children: Vec<FilesystemEntry> = vec![
        FilesystemEntry::new_dir("bin", bin()),
    ];
    assert(models_of(children@) =~= seq![dir_model("bin"@, bin_model())]);
    FilesystemEntry::new_dir("usr", children)
}

} // verus!
