//! The history file of the shell: one entry per line in the user's home.
use vstd::prelude::*;
use vstd::utf8::encode_utf8;
use crate::fs::{create_outcome, leaf_of, lookup, modify_at, DataModel, EntryModel, Filesystem};
use crate::fs::laws::{creates_below_parent, law_read_after_create};
use crate::fs::path::{resolved_parts, split_slash};
use crate::text::{chars_of, owned, push_char, push_str, string_from_utf8_lossy, strings_view, utf8_lossy};

verus! {

/// Where the history is kept.
pub open spec fn history_path() -> Seq<char> {
    "/home/inparsian/.sheesh_history"@
}

/// The history file made empty at its place.
pub open spec fn empty_history_file() -> EntryModel {
    EntryModel { name: leaf_of(history_path()), data: DataModel::File(Seq::empty()) }
}

/// Whether the history can be written: its file exists, or it can be made.
pub open spec fn history_writable(fs: Seq<EntryModel>) -> bool {
    match lookup(fs, resolved_parts(history_path(), None)) {
        None => create_outcome(fs, history_path(), None, empty_history_file()) is Ok,
        Some(e) => e.data is File,
    }
}

/// The filesystem after `entry` is added to the history: the file is made
/// when missing, and a line break and the entry follow its text.
pub open spec fn add_outcome(fs: Seq<EntryModel>, entry: Seq<char>) -> Seq<EntryModel> {
    let parts = resolved_parts(history_path(), None);
    let fs1 = if lookup(fs, parts) is None {
        create_outcome(fs, history_path(), None, empty_history_file())->Ok_0
    } else {
        fs
    };
    let e = lookup(fs1, parts)->0;
    let text = utf8_lossy(e.data->File_0) + "\r\n"@ + entry;
    modify_at(fs1, parts, EntryModel { name: e.name, data: DataModel::File(encode_utf8(text)) })
}

/// The lines of `s` from position `i`, as `str::lines` splits them: at each
/// line feed, dropping a carriage return just before it; a last line with no
/// line feed after it counts when it is not empty.
pub open spec fn lines_from(s: Seq<char>, i: int, cur: Seq<char>, acc: Seq<Seq<char>>) -> Seq<Seq<char>>
    decreases s.len() - i,
{
    if i < 0 || i >= s.len() {
        if cur.len() > 0 { acc.push(cur) } else { acc }
    } else if s[i] == '\n' {
        let line = if cur.len() > 0 && cur.last() == '\r' { cur.drop_last() } else { cur };
        lines_from(s, i + 1, Seq::empty(), acc.push(line))
    } else {
        lines_from(s, i + 1, cur.push(s[i]), acc)
    }
}

/// The lines of `s`, as `str::lines` gives them.
pub open spec fn lines_of(s: Seq<char>) -> Seq<Seq<char>> {
    lines_from(s, 0, Seq::empty(), Seq::empty())
}

proof fn lemma_history_below_parent()
    ensures
        creates_below_parent(history_path(), None),
{
    let home = seq!['h', 'o', 'm', 'e'];
    let user = seq!['i', 'n', 'p', 'a', 'r', 's', 'i', 'a', 'n'];
    let file = seq!['.', 's', 'h', 'e', 'e', 's', 'h', '_', 'h', 'i', 's', 't', 'o', 'r', 'y'];
    let q = seq!['/'] + home + seq!['/'] + user + seq!['/'] + file;
    assert(history_path() =~= q) by {
        reveal_strlit("/home/inparsian/.sheesh_history");
    }
    let parent = seq!['/'] + home + seq!['/'] + user;
    crate::fs::lemma_last_index_of(q, '/');
    assert(q[15] == '/');
    assert(crate::fs::last_index_of(q, '/') == Some(15int)) by {
        let k = crate::fs::last_index_of(q, '/');
        if k is Some {
            let j = k->0;
            if j > 15 {
                assert(q[j] == file[j - 16]);
            }
        }
    }
    assert(crate::fs::parent_of(q) =~= parent);
    assert(leaf_of(q) =~= file);
    crate::fs::laws::lemma_split_no_slash(home);
    crate::fs::laws::lemma_split_after_slash(home, user);
    crate::fs::laws::lemma_split_after_slash(home + seq!['/'] + user, file);
    assert(crate::fs::path::target_chars(parent, None) =~= home + seq!['/'] + user);
    assert(crate::fs::path::target_chars(q, None) =~= home + seq!['/'] + user + seq!['/'] + file);
    let pp = seq![home, user];
    assert(split_slash(home + seq!['/'] + user) =~= pp);
    assert(split_slash(home + seq!['/'] + user + seq!['/'] + file) =~= pp.push(file));
    assert(crate::fs::path::proper_names(pp)) by {
        assert(home[0] != '.');
        assert(user[0] != '.');
    }
    assert(crate::fs::path::proper_names(pp.push(file))) by {
        assert(home[0] != '.');
        assert(user[0] != '.');
        assert(file.len() > 2);
    }
    crate::fs::path::lemma_normalize_proper_id(pp);
    crate::fs::path::lemma_normalize_proper_id(pp.push(file));
}

/// Adds `entry` to the history file, making the file when it is missing.
pub fn add_to_history(fs: &mut Filesystem, entry: &str)
    requires
        history_writable(old(fs)@),
    ensures
        final(fs)@ == add_outcome(old(fs)@, entry@),
{
    let path = "/home/inparsian/.sheesh_history";
    let empty: Vec<u8> = Vec::new();
    assert(empty@ =~= Seq::<u8>::empty());
    if fs.resolve_path(path, None).is_none() {
        let made = fs.create_file(path, None, empty.as_slice());
        proof {
            lemma_history_below_parent();
            law_read_after_create(old(fs)@, history_path(), None, Seq::empty());
        }
        assert(made is Ok);
    }
    let content = match fs.read_file(path, None) {
        Ok(c) => string_from_utf8_lossy(c),
        Err(_) => String::new(),
    };
    let mut text = content;
    push_str(&mut text, "\r\n");
    push_str(&mut text, entry);
    let written = fs.write_file(path, None, text.as_str().as_bytes());
}

/// The entries of the history file, one per line.
pub fn read_history(fs: &Filesystem) -> (res: Vec<String>)
    requires
        lookup(fs@, resolved_parts(history_path(), None)) matches Some(e) && e.data is File,
    ensures
        strings_view(res@) == lines_of(
            utf8_lossy(lookup(fs@, resolved_parts(history_path(), None))->0.data->File_0),
        ),
{
    let content = match fs.read_file("/home/inparsian/.sheesh_history", None) {
        Ok(c) => string_from_utf8_lossy(c),
        Err(_) => String::new(),
    };
    let v = chars_of(content.as_str());
    let ghost s = v@;
    let mut acc: Vec<String> = Vec::new();
    let mut cur = String::new();
    let mut i: usize = 0;
    assert(strings_view(acc@) =~= Seq::<Seq<char>>::empty());
    while i < v.len()
        invariant
            i <= v@.len(),
            s == v@,
            lines_of(s) == lines_from(s, i as int, cur@, strings_view(acc@)),
        decreases v@.len() - i,
    {
        let c = v[i];
        if c == '\n' {
            let cv = chars_of(cur.as_str());
            let line = if cv.len() > 0 && cv[cv.len() - 1] == '\r' {
                crate::text::string_from_chars(&cv, 0, cv.len() - 1)
            } else {
                crate::text::string_from_chars(&cv, 0, cv.len())
            };
            assert(cv@.subrange(0, cv@.len() as int) =~= cv@);
            assert(cv@.subrange(0, cv@.len() - 1) =~= cv@.drop_last());
            let ghost before = strings_view(acc@);
            acc.push(line);
            assert(strings_view(acc@) =~= before.push(acc@.last()@));
            cur = String::new();
        } else {
            push_char(&mut cur, c);
        }
        i = i + 1;
    }
    if !cur.as_str().is_empty() {
        let ghost before = strings_view(acc@);
        acc.push(cur);
        assert(strings_view(acc@) =~= before.push(acc@.last()@));
    }
    acc
}

} // verus!
