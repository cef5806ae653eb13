//! Redirections of a command's output to files.
use vstd::prelude::*;
use vstd::utf8::encode_utf8;
use crate::fs::{create_message, create_outcome, leaf_of, lookup, modify_at, DataModel, EntryModel, Filesystem};
use crate::fs::path::resolved_parts;
use crate::text::{opt_str_view, owned, push_str};

verus! {

/// What preparing a redirection to `path` does before the command runs: a
/// file is kept when appending and emptied otherwise, a missing target is
/// made as an empty file, and anything else is refused.
pub open spec fn prepare_outcome(fs: Seq<EntryModel>, path: Seq<char>, append: bool, pwd: Option<Seq<char>>) -> (Seq<EntryModel>, Result<(), Seq<char>>) {
    let parts = resolved_parts(path, pwd);
    match lookup(fs, parts) {
        Some(e) => match e.data {
            DataModel::File(_) => if append {
                (fs, Ok(()))
            } else {
                (modify_at(fs, parts, EntryModel { name: e.name, data: DataModel::File(Seq::empty()) }), Ok(()))
            },
            _ => (fs, Err("Path is not a file: "@ + path)),
        },
        None => created(fs, path, pwd, Seq::empty()),
    }
}

/// A new file at `path` holding `bytes`, or why it cannot be made.
pub open spec fn created(fs: Seq<EntryModel>, path: Seq<char>, pwd: Option<Seq<char>>, bytes: Seq<u8>) -> (Seq<EntryModel>, Result<(), Seq<char>>) {
    match create_outcome(fs, path, pwd, EntryModel { name: leaf_of(path), data: DataModel::File(bytes) }) {
        Ok(m) => (m, Ok(())),
        Err(e) => (fs, Err(create_message(e, path, "File already exists"@))),
    }
}

/// What writing `data` to the redirection target `path` does: appended to
/// (or replacing) the content of a file, made as a new file when the
/// target is missing, refused when the target is no file.
pub open spec fn write_outcome(fs: Seq<EntryModel>, path: Seq<char>, append: bool, data: Seq<char>, pwd: Option<Seq<char>>) -> (Seq<EntryModel>, Result<(), Seq<char>>) {
    let parts = resolved_parts(path, pwd);
    match lookup(fs, parts) {
        Some(e) => match e.data {
            DataModel::File(c) => (
                modify_at(
                    fs,
                    parts,
                    EntryModel {
                        name: e.name,
                        data: DataModel::File(if append { c + encode_utf8(data) } else { encode_utf8(data) }),
                    },
                ),
                Ok(()),
            ),
            _ => (fs, Err("Path is not a file: "@ + path)),
        },
        None => created(fs, path, pwd, encode_utf8(data)),
    }
}

/// Readies the target of a redirection before the command runs.
pub fn prepare_redirect(fs: &mut Filesystem, path: &str, append: bool, pwd: Option<&str>) -> (res: Result<(), String>)
    ensures
        ({
            let (m, r) = prepare_outcome(old(fs)@, path@, append, opt_str_view(pwd));
            &&& final(fs)@ == m
            &&& match r {
                Ok(()) => res is Ok,
                Err(msg) => res is Err && res->Err_0@ == msg,
            }
        }),
{
    let empty: Vec<u8> = Vec::new();
    assert(empty@ =~= Seq::<u8>::empty());
    match fs.resolve_read(path, pwd) {
        Some(entry) => match &entry.data {
            crate::fs::FilesystemData::File { .. } => {
                if append {
                    Ok(())
                } else {
                    fs.write_file(path, pwd, empty.as_slice())
                }
            },
            _ => {
                let mut m = owned("Path is not a file: ");
                push_str(&mut m, path);
                Err(m)
            },
        },
        None => fs.create_file(path, pwd, empty.as_slice()),
    }
}

/// Writes `data` to the target of a redirection, appending or replacing.
pub fn write_redirect(fs: &mut Filesystem, path: &str, append: bool, data: &str, pwd: Option<&str>) -> (res: Result<(), String>)
    ensures
        ({
            let (m, r) = write_outcome(old(fs)@, path@, append, data@, opt_str_view(pwd));
            &&& final(fs)@ == m
            &&& match r {
                Ok(()) => res is Ok,
                Err(msg) => res is Err && res->Err_0@ == msg,
            }
        }),
{
    if append {
        match fs.resolve_read(path, pwd) {
            Some(entry) => match &entry.data {
                crate::fs::FilesystemData::File { .. } => {
                    let mut existing = match fs.read_file(path, pwd) {
                        Ok(c) => crate::fs::copy_bytes(c),
                        Err(e) => {
                            return Err(e);
                        },
                    };
                    let bytes = data.as_bytes();
                    let mut k: usize = 0;
                    let ghost start = existing@;
                    while k < bytes.len()
                        invariant
                            k <= bytes@.len(),
                            existing@ == start + bytes@.take(k as int),
                        decreases bytes@.len() - k,
                    {
                        existing.push(bytes[k]);
                        assert(existing@ =~= start + bytes@.take(k + 1));
                        k = k + 1;
                    }
                    assert(bytes@.take(bytes@.len() as int) =~= bytes@);
                    fs.write_file(path, pwd, existing.as_slice())
                },
                _ => {
                    let mut m = owned("Path is not a file: ");
                    push_str(&mut m, path);
                    Err(m)
                },
            },
            None => fs.create_file(path, pwd, data.as_bytes()),
        }
    } else if fs.resolve_read(path, pwd).is_some() {
        fs.write_file(path, pwd, data.as_bytes())
    } else {
        fs.create_file(path, pwd, data.as_bytes())
    }
}

} // verus!
