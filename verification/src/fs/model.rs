//! The mathematical model of the filesystem tree and the path lookups over it.
use vstd::prelude::*;

verus! {

/// What an entry of the filesystem holds.
#[derive(Debug, PartialEq, Eq)]
pub enum FilesystemData {
    File { content: Vec<u8> },
    Directory { children: Vec<FilesystemEntry> },
    SymbolicLink { target: String },
}

/// A named node of the filesystem tree.
#[derive(Debug, PartialEq, Eq)]
pub struct FilesystemEntry {
    pub name: String,
    pub data: FilesystemData,
}

/// The mathematical model of an entry's data.
pub enum DataModel {
    File(Seq<u8>),
    Directory(Seq<EntryModel>),
    SymbolicLink(Seq<char>),
}

/// The mathematical model of an entry: its name and what it holds.
pub struct EntryModel {
    pub name: Seq<char>,
    pub data: DataModel,
}

impl FilesystemEntry {
    pub open spec fn model(self) -> EntryModel
        decreases self,
    {
        EntryModel {
            name: self.name@,
            data: match self.data {
                FilesystemData::File { content } => DataModel::File(content@),
                FilesystemData::Directory { children } => DataModel::Directory(
                    models_of(children@),
                ),
                FilesystemData::SymbolicLink { target } => DataModel::SymbolicLink(target@),
            },
        }
    }
}

/// The models of a sequence of entries, in order.
pub open spec fn models_of(entries: Seq<FilesystemEntry>) -> Seq<EntryModel>
    decreases entries,
{
    if entries.len() == 0 {
        Seq::empty()
    } else {
        models_of(entries.drop_last()).push(entries.last().model())
    }
}

pub broadcast proof fn lemma_models_of(entries: Seq<FilesystemEntry>)
    ensures
        #![trigger models_of(entries)]
        models_of(entries).len() == entries.len(),
        forall|i: int| 0 <= i < entries.len() ==> models_of(entries)[i] == entries[i].model(),
    decreases entries.len(),
{
    if entries.len() > 0 {
        lemma_models_of(entries.drop_last());
    }
}

pub open spec fn opt_model(o: Option<FilesystemEntry>) -> Option<EntryModel> {
    match o {
        Some(e) => Some(e.model()),
        None => None,
    }
}

pub open spec fn is_directory(e: EntryModel) -> bool {
    e.data is Directory
}

/// The first index at or after `start` of an entry called `name`.
pub open spec fn position_from(entries: Seq<EntryModel>, name: Seq<char>, start: nat) -> Option<int>
    decreases entries.len() - start,
{
    if start >= entries.len() {
        None
    } else if entries[start as int].name == name {
        Some(start as int)
    } else {
        position_from(entries, name, start + 1)
    }
}

/// The index of the first entry called `name`, if there is one.
pub open spec fn position_of(entries: Seq<EntryModel>, name: Seq<char>) -> Option<int> {
    position_from(entries, name, 0)
}

pub proof fn lemma_position_from(entries: Seq<EntryModel>, name: Seq<char>, start: nat)
    ensures
        match position_from(entries, name, start) {
            Some(i) => start <= i < entries.len() && entries[i].name == name && forall|j: int|
                start <= j < i ==> entries[j].name != name,
            None => forall|j: int| start <= j < entries.len() ==> entries[j].name != name,
        },
    decreases entries.len() - start,
{
    if start < entries.len() && entries[start as int].name != name {
        lemma_position_from(entries, name, start + 1);
    }
}

pub proof fn lemma_position_of(entries: Seq<EntryModel>, name: Seq<char>)
    ensures
        match position_of(entries, name) {
            Some(i) => 0 <= i < entries.len() && entries[i].name == name && forall|j: int|
                0 <= j < i ==> entries[j].name != name,
            None => forall|j: int| 0 <= j < entries.len() ==> entries[j].name != name,
        },
{
    lemma_position_from(entries, name, 0);
}

/// The directory that the root of the tree stands for: it has no name.
pub open spec fn root_model(entries: Seq<EntryModel>) -> EntryModel {
    EntryModel { name: Seq::empty(), data: DataModel::Directory(entries) }
}

/// The entry reached from `entries` by following the names of `parts`:
/// each name picks the first entry of that name, and every name but the
/// last must pick a directory. No names at all designate the root.
pub open spec fn lookup(entries: Seq<EntryModel>, parts: Seq<Seq<char>>) -> Option<EntryModel>
    decreases parts.len(),
{
    if parts.len() == 0 {
        Some(root_model(entries))
    } else {
        match position_of(entries, parts[0]) {
            None => None,
            Some(i) => if parts.len() == 1 {
                Some(entries[i])
            } else {
                match entries[i].data {
                    DataModel::Directory(children) => lookup(children, parts.drop_first()),
                    _ => None,
                }
            },
        }
    }
}

/// `entries` with the entry that `parts` designates replaced by `new_entry`.
/// Nothing changes when `parts` is empty (the root is not an entry) or
/// designates nothing.
pub open spec fn modify_at(entries: Seq<EntryModel>, parts: Seq<Seq<char>>, new_entry: EntryModel) -> Seq<EntryModel>
    decreases parts.len(),
{
    if parts.len() == 0 {
        entries
    } else {
        match position_of(entries, parts[0]) {
            None => entries,
            Some(i) => if parts.len() == 1 {
                entries.update(i, new_entry)
            } else {
                match entries[i].data {
                    DataModel::Directory(children) => entries.update(
                        i,
                        EntryModel {
                            name: entries[i].name,
                            data: DataModel::Directory(
                                modify_at(children, parts.drop_first(), new_entry),
                            ),
                        },
                    ),
                    _ => entries,
                }
            },
        }
    }
}

/// The names joined by slashes.
pub open spec fn join_slash(parts: Seq<Seq<char>>) -> Seq<char>
    decreases parts.len(),
{
    if parts.len() == 0 {
        Seq::empty()
    } else if parts.len() == 1 {
        parts[0]
    } else {
        join_slash(parts.drop_last()) + seq!['/'] + parts.last()
    }
}

/// The number of files and links in an entry (directories themselves are not counted).
pub open spec fn entry_count(e: EntryModel) -> nat
    decreases e,
{
    match e.data {
        DataModel::Directory(children) => entries_count(children),
        _ => 1,
    }
}

pub open spec fn entries_count(s: Seq<EntryModel>) -> nat
    decreases s,
{
    if s.len() == 0 {
        0
    } else {
        entries_count(s.drop_last()) + entry_count(s.last())
    }
}

/// The number of bytes held by the files of an entry.
pub open spec fn byte_count(e: EntryModel) -> nat
    decreases e,
{
    match e.data {
        DataModel::File(content) => content.len(),
        DataModel::Directory(children) => entries_bytes(children),
        DataModel::SymbolicLink(_) => 0,
    }
}

pub open spec fn entries_bytes(s: Seq<EntryModel>) -> nat
    decreases s,
{
    if s.len() == 0 {
        0
    } else {
        entries_bytes(s.drop_last()) + byte_count(s.last())
    }
}

pub proof fn lemma_counts_prefix(s: Seq<EntryModel>, i: int)
    requires
        0 <= i <= s.len(),
    ensures
        entries_count(s.take(i)) <= entries_count(s),
        entries_bytes(s.take(i)) <= entries_bytes(s),
    decreases s.len() - i,
{
    if i < s.len() {
        lemma_counts_prefix(s, i + 1);
        assert(s.take(i + 1).drop_last() =~= s.take(i));
    } else {
        assert(s.take(i) =~= s);
    }
}

} // verus!
