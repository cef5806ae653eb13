//! The virtual filesystem: a tree of named files, directories and symbolic
//! links, and the operations that read and change it by path.
use vstd::prelude::*;
use vstd::utf8::encode_utf8;
use crate::text::{owned, push_str, strings_view, opt_str_view};
use self::path::{resolve_parts, resolved_parts};

pub mod encoding;
pub mod frame;
pub mod img;
pub mod laws;
pub mod model;
pub mod path;

pub use self::model::{
    byte_count, entries_bytes, entries_count, entry_count, is_directory, join_slash, lemma_models_of,
    lookup, models_of, modify_at, opt_model, position_of, root_model, DataModel, EntryModel,
    FilesystemData, FilesystemEntry,
};
use self::model::{lemma_counts_prefix, lemma_position_of, position_from};

verus! {

broadcast use lemma_models_of;


pub fn copy_bytes(b: &[u8]) -> (res: Vec<u8>)
    ensures
        res@ == b@,
{
    let mut res: Vec<u8> = Vec::new();
    let mut i: usize = 0;
    while i < b.len()
        invariant
            i <= b@.len(),
            res@ == b@.take(i as int),
        decreases b@.len() - i,
    {
        res.push(b[i]);
        assert(res@ =~= b@.take(i + 1));
        i = i + 1;
    }
    assert(b@.take(b@.len() as int) =~= b@);
    res
}

impl FilesystemEntry {
    /// A file called `name` holding the UTF-8 bytes of `content`.
    pub fn new_file(name: &str, content: &str) -> (res: Self)
        ensures
            res.model() == (EntryModel { name: name@, data: DataModel::File(encode_utf8(content@)) }),
    {
        Self {
            name: owned(name),
            data: FilesystemData::File { content: copy_bytes(content.as_bytes()) },
        }
    }

    /// A directory called `name` holding `children`.
    pub fn new_dir(name: &str, children: Vec<FilesystemEntry>) -> (res: Self)
        ensures
            res.model() == (EntryModel { name: name@, data: DataModel::Directory(models_of(children@)) }),
    {
        Self { name: owned(name), data: FilesystemData::Directory { children } }
    }

    /// A deep copy of the entry.
    pub fn duplicate(&self) -> (res: Self)
        ensures
            res.model() == self.model(),
        decreases self,
    {
        let data = match &self.data {
            FilesystemData::File { content } => FilesystemData::File {
                content: copy_bytes(content.as_slice()),
            },
            FilesystemData::Directory { children } => FilesystemData::Directory {
                children: duplicate_all(children),
            },
            FilesystemData::SymbolicLink { target } => FilesystemData::SymbolicLink {
                target: target.clone(),
            },
        };
        FilesystemEntry { name: self.name.clone(), data }
    }

    /// The number of files and links below (or at) this entry.
    pub fn size_entries(&self) -> (res: usize)
        requires
            entry_count(self.model()) <= usize::MAX,
        ensures
            res == entry_count(self.model()),
        decreases self,
    {
        match &self.data {
            FilesystemData::Directory { children } => {
                let ghost m = models_of(children@);
                let mut total: usize = 0;
                let mut i: usize = 0;
                while i < children.len()
                    invariant
                        i <= children@.len(),
                        self.data == (FilesystemData::Directory { children: *children }),
                        m == models_of(children@),
                        entries_count(m) <= usize::MAX,
                        total == entries_count(m.take(i as int)),
                    decreases children@.len() - i,
                {
                    proof {
                        lemma_counts_prefix(m, i + 1);
                        assert(m.take(i + 1).drop_last() =~= m.take(i as int));
                    }
                    proof {
                        assert(decreases_to!(self.data => self.data->children));
                        assert(decreases_to!(self.data->children => self.data->children@));
                        assert(decreases_to!(self.data->children@ => children@[i as int]));
                        assert(decreases_to!(self => self.data));
                        assert(decreases_to!(self => children@[i as int]));
                    }
                    let n = children[i].size_entries();
                    total = total + n;
                    i = i + 1;
                }
                assert(m.take(children@.len() as int) =~= m);
                total
            },
            _ => 1,
        }
    }

    /// The number of bytes held by the files below (or at) this entry.
    pub fn size_bytes(&self) -> (res: usize)
        requires
            byte_count(self.model()) <= usize::MAX,
        ensures
            res == byte_count(self.model()),
        decreases self,
    {
        match &self.data {
            FilesystemData::File { content } => content.len(),
            FilesystemData::Directory { children } => {
                let ghost m = models_of(children@);
                let mut total: usize = 0;
                let mut i: usize = 0;
                while i < children.len()
                    invariant
                        i <= children@.len(),
                        self.data == (FilesystemData::Directory { children: *children }),
                        m == models_of(children@),
                        entries_bytes(m) <= usize::MAX,
                        total == entries_bytes(m.take(i as int)),
                    decreases children@.len() - i,
                {
                    proof {
                        lemma_counts_prefix(m, i + 1);
                        assert(m.take(i + 1).drop_last() =~= m.take(i as int));
                    }
                    proof {
                        assert(decreases_to!(self.data => self.data->children));
                        assert(decreases_to!(self.data->children => self.data->children@));
                        assert(decreases_to!(self.data->children@ => children@[i as int]));
                        assert(decreases_to!(self => self.data));
                        assert(decreases_to!(self => children@[i as int]));
                    }
                    let n = children[i].size_bytes();
                    total = total + n;
                    i = i + 1;
                }
                assert(m.take(children@.len() as int) =~= m);
                total
            },
            FilesystemData::SymbolicLink { .. } => 0,
        }
    }
}

/// Deep copies of the entries, in order.
pub fn duplicate_all(entries: &Vec<FilesystemEntry>) -> (res: Vec<FilesystemEntry>)
    ensures
        models_of(res@) == models_of(entries@),
    decreases entries,
{
    let mut res: Vec<FilesystemEntry> = Vec::new();
    let mut i: usize = 0;
    while i < entries.len()
        invariant
            i <= entries@.len(),
            models_of(res@) == models_of(entries@).take(i as int),
        decreases entries@.len() - i,
    {
        proof {
            assert(decreases_to!(entries => entries@[i as int]));
        }
        let e = entries[i].duplicate();
        res.push(e);
        assert(models_of(res@) =~= models_of(entries@).take(i + 1));
        i = i + 1;
    }
    assert(models_of(entries@).take(entries@.len() as int) =~= models_of(entries@));
    res
}


fn position_in(entries: &Vec<FilesystemEntry>, name: &String) -> (res: Option<usize>)
    ensures
        match res {
            Some(i) => i < entries@.len() && position_of(models_of(entries@), name@) == Some(
                i as int,
            ),
            None => position_of(models_of(entries@), name@) is None,
        },
{
    let ghost m = models_of(entries@);
    let mut i: usize = 0;
    while i < entries.len()
        invariant
            i <= entries@.len(),
            m == models_of(entries@),
            position_of(m, name@) == position_from(m, name@, i as nat),
        decreases entries@.len() - i,
    {
        if entries[i].name == *name {
            return Some(i);
        }
        i = i + 1;
    }
    None
}

proof fn lemma_skip_first(parts: Seq<Seq<char>>, start: int)
    requires
        0 <= start < parts.len(),
    ensures
        parts.skip(start)[0] == parts[start],
        parts.skip(start).drop_first() == parts.skip(start + 1),
        parts.skip(start).len() == 1 <==> start + 1 == parts.len(),
{
    assert(parts.skip(start).drop_first() =~= parts.skip(start + 1));
}

/// The entry that `parts[start..]` designates among `entries`, by reference.
fn resolve_in_entries<'a>(entries: &'a Vec<FilesystemEntry>, parts: &Vec<String>, start: usize) -> (res: Option<&'a FilesystemEntry>)
    requires
        start < parts@.len(),
    ensures
        match res {
            Some(e) => lookup(models_of(entries@), strings_view(parts@).skip(start as int)) == Some(e.model()),
            None => lookup(models_of(entries@), strings_view(parts@).skip(start as int)) is None,
        },
    decreases parts@.len() - start,
{
    proof {
        lemma_skip_first(strings_view(parts@), start as int);
    }
    match position_in(entries, &parts[start]) {
        None => None,
        Some(idx) => {
            let e = &entries[idx];
            if start == parts.len() - 1 {
                Some(e)
            } else {
                match &e.data {
                    FilesystemData::Directory { children } => resolve_in_entries(children, parts, start + 1),
                    _ => None,
                }
            }
        },
    }
}

proof fn lemma_models_update(s: Seq<FilesystemEntry>, i: int, e: FilesystemEntry)
    requires
        0 <= i < s.len(),
    ensures
        models_of(s.update(i, e)) == models_of(s).update(i, e.model()),
{
    assert(models_of(s.update(i, e)) =~= models_of(s).update(i, e.model()));
}

proof fn lemma_models_remove(s: Seq<FilesystemEntry>, i: int)
    requires
        0 <= i < s.len(),
    ensures
        models_of(s.remove(i)) == models_of(s).remove(i),
{
    assert(models_of(s.remove(i)) =~= models_of(s).remove(i));
}

proof fn lemma_models_push(s: Seq<FilesystemEntry>, e: FilesystemEntry)
    ensures
        models_of(s.push(e)) == models_of(s).push(e.model()),
{
    assert(models_of(s.push(e)) =~= models_of(s).push(e.model()));
}

/// The entry that `parts[start..]` designates among `entries`, to change in
/// place: whatever it holds when the borrow ends takes its place in the tree.
fn resolve_mut_in_entries<'a>(entries: &'a mut Vec<FilesystemEntry>, parts: &Vec<String>, start: usize) -> (res: Option<&'a mut FilesystemEntry>)
    requires
        start < parts@.len(),
    ensures
        match res {
            Some(r) => lookup(models_of(old(entries)@), strings_view(parts@).skip(start as int)) == Some(r.model())
                && models_of(final(entries)@) == modify_at(
                models_of(old(entries)@),
                strings_view(parts@).skip(start as int),
                final(r).model(),
            ),
            None => lookup(models_of(old(entries)@), strings_view(parts@).skip(start as int)) is None
                && models_of(final(entries)@) == models_of(old(entries)@),
        },
    decreases parts@.len() - start,
{
    proof {
        lemma_skip_first(strings_view(parts@), start as int);
    }
    let ghost old_entries = entries@;
    match position_in(entries, &parts[start]) {
        None => None,
        Some(idx) => {
            proof {
                lemma_position_of(models_of(entries@), parts@[start as int]@);
            }
            if start == parts.len() - 1 {
                let r = &mut entries[idx];
                proof {
                    lemma_models_update(old_entries, idx as int, *final(r));
                }
                Some(r)
            } else {
                let e = &mut entries[idx];
                proof {
                    lemma_models_update(old_entries, idx as int, *final(e));
                }
                match &mut e.data {
                    FilesystemData::Directory { children } => {
                        resolve_mut_in_entries(children, parts, start + 1)
                    },
                    _ => None,
                }
            }
        },
    }
}

/// Calls `Box::leak`: the boxed entry lives, unowned, for the rest of the
/// run. Trusted, as std documents it: the reference gives the boxed entry.
#[verifier::external_body]
fn leak_entry(b: Box<FilesystemEntry>) -> (res: &'static mut FilesystemEntry)
    ensures
        *res == *b,
{
    Box::leak(b)
}

/// The index of the last occurrence of `c` in `s`.
pub open spec fn last_index_of(s: Seq<char>, c: char) -> Option<int>
    decreases s.len(),
{
    if s.len() == 0 {
        None
    } else if s.last() == c {
        Some(s.len() - 1)
    } else {
        last_index_of(s.drop_last(), c)
    }
}

/// What stands before the last `/` of a path (nothing when there is none).
pub open spec fn parent_of(path: Seq<char>) -> Seq<char> {
    match last_index_of(path, '/') {
        Some(k) => path.take(k),
        None => Seq::empty(),
    }
}

/// What stands after the last `/` of a path (all of it when there is none).
pub open spec fn leaf_of(path: Seq<char>) -> Seq<char> {
    match last_index_of(path, '/') {
        Some(k) => path.skip(k + 1),
        None => path,
    }
}

pub proof fn lemma_last_index_of(s: Seq<char>, c: char)
    ensures
        match last_index_of(s, c) {
            Some(k) => 0 <= k < s.len() && s[k] == c && forall|j: int| k < j < s.len() ==> s[j] != c,
            None => forall|j: int| 0 <= j < s.len() ==> s[j] != c,
        },
    decreases s.len(),
{
    if s.len() > 0 && s.last() != c {
        lemma_last_index_of(s.drop_last(), c);
        assert forall|j: int| 0 <= j < s.len() - 1 implies s.drop_last()[j] == s[j] by {}
    }
}

/// Splits a path at its last `/` into what stands before and after it.
fn split_parent(path: &str) -> (res: (String, String))
    ensures
        res.0@ == parent_of(path@),
        res.1@ == leaf_of(path@),
{
    let v = crate::text::chars_of(path);
    let mut k: usize = v.len();
    assert(v@.take(k as int) =~= path@);
    while k > 0
        invariant
            k <= v@.len(),
            v@ == path@,
            last_index_of(path@, '/') == last_index_of(v@.take(k as int), '/'),
        decreases k,
    {
        if v[k - 1] == '/' {
            assert(v@.take(k as int).last() == '/');
            let parent = crate::text::string_from_chars(&v, 0, k - 1);
            let leaf = crate::text::string_from_chars(&v, k, v.len());
            assert(v@.subrange(0, k - 1) =~= path@.take(k - 1));
            assert(v@.subrange(k as int, v@.len() as int) =~= path@.skip(k as int));
            return (parent, leaf);
        }
        assert(v@.take(k as int).drop_last() =~= v@.take(k - 1));
        k = k - 1;
    }
    assert(v@.take(0) =~= Seq::<char>::empty());
    (String::new(), owned(path))
}

/// Why a new entry could not be made.
#[derive(Debug, Clone, Copy, PartialEq, Eq, Structural)]
pub enum CreateError {
    AlreadyExists,
    ParentMissing,
    ParentNotDirectory,
}

/// The filesystem after a new entry `child` is made at `path`, or why it
/// cannot be: the path is taken, or what stands before its last `/` designates
/// nothing or no directory. The entry goes at the end of its parent's list;
/// when the parent part designates the root, the filesystem is left as it is.
pub open spec fn create_outcome(fs: Seq<EntryModel>, path: Seq<char>, pwd: Option<Seq<char>>, child: EntryModel) -> Result<Seq<EntryModel>, CreateError> {
    if lookup(fs, resolved_parts(path, pwd)) is Some {
        Err(CreateError::AlreadyExists)
    } else {
        let pp = resolved_parts(parent_of(path), pwd);
        match lookup(fs, pp) {
            None => Err(CreateError::ParentMissing),
            Some(p) => match p.data {
                DataModel::Directory(ch) => Ok(
                    modify_at(
                        fs,
                        pp,
                        EntryModel { name: p.name, data: DataModel::Directory(ch.push(child)) },
                    ),
                ),
                _ => Err(CreateError::ParentNotDirectory),
            },
        }
    }
}

/// The message that a refused creation of `path` gives.
pub open spec fn create_message(e: CreateError, path: Seq<char>, exists_msg: Seq<char>) -> Seq<char> {
    match e {
        CreateError::AlreadyExists => exists_msg,
        CreateError::ParentMissing => "Parent directory does not exist"@,
        CreateError::ParentNotDirectory => "Path is not a directory: "@ + path,
    }
}

/// The filesystem after `path` is removed, or the message that says why it is not.
pub open spec fn remove_outcome(fs: Seq<EntryModel>, path: Seq<char>, pwd: Option<Seq<char>>) -> Result<Seq<EntryModel>, Seq<char>> {
    let parts = resolved_parts(path, pwd);
    if parts.len() == 0 {
        Err("Cannot remove root"@)
    } else {
        let pp = parts.drop_last();
        match lookup(fs, pp) {
            None => Err("Parent directory does not exist"@),
            Some(p) => match p.data {
                DataModel::Directory(ch) => match position_of(ch, parts.last()) {
                    Some(i) => Ok(
                        if pp.len() == 0 {
                            ch.remove(i)
                        } else {
                            modify_at(
                                fs,
                                pp,
                                EntryModel { name: p.name, data: DataModel::Directory(ch.remove(i)) },
                            )
                        },
                    ),
                    None => Err("Path does not exist: "@ + path),
                },
                _ => Err("Parent path is not a directory"@),
            },
        }
    }
}

/// The whole filesystem: the entries at its root.
pub struct Filesystem {
    pub root: Vec<FilesystemEntry>,
}

impl View for Filesystem {
    type V = Seq<EntryModel>;

    open spec fn view(&self) -> Seq<EntryModel> {
        models_of(self.root@)
    }
}

fn message(prefix: &str, path: &str) -> (res: String)
    ensures
        res@ == prefix@ + path@,
{
    let mut m = owned(prefix);
    push_str(&mut m, path);
    m
}

impl Filesystem {
    /// The filesystem of a fresh system.
    pub fn init() -> (res: Self)
        ensures
            res@ == img::image_model(),
    {
        Self { root: img::image() }
    }

    /// The Base64 text of the image of this filesystem; decoding that text
    /// with the same engine gives back the image bytes.
    pub fn encode(&self) -> (res: String)
        requires
            encoding::image_bytes(self@).len() <= usize::MAX / 2,
        ensures
            res@ == encoding::base64_url_encoded(encoding::image_bytes(self@)),
            encoding::base64_url_decoded(res@) == Some(encoding::image_bytes(self@)),
    {
        encoding::encode(self)
    }

    /// The filesystem whose image the Base64 text `value` holds.
    pub fn decode(value: &str) -> (res: Result<Self, encoding::EncodingError>)
        ensures
            match encoding::base64_url_decoded(value@) {
                None => res matches Err(encoding::EncodingError::InvalidBase64(m)) && m@ == encoding::base64_url_decode_error_text(value@),
                Some(b) => match encoding::decode_bytes(b) {
                    Ok(s) => res is Ok && res->Ok_0@ == s,
                    Err(k) => res is Err && encoding::reports(res->Err_0, k),
                },
            },
    {
        encoding::decode(value)
    }

    fn exists_at(&self, parts: &Vec<String>) -> (res: bool)
        ensures
            res == lookup(self@, strings_view(parts@)) is Some,
    {
        if parts.len() == 0 {
            true
        } else {
            assert(strings_view(parts@).skip(0) =~= strings_view(parts@));
            resolve_in_entries(&self.root, parts, 0).is_some()
        }
    }

    /// The entry that `path` designates, seen from `pwd`; the root is given
    /// as a nameless directory holding a copy of every root entry.
    pub fn resolve_read(&self, path: &str, pwd: Option<&str>) -> (res: Option<FilesystemEntry>)
        ensures
            opt_model(res) == lookup(self@, resolved_parts(path@, opt_str_view(pwd))),
    {
        let parts = resolve_parts(path, pwd);
        if parts.len() == 0 {
            Some(FilesystemEntry {
                name: String::new(),
                data: FilesystemData::Directory { children: duplicate_all(&self.root) },
            })
        } else {
            assert(strings_view(parts@).skip(0) =~= strings_view(parts@));
            match resolve_in_entries(&self.root, &parts, 0) {
                Some(e) => Some(e.duplicate()),
                None => None,
            }
        }
    }

    /// The absolute, normalised form of `path` seen from `pwd`, when it designates something.
    pub fn resolve_path(&self, path: &str, pwd: Option<&str>) -> (res: Option<String>)
        ensures
            res is Some <==> lookup(self@, resolved_parts(path@, opt_str_view(pwd))) is Some,
            res matches Some(s) ==> s@ == seq!['/'] + join_slash(
                resolved_parts(path@, opt_str_view(pwd)),
            ),
    {
        let parts = resolve_parts(path, pwd);
        if !self.exists_at(&parts) {
            return None;
        }
        let ghost pv = strings_view(parts@);
        let mut out = owned("/");
        let mut i: usize = 0;
        proof {
            reveal_strlit("/");
            assert(pv.take(0) =~= Seq::<Seq<char>>::empty());
        }
        while i < parts.len()
            invariant
                i <= parts@.len(),
                pv == strings_view(parts@),
                out@ == seq!['/'] + join_slash(pv.take(i as int)),
            decreases parts@.len() - i,
        {
            assert(pv.take(i + 1).drop_last() =~= pv.take(i as int));
            if i > 0 {
                crate::text::push_char(&mut out, '/');
            }
            push_str(&mut out, parts[i].as_str());
            assert(out@ =~= seq!['/'] + join_slash(pv.take(i + 1)));
            i = i + 1;
        }
        assert(pv.take(parts@.len() as int) =~= pv);
        Some(out)
    }

    /// Copies of the entries of the directory that `path` designates.
    pub fn resolve_read_dir(&self, path: &str, pwd: Option<&str>) -> (res: Option<Vec<FilesystemEntry>>)
        ensures
            match lookup(self@, resolved_parts(path@, opt_str_view(pwd))) {
                Some(e) => match e.data {
                    DataModel::Directory(ch) => res is Some && models_of(res->0@) == ch,
                    _ => res is None,
                },
                None => res is None,
            },
    {
        match self.resolve_read(path, pwd) {
            Some(e) => match e.data {
                FilesystemData::Directory { children } => Some(children),
                _ => None,
            },
            None => None,
        }
    }

    /// The entry that `path` designates, seen from `pwd`, to change in place.
    /// Changes to a path's entry stay in the tree; the root is handed out as
    /// a nameless directory holding a copy of every root entry, and changes to
    /// that copy leave the tree as it is.
    pub fn resolve_write(&mut self, path: &str, pwd: Option<&str>) -> (res: Option<&mut FilesystemEntry>)
        ensures
            ({
                let parts = resolved_parts(path@, opt_str_view(pwd));
                match res {
                    Some(r) => lookup(old(self)@, parts) == Some(r.model())
                        && final(self)@ == modify_at(old(self)@, parts, final(r).model()),
                    None => lookup(old(self)@, parts) is None && final(self)@ == old(self)@,
                }
            }),
    {
        let parts = resolve_parts(path, pwd);
        if parts.len() == 0 {
            let copy = FilesystemEntry {
                name: String::new(),
                data: FilesystemData::Directory { children: duplicate_all(&self.root) },
            };
            Some(leak_entry(Box::new(copy)))
        } else {
            assert(strings_view(parts@).skip(0) =~= strings_view(parts@));
            resolve_mut_in_entries(&mut self.root, &parts, 0)
        }
    }

    fn create_entry(&mut self, path: &str, pwd: Option<&str>, parent: &str, child: FilesystemEntry) -> (res: Result<(), CreateError>)
        requires
            parent@ == parent_of(path@),
        ensures
            match create_outcome(old(self)@, path@, opt_str_view(pwd), child.model()) {
                Ok(m) => res is Ok && final(self)@ == m,
                Err(e) => res == Err::<(), CreateError>(e) && final(self)@ == old(self)@,
            },
    {
        let parts = resolve_parts(path, pwd);
        if self.exists_at(&parts) {
            return Err(CreateError::AlreadyExists);
        }
        let ghost old_fs = self@;
        match self.resolve_write(parent, pwd) {
            Some(p) => {
                match &mut p.data {
                    FilesystemData::Directory { children } => {
                        proof {
                            lemma_models_push(children@, child);
                        }
                        children.push(child);
                        Ok(())
                    },
                    _ => {
                        proof {
                            laws::lemma_modify_same(old_fs, resolved_parts(parent@, opt_str_view(pwd)));
                        }
                        Err(CreateError::ParentNotDirectory)
                    },
                }
            },
            None => Err(CreateError::ParentMissing),
        }
    }

    /// Makes a file holding `data` at `path`.
    pub fn create_file(&mut self, path: &str, pwd: Option<&str>, data: &[u8]) -> (res: Result<(), String>)
        ensures
            match create_outcome(
                old(self)@,
                path@,
                opt_str_view(pwd),
                EntryModel { name: leaf_of(path@), data: DataModel::File(data@) },
            ) {
                Ok(m) => res is Ok && final(self)@ == m,
                Err(e) => res is Err && res->Err_0@ == create_message(e, path@, "File already exists"@)
                    && final(self)@ == old(self)@,
            },
    {
        let (parent, leaf) = split_parent(path);
        let child = FilesystemEntry { name: leaf, data: FilesystemData::File { content: copy_bytes(data) } };
        match self.create_entry(path, pwd, parent.as_str(), child) {
            Ok(()) => Ok(()),
            Err(CreateError::AlreadyExists) => Err(owned("File already exists")),
            Err(CreateError::ParentMissing) => Err(owned("Parent directory does not exist")),
            Err(CreateError::ParentNotDirectory) => Err(message("Path is not a directory: ", path)),
        }
    }

    /// Makes an empty directory at `path`.
    pub fn create_directory(&mut self, path: &str, pwd: Option<&str>) -> (res: Result<(), String>)
        ensures
            match create_outcome(
                old(self)@,
                path@,
                opt_str_view(pwd),
                EntryModel { name: leaf_of(path@), data: DataModel::Directory(Seq::empty()) },
            ) {
                Ok(m) => res is Ok && final(self)@ == m,
                Err(e) => res is Err && res->Err_0@ == create_message(e, path@, "Directory already exists"@)
                    && final(self)@ == old(self)@,
            },
    {
        let (parent, leaf) = split_parent(path);
        let child = FilesystemEntry { name: leaf, data: FilesystemData::Directory { children: Vec::new() } };
        assert(models_of(Seq::<FilesystemEntry>::empty()) =~= Seq::<EntryModel>::empty());
        match self.create_entry(path, pwd, parent.as_str(), child) {
            Ok(()) => Ok(()),
            Err(CreateError::AlreadyExists) => Err(owned("Directory already exists")),
            Err(CreateError::ParentMissing) => Err(owned("Parent directory does not exist")),
            Err(CreateError::ParentNotDirectory) => Err(message("Path is not a directory: ", path)),
        }
    }

    /// The content of the file that `path` designates.
    pub fn read_file(&self, path: &str, pwd: Option<&str>) -> (res: Result<&[u8], String>)
        ensures
            match lookup(self@, resolved_parts(path@, opt_str_view(pwd))) {
                Some(e) => match e.data {
                    DataModel::File(c) => res is Ok && res->Ok_0@ == c,
                    _ => res is Err && res->Err_0@ == "Path is not a file: "@ + path@,
                },
                None => res is Err && res->Err_0@ == "File does not exist: "@ + path@,
            },
    {
        let parts = resolve_parts(path, pwd);
        if parts.len() == 0 {
            return Err(message("Path is not a file: ", path));
        }
        assert(strings_view(parts@).skip(0) =~= strings_view(parts@));
        match resolve_in_entries(&self.root, &parts, 0) {
            Some(e) => match &e.data {
                FilesystemData::File { content } => Ok(content.as_slice()),
                _ => Err(message("Path is not a file: ", path)),
            },
            None => Err(message("File does not exist: ", path)),
        }
    }

    /// Replaces the content of the file that `path` designates by `data`.
    pub fn write_file(&mut self, path: &str, pwd: Option<&str>, data: &[u8]) -> (res: Result<(), String>)
        ensures
            ({
                let parts = resolved_parts(path@, opt_str_view(pwd));
                match lookup(old(self)@, parts) {
                    Some(e) => match e.data {
                        DataModel::File(_) => res is Ok && final(self)@ == modify_at(
                            old(self)@,
                            parts,
                            EntryModel { name: e.name, data: DataModel::File(data@) },
                        ),
                        _ => res is Err && res->Err_0@ == "Path is not a file: "@ + path@
                            && final(self)@ == old(self)@,
                    },
                    None => res is Err && res->Err_0@ == "File does not exist: "@ + path@
                        && final(self)@ == old(self)@,
                }
            }),
    {
        let parts = resolve_parts(path, pwd);
        if parts.len() == 0 {
            return Err(message("Path is not a file: ", path));
        }
        assert(strings_view(parts@).skip(0) =~= strings_view(parts@));
        let ghost old_fs = self@;
        match resolve_mut_in_entries(&mut self.root, &parts, 0) {
            Some(e) => {
                match &mut e.data {
                    FilesystemData::File { content } => {
                        *content = copy_bytes(data);
                        Ok(())
                    },
                    _ => {
                        proof {
                            laws::lemma_modify_same(old_fs, strings_view(parts@));
                        }
                        Err(message("Path is not a file: ", path))
                    },
                }
            },
            None => Err(message("File does not exist: ", path)),
        }
    }

    /// Removes the entry that `path` designates from its directory.
    pub fn remove(&mut self, path: &str, pwd: Option<&str>) -> (res: Result<(), String>)
        ensures
            match remove_outcome(old(self)@, path@, opt_str_view(pwd)) {
                Ok(m) => res is Ok && final(self)@ == m,
                Err(msg) => res is Err && res->Err_0@ == msg && final(self)@ == old(self)@,
            },
    {
        let mut parts = resolve_parts(path, pwd);
        if parts.len() == 0 {
            return Err(owned("Cannot remove root"));
        }
        let ghost pv = strings_view(parts@);
        let name = parts.pop().unwrap();
        assert(strings_view(parts@) =~= pv.drop_last());
        if parts.len() == 0 {
            match position_in(&self.root, &name) {
                Some(idx) => {
                    proof {
                        lemma_models_remove(self.root@, idx as int);
                    }
                    self.root.remove(idx);
                    Ok(())
                },
                None => Err(message("Path does not exist: ", path)),
            }
        } else {
            assert(strings_view(parts@).skip(0) =~= strings_view(parts@));
            let ghost old_fs = self@;
            match resolve_mut_in_entries(&mut self.root, &parts, 0) {
                Some(e) => {
                    match &mut e.data {
                        FilesystemData::Directory { children } => {
                            match position_in(children, &name) {
                                Some(idx) => {
                                    proof {
                                        lemma_models_remove(children@, idx as int);
                                    }
                                    children.remove(idx);
                                    Ok(())
                                },
                                None => {
                                    proof {
                                        laws::lemma_modify_same(old_fs, strings_view(parts@));
                                    }
                                    Err(message("Path does not exist: ", path))
                                },
                            }
                        },
                        _ => {
                            proof {
                                laws::lemma_modify_same(old_fs, strings_view(parts@));
                            }
                            Err(owned("Parent path is not a directory"))
                        },
                    }
                },
                None => Err(owned("Parent directory does not exist")),
            }
        }
    }
}

} // verus!
