//! Laws of the filesystem operations: what a read gives back after a write,
//! and what a removal undoes.
use vstd::prelude::*;
use super::model::{lemma_position_of, position_from};
use super::frame::{
    lemma_count_modify, lemma_count_remove, lemma_lookup_append, lemma_lookup_deeper_none, lemma_lookup_push_other,
    lemma_lookup_remove_other, lemma_modify_above, lemma_modify_apart, path_prefix,
};
use super::path::{normalize, resolved_parts, split_slash, target_chars, is_dot, is_dot_dot, apply_piece};
use super::{
    byte_count, create_outcome, entries_bytes, entries_count, entry_count, join_slash, root_model, leaf_of, lookup, modify_at, parent_of, position_of, remove_outcome, last_index_of,
    lemma_last_index_of, DataModel, EntryModel,
};

verus! {

proof fn lemma_position_from_update(entries: Seq<EntryModel>, i: int, e: EntryModel, x: Seq<char>, start: nat)
    requires
        0 <= i < entries.len(),
        e.name == entries[i].name,
    ensures
        position_from(entries.update(i, e), x, start) == position_from(entries, x, start),
    decreases entries.len() - start,
{
    if start < entries.len() {
        lemma_position_from_update(entries, i, e, x, start + 1);
    }
}

pub(crate) proof fn lemma_position_update(entries: Seq<EntryModel>, i: int, e: EntryModel, x: Seq<char>)
    requires
        0 <= i < entries.len(),
        e.name == entries[i].name,
    ensures
        position_of(entries.update(i, e), x) == position_of(entries, x),
{
    lemma_position_from_update(entries, i, e, x, 0);
}

/// After the entry at `parts` is replaced by one of the same name, `parts` designates the new one.
pub proof fn lemma_lookup_modify(entries: Seq<EntryModel>, parts: Seq<Seq<char>>, n: EntryModel)
    requires
        parts.len() > 0,
        lookup(entries, parts) is Some,
        n.name == lookup(entries, parts)->0.name,
    ensures
        lookup(modify_at(entries, parts, n), parts) == Some(n),
    decreases parts.len(),
{
    lemma_position_of(entries, parts[0]);
    let i = position_of(entries, parts[0])->0;
    if parts.len() == 1 {
        lemma_position_update(entries, i, n, parts[0]);
    } else {
        let ch = entries[i].data->Directory_0;
        lemma_lookup_modify(ch, parts.drop_first(), n);
        let ne = EntryModel {
            name: entries[i].name,
            data: DataModel::Directory(modify_at(ch, parts.drop_first(), n)),
        };
        lemma_position_update(entries, i, ne, parts[0]);
    }
}

/// Replacing an entry by itself changes nothing.
pub proof fn lemma_modify_same(entries: Seq<EntryModel>, parts: Seq<Seq<char>>)
    requires
        lookup(entries, parts) is Some,
    ensures
        modify_at(entries, parts, lookup(entries, parts)->0) == entries,
    decreases parts.len(),
{
    if parts.len() > 0 {
        lemma_position_of(entries, parts[0]);
        let i = position_of(entries, parts[0])->0;
        if parts.len() == 1 {
            assert(entries.update(i, entries[i]) =~= entries);
        } else {
            let ch = entries[i].data->Directory_0;
            lemma_modify_same(ch, parts.drop_first());
            assert(entries.update(
                i,
                EntryModel {
                    name: entries[i].name,
                    data: DataModel::Directory(modify_at(ch, parts.drop_first(), lookup(ch, parts.drop_first())->0)),
                },
            ) =~= entries);
        }
    }
}

/// Two replacements at the same path leave only the second.
pub proof fn lemma_modify_twice(entries: Seq<EntryModel>, parts: Seq<Seq<char>>, a: EntryModel, b: EntryModel)
    requires
        parts.len() > 0,
        lookup(entries, parts) is Some,
        a.name == lookup(entries, parts)->0.name,
    ensures
        modify_at(modify_at(entries, parts, a), parts, b) == modify_at(entries, parts, b),
    decreases parts.len(),
{
    lemma_position_of(entries, parts[0]);
    let i = position_of(entries, parts[0])->0;
    if parts.len() == 1 {
        lemma_position_update(entries, i, a, parts[0]);
        assert(entries.update(i, a).update(i, b) =~= entries.update(i, b));
    } else {
        let ch = entries[i].data->Directory_0;
        let rest = parts.drop_first();
        lemma_modify_twice(ch, rest, a, b);
        let na = EntryModel { name: entries[i].name, data: DataModel::Directory(modify_at(ch, rest, a)) };
        lemma_position_update(entries, i, na, parts[0]);
        let m1 = entries.update(i, na);
        assert(m1[i].data->Directory_0 == modify_at(ch, rest, a));
        assert(modify_at(m1, parts, b) =~= modify_at(entries, parts, b));
    }
}

/// What a path one name longer designates: that name in the directory that the shorter path designates.
pub proof fn lemma_lookup_push(entries: Seq<EntryModel>, parts: Seq<Seq<char>>, x: Seq<char>)
    ensures
        lookup(entries, parts.push(x)) == match lookup(entries, parts) {
            Some(t) => match t.data {
                DataModel::Directory(ch) => match position_of(ch, x) {
                    Some(i) => Some(ch[i]),
                    None => None,
                },
                _ => None,
            },
            None => None,
        },
    decreases parts.len(),
{
    if parts.len() > 0 {
        assert(parts.push(x)[0] == parts[0]);
        assert(parts.push(x).drop_first() =~= parts.drop_first().push(x));
        lemma_position_of(entries, parts[0]);
        if parts.len() > 1 {
            let i = position_of(entries, parts[0])->0;
            if entries[i].data is Directory {
                lemma_lookup_push(entries[i].data->Directory_0, parts.drop_first(), x);
            }
        } else {
            assert(parts.drop_first() =~= Seq::<Seq<char>>::empty());
        }
    } else {
        assert(parts.push(x) =~= seq![x]);
    }
}

/// Law: after `write_file` replaces the content of the file at a path, the
/// path designates a file of the same name holding exactly the new data
/// (so `read_file` gives the data back).
pub proof fn law_read_after_write(fs: Seq<EntryModel>, parts: Seq<Seq<char>>, data: Seq<u8>)
    requires
        lookup(fs, parts) is Some,
        lookup(fs, parts)->0.data is File,
    ensures
        ({
            let n = EntryModel { name: lookup(fs, parts)->0.name, data: DataModel::File(data) };
            lookup(modify_at(fs, parts, n), parts) == Some(n)
        }),
{
    lemma_lookup_modify(
        fs,
        parts,
        EntryModel { name: lookup(fs, parts)->0.name, data: DataModel::File(data) },
    );
}

/// Whether a new entry made at `path` is what `path` designates afterwards:
/// the path is its parent part followed by its last name, and the parent
/// part does not designate the root (where a new entry is not kept).
pub open spec fn creates_below_parent(path: Seq<char>, pwd: Option<Seq<char>>) -> bool {
    let pp = resolved_parts(parent_of(path), pwd);
    &&& pp.len() > 0
    &&& resolved_parts(path, pwd) == pp.push(leaf_of(path))
}

pub(crate) proof fn lemma_position_push_new(ch: Seq<EntryModel>, c: EntryModel)
    requires
        position_of(ch, c.name) is None,
    ensures
        position_of(ch.push(c), c.name) == Some(ch.len() as int),
{
    lemma_position_of(ch, c.name);
    lemma_position_of(ch.push(c), c.name);
    assert(ch.push(c)[ch.len() as int] == c);
    assert forall|j: int| 0 <= j < ch.len() implies ch.push(c)[j] == ch[j] by {}
}

/// Law: a file made by `create_file` below a directory can be read back
/// with the data it was made with.
pub proof fn law_read_after_create(fs: Seq<EntryModel>, path: Seq<char>, pwd: Option<Seq<char>>, data: Seq<u8>)
    requires
        creates_below_parent(path, pwd),
        create_outcome(fs, path, pwd, EntryModel { name: leaf_of(path), data: DataModel::File(data) }) is Ok,
    ensures
        lookup(
            create_outcome(fs, path, pwd, EntryModel { name: leaf_of(path), data: DataModel::File(data) })->Ok_0,
            resolved_parts(path, pwd),
        ) == Some(EntryModel { name: leaf_of(path), data: DataModel::File(data) }),
{
    let c = EntryModel { name: leaf_of(path), data: DataModel::File(data) };
    let pp = resolved_parts(parent_of(path), pwd);
    let p = lookup(fs, pp)->0;
    let ch = p.data->Directory_0;
    let np = EntryModel { name: p.name, data: DataModel::Directory(ch.push(c)) };
    let fs2 = modify_at(fs, pp, np);
    lemma_lookup_modify(fs, pp, np);
    lemma_lookup_push(fs, pp, leaf_of(path));
    lemma_lookup_push(fs2, pp, leaf_of(path));
    assert(position_of(ch, leaf_of(path)) is None);
    lemma_position_push_new(ch, c);
}

/// Whether no two entries of a directory share a name.
pub open spec fn unique_names(ch: Seq<EntryModel>) -> bool {
    forall|i: int, j: int| 0 <= i < j < ch.len() ==> ch[i].name != ch[j].name
}

/// Law: when `remove` succeeds in a directory whose names are unique, the
/// path and everything below it designate nothing afterwards, its parent
/// holds its former entries but the removed one, the rest in the same order,
/// the directories above keep their names, every other path designates what
/// it did, and the filesystem counts the removed entry's count fewer entries.
pub proof fn law_remove_takes_out_only_the_entry(fs: Seq<EntryModel>, path: Seq<char>, pwd: Option<Seq<char>>)
    requires
        remove_outcome(fs, path, pwd) is Ok,
        lookup(fs, resolved_parts(path, pwd).drop_last()) matches Some(p) && p.data matches DataModel::Directory(
            ch,
        ) && unique_names(ch),
    ensures
        ({
            let parts = resolved_parts(path, pwd);
            let pp = parts.drop_last();
            let p = lookup(fs, pp)->0;
            let ch = p.data->Directory_0;
            let i = position_of(ch, parts.last())->0;
            let m = remove_outcome(fs, path, pwd)->Ok_0;
            &&& 0 <= i < ch.len()
            &&& lookup(fs, parts) == Some(ch[i])
            &&& lookup(m, parts) is None
            &&& lookup(m, pp) == Some(EntryModel { name: p.name, data: DataModel::Directory(ch.remove(i)) })
            &&& forall|q: Seq<Seq<char>>| path_prefix(parts, q) ==> #[trigger] lookup(m, q) is None
            &&& forall|q: Seq<Seq<char>>|
                !path_prefix(q, parts) && !path_prefix(parts, q) ==> #[trigger] lookup(m, q) == lookup(fs, q)
            &&& forall|q: Seq<Seq<char>>|
                path_prefix(q, pp) && q.len() < pp.len() ==> (#[trigger] lookup(m, q) matches Some(e)
                    && e.data is Directory && e.name == lookup(fs, q)->0.name)
            &&& entries_count(m) == entries_count(fs) - entry_count(ch[i])
        }),
{
    let parts = resolved_parts(path, pwd);
    let pp = parts.drop_last();
    let x = parts.last();
    let p = lookup(fs, pp)->0;
    let ch = p.data->Directory_0;
    let i = position_of(ch, x)->0;
    let rest = ch.remove(i);
    let np = EntryModel { name: p.name, data: DataModel::Directory(rest) };
    let m = remove_outcome(fs, path, pwd)->Ok_0;
    assert(pp.push(x) =~= parts);
    lemma_position_of(ch, x);
    lemma_lookup_push(fs, pp, x);
    lemma_position_of(rest, x);
    assert forall|j: int| 0 <= j < rest.len() implies rest[j].name != x by {
        if j < i {
            assert(rest[j] == ch[j]);
        } else {
            assert(rest[j] == ch[j + 1]);
        }
    }
    if pp.len() == 0 {
        assert(m == rest);
        assert(p == root_model(fs));
        lemma_lookup_push(m, pp, x);
        lemma_count_remove(ch, i);
    } else {
        assert(m == modify_at(fs, pp, np));
        lemma_lookup_modify(fs, pp, np);
        lemma_lookup_push(m, pp, x);
        lemma_count_modify(fs, pp, np);
        lemma_count_remove(ch, i);
    }
    assert(parts.take(pp.len() as int) =~= pp);
    assert forall|q: Seq<Seq<char>>| path_prefix(parts, q) implies #[trigger] lookup(m, q) is None by {
        if q.len() > parts.len() {
            assert(q =~= parts + q.skip(parts.len() as int));
            lemma_lookup_deeper_none(m, parts, q.skip(parts.len() as int));
        } else {
            assert(q =~= parts);
        }
    }
    assert forall|q: Seq<Seq<char>>|
        !path_prefix(q, parts) && !path_prefix(parts, q) implies #[trigger] lookup(m, q) == lookup(fs, q) by {
        if path_prefix(pp, q) {
            if q.len() == pp.len() {
                assert(q =~= pp);
            }
            let r = q.skip(pp.len() as int);
            assert(q =~= pp + r);
            if r[0] == x {
                assert(q.take(parts.len() as int) =~= parts);
                assert(path_prefix(parts, q));
            }
            assert(r.len() > 0 && r[0] != ch[i].name);
            if pp.len() == 0 {
                assert(q =~= r);
                assert(ch == fs);
                lemma_lookup_remove_other(ch, i, r);
                assert(lookup(m, q) == lookup(fs, q));
            } else {
                lemma_lookup_append(m, pp, r);
                lemma_lookup_append(fs, pp, r);
                lemma_lookup_remove_other(ch, i, r);
            }
        } else if path_prefix(q, pp) {
            assert(parts.take(q.len() as int) =~= pp.take(q.len() as int));
        } else {
            if pp.len() == 0 {
                assert(q.take(0) =~= pp);
            }
            lemma_modify_apart(fs, pp, np, q);
        }
    }
    assert forall|q: Seq<Seq<char>>|
        path_prefix(q, pp) && q.len() < pp.len() implies (#[trigger] lookup(m, q) matches Some(e) && e.data is Directory
        && e.name == lookup(fs, q)->0.name) by {
        lemma_modify_above(fs, pp, np, q);
    }
}

/// Law: removing what `create_file` just made below a directory gives back
/// the filesystem as it was before.
pub proof fn law_remove_undoes_create(fs: Seq<EntryModel>, path: Seq<char>, pwd: Option<Seq<char>>, data: Seq<u8>)
    requires
        creates_below_parent(path, pwd),
        create_outcome(fs, path, pwd, EntryModel { name: leaf_of(path), data: DataModel::File(data) }) is Ok,
    ensures
        remove_outcome(
            create_outcome(fs, path, pwd, EntryModel { name: leaf_of(path), data: DataModel::File(data) })->Ok_0,
            path,
            pwd,
        ) == Ok::<Seq<EntryModel>, Seq<char>>(fs),
{
    let c = EntryModel { name: leaf_of(path), data: DataModel::File(data) };
    let pp = resolved_parts(parent_of(path), pwd);
    let parts = resolved_parts(path, pwd);
    let p = lookup(fs, pp)->0;
    let ch = p.data->Directory_0;
    let np = EntryModel { name: p.name, data: DataModel::Directory(ch.push(c)) };
    let fs2 = modify_at(fs, pp, np);
    lemma_lookup_modify(fs, pp, np);
    lemma_lookup_push(fs, pp, leaf_of(path));
    assert(position_of(ch, leaf_of(path)) is None);
    lemma_position_push_new(ch, c);
    assert(parts.drop_last() =~= pp);
    assert(parts.last() == leaf_of(path));
    assert(position_of(ch.push(c), leaf_of(path)) == Some(ch.len() as int));
    assert(ch.push(c).remove(ch.len() as int) =~= ch);
    assert(EntryModel { name: p.name, data: DataModel::Directory(ch) } == p);
    lemma_modify_twice(fs, pp, np, p);
    lemma_modify_same(fs, pp);
}


pub proof fn lemma_split_no_slash(b: Seq<char>)
    requires
        forall|j: int| 0 <= j < b.len() ==> b[j] != '/',
    ensures
        split_slash(b) == seq![b],
    decreases b.len(),
{
    if b.len() > 0 {
        lemma_split_no_slash(b.drop_last());
        assert(b.drop_last().push(b.last()) =~= b);
        assert(seq![b.drop_last()].update(0, b.drop_last().push(b.last())) =~= seq![b]);
    } else {
        assert(b =~= Seq::<char>::empty());
    }
}

pub proof fn lemma_split_after_slash(a: Seq<char>, b: Seq<char>)
    requires
        forall|j: int| 0 <= j < b.len() ==> b[j] != '/',
    ensures
        split_slash(a + seq!['/'] + b) == split_slash(a).push(b),
    decreases b.len(),
{
    let s = a + seq!['/'] + b;
    if b.len() == 0 {
        assert(s.drop_last() =~= a);
        assert(b =~= Seq::<char>::empty());
    } else {
        lemma_split_after_slash(a, b.drop_last());
        assert(s.drop_last() =~= a + seq!['/'] + b.drop_last());
        assert(s.last() == b.last());
        let prev = split_slash(a).push(b.drop_last());
        assert(b.drop_last().push(b.last()) =~= b);
        assert(prev.last() == b.drop_last());
        assert(prev.update(prev.len() - 1, prev.last().push(b.last())) =~= split_slash(a).push(b));
    }
}

proof fn lemma_normalize_push_proper(pieces: Seq<Seq<char>>, leaf: Seq<char>)
    requires
        leaf.len() > 0,
        !is_dot(leaf),
        !is_dot_dot(leaf),
    ensures
        normalize(pieces.push(leaf)) == normalize(pieces).push(leaf),
{
    assert(pieces.push(leaf).drop_last() =~= pieces);
}

proof fn lemma_normalize_push_empty(pieces: Seq<Seq<char>>)
    ensures
        normalize(pieces.push(Seq::<char>::empty())) == normalize(pieces),
{
    assert(pieces.push(Seq::<char>::empty()).drop_last() =~= pieces);
}

/// Law: a path whose last name is a proper name (not empty, `.` or `..`),
/// and that is not a single name right after a leading `/`, resolves to the
/// resolution of its parent part followed by that name.
pub proof fn law_child_path_resolution(path: Seq<char>, pwd: Option<Seq<char>>)
    requires
        leaf_of(path).len() > 0,
        !is_dot(leaf_of(path)),
        !is_dot_dot(leaf_of(path)),
        last_index_of(path, '/') != Some(0int),
    ensures
        resolved_parts(path, pwd) == resolved_parts(parent_of(path), pwd).push(leaf_of(path)),
{
    lemma_last_index_of(path, '/');
    let leaf = leaf_of(path);
    let parent = parent_of(path);
    match last_index_of(path, '/') {
        Some(k) => {
            assert(path =~= parent + seq!['/'] + leaf);
            assert forall|j: int| 0 <= j < leaf.len() implies leaf[j] != '/' by {
                assert(leaf[j] == path[k + 1 + j]);
            }
            let t = target_chars(parent, pwd);
            assert(parent[0] == path[0]);
            if path[0] == '/' {
                assert(path.drop_first() =~= parent.drop_first() + seq!['/'] + leaf);
            } else {
                match pwd {
                    Some(w) => {
                        assert(w + seq!['/'] + path =~= (w + seq!['/'] + parent) + seq!['/'] + leaf);
                    },
                    None => {},
                }
            }
            assert(target_chars(path, pwd) == t + seq!['/'] + leaf);
            lemma_split_after_slash(t, leaf);
            lemma_normalize_push_proper(split_slash(t), leaf);
        },
        None => {
            assert(leaf == path);
            assert(parent =~= Seq::<char>::empty());
            match pwd {
                Some(w) => {
                    assert(target_chars(parent, pwd) =~= w + seq!['/'] + Seq::<char>::empty());
                    lemma_split_after_slash(w, Seq::<char>::empty());
                    lemma_normalize_push_empty(split_slash(w));
                    assert(target_chars(path, pwd) == w + seq!['/'] + leaf);
                    lemma_split_after_slash(w, leaf);
                    lemma_normalize_push_proper(split_slash(w), leaf);
                },
                None => {
                    assert(target_chars(parent, pwd) =~= Seq::<char>::empty());
                    assert(split_slash(Seq::<char>::empty()) == seq![Seq::<char>::empty()]);
                    lemma_normalize_push_empty(Seq::<Seq<char>>::empty());
                    assert(seq![Seq::<char>::empty()] =~= Seq::<Seq<char>>::empty().push(Seq::<char>::empty()));
                    lemma_split_no_slash(leaf);
                    lemma_normalize_push_proper(Seq::<Seq<char>>::empty(), leaf);
                    assert(seq![leaf] =~= Seq::<Seq<char>>::empty().push(leaf));
                },
            }
        },
    }
}

/// Whether no name holds a `/`.
pub open spec fn slash_free(parts: Seq<Seq<char>>) -> bool {
    forall|i: int, j: int| 0 <= i < parts.len() && 0 <= j < parts[i].len() ==> #[trigger] parts[i][j] != '/'
}

pub(crate) proof fn lemma_split_slash_free(s: Seq<char>)
    ensures
        slash_free(split_slash(s)),
        split_slash(s).len() > 0,
    decreases s.len(),
{
    if s.len() > 0 {
        lemma_split_slash_free(s.drop_last());
        let prev = split_slash(s.drop_last());
        let c = s.last();
        if c != '/' {
            let n = prev.update(prev.len() - 1, prev.last().push(c));
            assert(split_slash(s) == n);
            assert forall|i: int, j: int| 0 <= i < n.len() && 0 <= j < n[i].len() implies #[trigger] n[i][j] != '/' by {
                if i == prev.len() - 1 {
                    assert(n[i] == prev.last().push(c));
                    if j < prev.last().len() {
                        assert(n[i][j] == prev[prev.len() - 1][j]);
                    } else {
                        assert(n[i][j] == c);
                    }
                } else {
                    assert(n[i] == prev[i]);
                }
            }
        } else {
            let n = prev.push(Seq::<char>::empty());
            assert(split_slash(s) == n);
            assert forall|i: int, j: int| 0 <= i < n.len() && 0 <= j < n[i].len() implies #[trigger] n[i][j] != '/' by {
                if i < prev.len() {
                    assert(n[i] == prev[i]);
                } else {
                    assert(n[i] == Seq::<char>::empty());
                }
            }
        }
    }
}

pub(crate) proof fn lemma_normalize_slash_free(pieces: Seq<Seq<char>>)
    requires
        slash_free(pieces),
    ensures
        slash_free(normalize(pieces)),
    decreases pieces.len(),
{
    if pieces.len() > 0 {
        let front = pieces.drop_last();
        assert(slash_free(front)) by {
            assert forall|i: int, j: int| 0 <= i < front.len() && 0 <= j < front[i].len() implies #[trigger] front[i][j]
                != '/' by {
                assert(front[i] == pieces[i]);
            }
        }
        lemma_normalize_slash_free(front);
        let acc = normalize(front);
        let r = apply_piece(acc, pieces.last());
        assert forall|i: int, j: int| 0 <= i < r.len() && 0 <= j < r[i].len() implies #[trigger] r[i][j] != '/' by {
            if i < acc.len() {
                assert(r[i] == acc[i]);
            } else {
                assert(r[i] == pieces[pieces.len() - 1]);
            }
        }
    }
}

pub(crate) proof fn lemma_split_join(parts: Seq<Seq<char>>)
    requires
        parts.len() > 0,
        slash_free(parts),
    ensures
        split_slash(join_slash(parts)) == parts,
    decreases parts.len(),
{
    if parts.len() == 1 {
        assert forall|j: int| 0 <= j < parts[0].len() implies parts[0][j] != '/' by {
            assert(parts[0][j] != '/');
        }
        lemma_split_no_slash(parts[0]);
        assert(seq![parts[0]] =~= parts);
    } else {
        let front = parts.drop_last();
        assert(slash_free(front)) by {
            assert forall|i: int, j: int| 0 <= i < front.len() && 0 <= j < front[i].len() implies #[trigger] front[i][j]
                != '/' by {
                assert(front[i] == parts[i]);
            }
        }
        lemma_split_join(front);
        let last = parts.last();
        assert forall|j: int| 0 <= j < last.len() implies last[j] != '/' by {
            assert(parts[parts.len() - 1][j] != '/');
        }
        lemma_split_after_slash(join_slash(front), last);
        assert(front.push(last) =~= parts);
    }
}

/// Law: the absolute path that `resolve_path` gives for a path is a normal
/// form: its names are proper (none empty, `.` or `..`), and resolving it
/// again from any working directory gives the same names, so it designates
/// the same entry of any filesystem.
pub proof fn law_resolved_path_round_trip(path: Seq<char>, pwd: Option<Seq<char>>, other: Option<Seq<char>>, fs: Seq<EntryModel>)
    ensures
        ({
            let parts = resolved_parts(path, pwd);
            let normal = seq!['/'] + join_slash(parts);
            &&& super::path::proper_names(parts)
            &&& resolved_parts(normal, other) == parts
            &&& lookup(fs, resolved_parts(normal, other)) == lookup(fs, resolved_parts(path, pwd))
        }),
{
    let parts = resolved_parts(path, pwd);
    let pieces = split_slash(target_chars(path, pwd));
    lemma_split_slash_free(target_chars(path, pwd));
    lemma_normalize_slash_free(pieces);
    super::path::lemma_normalize_proper(pieces);
    let j = join_slash(parts);
    assert((seq!['/'] + j).drop_first() =~= j);
    assert(target_chars(seq!['/'] + j, None) == j);
    assert(target_chars(seq!['/'] + j, other) == j);
    if parts.len() == 0 {
        assert(j =~= Seq::<char>::empty());
        assert(split_slash(Seq::<char>::empty()) == seq![Seq::<char>::empty()]);
        assert(normalize(seq![Seq::<char>::empty()]) == apply_piece(normalize(Seq::<Seq<char>>::empty()), Seq::<char>::empty())) by {
            assert(seq![Seq::<char>::empty()].drop_last() =~= Seq::<Seq<char>>::empty());
        }
        assert(normalize(seq![Seq::<char>::empty()]) =~= parts);
    } else {
        lemma_split_join(parts);
        super::path::lemma_normalize_proper_id(parts);
    }
}

/// Law: a file or a symbolic link counts as one entry and holds the bytes
/// of its content (a link none); a directory counts, and holds, what its
/// children do, summed in order (the directory itself is not counted).
pub proof fn law_entry_sizes(e: EntryModel, ch: Seq<EntryModel>, c: EntryModel)
    ensures
        e.data is Directory ==> entry_count(e) == entries_count(e.data->Directory_0) && byte_count(e)
            == entries_bytes(e.data->Directory_0),
        e.data is File ==> entry_count(e) == 1 && byte_count(e) == e.data->File_0.len(),
        e.data is SymbolicLink ==> entry_count(e) == 1 && byte_count(e) == 0,
        entries_count(Seq::<EntryModel>::empty()) == 0 && entries_bytes(Seq::<EntryModel>::empty()) == 0,
        entries_count(ch.push(c)) == entries_count(ch) + entry_count(c),
        entries_bytes(ch.push(c)) == entries_bytes(ch) + byte_count(c),
{
    assert(ch.push(c).drop_last() =~= ch);
}

/// An absolute path written from proper names resolves, from anywhere, to
/// those names.
pub proof fn lemma_absolute_names(parts: Seq<Seq<char>>, pwd: Option<Seq<char>>)
    requires
        parts.len() > 0,
        slash_free(parts),
        super::path::proper_names(parts),
    ensures
        resolved_parts(seq!['/'] + join_slash(parts), pwd) == parts,
{
    let j = join_slash(parts);
    assert((seq!['/'] + j).drop_first() =~= j);
    assert(target_chars(seq!['/'] + j, pwd) == j);
    lemma_split_join(parts);
    super::path::lemma_normalize_proper_id(parts);
}

/// Characters without `c` after a text do not move its last `c`.
pub proof fn lemma_last_index_skip(s: Seq<char>, t: Seq<char>, c: char)
    requires
        forall|j: int| 0 <= j < t.len() ==> t[j] != c,
    ensures
        last_index_of(s + t, c) == last_index_of(s, c),
    decreases t.len(),
{
    if t.len() > 0 {
        assert((s + t).drop_last() =~= s + t.drop_last());
        assert((s + t).last() == t.last());
        lemma_last_index_skip(s, t.drop_last(), c);
    } else {
        assert(s + t =~= s);
    }
}

/// Below an empty directory nothing is found.
pub proof fn lemma_lookup_under_empty(entries: Seq<EntryModel>, parts: Seq<Seq<char>>, more: Seq<Seq<char>>)
    requires
        lookup(entries, parts) matches Some(e) && e.data == DataModel::Directory(Seq::<EntryModel>::empty()),
        more.len() > 0,
    ensures
        lookup(entries, parts + more) is None,
    decreases more.len(),
{
    let front = more.drop_last();
    assert(parts + more =~= (parts + front).push(more.last()));
    lemma_lookup_push(entries, parts + front, more.last());
    if front.len() == 0 {
        assert(parts + front =~= parts);
    } else {
        lemma_lookup_under_empty(entries, parts, front);
    }
}

proof fn lemma_position_from_push(ch: Seq<EntryModel>, c: EntryModel, x: Seq<char>, start: nat)
    requires
        position_from(ch, x, start) is Some,
    ensures
        position_from(ch.push(c), x, start) == position_from(ch, x, start),
    decreases ch.len() - start,
{
    if start < ch.len() {
        assert(ch.push(c)[start as int] == ch[start as int]);
        if ch[start as int].name != x {
            lemma_position_from_push(ch, c, x, start + 1);
        }
    }
}

/// A new entry at the end of a directory leaves every path found in it as it was.
proof fn lemma_lookup_push_entry(ch: Seq<EntryModel>, c: EntryModel, r: Seq<Seq<char>>)
    requires
        r.len() > 0,
        lookup(ch, r) is Some,
    ensures
        lookup(ch.push(c), r) == lookup(ch, r),
{
    lemma_position_from_push(ch, c, r[0], 0);
    let k = position_of(ch, r[0])->0;
    lemma_position_of(ch, r[0]);
    assert(ch.push(c)[k] == ch[k]);
}

/// What an entry becomes, when it is kept: the same name, a directory
/// stays a directory, and anything else stays exactly as it was.
pub open spec fn kept_entry(e: EntryModel, o: Option<EntryModel>) -> bool {
    &&& o is Some
    &&& o->0.name == e.name
    &&& (e.data is Directory ==> o->0.data is Directory)
    &&& (!(e.data is Directory) ==> o->0 == e)
}

/// Whether everything found in `fs` is kept in `m`.
pub open spec fn keeps_all(fs: Seq<EntryModel>, m: Seq<EntryModel>) -> bool {
    forall|q: Seq<Seq<char>>| #[trigger] lookup(fs, q) is Some ==> kept_entry(lookup(fs, q)->0, lookup(m, q))
}

/// Adding a new entry to a directory keeps everything found before.
pub proof fn lemma_add_child_keeps(fs: Seq<EntryModel>, dir: Seq<Seq<char>>, c: EntryModel, q: Seq<Seq<char>>)
    requires
        lookup(fs, dir) matches Some(p) && p.data is Directory,
        lookup(fs, q) is Some,
    ensures
        ({
            let p = lookup(fs, dir)->0;
            let np = EntryModel { name: p.name, data: DataModel::Directory(p.data->Directory_0.push(c)) };
            kept_entry(lookup(fs, q)->0, lookup(modify_at(fs, dir, np), q))
        }),
    decreases q.len(),
{
    let p = lookup(fs, dir)->0;
    let np = EntryModel { name: p.name, data: DataModel::Directory(p.data->Directory_0.push(c)) };
    let m = modify_at(fs, dir, np);
    if dir.len() == 0 || q.len() == 0 {
    } else {
        lemma_position_of(fs, dir[0]);
        lemma_position_of(fs, q[0]);
        let j = position_of(fs, dir[0])->0;
        let i = position_of(fs, q[0])->0;
        let x = if dir.len() == 1 {
            np
        } else {
            EntryModel {
                name: fs[j].name,
                data: DataModel::Directory(modify_at(fs[j].data->Directory_0, dir.drop_first(), np)),
            }
        };
        assert(m == fs.update(j, x));
        lemma_position_update(fs, j, x, q[0]);
        if i != j {
            assert(m[i] == fs[i]);
        } else if q.len() == 1 {
        } else {
            let chi = fs[i].data->Directory_0;
            if dir.len() == 1 {
                lemma_lookup_push_entry(chi, c, q.drop_first());
            } else {
                lemma_add_child_keeps(chi, dir.drop_first(), c, q.drop_first());
            }
        }
    }
}

/// Law: after `write_file` replaces the content of the file at a path, the
/// path designates a file of the same name holding the new data, every path
/// that is neither that file nor a directory above it designates what it
/// did, and the directories above keep their names.
pub proof fn law_write_file_leaves_the_rest(fs: Seq<EntryModel>, parts: Seq<Seq<char>>, data: Seq<u8>)
    requires
        lookup(fs, parts) matches Some(e) && e.data is File,
    ensures
        ({
            let n = EntryModel { name: lookup(fs, parts)->0.name, data: DataModel::File(data) };
            let m = modify_at(fs, parts, n);
            &&& lookup(m, parts) == Some(n)
            &&& forall|q: Seq<Seq<char>>| !path_prefix(q, parts) ==> #[trigger] lookup(m, q) == lookup(fs, q)
            &&& forall|q: Seq<Seq<char>>|
                path_prefix(q, parts) && q.len() < parts.len() ==> (#[trigger] lookup(m, q) matches Some(e)
                    && e.data is Directory && e.name == lookup(fs, q)->0.name)
        }),
{
    let n = EntryModel { name: lookup(fs, parts)->0.name, data: DataModel::File(data) };
    let m = modify_at(fs, parts, n);
    assert(parts.len() > 0);
    lemma_lookup_modify(fs, parts, n);
    assert forall|q: Seq<Seq<char>>| !path_prefix(q, parts) implies #[trigger] lookup(m, q) == lookup(fs, q) by {
        if path_prefix(parts, q) {
            if q.len() == parts.len() {
                assert(q =~= parts);
            }
            let r = q.skip(parts.len() as int);
            assert(q =~= parts + r);
            lemma_lookup_deeper_none(fs, parts, r);
            lemma_lookup_deeper_none(m, parts, r);
        } else {
            lemma_modify_apart(fs, parts, n, q);
        }
    }
    assert forall|q: Seq<Seq<char>>|
        path_prefix(q, parts) && q.len() < parts.len() implies (#[trigger] lookup(m, q) matches Some(e)
        && e.data is Directory && e.name == lookup(fs, q)->0.name) by {
        lemma_modify_above(fs, parts, n, q);
    }
}

/// Law: a file made by `create_file` below a directory goes last among that
/// directory's entries; every path that is neither the new file nor a
/// directory above it designates what it did, and the directories above the
/// parent keep their names.
pub proof fn law_create_file_leaves_the_rest(fs: Seq<EntryModel>, path: Seq<char>, pwd: Option<Seq<char>>, data: Seq<u8>)
    requires
        creates_below_parent(path, pwd),
        create_outcome(fs, path, pwd, EntryModel { name: leaf_of(path), data: DataModel::File(data) }) is Ok,
    ensures
        ({
            let c = EntryModel { name: leaf_of(path), data: DataModel::File(data) };
            let parts = resolved_parts(path, pwd);
            let pp = resolved_parts(parent_of(path), pwd);
            let p = lookup(fs, pp)->0;
            let m = create_outcome(fs, path, pwd, c)->Ok_0;
            &&& lookup(m, pp) == Some(
                EntryModel { name: p.name, data: DataModel::Directory(p.data->Directory_0.push(c)) },
            )
            &&& lookup(m, parts) == Some(c)
            &&& forall|q: Seq<Seq<char>>| !path_prefix(q, parts) ==> #[trigger] lookup(m, q) == lookup(fs, q)
            &&& forall|q: Seq<Seq<char>>|
                path_prefix(q, pp) && q.len() < pp.len() ==> (#[trigger] lookup(m, q) matches Some(e)
                    && e.data is Directory && e.name == lookup(fs, q)->0.name)
        }),
{
    let c = EntryModel { name: leaf_of(path), data: DataModel::File(data) };
    let parts = resolved_parts(path, pwd);
    let pp = resolved_parts(parent_of(path), pwd);
    let p = lookup(fs, pp)->0;
    let ch = p.data->Directory_0;
    let np = EntryModel { name: p.name, data: DataModel::Directory(ch.push(c)) };
    let m = create_outcome(fs, path, pwd, c)->Ok_0;
    law_read_after_create(fs, path, pwd, data);
    assert(m == modify_at(fs, pp, np));
    lemma_lookup_modify(fs, pp, np);
    assert(parts.take(pp.len() as int) =~= pp);
    assert forall|q: Seq<Seq<char>>| !path_prefix(q, parts) implies #[trigger] lookup(m, q) == lookup(fs, q) by {
        if path_prefix(pp, q) {
            if q.len() == pp.len() {
                assert(q =~= pp);
            }
            let r = q.skip(pp.len() as int);
            assert(q =~= pp + r);
            if r[0] == c.name {
                assert(q.take(parts.len() as int) =~= parts);
                let r2 = q.skip(parts.len() as int);
                if q.len() == parts.len() {
                    assert(q =~= parts);
                }
                assert(q =~= parts + r2);
                lemma_lookup_deeper_none(fs, parts, r2);
                lemma_lookup_deeper_none(m, parts, r2);
            } else {
                lemma_lookup_append(m, pp, r);
                lemma_lookup_append(fs, pp, r);
                lemma_lookup_push_other(ch, c, r);
            }
        } else if path_prefix(q, pp) {
            assert(parts.take(q.len() as int) =~= pp.take(q.len() as int));
        } else {
            lemma_modify_apart(fs, pp, np, q);
        }
    }
    assert forall|q: Seq<Seq<char>>|
        path_prefix(q, pp) && q.len() < pp.len() implies (#[trigger] lookup(m, q) matches Some(e) && e.data is Directory
        && e.name == lookup(fs, q)->0.name) by {
        lemma_modify_above(fs, pp, np, q);
    }
}

} // verus!
