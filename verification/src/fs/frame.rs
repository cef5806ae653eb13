//! What a change at one path leaves alone: every path off it, the entries
//! next to it, and the number of entries.
use vstd::prelude::*;
use super::model::{lemma_position_of, position_from};
use super::{entries_count, entry_count, lookup, modify_at, position_of, DataModel, EntryModel};

verus! {

/// Whether the names of `a` start the names of `b`.
pub open spec fn path_prefix(a: Seq<Seq<char>>, b: Seq<Seq<char>>) -> bool {
    a.len() <= b.len() && b.take(a.len() as int) == a
}

/// What a path longer than a directory's path designates: the rest of it
/// inside that directory.
pub proof fn lemma_lookup_append(entries: Seq<EntryModel>, dir: Seq<Seq<char>>, rest: Seq<Seq<char>>)
    requires
        lookup(entries, dir) matches Some(p) && p.data is Directory,
        rest.len() > 0,
    ensures
        lookup(entries, dir + rest) == lookup(lookup(entries, dir)->0.data->Directory_0, rest),
    decreases dir.len(),
{
    if dir.len() == 0 {
        assert(dir + rest =~= rest);
    } else {
        let q = dir + rest;
        assert(q[0] == dir[0]);
        assert(q.drop_first() =~= dir.drop_first() + rest);
        if dir.len() > 1 {
            let j = position_of(entries, dir[0])->0;
            lemma_lookup_append(entries[j].data->Directory_0, dir.drop_first(), rest);
        }
    }
}

/// Nothing is found below a path that designates nothing, a file, a link,
/// or an empty directory.
pub proof fn lemma_lookup_deeper_none(entries: Seq<EntryModel>, path: Seq<Seq<char>>, more: Seq<Seq<char>>)
    requires
        match lookup(entries, path) {
            None => true,
            Some(e) => !(e.data is Directory) || e.data == DataModel::Directory(Seq::<EntryModel>::empty()),
        },
        more.len() > 0,
    ensures
        lookup(entries, path + more) is None,
    decreases more.len(),
{
    let front = more.drop_last();
    assert(path + more =~= (path + front).push(more.last()));
    super::laws::lemma_lookup_push(entries, path + front, more.last());
    if front.len() == 0 {
        assert(path + front =~= path);
    } else {
        lemma_lookup_deeper_none(entries, path, front);
    }
}

/// A change at `dir` leaves alone every path that neither starts `dir` nor
/// is started by it.
pub proof fn lemma_modify_apart(entries: Seq<EntryModel>, dir: Seq<Seq<char>>, n: EntryModel, q: Seq<Seq<char>>)
    requires
        lookup(entries, dir) is Some,
        n.name == lookup(entries, dir)->0.name,
        !path_prefix(q, dir),
        !path_prefix(dir, q),
    ensures
        lookup(modify_at(entries, dir, n), q) == lookup(entries, q),
    decreases q.len(),
{
    if q.len() == 0 {
        assert(dir.take(0) =~= q);
    } else if dir.len() == 0 {
        assert(q.take(0) =~= dir);
    } else {
        lemma_position_of(entries, dir[0]);
        lemma_position_of(entries, q[0]);
        let j = position_of(entries, dir[0])->0;
        let x = if dir.len() == 1 {
            n
        } else {
            EntryModel {
                name: entries[j].name,
                data: DataModel::Directory(modify_at(entries[j].data->Directory_0, dir.drop_first(), n)),
            }
        };
        assert(modify_at(entries, dir, n) == entries.update(j, x));
        super::laws::lemma_position_update(entries, j, x, q[0]);
        if q[0] != dir[0] {
            if position_of(entries, q[0]) is Some {
                let i = position_of(entries, q[0])->0;
                assert(entries.update(j, x)[i] == entries[i]);
            }
        } else {
            if q.len() == 1 {
                assert(dir.take(1) =~= q);
            }
            if dir.len() == 1 {
                assert(q.take(1) =~= dir);
            }
            assert(q.len() > 1 && dir.len() > 1);
            if path_prefix(q.drop_first(), dir.drop_first()) {
                assert(dir.take(q.len() as int) =~= seq![dir[0]] + dir.drop_first().take(q.len() - 1));
                assert(q =~= seq![q[0]] + q.drop_first());
            }
            if path_prefix(dir.drop_first(), q.drop_first()) {
                assert(q.take(dir.len() as int) =~= seq![q[0]] + q.drop_first().take(dir.len() - 1));
                assert(dir =~= seq![dir[0]] + dir.drop_first());
            }
            lemma_modify_apart(entries[j].data->Directory_0, dir.drop_first(), n, q.drop_first());
        }
    }
}

/// A change at `dir` keeps every directory above it, with its name.
pub proof fn lemma_modify_above(entries: Seq<EntryModel>, dir: Seq<Seq<char>>, n: EntryModel, q: Seq<Seq<char>>)
    requires
        lookup(entries, dir) is Some,
        n.name == lookup(entries, dir)->0.name,
        path_prefix(q, dir),
        q.len() < dir.len(),
    ensures
        lookup(entries, q) matches Some(e) && e.data is Directory,
        lookup(modify_at(entries, dir, n), q) matches Some(e) && e.data is Directory && e.name == lookup(
            entries,
            q,
        )->0.name,
    decreases q.len(),
{
    if q.len() > 0 {
        lemma_position_of(entries, dir[0]);
        let j = position_of(entries, dir[0])->0;
        assert(q[0] == dir[0]) by {
            assert(dir.take(q.len() as int)[0] == dir[0]);
        }
        let x = EntryModel {
            name: entries[j].name,
            data: DataModel::Directory(modify_at(entries[j].data->Directory_0, dir.drop_first(), n)),
        };
        assert(modify_at(entries, dir, n) == entries.update(j, x));
        super::laws::lemma_position_update(entries, j, x, q[0]);
        if q.len() > 1 {
            assert(dir.drop_first().take(q.len() - 1) =~= q.drop_first()) by {
                assert(dir.take(q.len() as int) == q);
            }
            lemma_modify_above(entries[j].data->Directory_0, dir.drop_first(), n, q.drop_first());
        }
    }
}

proof fn lemma_position_from_push_other(ch: Seq<EntryModel>, c: EntryModel, x: Seq<char>, start: nat)
    requires
        x != c.name,
    ensures
        position_from(ch.push(c), x, start) == position_from(ch, x, start),
    decreases ch.len() + 1 - start,
{
    if start < ch.len() {
        assert(ch.push(c)[start as int] == ch[start as int]);
        lemma_position_from_push_other(ch, c, x, start + 1);
    } else if start == ch.len() {
        assert(ch.push(c)[start as int] == c);
        assert(position_from(ch.push(c), x, start + 1) is None);
    }
}

/// Putting an entry of another name at the end of a directory changes
/// nothing that a path found in it before.
pub proof fn lemma_lookup_push_other(ch: Seq<EntryModel>, c: EntryModel, r: Seq<Seq<char>>)
    requires
        r.len() > 0,
        r[0] != c.name,
    ensures
        lookup(ch.push(c), r) == lookup(ch, r),
{
    lemma_position_from_push_other(ch, c, r[0], 0);
    if position_of(ch, r[0]) is Some {
        lemma_position_of(ch, r[0]);
        let k = position_of(ch, r[0])->0;
        assert(ch.push(c)[k] == ch[k]);
    }
}

/// Taking an entry out of a directory changes nothing that a path of another
/// first name found in it.
pub proof fn lemma_lookup_remove_other(ch: Seq<EntryModel>, i: int, r: Seq<Seq<char>>)
    requires
        0 <= i < ch.len(),
        r.len() > 0,
        ch[i].name != r[0],
    ensures
        lookup(ch.remove(i), r) == lookup(ch, r),
{
    let x = r[0];
    let s = ch.remove(i);
    lemma_position_of(ch, x);
    lemma_position_of(s, x);
    match position_of(ch, x) {
        Some(k) => {
            let k2 = if k < i { k } else { k - 1 };
            assert(s[k2] == ch[k]);
            match position_of(s, x) {
                Some(k3) => {
                    if k3 < k2 {
                        if k3 < i {
                            assert(s[k3] == ch[k3]);
                        } else {
                            assert(s[k3] == ch[k3 + 1]);
                        }
                    }
                    if k2 < k3 {
                        assert(s[k2].name == x);
                    }
                },
                None => {
                    assert(s[k2].name == x);
                },
            }
        },
        None => {
            if position_of(s, x) is Some {
                let k3 = position_of(s, x)->0;
                if k3 < i {
                    assert(s[k3] == ch[k3]);
                } else {
                    assert(s[k3] == ch[k3 + 1]);
                }
            }
        },
    }
}

/// The count of a list after one entry is replaced.
pub proof fn lemma_count_update(s: Seq<EntryModel>, j: int, x: EntryModel)
    requires
        0 <= j < s.len(),
    ensures
        entries_count(s.update(j, x)) == entries_count(s) - entry_count(s[j]) + entry_count(x),
    decreases s.len(),
{
    let u = s.update(j, x);
    if j == s.len() - 1 {
        assert(u.drop_last() =~= s.drop_last());
    } else {
        assert(u.drop_last() =~= s.drop_last().update(j, x));
        lemma_count_update(s.drop_last(), j, x);
    }
}

/// The count of a list after one entry is taken out.
pub proof fn lemma_count_remove(s: Seq<EntryModel>, i: int)
    requires
        0 <= i < s.len(),
    ensures
        entries_count(s.remove(i)) == entries_count(s) - entry_count(s[i]),
    decreases s.len(),
{
    let r = s.remove(i);
    if i == s.len() - 1 {
        assert(r =~= s.drop_last());
    } else {
        assert(r.drop_last() =~= s.drop_last().remove(i));
        assert(r.last() == s.last());
        lemma_count_remove(s.drop_last(), i);
    }
}

/// The count of a tree after the entry at `dir` is replaced.
pub proof fn lemma_count_modify(entries: Seq<EntryModel>, dir: Seq<Seq<char>>, n: EntryModel)
    requires
        dir.len() > 0,
        lookup(entries, dir) is Some,
    ensures
        entries_count(modify_at(entries, dir, n)) == entries_count(entries) - entry_count(lookup(entries, dir)->0)
            + entry_count(n),
    decreases dir.len(),
{
    lemma_position_of(entries, dir[0]);
    let j = position_of(entries, dir[0])->0;
    if dir.len() == 1 {
        lemma_count_update(entries, j, n);
    } else {
        let ch = entries[j].data->Directory_0;
        let x = EntryModel { name: entries[j].name, data: DataModel::Directory(modify_at(ch, dir.drop_first(), n)) };
        lemma_count_modify(ch, dir.drop_first(), n);
        lemma_count_update(entries, j, x);
    }
}

} // verus!
