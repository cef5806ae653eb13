//! Turning a path, relative or absolute, into the list of names that lead to it.
use vstd::prelude::*;
use crate::text::{char_vecs_view, chars_of, opt_str_view, string_from_chars, strings_view};

verus! {

/// The path to resolve, without its leading `/` when it is absolute, and
/// joined to the working directory with a `/` when it is relative.
pub open spec fn target_chars(path: Seq<char>, pwd: Option<Seq<char>>) -> Seq<char> {
    if path.len() > 0 && path[0] == '/' {
        path.drop_first()
    } else {
        match pwd {
            None => path,
            Some(p) => p + seq!['/'] + path,
        }
    }
}

/// The pieces of `s` between its slashes (one piece when there is none).
pub open spec fn split_slash(s: Seq<char>) -> Seq<Seq<char>>
    decreases s.len(),
{
    if s.len() == 0 {
        seq![Seq::<char>::empty()]
    } else {
        let prev = split_slash(s.drop_last());
        if s.last() == '/' {
            prev.push(Seq::<char>::empty())
        } else {
            prev.update(prev.len() - 1, prev.last().push(s.last()))
        }
    }
}

pub open spec fn is_dot(p: Seq<char>) -> bool {
    p == seq!['.']
}

pub open spec fn is_dot_dot(p: Seq<char>) -> bool {
    p == seq!['.', '.']
}

/// One step of normalisation: empty pieces and `.` are skipped, `..` drops the
/// last name kept so far (if any), any other piece is kept.
pub open spec fn apply_piece(acc: Seq<Seq<char>>, piece: Seq<char>) -> Seq<Seq<char>> {
    if piece.len() == 0 || is_dot(piece) {
        acc
    } else if is_dot_dot(piece) {
        if acc.len() > 0 {
            acc.drop_last()
        } else {
            acc
        }
    } else {
        acc.push(piece)
    }
}

/// The names left after applying every piece in order.
pub open spec fn normalize(pieces: Seq<Seq<char>>) -> Seq<Seq<char>>
    decreases pieces.len(),
{
    if pieces.len() == 0 {
        Seq::empty()
    } else {
        apply_piece(normalize(pieces.drop_last()), pieces.last())
    }
}

/// The names that lead from the root to what `path` designates, seen from `pwd`.
pub open spec fn resolved_parts(path: Seq<char>, pwd: Option<Seq<char>>) -> Seq<Seq<char>> {
    normalize(split_slash(target_chars(path, pwd)))
}

/// Every name of a normalised path is a real name: not empty, `.` or `..`.
pub open spec fn proper_names(parts: Seq<Seq<char>>) -> bool {
    forall|i: int|
        0 <= i < parts.len() ==> #[trigger] parts[i].len() > 0 && !is_dot(parts[i]) && !is_dot_dot(
            parts[i],
        )
}

pub proof fn lemma_normalize_proper(pieces: Seq<Seq<char>>)
    ensures
        proper_names(normalize(pieces)),
    decreases pieces.len(),
{
    if pieces.len() > 0 {
        lemma_normalize_proper(pieces.drop_last());
    }
}

/// Normalising a path that is already made of proper names gives it back.
pub proof fn lemma_normalize_proper_id(parts: Seq<Seq<char>>)
    requires
        proper_names(parts),
    ensures
        normalize(parts) == parts,
    decreases parts.len(),
{
    if parts.len() > 0 {
        assert(proper_names(parts.drop_last()));
        lemma_normalize_proper_id(parts.drop_last());
        assert(parts.drop_last().push(parts.last()) =~= parts);
    }
}

fn target_path(path: &str, pwd: Option<&str>) -> (res: Vec<char>)
    ensures
        res@ == target_chars(path@, opt_str_view(pwd)),
{
    let p = chars_of(path);
    if p.len() > 0 && p[0] == '/' {
        let mut res: Vec<char> = Vec::new();
        let mut i: usize = 1;
        while i < p.len()
            invariant
                1 <= i <= p@.len(),
                res@ == p@.subrange(1, i as int),
            decreases p@.len() - i,
        {
            res.push(p[i]);
            assert(res@ =~= p@.subrange(1, i + 1));
            i = i + 1;
        }
        assert(res@ =~= p@.drop_first());
        res
    } else {
        match pwd {
            None => p,
            Some(w) => {
                let mut res = chars_of(w);
                res.push('/');
                let mut i: usize = 0;
                let ghost base = res@;
                while i < p.len()
                    invariant
                        i <= p@.len(),
                        res@ == base + p@.take(i as int),
                    decreases p@.len() - i,
                {
                    res.push(p[i]);
                    assert(res@ =~= base + p@.take(i + 1));
                    i = i + 1;
                }
                assert(p@.take(p@.len() as int) =~= p@);
                assert(res@ =~= w@ + seq!['/'] + p@);
                res
            },
        }
    }
}

pub(crate) fn split_pieces(t: &Vec<char>) -> (res: Vec<Vec<char>>)
    ensures
        char_vecs_view(res@) == split_slash(t@),
{
    let mut done: Vec<Vec<char>> = Vec::new();
    let mut cur: Vec<char> = Vec::new();
    let mut i: usize = 0;
    assert(t@.take(0) =~= Seq::<char>::empty());
    assert(char_vecs_view(done@).push(cur@) =~= split_slash(t@.take(0)));
    while i < t.len()
        invariant
            i <= t@.len(),
            char_vecs_view(done@).push(cur@) == split_slash(t@.take(i as int)),
        decreases t@.len() - i,
    {
        let c = t[i];
        let ghost prev = split_slash(t@.take(i as int));
        assert(t@.take(i + 1).drop_last() =~= t@.take(i as int));
        assert(t@.take(i + 1).last() == c);
        if c == '/' {
            let finished = cur;
            done.push(finished);
            cur = Vec::new();
            assert(char_vecs_view(done@).push(cur@) =~= prev.push(Seq::<char>::empty()));
        } else {
            cur.push(c);
            assert(char_vecs_view(done@).push(cur@) =~= prev.update(
                prev.len() - 1,
                prev.last().push(c),
            ));
        }
        i = i + 1;
    }
    assert(t@.take(t@.len() as int) =~= t@);
    done.push(cur);
    assert(char_vecs_view(done@) =~= split_slash(t@));
    done
}

pub(crate) fn is_dot_exec(p: &Vec<char>) -> (res: bool)
    ensures
        res == is_dot(p@),
{
    let r = p.len() == 1 && p[0] == '.';
    assert(r ==> p@ =~= seq!['.']);
    r
}

pub(crate) fn is_dot_dot_exec(p: &Vec<char>) -> (res: bool)
    ensures
        res == is_dot_dot(p@),
{
    let r = p.len() == 2 && p[0] == '.' && p[1] == '.';
    assert(r ==> p@ =~= seq!['.', '.']);
    r
}

/// The names, from the root, of what `path` designates when seen from `pwd`:
/// `.` and empty pieces are skipped and `..` goes up one level (never above the root).
pub fn resolve_parts(path: &str, pwd: Option<&str>) -> (res: Vec<String>)
    ensures
        strings_view(res@) == resolved_parts(path@, opt_str_view(pwd)),
{
    let t = target_path(path, pwd);
    let pieces = split_pieces(&t);
    let ghost pv = char_vecs_view(pieces@);
    let mut acc: Vec<String> = Vec::new();
    let mut j: usize = 0;
    assert(pv.take(0) =~= Seq::<Seq<char>>::empty());
    while j < pieces.len()
        invariant
            j <= pieces@.len(),
            pv == char_vecs_view(pieces@),
            strings_view(acc@) == normalize(pv.take(j as int)),
        decreases pieces@.len() - j,
    {
        let piece = &pieces[j];
        assert(pv.take(j + 1).drop_last() =~= pv.take(j as int));
        assert(pv.take(j + 1).last() == piece@);
        if piece.len() == 0 || is_dot_exec(piece) {
        } else if is_dot_dot_exec(piece) {
            if acc.len() > 0 {
                acc.pop();
                assert(strings_view(acc@) =~= normalize(pv.take(j as int)).drop_last());
            }
        } else {
            let s = string_from_chars(piece, 0, piece.len());
            assert(piece@.subrange(0, piece@.len() as int) =~= piece@);
            acc.push(s);
            assert(strings_view(acc@) =~= normalize(pv.take(j as int)).push(piece@));
        }
        j = j + 1;
    }
    assert(pv.take(pieces@.len() as int) =~= pv);
    acc
}

} // verus!
