//! The order of strings (by characters, which is the order of their UTF-8
//! bytes) and sorted lists without repeats.
use vstd::prelude::*;
use crate::text::{chars_of, strings_view};

verus! {

/// Whether `a` comes strictly before `b`: at the first place where they
/// differ `a` has the smaller character, or `a` is a proper prefix of `b`.
pub open spec fn lex_lt(a: Seq<char>, b: Seq<char>) -> bool
    decreases a.len(),
{
    if a.len() == 0 {
        b.len() > 0
    } else if b.len() == 0 {
        false
    } else if a[0] != b[0] {
        a[0] < b[0]
    } else {
        lex_lt(a.drop_first(), b.drop_first())
    }
}

/// Whether every string comes strictly before every later one.
pub open spec fn strictly_sorted(s: Seq<Seq<char>>) -> bool {
    forall|i: int, j: int| 0 <= i < j < s.len() ==> lex_lt(#[trigger] s[i], #[trigger] s[j])
}

pub proof fn lemma_lex_irreflexive(a: Seq<char>)
    ensures
        !lex_lt(a, a),
    decreases a.len(),
{
    if a.len() > 0 {
        lemma_lex_irreflexive(a.drop_first());
    }
}

pub proof fn lemma_lex_transitive(a: Seq<char>, b: Seq<char>, c: Seq<char>)
    requires
        lex_lt(a, b),
        lex_lt(b, c),
    ensures
        lex_lt(a, c),
    decreases a.len(),
{
    if a.len() > 0 && b.len() > 0 && c.len() > 0 && a[0] == b[0] && b[0] == c[0] {
        lemma_lex_transitive(a.drop_first(), b.drop_first(), c.drop_first());
    }
}

pub proof fn lemma_lex_total(a: Seq<char>, b: Seq<char>)
    requires
        a != b,
    ensures
        lex_lt(a, b) || lex_lt(b, a),
    decreases a.len(),
{
    if a.len() > 0 && b.len() > 0 && a[0] == b[0] {
        if a.drop_first() == b.drop_first() {
            assert(a =~= seq![a[0]] + a.drop_first());
            assert(b =~= seq![b[0]] + b.drop_first());
        }
        lemma_lex_total(a.drop_first(), b.drop_first());
    } else if a.len() == 0 && b.len() == 0 {
        assert(a =~= b);
    }
}

/// The strings of `s` in order, each once: the one strictly sorted sequence
/// that holds exactly them.
pub open spec fn sorted_set(s: Seq<Seq<char>>) -> Seq<Seq<char>> {
    choose|r: Seq<Seq<char>>| strictly_sorted(r) && r.to_set() == s.to_set()
}

/// Two strictly sorted sequences that hold the same strings are equal.
pub proof fn lemma_sorted_unique(a: Seq<Seq<char>>, b: Seq<Seq<char>>)
    requires
        strictly_sorted(a),
        strictly_sorted(b),
        a.to_set() == b.to_set(),
    ensures
        a == b,
    decreases a.len(),
{
    if a.len() == 0 {
        if b.len() > 0 {
            assert(b.to_set().contains(b[0]));
        }
        assert(a =~= b);
    } else {
        assert(a.to_set().contains(a[0]));
        assert(b.len() > 0);
        assert(b.to_set().contains(b[0]));
        let i = choose|i: int| 0 <= i < a.len() && a[i] == b[0];
        let j = choose|j: int| 0 <= j < b.len() && b[j] == a[0];
        if a[0] != b[0] {
            assert(i > 0 && j > 0);
            assert(lex_lt(a[0], a[i]));
            assert(lex_lt(b[0], b[j]));
            lemma_lex_transitive(a[0], b[0], a[0]);
            lemma_lex_irreflexive(a[0]);
        }
        let a1 = a.drop_first();
        let b1 = b.drop_first();
        assert(strictly_sorted(a1)) by {
            assert forall|x: int, y: int| 0 <= x < y < a1.len() implies lex_lt(#[trigger] a1[x], #[trigger] a1[y]) by {
                assert(a1[x] == a[x + 1] && a1[y] == a[y + 1]);
            }
        }
        assert(strictly_sorted(b1)) by {
            assert forall|x: int, y: int| 0 <= x < y < b1.len() implies lex_lt(#[trigger] b1[x], #[trigger] b1[y]) by {
                assert(b1[x] == b[x + 1] && b1[y] == b[y + 1]);
            }
        }
        assert(a1.to_set() =~= b1.to_set()) by {
            assert forall|x: Seq<char>| a1.to_set().contains(x) implies b1.to_set().contains(x) by {
                let k = choose|k: int| 0 <= k < a1.len() && a1[k] == x;
                assert(a[k + 1] == x);
                assert(lex_lt(a[0], a[k + 1]));
                lemma_lex_irreflexive(a[0]);
                assert(a.to_set().contains(x));
                let m = choose|m: int| 0 <= m < b.len() && b[m] == x;
                assert(m != 0);
                assert(b1[m - 1] == x);
            }
            assert forall|x: Seq<char>| b1.to_set().contains(x) implies a1.to_set().contains(x) by {
                let k = choose|k: int| 0 <= k < b1.len() && b1[k] == x;
                assert(b[k + 1] == x);
                assert(lex_lt(b[0], b[k + 1]));
                lemma_lex_irreflexive(b[0]);
                assert(b.to_set().contains(x));
                let m = choose|m: int| 0 <= m < a.len() && a[m] == x;
                assert(m != 0);
                assert(a1[m - 1] == x);
            }
        }
        lemma_sorted_unique(a1, b1);
        assert(a =~= seq![a[0]] + a1);
        assert(b =~= seq![b[0]] + b1);
    }
}

/// A strictly sorted sequence with the strings of `s` is `sorted_set(s)`.
pub proof fn lemma_sorted_set(r: Seq<Seq<char>>, s: Seq<Seq<char>>)
    requires
        strictly_sorted(r),
        r.to_set() == s.to_set(),
    ensures
        sorted_set(s) == r,
{
    let c = sorted_set(s);
    assert(strictly_sorted(c) && c.to_set() == s.to_set());
    lemma_sorted_unique(c, r);
}

/// Whether `a` comes strictly before `b`.
pub fn lex_lt_exec(a: &str, b: &str) -> (res: bool)
    ensures
        res == lex_lt(a@, b@),
{
    let x = chars_of(a);
    let y = chars_of(b);
    let mut i: usize = 0;
    assert(x@.skip(0) =~= x@);
    assert(y@.skip(0) =~= y@);
    while i < x.len() && i < y.len() && x[i] == y[i]
        invariant
            i <= x@.len(),
            i <= y@.len(),
            x@ == a@,
            y@ == b@,
            lex_lt(a@, b@) == lex_lt(x@.skip(i as int), y@.skip(i as int)),
        decreases x@.len() - i,
    {
        assert(x@.skip(i as int).drop_first() =~= x@.skip(i + 1));
        assert(y@.skip(i as int).drop_first() =~= y@.skip(i + 1));
        i = i + 1;
    }
    if i == x.len() {
        i < y.len()
    } else if i == y.len() {
        false
    } else {
        x[i] < y[i]
    }
}

/// The strings of `v` in order, each once.
pub fn sort_dedup(v: Vec<String>) -> (res: Vec<String>)
    ensures
        strictly_sorted(strings_view(res@)),
        strings_view(res@).to_set() == strings_view(v@).to_set(),
        strings_view(res@) == sorted_set(strings_view(v@)),
{
    let ghost vv = strings_view(v@);
    let mut res: Vec<String> = Vec::new();
    let mut k: usize = 0;
    assert(strings_view(res@).to_set() =~= vv.take(0).to_set());
    while k < v.len()
        invariant
            k <= v@.len(),
            vv == strings_view(v@),
            strictly_sorted(strings_view(res@)),
            strings_view(res@).to_set() == vv.take(k as int).to_set(),
        decreases v@.len() - k,
    {
        let x = &v[k];
        let ghost rv = strings_view(res@);
        let mut p: usize = 0;
        while p < res.len() && lex_lt_exec(res[p].as_str(), x.as_str())
            invariant
                p <= res@.len(),
                rv == strings_view(res@),
                forall|i: int| 0 <= i < p ==> lex_lt(#[trigger] rv[i], x@),
            decreases res@.len() - p,
        {
            p = p + 1;
        }
        assert(vv.take(k + 1) =~= vv.take(k as int).push(x@));
        if p < res.len() && crate::text::str_eq(res[p].as_str(), x.as_str()) {
            assert(rv.to_set().contains(x@)) by {
                assert(rv[p as int] == x@);
            }
            proof {
                vv.take(k as int).lemma_push_to_set_commute(x@);
            }
            assert(vv.take(k as int).to_set().insert(x@) =~= vv.take(k as int).to_set());
        } else {
            proof {
                if p < rv.len() {
                    lemma_lex_total(rv[p as int], x@);
                }
                assert forall|j: int| p <= j < rv.len() implies lex_lt(x@, #[trigger] rv[j]) by {
                    if j > p {
                        lemma_lex_transitive(x@, rv[p as int], rv[j]);
                    }
                }
            }
            let s = crate::text::owned(x.as_str());
            res.insert(p, s);
            assert(strings_view(res@) =~= rv.insert(p as int, x@));
            assert(rv.insert(p as int, x@).to_set() =~= rv.to_set().insert(x@)) by {
                assert forall|y: Seq<char>| rv.insert(p as int, x@).to_set().contains(y) implies rv.to_set().insert(x@).contains(y) by {
                    let i = choose|i: int| 0 <= i < rv.insert(p as int, x@).len() && rv.insert(p as int, x@)[i] == y;
                    if i < p {
                        assert(rv[i] == y);
                    } else if i > p {
                        assert(rv[i - 1] == y);
                    }
                }
                assert forall|y: Seq<char>| rv.to_set().insert(x@).contains(y) implies rv.insert(p as int, x@).to_set().contains(y) by {
                    if y == x@ {
                        assert(rv.insert(p as int, x@)[p as int] == y);
                    } else {
                        let i = choose|i: int| 0 <= i < rv.len() && rv[i] == y;
                        if i < p {
                            assert(rv.insert(p as int, x@)[i] == y);
                        } else {
                            assert(rv.insert(p as int, x@)[i + 1] == y);
                        }
                    }
                }
            }
            proof {
                vv.take(k as int).lemma_push_to_set_commute(x@);
            }
        }
        k = k + 1;
    }
    assert(vv.take(v@.len() as int) =~= vv);
    proof {
        lemma_sorted_set(strings_view(res@), vv);
    }
    res
}

} // verus!
