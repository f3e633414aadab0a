//! Strictly sorted, duplicate-free string vectors: the shape of every
//! set-valued field (`endonyms`, `languages`) and of the canonical map's keys.

use vstd::prelude::*;
use vstd::string::*;
use crate::text::{
    chars_lt, lemma_chars_lt_asym, lemma_chars_lt_connex, lemma_chars_lt_irrefl,
    lemma_chars_lt_trans, str_lt,
};

verus! {

/// Strictly ascending in `chars_lt`: sorted, and free of duplicates.
pub open spec fn strictly_sorted(s: Seq<Seq<char>>) -> bool {
    forall|i: int, j: int| 0 <= i < j < s.len() ==> chars_lt(#[trigger] s[i], #[trigger] s[j])
}

/// Decides string equality through the order.
pub fn str_eq(a: &str, b: &str) -> (r: bool)
    ensures
        r == (a@ == b@),
{
    let r = !str_lt(a, b) && !str_lt(b, a);
    proof {
        lemma_chars_lt_connex(a@, b@);
        if a@ == b@ {
            lemma_chars_lt_irrefl(a@);
        }
    }
    r
}

/// `x` placed before the first element not below it; dropped when that
/// element equals it.
pub open spec fn sorted_insert(s: Seq<Seq<char>>, x: Seq<char>) -> Seq<Seq<char>>
    decreases s.len(),
{
    if s.len() == 0 {
        seq![x]
    } else if x == s[0] {
        s
    } else if chars_lt(x, s[0]) {
        seq![x] + s
    } else {
        seq![s[0]] + sorted_insert(s.drop_first(), x)
    }
}

pub proof fn lemma_contains_concat<A>(a: Seq<A>, b: Seq<A>)
    ensures
        forall|y: A| #[trigger] (a + b).contains(y) <==> (a.contains(y) || b.contains(y)),
{
    assert forall|y: A| #[trigger] (a + b).contains(y) implies (a.contains(y) || b.contains(
        y,
    )) by {
        let i = choose|i: int| 0 <= i < (a + b).len() && (a + b)[i] == y;
        if i < a.len() {
            assert(a[i] == y);
        } else {
            assert(b[i - a.len()] == y);
        }
    }
    assert forall|y: A| (a.contains(y) || b.contains(y)) implies #[trigger] (a + b).contains(
        y,
    ) by {
        if a.contains(y) {
            let i = choose|i: int| 0 <= i < a.len() && a[i] == y;
            assert((a + b)[i] == y);
        } else {
            let i = choose|i: int| 0 <= i < b.len() && b[i] == y;
            assert((a + b)[a.len() + i] == y);
        }
    }
}

pub proof fn lemma_contains_head_tail<A>(s: Seq<A>)
    requires
        s.len() > 0,
    ensures
        forall|y: A| #[trigger] s.contains(y) <==> (y == s[0] || s.drop_first().contains(y)),
{
    assert(s =~= seq![s[0]] + s.drop_first());
    lemma_contains_concat(seq![s[0]], s.drop_first());
    assert forall|y: A| #[trigger] seq![s[0]].contains(y) implies y == s[0] by {
        let i = choose|i: int| 0 <= i < 1 && seq![s[0]][i] == y;
        assert(seq![s[0]][0] == y);
    }
    assert(seq![s[0]][0] == s[0]);
}

pub proof fn lemma_contains_front_last<A>(s: Seq<A>)
    requires
        s.len() > 0,
    ensures
        forall|y: A| #[trigger] s.contains(y) <==> (s.drop_last().contains(y) || y == s.last()),
{
    assert(s =~= s.drop_last() + seq![s.last()]);
    lemma_contains_concat(s.drop_last(), seq![s.last()]);
    assert forall|y: A| #[trigger] seq![s.last()].contains(y) implies y == s.last() by {
        let i = choose|i: int| 0 <= i < 1 && seq![s.last()][i] == y;
        assert(seq![s.last()][0] == y);
    }
    assert(seq![s.last()][0] == s.last());
}

pub proof fn lemma_sorted_drop_first(s: Seq<Seq<char>>)
    requires
        strictly_sorted(s),
        s.len() > 0,
    ensures
        strictly_sorted(s.drop_first()),
{
    assert forall|i: int, j: int| 0 <= i < j < s.drop_first().len() implies chars_lt(
        #[trigger] s.drop_first()[i],
        #[trigger] s.drop_first()[j],
    ) by {
        assert(s.drop_first()[i] == s[i + 1]);
        assert(s.drop_first()[j] == s[j + 1]);
    }
}

pub proof fn lemma_sorted_drop_last(s: Seq<Seq<char>>)
    requires
        strictly_sorted(s),
        s.len() > 0,
    ensures
        strictly_sorted(s.drop_last()),
{
    assert forall|i: int, j: int| 0 <= i < j < s.drop_last().len() implies chars_lt(
        #[trigger] s.drop_last()[i],
        #[trigger] s.drop_last()[j],
    ) by {
        assert(s.drop_last()[i] == s[i]);
        assert(s.drop_last()[j] == s[j]);
    }
}

pub proof fn lemma_sorted_insert_facts(s: Seq<Seq<char>>, x: Seq<char>)
    ensures
        forall|y: Seq<char>| #[trigger]
            sorted_insert(s, x).contains(y) <==> (s.contains(y) || y == x),
        s.len() <= sorted_insert(s, x).len() <= s.len() + 1,
    decreases s.len(),
{
    let r = sorted_insert(s, x);
    if s.len() == 0 {
        assert forall|y: Seq<char>| #[trigger] r.contains(y) implies (s.contains(y) || y
            == x) by {
            let i = choose|i: int| 0 <= i < r.len() && r[i] == y;
            assert(r[0] == x);
        }
        assert(r[0] == x);
    } else if x == s[0] {
        assert(s[0] == x);
        assert(s.contains(x));
    } else if chars_lt(x, s[0]) {
        lemma_contains_concat(seq![x], s);
        assert forall|y: Seq<char>| #[trigger] seq![x].contains(y) implies y == x by {
            let i = choose|i: int| 0 <= i < 1 && seq![x][i] == y;
            assert(seq![x][0] == y);
        }
        assert(seq![x][0] == x);
    } else {
        lemma_sorted_insert_facts(s.drop_first(), x);
        lemma_contains_concat(seq![s[0]], sorted_insert(s.drop_first(), x));
        lemma_contains_head_tail(s);
        assert forall|y: Seq<char>| #[trigger] seq![s[0]].contains(y) implies y == s[0] by {
            let i = choose|i: int| 0 <= i < 1 && seq![s[0]][i] == y;
            assert(seq![s[0]][0] == y);
        }
        assert(seq![s[0]][0] == s[0]);
    }
}

pub proof fn lemma_sorted_insert_sorted(s: Seq<Seq<char>>, x: Seq<char>)
    requires
        strictly_sorted(s),
    ensures
        strictly_sorted(sorted_insert(s, x)),
    decreases s.len(),
{
    if s.len() == 0 {
    } else if x == s[0] {
    } else if chars_lt(x, s[0]) {
        let r = seq![x] + s;
        assert forall|i: int, j: int| 0 <= i < j < r.len() implies chars_lt(
            #[trigger] r[i],
            #[trigger] r[j],
        ) by {
            if i == 0 {
                assert(r[0] == x);
                if j > 1 {
                    assert(r[j] == s[j - 1]);
                    assert(chars_lt(s[0], s[j - 1]));
                    lemma_chars_lt_trans(x, s[0], s[j - 1]);
                }
            } else {
                assert(r[i] == s[i - 1]);
                assert(r[j] == s[j - 1]);
            }
        }
    } else {
        lemma_chars_lt_connex(x, s[0]);
        let t = s.drop_first();
        lemma_sorted_drop_first(s);
        lemma_sorted_insert_sorted(t, x);
        lemma_sorted_insert_facts(t, x);
        let rt = sorted_insert(t, x);
        let r = seq![s[0]] + rt;
        assert forall|i: int, j: int| 0 <= i < j < r.len() implies chars_lt(
            #[trigger] r[i],
            #[trigger] r[j],
        ) by {
            if i == 0 {
                assert(r[0] == s[0]);
                assert(r[j] == rt[j - 1]);
                assert(rt.contains(rt[j - 1]));
                if t.contains(rt[j - 1]) {
                    let k = choose|k: int| 0 <= k < t.len() && t[k] == rt[j - 1];
                    assert(t[k] == s[k + 1]);
                    assert(chars_lt(s[0], s[k + 1]));
                } else {
                    assert(rt[j - 1] == x);
                }
            } else {
                assert(r[i] == rt[i - 1]);
                assert(r[j] == rt[j - 1]);
            }
        }
    }
}

pub proof fn lemma_sorted_insert_member(s: Seq<Seq<char>>, x: Seq<char>)
    requires
        strictly_sorted(s),
        s.contains(x),
    ensures
        sorted_insert(s, x) == s,
    decreases s.len(),
{
    let i = choose|i: int| 0 <= i < s.len() && s[i] == x;
    if x == s[0] {
    } else {
        assert(i > 0);
        assert(chars_lt(s[0], s[i]));
        lemma_chars_lt_asym(s[0], x);
        let t = s.drop_first();
        lemma_sorted_drop_first(s);
        assert(t.contains(x)) by {
            assert(t[i - 1] == x);
        }
        lemma_sorted_insert_member(t, x);
        assert(seq![s[0]] + t =~= s);
    }
}

/// Where the first element not below `x` stands at position `i`, inserting is
/// inserting there, or leaving `s` alone when that element already equals `x`.
pub proof fn lemma_sorted_insert_position(s: Seq<Seq<char>>, x: Seq<char>, i: int)
    requires
        strictly_sorted(s),
        0 <= i <= s.len(),
        forall|j: int| 0 <= j < i ==> chars_lt(#[trigger] s[j], x),
        i < s.len() ==> !chars_lt(s[i], x),
    ensures
        sorted_insert(s, x) == if i < s.len() && s[i] == x {
            s
        } else {
            s.insert(i, x)
        },
    decreases s.len(),
{
    if i == 0 {
        if s.len() == 0 {
            assert(sorted_insert(s, x) =~= s.insert(0, x));
        } else if s[0] == x {
        } else {
            lemma_chars_lt_connex(x, s[0]);
            assert(sorted_insert(s, x) =~= s.insert(0, x));
        }
    } else {
        assert(chars_lt(s[0], x));
        lemma_chars_lt_asym(s[0], x);
        lemma_chars_lt_irrefl(s[0]);
        assert(x != s[0]);
        let t = s.drop_first();
        lemma_sorted_drop_first(s);
        assert forall|j: int| 0 <= j < i - 1 implies chars_lt(#[trigger] t[j], x) by {
            assert(t[j] == s[j + 1]);
        }
        assert(i - 1 < t.len() ==> !chars_lt(t[i - 1], x)) by {
            if i - 1 < t.len() {
                assert(t[i - 1] == s[i]);
            }
        }
        lemma_sorted_insert_position(t, x, i - 1);
        if i < s.len() && s[i] == x {
            assert(t[i - 1] == x);
            assert(t.contains(x)) by {
                assert(t[i - 1] == x);
            }
            assert(seq![s[0]] + t =~= s);
        } else {
            assert(seq![s[0]] + t.insert(i - 1, x) =~= s.insert(i, x));
        }
    }
}

/// Inserts, into sorted `v`, the string `x` at its sorted position, unless an
/// equal string is already there.
#[verifier::loop_isolation(false)]
pub fn insert_sorted(v: &mut Vec<String>, x: String)
    requires
        strictly_sorted(old(v).deep_view()),
    ensures
        final(v).deep_view() == sorted_insert(old(v).deep_view(), x@),
{
    let ghost s = v.deep_view();
    let mut i: usize = 0;
    loop
        invariant
            i <= v@.len(),
            v@ == old(v)@,
            forall|j: int| 0 <= j < i ==> chars_lt(#[trigger] s[j], x@),
        decreases v@.len() - i,
    {
        if i == v.len() {
            break;
        }
        proof {
            assert(s[i as int] == v@[i as int]@);
        }
        if !str_lt(v[i].as_str(), x.as_str()) {
            break;
        }
        i = i + 1;
    }
    let eq = if i < v.len() {
        proof {
            assert(s[i as int] == v@[i as int]@);
        }
        str_eq(v[i].as_str(), x.as_str())
    } else {
        false
    };
    proof {
        lemma_sorted_insert_position(s, x@, i as int);
    }
    if !eq {
        v.insert(i, x);
        proof {
            s.insert_ensures(i as int, x@);
            assert(v.deep_view() =~= s.insert(i as int, x@));
        }
    }
}

/// Every element of `items` not equal to `excl`, folded into sorted `base`.
pub open spec fn merge_names(
    base: Seq<Seq<char>>,
    items: Seq<Seq<char>>,
    excl: Option<Seq<char>>,
) -> Seq<Seq<char>>
    decreases items.len(),
{
    if items.len() == 0 {
        base
    } else {
        let prev = merge_names(base, items.drop_last(), excl);
        if excl == Some(items.last()) {
            prev
        } else {
            sorted_insert(prev, items.last())
        }
    }
}

pub proof fn lemma_merge_names_facts(
    base: Seq<Seq<char>>,
    items: Seq<Seq<char>>,
    excl: Option<Seq<char>>,
)
    requires
        strictly_sorted(base),
    ensures
        strictly_sorted(merge_names(base, items, excl)),
        forall|y: Seq<char>| #[trigger]
            merge_names(base, items, excl).contains(y) <==> (base.contains(y) || (items.contains(y)
                && excl != Some(y))),
    decreases items.len(),
{
    if items.len() > 0 {
        lemma_merge_names_facts(base, items.drop_last(), excl);
        lemma_contains_front_last(items);
        let prev = merge_names(base, items.drop_last(), excl);
        if excl == Some(items.last()) {
        } else {
            lemma_sorted_insert_sorted(prev, items.last());
            lemma_sorted_insert_facts(prev, items.last());
        }
    }
}

pub proof fn lemma_merge_names_noop(
    m: Seq<Seq<char>>,
    items: Seq<Seq<char>>,
    excl: Option<Seq<char>>,
)
    requires
        strictly_sorted(m),
        forall|y: Seq<char>| (#[trigger] items.contains(y)) && excl != Some(y) ==> m.contains(y),
    ensures
        merge_names(m, items, excl) == m,
    decreases items.len(),
{
    if items.len() > 0 {
        lemma_contains_front_last(items);
        assert forall|y: Seq<char>| (#[trigger] items.drop_last().contains(y)) && excl != Some(
            y,
        ) implies m.contains(y) by {
            assert(items.contains(y));
        }
        lemma_merge_names_noop(m, items.drop_last(), excl);
        if excl == Some(items.last()) {
        } else {
            assert(items.contains(items.last()));
            lemma_sorted_insert_member(m, items.last());
        }
    }
}

/// Folding the same names in twice leaves what one fold built.
pub proof fn lemma_merge_names_idempotent(
    base: Seq<Seq<char>>,
    items: Seq<Seq<char>>,
    excl: Option<Seq<char>>,
)
    requires
        strictly_sorted(base),
    ensures
        merge_names(merge_names(base, items, excl), items, excl) == merge_names(base, items, excl),
{
    lemma_merge_names_facts(base, items, excl);
    lemma_merge_names_noop(merge_names(base, items, excl), items, excl);
}

pub open spec fn opt_str_view(e: Option<&str>) -> Option<Seq<char>> {
    match e {
        Some(s) => Some(s@),
        None => None,
    }
}

/// Folds `items` into sorted `acc`, leaving out strings equal to `excl`.
#[verifier::loop_isolation(false)]
pub fn merge_names_into(acc: &mut Vec<String>, items: &Vec<String>, excl: Option<&str>)
    requires
        strictly_sorted(old(acc).deep_view()),
    ensures
        final(acc).deep_view() == merge_names(
            old(acc).deep_view(),
            items.deep_view(),
            opt_str_view(excl),
        ),
{
    let ghost base = old(acc).deep_view();
    let ghost all = items.deep_view();
    let ghost e = opt_str_view(excl);
    let mut j: usize = 0;
    proof {
        assert(all.take(0) =~= Seq::<Seq<char>>::empty());
    }
    loop
        invariant
            j <= items@.len(),
            all.len() == items@.len(),
            acc.deep_view() == merge_names(base, all.take(j as int), e),
        decreases items@.len() - j,
    {
        if j == items.len() {
            break;
        }
        proof {
            assert(all[j as int] == items@[j as int]@);
            assert(all.take(j + 1).drop_last() =~= all.take(j as int));
            assert(all.take(j + 1).last() == all[j as int]);
            lemma_merge_names_facts(base, all.take(j as int), e);
        }
        let skip = match excl {
            Some(x) => str_eq(items[j].as_str(), x),
            None => false,
        };
        if !skip {
            insert_sorted(acc, items[j].clone());
        }
        j = j + 1;
    }
    proof {
        assert(all.take(items@.len() as int) =~= all);
    }
}

/// `s` with every occurrence of `x` taken out, order kept.
pub open spec fn remove_val(s: Seq<Seq<char>>, x: Seq<char>) -> Seq<Seq<char>>
    decreases s.len(),
{
    if s.len() == 0 {
        s
    } else if s.last() == x {
        remove_val(s.drop_last(), x)
    } else {
        remove_val(s.drop_last(), x).push(s.last())
    }
}

pub proof fn lemma_remove_val_facts(s: Seq<Seq<char>>, x: Seq<char>)
    requires
        strictly_sorted(s),
    ensures
        strictly_sorted(remove_val(s, x)),
        forall|y: Seq<char>| #[trigger]
            remove_val(s, x).contains(y) <==> (s.contains(y) && y != x),
    decreases s.len(),
{
    if s.len() > 0 {
        lemma_sorted_drop_last(s);
        lemma_remove_val_facts(s.drop_last(), x);
        lemma_contains_front_last(s);
        let prev = remove_val(s.drop_last(), x);
        if s.last() == x {
        } else {
            let r = prev.push(s.last());
            assert(r.drop_last() =~= prev);
            assert(r.last() == s.last());
            lemma_contains_front_last(r);
            assert forall|i: int, j: int| 0 <= i < j < r.len() implies chars_lt(
                #[trigger] r[i],
                #[trigger] r[j],
            ) by {
                if j == r.len() - 1 {
                    assert(r[i] == prev[i]);
                    assert(prev.contains(prev[i]));
                    let k = choose|k: int|
                        0 <= k < s.drop_last().len() && s.drop_last()[k] == prev[i];
                    assert(s.drop_last()[k] == s[k]);
                    assert(chars_lt(s[k], s[s.len() - 1]));
                } else {
                    assert(r[i] == prev[i]);
                    assert(r[j] == prev[j]);
                }
            }
        }
    }
}

/// A copy of `v` without the strings equal to `x`.
#[verifier::loop_isolation(false)]
pub fn remove_matching(v: &Vec<String>, x: &str) -> (r: Vec<String>)
    ensures
        r.deep_view() == remove_val(v.deep_view(), x@),
{
    let ghost all = v.deep_view();
    let mut r: Vec<String> = Vec::new();
    let mut j: usize = 0;
    proof {
        assert(all.take(0) =~= Seq::<Seq<char>>::empty());
        assert(r.deep_view() =~= remove_val(all.take(0), x@));
    }
    loop
        invariant
            j <= v@.len(),
            all.len() == v@.len(),
            r.deep_view() == remove_val(all.take(j as int), x@),
        decreases v@.len() - j,
    {
        if j == v.len() {
            break;
        }
        proof {
            assert(all[j as int] == v@[j as int]@);
            assert(all.take(j + 1).drop_last() =~= all.take(j as int));
            assert(all.take(j + 1).last() == all[j as int]);
        }
        if !str_eq(v[j].as_str(), x) {
            let ghost before = r.deep_view();
            r.push(v[j].clone());
            proof {
                assert(r.deep_view() =~= before.push(all[j as int]));
            }
        }
        j = j + 1;
    }
    proof {
        assert(all.take(v@.len() as int) =~= all);
    }
    r
}

/// A copy of a string vector, element for element.
#[verifier::loop_isolation(false)]
pub fn clone_strings(v: &Vec<String>) -> (r: Vec<String>)
    ensures
        r.deep_view() == v.deep_view(),
        r@.len() == v@.len(),
{
    let mut r: Vec<String> = Vec::new();
    let mut j: usize = 0;
    loop
        invariant
            j <= v@.len(),
            r@.len() == j,
            forall|k: int| 0 <= k < j ==> #[trigger] r@[k]@ == v@[k]@,
        decreases v@.len() - j,
    {
        if j == v.len() {
            break;
        }
        let ghost before = r@;
        r.push(v[j].clone());
        proof {
            assert forall|k: int| 0 <= k < j + 1 implies #[trigger] r@[k]@ == v@[k]@ by {
                if k < j {
                    assert(r@[k] == before[k]);
                }
            }
        }
        j = j + 1;
    }
    proof {
        assert forall|k: int| 0 <= k < v@.len() implies #[trigger] r.deep_view()[k]
            == v.deep_view()[k] by {
            assert(r@[k]@ == v@[k]@);
        }
        assert(r.deep_view() =~= v.deep_view());
    }
    r
}

} // verus!
