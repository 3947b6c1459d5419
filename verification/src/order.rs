//! Lists of things that go by a name.
use vstd::prelude::*;
use crate::table::{comes_before, precedes};
use crate::text;

verus! {

/// Something that goes by a name.
pub trait Named {
    spec fn key(&self) -> Seq<char>;

    fn key_text(&self) -> (r: &str)
        ensures
            r@ == self.key(),
    ;
}

/// A list in the order of names with one more put in its place: behind those
/// that it does not precede.
pub open spec fn placed_by<T>(list: Seq<T>, x: T, key: spec_fn(T) -> Seq<char>) -> Seq<T>
    decreases list.len(),
{
    if list.len() == 0 || !precedes(key(x), key(list.last())) {
        list.push(x)
    } else {
        placed_by(list.drop_last(), x, key).push(list.last())
    }
}

/// A list in the order of names. What has the same name keeps its order.
pub open spec fn sorted_by<T>(list: Seq<T>, key: spec_fn(T) -> Seq<char>) -> Seq<T>
    decreases list.len(),
{
    if list.len() == 0 {
        Seq::empty()
    } else {
        placed_by(sorted_by(list.drop_last(), key), list.last(), key)
    }
}

/// What does not have a name.
pub open spec fn not_named<T>(name: Seq<char>, key: spec_fn(T) -> Seq<char>) -> spec_fn(T) -> bool {
    |t: T| key(t) != name
}

/// A list without what has a name.
pub open spec fn without_name<T>(
    list: Seq<T>,
    name: Seq<char>,
    key: spec_fn(T) -> Seq<char>,
) -> Seq<T> {
    list.filter(not_named(name, key))
}

/// A list with one more at its end, in place of those that have its name.
pub open spec fn overridden<T>(list: Seq<T>, x: T, key: spec_fn(T) -> Seq<char>) -> Seq<T> {
    without_name(list, key(x), key).push(x)
}

/// A list with others at its end, each in place of those that have its name.
pub open spec fn overlaid<T>(list: Seq<T>, more: Seq<T>, key: spec_fn(T) -> Seq<char>) -> Seq<T>
    decreases more.len(),
{
    if more.len() == 0 {
        list
    } else {
        overridden(overlaid(list, more.drop_last(), key), more.last(), key)
    }
}

/// Puts one more into a list in the order of names.
fn place<T: Named>(list: &mut Vec<T>, x: T)
    ensures
        final(list)@ == placed_by(old(list)@, x, |t: T| t.key()),
{
    let ghost key = |t: T| t.key();
    let ghost all = list@;
    let mut j: usize = list.len();
    assert(all.take(j as int) =~= all);
    assert(placed_by(all.take(j as int), x, key) + all.skip(j as int) =~= placed_by(all, x, key));
    while j > 0 && comes_before(x.key_text(), list[j - 1].key_text())
        invariant
            j <= list.len(),
            all == list@,
            key == (|t: T| t.key()),
            placed_by(all.take(j as int), x, key) + all.skip(j as int) == placed_by(all, x, key),
        decreases j,
    {
        proof {
            let t = all.take(j as int);
            assert(t.drop_last() =~= all.take(j - 1));
            assert(t.last() == all[j - 1]);
            assert(placed_by(t, x, key) == placed_by(all.take(j - 1), x, key).push(all[j - 1]));
            assert(placed_by(all.take(j - 1), x, key) + all.skip(j - 1) =~= placed_by(t, x, key)
                + all.skip(j as int));
        }
        j -= 1;
    }
    proof {
        let t = all.take(j as int);
        if j > 0 {
            assert(t.last() == all[j - 1]);
        }
        assert(placed_by(t, x, key) == t.push(x));
        assert(all.insert(j as int, x) =~= t.push(x) + all.skip(j as int));
    }
    list.insert(j, x);
}

/// Puts a list into the order of names.
pub fn sort_named<T: Named>(list: Vec<T>) -> (r: Vec<T>)
    ensures
        r@ == sorted_by(list@, |t: T| t.key()),
{
    let ghost key = |t: T| t.key();
    let ghost all = list@;
    let ghost n = all.len();
    let mut rest = list;
    let mut out: Vec<T> = Vec::new();
    assert(rest@ =~= all.skip(0));
    while rest.len() > 0
        invariant
            n == all.len(),
            rest@.len() <= n,
            rest@ == all.skip(n - rest@.len()),
            key == (|t: T| t.key()),
            out@ == sorted_by(all.take(n - rest@.len()), key),
        decreases rest.len(),
    {
        let ghost i = n - rest@.len();
        let x = rest.remove(0);
        proof {
            assert(rest@ =~= all.skip(i + 1));
            assert(all.take(i + 1).drop_last() =~= all.take(i));
            assert(x == all[i]);
        }
        place(&mut out, x);
    }
    assert(all.take(n as int) =~= all);
    out
}

/// Puts one more at the end of a list, in place of those that have its name.
pub fn override_named<T: Named>(list: &mut Vec<T>, x: T)
    ensures
        final(list)@ == overridden(old(list)@, x, |t: T| t.key()),
{
    let ghost all = list@;
    let ghost n = all.len();
    let ghost key = |t: T| t.key();
    let ghost name = key(x);
    let ghost keep = not_named(name, key);
    let mut rest: Vec<T> = Vec::new();
    std::mem::swap(&mut rest, list);
    proof {
        reveal(Seq::filter);
    }
    assert(rest@ =~= all.skip(0));
    while rest.len() > 0
        invariant
            n == all.len(),
            rest@.len() <= n,
            rest@ == all.skip(n - rest@.len()),
            key == (|t: T| t.key()),
            name == key(x),
            keep == not_named(name, key),
            list@ == all.take(n - rest@.len()).filter(keep),
        decreases rest.len(),
    {
        let ghost i = n - rest@.len();
        let t = rest.remove(0);
        proof {
            reveal(Seq::filter);
            assert(rest@ =~= all.skip(i + 1));
            assert(all.take(i + 1).drop_last() =~= all.take(i));
            assert(t == all[i]);
        }
        if !text::same(t.key_text(), x.key_text()) {
            list.push(t);
        }
    }
    assert(all.take(n as int) =~= all);
    list.push(x);
}

/// Puts others at the end of a list, each in place of those that have its name.
pub fn overlay_named<T: Named>(list: &mut Vec<T>, more: Vec<T>)
    ensures
        final(list)@ == overlaid(old(list)@, more@, |t: T| t.key()),
{
    let ghost key = |t: T| t.key();
    let ghost base = list@;
    let ghost all = more@;
    let ghost n = all.len();
    let mut rest = more;
    assert(rest@ =~= all.skip(0));
    while rest.len() > 0
        invariant
            n == all.len(),
            rest@.len() <= n,
            rest@ == all.skip(n - rest@.len()),
            key == (|t: T| t.key()),
            list@ == overlaid(base, all.take(n - rest@.len()), key),
        decreases rest.len(),
    {
        let ghost i = n - rest@.len();
        let x = rest.remove(0);
        proof {
            assert(rest@ =~= all.skip(i + 1));
            assert(all.take(i + 1).drop_last() =~= all.take(i));
            assert(x == all[i]);
        }
        override_named(list, x);
    }
    assert(all.take(n as int) =~= all);
}

proof fn lemma_placed_map<T, U>(
    list: Seq<T>,
    x: T,
    f: spec_fn(T) -> U,
    kt: spec_fn(T) -> Seq<char>,
    ku: spec_fn(U) -> Seq<char>,
)
    requires
        forall|t: T| #[trigger] kt(t) == ku(f(t)),
    ensures
        placed_by(list, x, kt).map_values(f) == placed_by(list.map_values(f), f(x), ku),
    decreases list.len(),
{
    let m = list.map_values(f);
    assert(kt(x) == ku(f(x)));
    if list.len() > 0 {
        assert(m.last() == f(list.last()));
        assert(kt(list.last()) == ku(f(list.last())));
    }
    if list.len() == 0 || !precedes(kt(x), kt(list.last())) {
        assert(list.push(x).map_values(f) =~= m.push(f(x)));
    } else {
        lemma_placed_map(list.drop_last(), x, f, kt, ku);
        assert(list.drop_last().map_values(f) =~= m.drop_last());
        let p = placed_by(list.drop_last(), x, kt);
        assert(p.push(list.last()).map_values(f) =~= p.map_values(f).push(f(list.last())));
    }
}

/// Sorting goes by the names alone.
pub proof fn lemma_sorted_map<T, U>(
    list: Seq<T>,
    f: spec_fn(T) -> U,
    kt: spec_fn(T) -> Seq<char>,
    ku: spec_fn(U) -> Seq<char>,
)
    requires
        forall|t: T| #[trigger] kt(t) == ku(f(t)),
    ensures
        sorted_by(list, kt).map_values(f) == sorted_by(list.map_values(f), ku),
    decreases list.len(),
{
    if list.len() == 0 {
        assert(sorted_by(list, kt).map_values(f) =~= Seq::<U>::empty());
    } else {
        lemma_sorted_map(list.drop_last(), f, kt, ku);
        assert(list.drop_last().map_values(f) =~= list.map_values(f).drop_last());
        lemma_placed_map(sorted_by(list.drop_last(), kt), list.last(), f, kt, ku);
    }
}

/// Filtering before a mapping and after it are the same.
pub proof fn lemma_filter_map<T, U>(
    list: Seq<T>,
    f: spec_fn(T) -> U,
    pt: spec_fn(T) -> bool,
    pu: spec_fn(U) -> bool,
)
    requires
        forall|t: T| #[trigger] pt(t) == pu(f(t)),
    ensures
        list.filter(pt).map_values(f) == list.map_values(f).filter(pu),
    decreases list.len(),
{
    reveal(Seq::filter);
    if list.len() == 0 {
        assert(list.filter(pt).map_values(f) =~= list.map_values(f).filter(pu));
    } else {
        let l = list.drop_last();
        lemma_filter_map(l, f, pt, pu);
        assert(l.map_values(f) =~= list.map_values(f).drop_last());
        assert(pt(list.last()) == pu(f(list.last())));
        assert(l.filter(pt).push(list.last()).map_values(f) =~= l.filter(pt).map_values(f).push(
            f(list.last()),
        ));
    }
}

/// Overriding goes by the names alone.
pub proof fn lemma_overridden_map<T, U>(
    list: Seq<T>,
    x: T,
    f: spec_fn(T) -> U,
    kt: spec_fn(T) -> Seq<char>,
    ku: spec_fn(U) -> Seq<char>,
)
    requires
        forall|t: T| #[trigger] kt(t) == ku(f(t)),
    ensures
        overridden(list, x, kt).map_values(f) == overridden(list.map_values(f), f(x), ku),
{
    assert(kt(x) == ku(f(x)));
    let name = kt(x);
    let pt = not_named(name, kt);
    let pu = not_named(name, ku);
    assert forall|t: T| #[trigger] pt(t) == pu(f(t)) by {
        assert(kt(t) == ku(f(t)));
    }
    lemma_filter_map(list, f, pt, pu);
    assert(overridden(list, x, kt).map_values(f) =~= list.filter(pt).map_values(f).push(f(x)));
}

/// Overlaying goes by the names alone.
pub proof fn lemma_overlaid_map<T, U>(
    list: Seq<T>,
    more: Seq<T>,
    f: spec_fn(T) -> U,
    kt: spec_fn(T) -> Seq<char>,
    ku: spec_fn(U) -> Seq<char>,
)
    requires
        forall|t: T| #[trigger] kt(t) == ku(f(t)),
    ensures
        overlaid(list, more, kt).map_values(f) == overlaid(
            list.map_values(f),
            more.map_values(f),
            ku,
        ),
    decreases more.len(),
{
    if more.len() > 0 {
        lemma_overlaid_map(list, more.drop_last(), f, kt, ku);
        lemma_overridden_map(overlaid(list, more.drop_last(), kt), more.last(), f, kt, ku);
        assert(more.drop_last().map_values(f) =~= more.map_values(f).drop_last());
    }
}

proof fn lemma_placed_contains<T>(list: Seq<T>, x: T, key: spec_fn(T) -> Seq<char>, y: T)
    ensures
        placed_by(list, x, key).contains(y) <==> list.contains(y) || y == x,
    decreases list.len(),
{
    let p = placed_by(list, x, key);
    if list.len() == 0 || !precedes(key(x), key(list.last())) {
        if list.contains(y) {
            let i = choose|i: int| 0 <= i < list.len() && list[i] == y;
            assert(p[i] == y);
        }
        if y == x {
            assert(p[list.len() as int] == y);
        }
    } else {
        let l = list.drop_last();
        let q = placed_by(l, x, key);
        lemma_placed_contains(l, x, key, y);
        if list.contains(y) {
            let i = choose|i: int| 0 <= i < list.len() && list[i] == y;
            if i < l.len() {
                assert(l[i] == y);
            } else {
                assert(p[q.len() as int] == y);
            }
        }
        if q.contains(y) {
            let j = choose|j: int| 0 <= j < q.len() && q[j] == y;
            assert(p[j] == y);
        }
        if p.contains(y) {
            let j = choose|j: int| 0 <= j < p.len() && p[j] == y;
            if j < q.len() {
                assert(q[j] == y);
            } else {
                assert(list[list.len() - 1] == y);
            }
            if l.contains(y) {
                let i = choose|i: int| 0 <= i < l.len() && l[i] == y;
                assert(list[i] == y);
            }
        }
    }
}

/// Sorting neither adds nor drops.
pub proof fn lemma_sorted_contains<T>(list: Seq<T>, key: spec_fn(T) -> Seq<char>, y: T)
    ensures
        sorted_by(list, key).contains(y) <==> list.contains(y),
    decreases list.len(),
{
    if list.len() > 0 {
        let l = list.drop_last();
        lemma_sorted_contains(l, key, y);
        lemma_placed_contains(sorted_by(l, key), list.last(), key, y);
        if list.contains(y) {
            let i = choose|i: int| 0 <= i < list.len() && list[i] == y;
            if i < l.len() {
                assert(l[i] == y);
            }
        }
        if l.contains(y) {
            let i = choose|i: int| 0 <= i < l.len() && l[i] == y;
            assert(list[i] == y);
        }
        if y == list.last() {
            assert(list[list.len() - 1] == y);
        }
    }
}

/// Whether no name stands twice.
pub open spec fn unique_names<T>(list: Seq<T>, key: spec_fn(T) -> Seq<char>) -> bool {
    forall|i: int, j: int|
        0 <= i < list.len() && 0 <= j < list.len() && i != j ==> key(#[trigger] list[i]) != key(
            #[trigger] list[j],
        )
}

proof fn lemma_filter_unique<T>(list: Seq<T>, p: spec_fn(T) -> bool, key: spec_fn(T) -> Seq<char>)
    requires
        unique_names(list, key),
    ensures
        unique_names(list.filter(p), key),
        forall|y: T| #[trigger] list.filter(p).contains(y) ==> list.contains(y) && p(y),
    decreases list.len(),
{
    reveal(Seq::filter);
    if list.len() > 0 {
        let l = list.drop_last();
        assert forall|i: int, j: int| 0 <= i < l.len() && 0 <= j < l.len() && i != j implies key(
            #[trigger] l[i],
        ) != key(#[trigger] l[j]) by {
            assert(key(list[i]) != key(list[j]));
        }
        lemma_filter_unique(l, p, key);
        let f = list.filter(p);
        let g = l.filter(p);
        assert forall|y: T| #[trigger] f.contains(y) implies list.contains(y) && p(y) by {
            let j = choose|j: int| 0 <= j < f.len() && f[j] == y;
            if j < g.len() {
                assert(g[j] == y);
                assert(g.contains(y));
                let k = choose|k: int| 0 <= k < l.len() && l[k] == y;
                assert(list[k] == y);
            } else {
                assert(list[list.len() - 1] == y);
            }
        }
        assert forall|i: int, j: int| 0 <= i < f.len() && 0 <= j < f.len() && i != j implies key(
            #[trigger] f[i],
        ) != key(#[trigger] f[j]) by {
            if i < g.len() && j < g.len() {
                assert(key(g[i]) != key(g[j]));
            } else {
                let m = if i < j {
                    i
                } else {
                    j
                };
                assert(g.contains(g[m]));
                let k = choose|k: int| 0 <= k < l.len() && l[k] == g[m];
                assert(key(list[k]) != key(list[list.len() - 1]));
            }
        }
    }
}

/// What is put at the end of a list of unique names leaves them unique.
pub proof fn lemma_overridden_unique<T>(list: Seq<T>, x: T, key: spec_fn(T) -> Seq<char>)
    requires
        unique_names(list, key),
    ensures
        unique_names(overridden(list, x, key), key),
{
    let name = key(x);
    let p = not_named(name, key);
    lemma_filter_unique(list, p, key);
    let f = list.filter(p);
    let o = overridden(list, x, key);
    assert(o =~= f.push(x));
    assert forall|i: int, j: int| 0 <= i < o.len() && 0 <= j < o.len() && i != j implies key(
        #[trigger] o[i],
    ) != key(#[trigger] o[j]) by {
        if i < f.len() && j < f.len() {
            assert(key(f[i]) != key(f[j]));
        } else {
            let m = if i < j {
                i
            } else {
                j
            };
            assert(f.contains(f[m]));
            assert(p(f[m]));
        }
    }
}

/// What overlays a list of unique names leaves them unique.
pub proof fn lemma_overlaid_unique<T>(list: Seq<T>, more: Seq<T>, key: spec_fn(T) -> Seq<char>)
    requires
        unique_names(list, key),
    ensures
        unique_names(overlaid(list, more, key), key),
    decreases more.len(),
{
    if more.len() > 0 {
        lemma_overlaid_unique(list, more.drop_last(), key);
        lemma_overridden_unique(overlaid(list, more.drop_last(), key), more.last(), key);
    }
}

} // verus!
