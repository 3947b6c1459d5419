//! A table from names to values, kept in the order of the names.
use vstd::prelude::*;
use crate::text;

verus! {

/// Whether one text comes before another, character by character.
pub open spec fn precedes(a: Seq<char>, b: Seq<char>) -> bool
    decreases b.len(),
{
    if b.len() == 0 {
        false
    } else if a.len() == 0 {
        true
    } else if a[0] != b[0] {
        a[0] < b[0]
    } else {
        precedes(a.skip(1), b.skip(1))
    }
}

pub(crate) proof fn lemma_precedes_total(a: Seq<char>, b: Seq<char>)
    ensures
        a != b ==> precedes(a, b) || precedes(b, a),
        a == b ==> !precedes(a, b),
        precedes(a, b) ==> !precedes(b, a),
    decreases b.len(),
{
    if a.len() > 0 && b.len() > 0 {
        if a[0] == b[0] {
            lemma_precedes_total(a.skip(1), b.skip(1));
            if a.skip(1) == b.skip(1) {
                assert(a =~= seq![a[0]] + a.skip(1));
                assert(b =~= seq![b[0]] + b.skip(1));
            }
        }
    } else if a.len() == 0 && b.len() == 0 {
        assert(a =~= b);
    }
}

pub(crate) proof fn lemma_precedes_transitive(a: Seq<char>, b: Seq<char>, c: Seq<char>)
    requires
        precedes(a, b),
        precedes(b, c),
    ensures
        precedes(a, c),
    decreases c.len(),
{
    if a.len() > 0 && a[0] == b[0] && b[0] == c[0] {
        lemma_precedes_transitive(a.skip(1), b.skip(1), c.skip(1));
    }
}

/// Whether one text comes before another.
pub fn comes_before(a: &str, b: &str) -> (r: bool)
    ensures
        r == precedes(a@, b@),
{
    let x = text::chars_of(a);
    let y = text::chars_of(b);
    let mut i: usize = 0;
    assert(x@.skip(0) =~= x@);
    assert(y@.skip(0) =~= y@);
    while i < x.len() && i < y.len() && x[i] == y[i]
        invariant
            i <= x.len(),
            i <= y.len(),
            precedes(x@, y@) == precedes(x@.skip(i as int), y@.skip(i as int)),
        decreases x.len() - i,
    {
        assert(x@.skip(i as int).skip(1) =~= x@.skip(i + 1));
        assert(y@.skip(i as int).skip(1) =~= y@.skip(i + 1));
        i += 1;
    }
    if i >= y.len() {
        false
    } else if i >= x.len() {
        true
    } else {
        x[i] < y[i]
    }
}

/// A table from names to values. The entries are in the order of the names,
/// each name once.
#[derive(Debug)]
pub struct Table<V> {
    pub entries: Vec<(String, V)>,
}

/// The values by name.
pub open spec fn map_of<V>(entries: Seq<(String, V)>) -> Map<Seq<char>, V>
    decreases entries.len(),
{
    if entries.len() == 0 {
        Map::empty()
    } else {
        map_of(entries.drop_last()).insert(entries.last().0@, entries.last().1)
    }
}

/// Whether the names are in order, each once.
pub open spec fn in_order<V>(entries: Seq<(String, V)>) -> bool {
    forall|i: int, j: int|
        0 <= i < j < entries.len() ==> precedes(
            (#[trigger] entries[i]).0@,
            (#[trigger] entries[j]).0@,
        )
}

/// Whether no name stands twice.
pub open spec fn distinct_names<V>(entries: Seq<(String, V)>) -> bool {
    forall|i: int, j: int|
        0 <= i < entries.len() && 0 <= j < entries.len() && i != j ==> (#[trigger] entries[i]).0@
            != (#[trigger] entries[j]).0@
}

pub(crate) proof fn lemma_in_order_distinct<V>(entries: Seq<(String, V)>)
    requires
        in_order(entries),
    ensures
        distinct_names(entries),
{
    assert forall|i: int, j: int|
        0 <= i < entries.len() && 0 <= j < entries.len() && i != j implies (
    #[trigger] entries[i]).0@ != (#[trigger] entries[j]).0@ by {
        lemma_precedes_total(entries[i].0@, entries[j].0@);
        if i < j {
            assert(precedes(entries[i].0@, entries[j].0@));
        } else {
            assert(precedes(entries[j].0@, entries[i].0@));
        }
    }
}

/// The map holds exactly the entries.
pub proof fn lemma_map_of<V>(entries: Seq<(String, V)>)
    requires
        distinct_names(entries),
    ensures
        forall|i: int|
            0 <= i < entries.len() ==> map_of(entries).contains_key((#[trigger] entries[i]).0@)
                && map_of(entries)[entries[i].0@] == entries[i].1,
        forall|k: Seq<char>| #[trigger]
            map_of(entries).contains_key(k) ==> exists|i: int|
                0 <= i < entries.len() && (#[trigger] entries[i]).0@ == k,
    decreases entries.len(),
{
    if entries.len() > 0 {
        let front = entries.drop_last();
        assert(distinct_names(front)) by {
            assert forall|i: int, j: int|
                0 <= i < front.len() && 0 <= j < front.len() && i != j implies (
            #[trigger] front[i]).0@ != (#[trigger] front[j]).0@ by {
                assert(front[i] == entries[i] && front[j] == entries[j]);
            }
        }
        lemma_map_of(front);
        assert forall|i: int| 0 <= i < entries.len() implies map_of(entries).contains_key(
            (#[trigger] entries[i]).0@,
        ) && map_of(entries)[entries[i].0@] == entries[i].1 by {
            if i < front.len() {
                assert(front[i] == entries[i]);
                assert(entries[i].0@ != entries[entries.len() - 1].0@);
            }
        }
        assert forall|k: Seq<char>| #[trigger] map_of(entries).contains_key(k) implies exists|i: int|
            0 <= i < entries.len() && (#[trigger] entries[i]).0@ == k by {
            if k == entries.last().0@ {
                assert(entries[entries.len() - 1].0@ == k);
            } else {
                assert(map_of(front).contains_key(k));
                let i = choose|i: int| 0 <= i < front.len() && (#[trigger] front[i]).0@ == k;
                assert(entries[i].0@ == k);
            }
        }
    }
}

impl<V> View for Table<V> {
    type V = Map<Seq<char>, V>;

    open spec fn view(&self) -> Map<Seq<char>, V> {
        map_of(self.entries@)
    }
}

impl<V> Table<V> {
    pub open spec fn wf(&self) -> bool {
        in_order(self.entries@)
    }

    pub fn new() -> (r: Self)
        ensures
            r.wf(),
            r@ == Map::<Seq<char>, V>::empty(),
    {
        Table { entries: Vec::new() }
    }

    /// The place of a name: where it stands, or where it belongs.
    fn place(&self, name: &str) -> (r: (usize, bool))
        requires
            self.wf(),
        ensures
            r.0 <= self.entries@.len(),
            r.1 ==> r.0 < self.entries@.len() && self.entries@[r.0 as int].0@ == name@,
            !r.1 ==> !self@.contains_key(name@),
            forall|i: int| 0 <= i < r.0 ==> precedes((#[trigger] self.entries@[i]).0@, name@),
            !r.1 ==> forall|i: int|
                r.0 <= i < self.entries@.len() ==> precedes(name@, (#[trigger] self.entries@[i]).0@),
    {
        let mut i: usize = 0;
        while i < self.entries.len() && comes_before(&self.entries[i].0, name)
            invariant
                self.wf(),
                i <= self.entries@.len(),
                forall|k: int| 0 <= k < i ==> precedes((#[trigger] self.entries@[k]).0@, name@),
            decreases self.entries.len() - i,
        {
            i += 1;
        }
        let hit = i < self.entries.len() && text::same(&self.entries[i].0, name);
        proof {
            lemma_in_order_distinct(self.entries@);
            lemma_map_of(self.entries@);
            if !hit {
                assert forall|k: int| i <= k < self.entries@.len() implies precedes(
                    name@,
                    (#[trigger] self.entries@[k]).0@,
                ) by {
                    lemma_precedes_total(self.entries@[i as int].0@, name@);
                    if k > i {
                        assert(precedes(self.entries@[i as int].0@, self.entries@[k].0@));
                        lemma_precedes_transitive(
                            name@,
                            self.entries@[i as int].0@,
                            self.entries@[k].0@,
                        );
                    }
                }
                if self@.contains_key(name@) {
                    let k = choose|k: int|
                        0 <= k < self.entries@.len() && (#[trigger] self.entries@[k]).0@ == name@;
                    lemma_precedes_total(name@, name@);
                }
            }
        }
        (i, hit)
    }

    /// The value of a name.
    pub fn get(&self, name: &str) -> (r: Option<&V>)
        requires
            self.wf(),
        ensures
            match r {
                Some(v) => self@.contains_key(name@) && self@[name@] == *v,
                None => !self@.contains_key(name@),
            },
    {
        let (i, hit) = self.place(name);
        proof {
            lemma_in_order_distinct(self.entries@);
            lemma_map_of(self.entries@);
        }
        if hit {
            Some(&self.entries[i].1)
        } else {
            None
        }
    }

    /// Gives a name a value, in place of the one it had.
    pub fn insert(&mut self, name: String, value: V)
        requires
            old(self).wf(),
        ensures
            final(self).wf(),
            final(self)@ == old(self)@.insert(name@, value),
    {
        let (i, hit) = self.place(&name);
        let ghost before = self.entries@;
        proof {
            lemma_in_order_distinct(before);
            lemma_map_of(before);
        }
        let ghost nv = name@;
        if hit {
            self.entries.set(i, (name, value));
            proof {
                let after = self.entries@;
                assert(in_order(after)) by {
                    assert forall|a: int, b: int| 0 <= a < b < after.len() implies precedes(
                        (#[trigger] after[a]).0@,
                        (#[trigger] after[b]).0@,
                    ) by {
                        assert(after[a].0@ == before[a].0@);
                        assert(after[b].0@ == before[b].0@);
                    }
                }
                lemma_in_order_distinct(after);
                lemma_map_of(after);
                lemma_same_map(before, after, i as int, nv, value);
            }
        } else {
            self.entries.insert(i, (name, value));
            proof {
                let after = self.entries@;
                assert(in_order(after)) by {
                    assert forall|a: int, b: int| 0 <= a < b < after.len() implies precedes(
                        (#[trigger] after[a]).0@,
                        (#[trigger] after[b]).0@,
                    ) by {
                        if a < i {
                            assert(after[a] == before[a]);
                        } else if a > i {
                            assert(after[a] == before[a - 1]);
                        }
                        if b < i {
                            assert(after[b] == before[b]);
                        } else if b > i {
                            assert(after[b] == before[b - 1]);
                        }
                    }
                }
                lemma_in_order_distinct(after);
                lemma_map_of(after);
                let m = map_of(after);
                let n = map_of(before).insert(nv, value);
                assert forall|k: Seq<char>| m.contains_key(k) == n.contains_key(k) by {
                    if m.contains_key(k) {
                        let j = choose|j: int| 0 <= j < after.len() && (#[trigger] after[j]).0@ == k;
                        if j < i {
                            assert(before[j].0@ == k);
                        } else if j > i {
                            assert(before[j - 1].0@ == k);
                        }
                    }
                    if n.contains_key(k) {
                        if k == nv {
                            assert(after[i as int].0@ == k);
                        } else {
                            let j = choose|j: int|
                                0 <= j < before.len() && (#[trigger] before[j]).0@ == k;
                            if j < i {
                                assert(after[j].0@ == k);
                            } else {
                                assert(after[j + 1].0@ == k);
                            }
                        }
                    }
                }
                assert forall|k: Seq<char>| m.contains_key(k) implies m[k] == n[k] by {
                    let j = choose|j: int| 0 <= j < after.len() && (#[trigger] after[j]).0@ == k;
                    assert(m[k] == after[j].1);
                    if j < i {
                        assert(before[j].0@ == k && before[j].1 == after[j].1);
                    } else if j > i {
                        assert(before[j - 1].0@ == k && before[j - 1].1 == after[j].1);
                    }
                }
                assert(m =~= n);
            }
        }
    }

    /// Takes a name and its value out.
    pub fn remove(&mut self, name: &str) -> (r: Option<V>)
        requires
            old(self).wf(),
        ensures
            final(self).wf(),
            final(self)@ == old(self)@.remove(name@),
            match r {
                Some(v) => old(self)@.contains_key(name@) && old(self)@[name@] == v,
                None => !old(self)@.contains_key(name@),
            },
    {
        let (i, hit) = self.place(name);
        let ghost before = self.entries@;
        proof {
            lemma_in_order_distinct(before);
            lemma_map_of(before);
        }
        if !hit {
            assert(self@ =~= old(self)@.remove(name@));
            return None;
        }
        let (_, v) = self.entries.remove(i);
        proof {
            let after = self.entries@;
            assert(in_order(after)) by {
                assert forall|a: int, b: int| 0 <= a < b < after.len() implies precedes(
                    (#[trigger] after[a]).0@,
                    (#[trigger] after[b]).0@,
                ) by {
                    assert(after[a] == before[if a < i { a } else { a + 1 }]);
                    assert(after[b] == before[if b < i { b } else { b + 1 }]);
                }
            }
            lemma_in_order_distinct(after);
            lemma_map_of(after);
            let m = map_of(after);
            let n = map_of(before).remove(name@);
            assert forall|k: Seq<char>| m.contains_key(k) == n.contains_key(k) by {
                if m.contains_key(k) {
                    let j = choose|j: int| 0 <= j < after.len() && (#[trigger] after[j]).0@ == k;
                    let o = if j < i { j } else { j + 1 };
                    assert(before[o].0@ == k);
                    assert(before[o].0@ != before[i as int].0@);
                }
                if n.contains_key(k) {
                    let j = choose|j: int| 0 <= j < before.len() && (#[trigger] before[j]).0@ == k;
                    let o = if j < i { j } else { j - 1 };
                    assert(after[o].0@ == k);
                }
            }
            assert forall|k: Seq<char>| m.contains_key(k) implies m[k] == n[k] by {
                let j = choose|j: int| 0 <= j < after.len() && (#[trigger] after[j]).0@ == k;
                let o = if j < i { j } else { j + 1 };
                assert(before[o].0@ == k && before[o].1 == after[j].1);
            }
            assert(m =~= n);
        }
        Some(v)
    }

    pub fn len(&self) -> (r: usize)
        ensures
            r == self.entries@.len(),
    {
        self.entries.len()
    }
}

impl<V> Table<V> {
    /// Takes the entries of another table over, in place of those with the same
    /// names.
    pub fn extend(&mut self, more: Table<V>)
        requires
            old(self).wf(),
        ensures
            final(self).wf(),
            final(self)@ == old(self)@.union_prefer_right(more@),
    {
        let ghost all = more.entries@;
        let ghost start = self@;
        let mut rest = more.entries;
        let ghost mut done: int = 0;
        assert(rest@ =~= all.skip(0));
        assert(start.union_prefer_right(map_of(all.take(0))) =~= start);
        while rest.len() > 0
            invariant
                self.wf(),
                0 <= done <= all.len(),
                rest@ == all.skip(done),
                self@ == start.union_prefer_right(map_of(all.take(done))),
            decreases rest.len(),
        {
            let (name, value) = rest.remove(0);
            proof {
                assert(all[done] == (name, value));
                assert(all.take(done + 1).drop_last() =~= all.take(done));
                let m = map_of(all.take(done));
                assert(start.union_prefer_right(m.insert(name@, value))
                    =~= start.union_prefer_right(m).insert(name@, value));
                done = done + 1;
                assert(rest@ =~= all.skip(done));
            }
            self.insert(name, value);
        }
        assert(all.take(done) =~= all);
    }
}

/// The list of a name, empty where the table has none.
pub open spec fn list_at<T>(m: Map<Seq<char>, Vec<T>>, name: Seq<char>) -> Seq<T> {
    if m.contains_key(name) {
        m[name]@
    } else {
        Seq::empty()
    }
}

impl<T> Table<Vec<T>> {
    /// Appends the lists of another table to those of the same names.
    pub fn append_lists(&mut self, more: Table<Vec<T>>)
        requires
            old(self).wf(),
            more.wf(),
        ensures
            final(self).wf(),
            final(self)@.dom() == old(self)@.dom().union(more@.dom()),
            forall|name: Seq<char>|
                #[trigger]
                list_at(final(self)@, name) == list_at(old(self)@, name) + list_at(more@, name),
    {
        let ghost all = more.entries@;
        let ghost start = self@;
        let mut rest = more.entries;
        let ghost mut done: int = 0;
        proof {
            lemma_in_order_distinct(all);
            assert(rest@ =~= all.skip(0));
            assert(start.dom().union(map_of(all.take(0)).dom()) =~= start.dom());
            assert forall|name: Seq<char>| #[trigger] list_at(self@, name) == list_at(start, name)
                + list_at(map_of(all.take(0)), name) by {
                assert(list_at(start, name) + Seq::<T>::empty() =~= list_at(start, name));
            }
        }
        while rest.len() > 0
            invariant
                self.wf(),
                distinct_names(all),
                0 <= done <= all.len(),
                rest@ == all.skip(done),
                self@.dom() == start.dom().union(map_of(all.take(done)).dom()),
                forall|name: Seq<char>| #[trigger]
                    list_at(self@, name) == list_at(start, name) + list_at(
                        map_of(all.take(done)),
                        name,
                    ),
            decreases rest.len(),
        {
            let ghost before = self@;
            let ghost m = map_of(all.take(done));
            let (name, value) = rest.remove(0);
            let mut list = match self.remove(&name) {
                Some(l) => l,
                None => Vec::new(),
            };
            let mut tail = value;
            list.append(&mut tail);
            let ghost nv = name@;
            proof {
                assert(all[done] == (name, value));
                assert(all.take(done + 1).drop_last() =~= all.take(done));
                assert(!m.contains_key(nv)) by {
                    let front = all.take(done);
                    assert(distinct_names(front)) by {
                        assert forall|i: int, j: int|
                            0 <= i < front.len() && 0 <= j < front.len() && i != j implies (
                        #[trigger] front[i]).0@ != (#[trigger] front[j]).0@ by {
                            assert(front[i] == all[i] && front[j] == all[j]);
                        }
                    }
                    lemma_map_of(front);
                    if m.contains_key(nv) {
                        let i = choose|i: int|
                            0 <= i < front.len() && (#[trigger] front[i]).0@ == nv;
                        assert(all[i].0@ != all[done].0@);
                    }
                }
                assert(list@ == list_at(before, nv) + value@);
            }
            self.insert(name, list);
            proof {
                let m2 = m.insert(nv, value);
                assert(map_of(all.take(done + 1)) == m2);
                assert(self@.dom() =~= start.dom().union(m2.dom()));
                assert forall|k: Seq<char>| #[trigger] list_at(self@, k) == list_at(start, k)
                    + list_at(m2, k) by {
                    if k == nv {
                        assert(list_at(before, k) == list_at(start, k) + list_at(m, k));
                        assert(list_at(start, k) + Seq::<T>::empty() =~= list_at(start, k));
                    } else {
                        assert(list_at(self@, k) == list_at(before, k));
                        assert(list_at(m2, k) == list_at(m, k));
                    }
                }
                done = done + 1;
                assert(rest@ =~= all.skip(done));
            }
        }
        assert(all.take(done) =~= all);
    }
}

proof fn lemma_same_map<V>(
    before: Seq<(String, V)>,
    after: Seq<(String, V)>,
    i: int,
    name: Seq<char>,
    value: V,
)
    requires
        distinct_names(before),
        distinct_names(after),
        before.len() == after.len(),
        0 <= i < before.len(),
        before[i].0@ == name,
        after[i].0@ == name,
        after[i].1 == value,
        forall|k: int| 0 <= k < before.len() && k != i ==> #[trigger] after[k] == before[k],
    ensures
        map_of(after) == map_of(before).insert(name, value),
{
    lemma_map_of(before);
    lemma_map_of(after);
    let m = map_of(after);
    let n = map_of(before).insert(name, value);
    assert forall|k: Seq<char>| m.contains_key(k) == n.contains_key(k) by {
        if m.contains_key(k) {
            let j = choose|j: int| 0 <= j < after.len() && (#[trigger] after[j]).0@ == k;
            assert(before[j].0@ == k);
        }
        if n.contains_key(k) {
            if k == name {
                assert(after[i].0@ == k);
            } else {
                let j = choose|j: int| 0 <= j < before.len() && (#[trigger] before[j]).0@ == k;
                assert(after[j].0@ == k);
            }
        }
    }
    assert forall|k: Seq<char>| m.contains_key(k) implies m[k] == n[k] by {
        let j = choose|j: int| 0 <= j < after.len() && (#[trigger] after[j]).0@ == k;
        assert(m[k] == after[j].1);
        if j != i {
            assert(before[j].0@ == k && before[j].1 == after[j].1);
            assert(before[j].0@ != before[i].0@);
        }
    }
    assert(m =~= n);
}

} // verus!
