//! An insertion-ordered table from names to values.
//!
//! A name is entered at most once; entering it again replaces its value and
//! leaves its place unchanged. The table is modelled by the sequence of its
//! entries, each a name with the view of its value.

use vstd::prelude::*;

verus! {

/// The names of the entries of `s`, in order.
pub open spec fn names<W>(s: Seq<(Seq<char>, W)>) -> Seq<Seq<char>> {
    Seq::new(s.len(), |i: int| s[i].0)
}

/// Whether the entry at place `i` is the first one under `name`.
pub open spec fn first_at<W>(s: Seq<(Seq<char>, W)>, name: Seq<char>, i: int) -> bool {
    &&& 0 <= i < s.len()
    &&& s[i].0 == name
    &&& forall|j: int| 0 <= j < i ==> (#[trigger] s[j]).0 != name
}

/// Whether `s` has an entry under `name`.
pub open spec fn has_name<W>(s: Seq<(Seq<char>, W)>, name: Seq<char>) -> bool {
    exists|i: int| first_at(s, name, i)
}

/// The place of the first entry under `name`, where there is one.
pub open spec fn position<W>(s: Seq<(Seq<char>, W)>, name: Seq<char>) -> int {
    choose|i: int| first_at(s, name, i)
}

/// The value entered under `name`.
pub open spec fn lookup<W>(s: Seq<(Seq<char>, W)>, name: Seq<char>) -> Option<W> {
    if has_name(s, name) {
        Some(s[position(s, name)].1)
    } else {
        None
    }
}

/// The table after `value` is entered under `name`: in the place of the
/// entry that `name` had, or else at the end.
pub open spec fn put<W>(s: Seq<(Seq<char>, W)>, name: Seq<char>, value: W) -> Seq<(Seq<char>, W)> {
    if has_name(s, name) {
        s.update(position(s, name), (name, value))
    } else {
        s.push((name, value))
    }
}

/// Whether no two entries of `s` share a name.
pub open spec fn distinct<W>(s: Seq<(Seq<char>, W)>) -> bool {
    forall|i: int, j: int| 0 <= i < j < s.len() ==> (#[trigger] s[i]).0 != (#[trigger] s[j]).0
}

/// A name that some entry carries has a first entry, and only one place is
/// the first.
pub proof fn lemma_first<W>(s: Seq<(Seq<char>, W)>, name: Seq<char>, i: int)
    requires
        0 <= i < s.len(),
        s[i].0 == name,
    ensures
        has_name(s, name),
        0 <= position(s, name) <= i,
        first_at(s, name, position(s, name)),
        first_at(s, name, i) ==> position(s, name) == i,
    decreases i,
{
    if exists|j: int| 0 <= j < i && (#[trigger] s[j]).0 == name {
        let j = choose|j: int| 0 <= j < i && (#[trigger] s[j]).0 == name;
        lemma_first(s, name, j);
    } else {
        assert(first_at(s, name, i));
    }
    let p = position(s, name);
    assert(first_at(s, name, p));
    if first_at(s, name, i) {
        if p < i {
            assert(s[p].0 != name);
        } else if i < p {
            assert(s[i].0 != name);
        }
    }
}

/// A table without an entry under `name` carries the name nowhere.
pub proof fn lemma_absent<W>(s: Seq<(Seq<char>, W)>, name: Seq<char>)
    requires
        !has_name(s, name),
    ensures
        forall|i: int| 0 <= i < s.len() ==> (#[trigger] s[i]).0 != name,
{
    assert forall|i: int| 0 <= i < s.len() implies (#[trigger] s[i]).0 != name by {
        if s[i].0 == name {
            lemma_first(s, name, i);
        }
    }
}

/// Entering a value makes it the one found under its name, adds the name at
/// the end if it is new, and changes nothing under any other name.
pub proof fn lemma_put<W>(s: Seq<(Seq<char>, W)>, name: Seq<char>, value: W)
    ensures
        has_name(put(s, name, value), name),
        lookup(put(s, name, value), name) == Some(value),
        names(put(s, name, value)) == if has_name(s, name) {
            names(s)
        } else {
            names(s).push(name)
        },
        forall|other: Seq<char>|
            other != name ==> has_name(put(s, name, value), other) == has_name(s, other) && lookup(
                put(s, name, value),
                other,
            ) == lookup(s, other),
        distinct(s) ==> distinct(put(s, name, value)),
{
    let t = put(s, name, value);
    let at = if has_name(s, name) {
        position(s, name)
    } else {
        s.len() as int
    };
    if has_name(s, name) {
        assert(first_at(s, name, at));
    } else {
        lemma_absent(s, name);
    }
    assert(t[at] == (name, value));
    assert forall|j: int| 0 <= j < at implies (#[trigger] t[j]).0 != name by {
        assert(t[j] == s[j]);
    }
    assert(first_at(t, name, at));
    lemma_first(t, name, at);
    assert(names(t) =~= if has_name(s, name) {
        names(s)
    } else {
        names(s).push(name)
    });
    assert forall|other: Seq<char>| other != name implies has_name(t, other) == has_name(s, other)
        && lookup(t, other) == lookup(s, other) by {
        if has_name(s, other) {
            let p = position(s, other);
            assert(first_at(s, other, p));
            assert(t[p] == s[p]);
            assert forall|j: int| 0 <= j < p implies (#[trigger] t[j]).0 != other by {
                assert(s[j].0 != other);
            }
            lemma_first(t, other, p);
        }
        if has_name(t, other) {
            let p = position(t, other);
            assert(first_at(t, other, p));
            assert(p < s.len() && s[p] == t[p]);
            assert forall|j: int| 0 <= j < p implies (#[trigger] s[j]).0 != other by {
                assert(t[j].0 != other);
            }
            lemma_first(s, other, p);
        }
    }
    if distinct(s) {
        assert forall|i: int, j: int| 0 <= i < j < t.len() implies (#[trigger] t[i]).0 != (
        #[trigger] t[j]).0 by {
            if has_name(s, name) {
                assert(s[at].0 == name);
                assert(t[i].0 == s[i].0 && t[j].0 == s[j].0);
            } else if j < s.len() {
                assert(t[i].0 == s[i].0 && t[j].0 == s[j].0);
            } else {
                assert(t[i] == s[i]);
            }
        }
    }
}

/// Whether `after` has the entries of `before` under the same names at the
/// same places, and possibly more behind them.
pub open spec fn extends<W>(before: Seq<(Seq<char>, W)>, after: Seq<(Seq<char>, W)>) -> bool {
    &&& before.len() <= after.len()
    &&& forall|i: int| 0 <= i < before.len() ==> (#[trigger] after[i]).0 == before[i].0
}

/// Whether exactly one entry of `s` stands under `name`.
pub open spec fn once<W>(s: Seq<(Seq<char>, W)>, name: Seq<char>) -> bool {
    exists|i: int|
        0 <= i < s.len() && (#[trigger] s[i]).0 == name && forall|j: int|
            0 <= j < s.len() && j != i ==> (#[trigger] s[j]).0 != name
}

/// Entering a value removes no name and moves none.
pub proof fn lemma_put_extends<W>(s: Seq<(Seq<char>, W)>, name: Seq<char>, value: W)
    ensures
        extends(s, put(s, name, value)),
{
    if has_name(s, name) {
        assert(first_at(s, name, position(s, name)));
    }
}

/// Extending is transitive.
pub proof fn lemma_extends_chain<W>(
    a: Seq<(Seq<char>, W)>,
    b: Seq<(Seq<char>, W)>,
    c: Seq<(Seq<char>, W)>,
)
    requires
        extends(a, b),
        extends(b, c),
    ensures
        extends(a, c),
{
    assert forall|i: int| 0 <= i < a.len() implies (#[trigger] c[i]).0 == a[i].0 by {
        assert(b[i].0 == a[i].0);
    }
}

/// A table that extends another has every name of the other.
pub proof fn lemma_extends_keeps<W>(
    before: Seq<(Seq<char>, W)>,
    after: Seq<(Seq<char>, W)>,
    name: Seq<char>,
)
    requires
        extends(before, after),
        has_name(before, name),
    ensures
        has_name(after, name),
{
    let p = position(before, name);
    assert(first_at(before, name, p));
    assert(after[p].0 == name);
    lemma_first(after, name, p);
}

/// In a table of distinct names, a name that has an entry has exactly one.
pub proof fn lemma_once<W>(s: Seq<(Seq<char>, W)>, name: Seq<char>)
    requires
        distinct(s),
        has_name(s, name),
    ensures
        once(s, name),
{
    let p = position(s, name);
    assert(first_at(s, name, p));
    assert forall|j: int| 0 <= j < s.len() && j != p implies (#[trigger] s[j]).0 != name by {
        if j < p {
            assert(s[j].0 != s[p].0);
        } else {
            assert(s[p].0 != s[j].0);
        }
    }
}

/// An insertion-ordered table from names to values of type `V`.
pub struct Table<V> {
    entries: Vec<(String, V)>,
}

impl<V: View> View for Table<V> {
    type V = Seq<(Seq<char>, V::V)>;

    closed spec fn view(&self) -> Seq<(Seq<char>, V::V)> {
        Seq::new(self.entries@.len(), |i: int| (self.entries@[i].0@, self.entries@[i].1@))
    }
}

impl<V: View> Table<V> {
    /// Whether the table is well formed: no two entries share a name.
    pub open spec fn wf(&self) -> bool {
        distinct(self@)
    }

    /// An empty table.
    pub fn new() -> (table: Self)
        ensures
            table@ == Seq::<(Seq<char>, V::V)>::empty(),
            table.wf(),
    {
        Table { entries: Vec::new() }
    }

    /// The number of entries.
    pub fn len(&self) -> (n: usize)
        ensures
            n == self@.len(),
    {
        self.entries.len()
    }

    /// The name of the entry at place `i`.
    pub fn name(&self, i: usize) -> (name: &String)
        requires
            i < self@.len(),
        ensures
            name@ == self@[i as int].0,
    {
        &self.entries[i].0
    }

    /// The value of the entry at place `i`.
    pub fn value(&self, i: usize) -> (value: &V)
        requires
            i < self@.len(),
        ensures
            value@ == self@[i as int].1,
    {
        &self.entries[i].1
    }

    /// The place of the first entry under `name`, if there is one.
    pub fn find(&self, name: &str) -> (place: Option<usize>)
        ensures
            place is Some == has_name(self@, name@),
            place matches Some(i) ==> i == position(self@, name@) && i < self@.len(),
    {
        let key = name.to_owned();
        let mut i: usize = 0;
        while i < self.entries.len()
            invariant
                i <= self.entries@.len(),
                key@ == name@,
                forall|k: int| 0 <= k < i ==> (#[trigger] self@[k]).0 != name@,
            decreases self.entries@.len() - i,
        {
            if self.entries[i].0 == key {
                proof {
                    assert(self@[i as int].0 == name@);
                    lemma_first(self@, name@, i as int);
                }
                return Some(i);
            }
            i = i + 1;
        }
        proof {
            if has_name(self@, name@) {
                assert(first_at(self@, name@, position(self@, name@)));
            }
        }
        None
    }

    /// The value entered under `name`, if there is one.
    pub fn get(&self, name: &str) -> (value: Option<&V>)
        ensures
            value is Some == has_name(self@, name@),
            value matches Some(v) ==> lookup(self@, name@) == Some(v@),
    {
        match self.find(name) {
            Some(i) => Some(&self.entries[i].1),
            None => None,
        }
    }

    /// Enters `value` under `name`, in the place of the entry that `name` had
    /// or else at the end.
    pub fn insert(&mut self, name: String, value: V)
        ensures
            final(self)@ == put(old(self)@, name@, value@),
            old(self).wf() ==> final(self).wf(),
    {
        proof {
            lemma_put(self@, name@, value@);
        }
        match self.find(name.as_str()) {
            Some(i) => {
                self.entries.set(i, (name, value));
            },
            None => {
                self.entries.push((name, value));
            },
        }
        assert(self@ =~= put(old(self)@, name@, value@));
    }
}

} // verus!
