//! The interpreter's name tables: a small association table from names
//! to values whose abstract value is a mathematical map. A new binding
//! is appended and the latest binding for a name wins, so an update is
//! exactly a map insert and a lookup is exactly a map read.

use vstd::prelude::*;

verus! {

use crate::text::str_eq;

/// The map an entry sequence stands for: later entries win.
pub open spec fn table_map<V: View>(s: Seq<(String, V)>) -> Map<Seq<char>, V::V>
    decreases s,
{
    if s.len() == 0 {
        Map::empty()
    } else {
        table_map(s.drop_last()).insert(s.last().0@, s.last().1@)
    }
}

/// The map contains exactly the entries' keys, and maps a key to the
/// value of its latest entry.
proof fn lemma_table_map<V: View>(s: Seq<(String, V)>)
    ensures
        forall|k: Seq<char>|
            table_map(s).contains_key(k) <==> exists|i: int| 0 <= i < s.len() && s[i].0@ == k,
        forall|i: int|
            #![trigger s[i].0@]
            0 <= i < s.len() && (forall|j: int| i < j < s.len() ==> s[j].0@ != s[i].0@)
                ==> table_map(s).contains_key(s[i].0@) && table_map(s)[s[i].0@] == s[i].1@,
    decreases s,
{
    if s.len() > 0 {
        let pre = s.drop_last();
        lemma_table_map(pre);
        assert forall|k: Seq<char>| #[trigger] table_map(s).contains_key(k) implies exists|i: int|
            0 <= i < s.len() && s[i].0@ == k by {
            if k == s.last().0@ {
                assert(s[s.len() - 1].0@ == k);
            } else {
                assert(table_map(pre).contains_key(k));
                assert(exists|i: int| 0 <= i < pre.len() && pre[i].0@ == k);
                let w = choose|i: int| 0 <= i < pre.len() && pre[i].0@ == k;
                assert(0 <= w < pre.len() && pre[w].0@ == k);
                assert(s[w] == pre[w]);
            }
        }
        assert forall|k: Seq<char>| (exists|i: int|
            0 <= i < s.len() && s[i].0@ == k) implies #[trigger] table_map(s).contains_key(k) by {
            let w = choose|i: int| 0 <= i < s.len() && s[i].0@ == k;
            if w == s.len() - 1 {
                assert(table_map(s).contains_key(s.last().0@));
            } else {
                assert(pre[w] == s[w]);
                assert(table_map(pre).contains_key(k));
            }
        }
        assert forall|i: int|
            0 <= i < s.len() && (forall|j: int| i < j < s.len() ==> s[j].0@ != s[i].0@)
            implies table_map(s).contains_key(#[trigger] s[i].0@) && table_map(s)[s[i].0@]
            == s[i].1@ by {
            if i == s.len() - 1 {
                assert(table_map(s) == table_map(pre).insert(s.last().0@, s.last().1@));
            } else {
                assert(s[s.len() - 1].0@ != s[i].0@);
                assert(pre[i] == s[i]);
                assert(forall|j: int| i < j < pre.len() ==> pre[j] == s[j]);
                assert(forall|j: int| i < j < pre.len() ==> pre[j].0@ != pre[i].0@);
                assert(table_map(pre).contains_key(pre[i].0@) && table_map(pre)[pre[i].0@]
                    == pre[i].1@);
            }
        }
    }
}

/// A name table: an association list read as a map.
pub struct Table<V> {
    entries: Vec<(String, V)>,
}

impl<V: View> View for Table<V> {
    type V = Map<Seq<char>, V::V>;

    closed spec fn view(&self) -> Map<Seq<char>, V::V> {
        table_map(self.entries@)
    }
}

impl<V: View> Table<V> {
    /// An empty table.
    pub fn new() -> (r: Self)
        ensures
            r@ == Map::<Seq<char>, V::V>::empty(),
    {
        let entries: Vec<(String, V)> = Vec::new();
        Table { entries }
    }

    /// The value bound to `name`, if any: the latest binding wins.
    pub fn get(&self, name: &str) -> (r: Option<&V>)
        ensures
            match r {
                Some(v) => self@.contains_key(name@) && v@ == self@[name@],
                None => !self@.contains_key(name@),
            },
    {
        proof {
            lemma_table_map(self.entries@);
        }
        let n = self.entries.len();
        let mut i: usize = n;
        while i > 0
            invariant
                0 <= i <= n,
                n == self.entries@.len(),
                forall|j: int| i <= j < n ==> self.entries@[j].0@ != name@,
            decreases i,
        {
            i -= 1;
            if str_eq(self.entries[i].0.as_str(), name) {
                proof {
                    lemma_table_map(self.entries@);
                    assert(self.entries@[i as int].0@ == name@);
                    assert(forall|j: int|
                        i < j < self.entries@.len() ==> self.entries@[j].0@
                            != self.entries@[i as int].0@);
                    assert(self@.contains_key(name@));
                    assert(self@[name@] == self.entries@[i as int].1@);
                }
                return Some(&self.entries[i].1);
            }
        }
        proof {
            if self@.contains_key(name@) {
                let w = choose|j: int|
                    0 <= j < self.entries@.len() && self.entries@[j].0@ == name@;
                assert(self.entries@[w].0@ == name@);
            }
        }
        None
    }


    /// Bind `name` to `value`, shadowing any previous binding.
    pub fn insert(&mut self, name: &str, value: V)
        ensures
            final(self)@ == old(self)@.insert(name@, value@),
    {
        let ghost pre = self.entries@;
        self.entries.push((name.to_owned(), value));
        proof {
            assert(self.entries@.drop_last() =~= pre);
        }
    }
}

impl Table<String> {
    /// An independent copy of the table, reading as the same map.
    pub fn duplicate(&self) -> (r: Self)
        ensures
            r@ == self@,
    {
        let n = self.entries.len();
        let mut entries: Vec<(String, String)> = Vec::new();
        let mut i: usize = 0;
        while i < n
            invariant
                0 <= i <= n,
                n == self.entries@.len(),
                entries@.len() == i,
                forall|j: int|
                    0 <= j < i ==> entries@[j].0@ == self.entries@[j].0@ && entries@[j].1@
                        == self.entries@[j].1@,
            decreases n - i,
        {
            let pair = &self.entries[i];
            entries.push((pair.0.clone(), pair.1.clone()));
            i += 1;
        }
        proof {
            lemma_views_equal(entries@, self.entries@);
        }
        Table { entries }
    }
}

/// Entry sequences with pairwise equal views read as the same map.
proof fn lemma_views_equal(a: Seq<(String, String)>, b: Seq<(String, String)>)
    requires
        a.len() == b.len(),
        forall|j: int| 0 <= j < a.len() ==> a[j].0@ == b[j].0@ && a[j].1@ == b[j].1@,
    ensures
        table_map(a) == table_map(b),
    decreases a,
{
    if a.len() > 0 {
        assert(forall|j: int|
            0 <= j < a.len() - 1 ==> a.drop_last()[j].0@ == b.drop_last()[j].0@
                && a.drop_last()[j].1@ == b.drop_last()[j].1@);
        lemma_views_equal(a.drop_last(), b.drop_last());
    }
}

} // verus!
