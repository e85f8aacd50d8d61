//! A small map keyed by text labels.

use vstd::prelude::*;

use crate::text::text_eq;

verus! {

/// Values that can be copied and compared by what they mean.
pub trait Reading: View + Sized {
    /// A copy with the same meaning.
    fn duplicate(&self) -> (copy: Self)
        ensures
            copy@ == self@,
    ;

    /// Whether two values mean the same.
    fn same(&self, other: &Self) -> (equal: bool)
        ensures
            equal == (self@ == other@),
    ;
}

/// A map from labels to values. No label occurs twice.
#[derive(Debug)]
pub struct LabelMap<V> {
    entries: Vec<(String, V)>,
}

impl<V: View> View for LabelMap<V> {
    type V = Map<Seq<char>, V::V>;

    closed spec fn view(&self) -> Map<Seq<char>, V::V> {
        contents(self.entries@)
    }
}

/// Entry `i` carries the label `k`.
spec fn holds_at<V>(entries: Seq<(String, V)>, k: Seq<char>, i: int) -> bool {
    0 <= i < entries.len() && entries[i].0@ == k
}

/// No label occurs twice.
spec fn labels_distinct<V>(entries: Seq<(String, V)>) -> bool {
    forall|i: int, j: int|
        0 <= i < j < entries.len() ==> (#[trigger] entries[i]).0@ != (#[trigger] entries[j]).0@
}

/// The map that a list of entries stands for.
spec fn contents<V: View>(entries: Seq<(String, V)>) -> Map<Seq<char>, V::V> {
    Map::new(
        |k: Seq<char>| exists|i: int| holds_at(entries, k, i),
        |k: Seq<char>| entries[choose|i: int| holds_at(entries, k, i)].1@,
    )
}

proof fn lemma_found<V: View>(entries: Seq<(String, V)>, k: Seq<char>, i: int)
    requires
        labels_distinct(entries),
        holds_at(entries, k, i),
    ensures
        contents(entries).contains_key(k),
        contents(entries)[k] == entries[i].1@,
{
    let j = choose|j: int| holds_at(entries, k, j);
    assert(holds_at(entries, k, j));
    if i < j {
        assert(entries[i].0@ != entries[j].0@);
    } else if j < i {
        assert(entries[j].0@ != entries[i].0@);
    }
}

proof fn lemma_dom_len<V: View>(entries: Seq<(String, V)>)
    requires
        labels_distinct(entries),
    ensures
        contents(entries).dom().finite(),
        contents(entries).dom().len() == entries.len(),
{
    let labels = entries.map_values(|e: (String, V)| e.0@);
    assert(labels.no_duplicates()) by {
        assert forall|i: int, j: int| 0 <= i < j < labels.len() implies labels[i] != labels[j] by {
            assert(entries[i].0@ != entries[j].0@);
        }
    }
    labels.unique_seq_to_set();
    let dom = contents(entries).dom();
    assert(dom =~= labels.to_set()) by {
        assert forall|k: Seq<char>| #[trigger] dom.contains(k) <==> labels.to_set().contains(k) by {
            if dom.contains(k) {
                let i = choose|i: int| holds_at(entries, k, i);
                assert(labels[i] == k);
            }
            if labels.to_set().contains(k) {
                let i = choose|i: int| 0 <= i < labels.len() && labels[i] == k;
                assert(holds_at(entries, k, i));
            }
        }
    }
}

/// Setting one entry, or adding one with a new label, inserts into the map.
proof fn lemma_inserted<V: View>(
    before: Seq<(String, V)>,
    after: Seq<(String, V)>,
    k: Seq<char>,
    v: V::V,
    at: int,
)
    requires
        labels_distinct(before),
        holds_at(after, k, at),
        after[at].1@ == v,
        at < before.len() ==> after.len() == before.len() && holds_at(before, k, at),
        at >= before.len() ==> at == before.len() && after.len() == at + 1
            && !contents(before).contains_key(k),
        forall|i: int|
            0 <= i < before.len() && i != at ==> (#[trigger] after[i]) == before[i],
    ensures
        labels_distinct(after),
        contents(after) == contents(before).insert(k, v),
{
    assert forall|i: int| 0 <= i < before.len() && i != at implies (#[trigger] before[i]).0@
        != k by {
        if before[i].0@ == k {
            assert(holds_at(before, k, i));
            if i < at && at < before.len() {
                assert(before[i].0@ != before[at].0@);
            } else if at < i {
                assert(before[at].0@ != before[i].0@);
            }
        }
    }
    assert(labels_distinct(after)) by {
        assert forall|i: int, j: int| 0 <= i < j < after.len() implies (#[trigger] after[i]).0@ != (
        #[trigger] after[j]).0@ by {
            if i != at && j != at {
                assert(before[i].0@ != before[j].0@);
            } else if i == at {
                assert(before[j].0@ != k);
            } else {
                assert(before[i].0@ != k);
            }
        }
    }
    let map = contents(before).insert(k, v);
    assert forall|q: Seq<char>|
        #![trigger map.dom().contains(q)]
        #![trigger map[q]]
        contents(after).dom().contains(q) == map.dom().contains(q) && (map.dom().contains(q)
            ==> contents(after)[q] == map[q]) by {
        if q == k {
            lemma_found(after, k, at);
        } else {
            if contents(before).contains_key(q) {
                let i = choose|i: int| holds_at(before, q, i);
                assert(holds_at(after, q, i));
                lemma_found(before, q, i);
                lemma_found(after, q, i);
            }
            if contents(after).contains_key(q) {
                let i = choose|i: int| holds_at(after, q, i);
                assert(holds_at(before, q, i));
            }
        }
    }
    assert(contents(after) =~= map);
}

/// Two maps with as many labels are equal if each entry of one is in the other.
proof fn lemma_same<V: View>(a: Seq<(String, V)>, b: Seq<(String, V)>)
    requires
        labels_distinct(a),
        labels_distinct(b),
        a.len() == b.len(),
        forall|i: int|
            0 <= i < a.len() ==> contents(b).contains_key((#[trigger] a[i]).0@) && contents(
                b,
            )[a[i].0@] == a[i].1@,
    ensures
        contents(a) == contents(b),
{
    let da = contents(a).dom();
    let db = contents(b).dom();
    lemma_dom_len(a);
    lemma_dom_len(b);
    assert forall|k: Seq<char>| #[trigger] contents(a).contains_key(k) implies contents(
        b,
    ).contains_key(k) && contents(b)[k] == contents(a)[k] by {
        let i = choose|i: int| holds_at(a, k, i);
        assert(holds_at(a, k, i));
        lemma_found(a, k, i);
        assert(contents(b).contains_key(a[i].0@));
    }
    assert(da.subset_of(db));
    vstd::set_lib::lemma_subset_equality(da, db);
    assert(contents(a) =~= contents(b));
}

impl<V> LabelMap<V> {
    #[verifier::type_invariant]
    spec fn distinct(&self) -> bool {
        labels_distinct(self.entries@)
    }
}

impl<V: View> LabelMap<V> {
    /// The empty map.
    pub fn new() -> (map: Self)
        ensures
            map@ == Map::<Seq<char>, V::V>::empty(),
    {
        let map = LabelMap { entries: Vec::new() };
        assert(map@ =~= Map::<Seq<char>, V::V>::empty());
        map
    }

    /// The position of a label.
    fn position(&self, key: &str) -> (found: Option<usize>)
        ensures
            match found {
                Some(i) => holds_at(self.entries@, key@, i as int),
                None => !self@.contains_key(key@),
            },
    {
        let mut i: usize = 0;
        while i < self.entries.len()
            invariant
                i <= self.entries@.len(),
                forall|k: int| 0 <= k < i ==> !#[trigger] holds_at(self.entries@, key@, k),
            decreases self.entries@.len() - i,
        {
            if text_eq(self.entries[i].0.as_str(), key) {
                return Some(i);
            }
            i = i + 1;
        }
        None
    }

    /// Whether a label is present.
    pub fn contains_key(&self, key: &str) -> (present: bool)
        ensures
            present == self@.contains_key(key@),
    {
        self.position(key).is_some()
    }

    /// The value of a label.
    pub fn get(&self, key: &str) -> (value: Option<&V>)
        ensures
            match value {
                Some(v) => self@.contains_key(key@) && self@[key@] == v@,
                None => !self@.contains_key(key@),
            },
    {
        proof {
            use_type_invariant(self);
        }
        match self.position(key) {
            Some(i) => {
                proof {
                    lemma_found(self.entries@, key@, i as int);
                }
                Some(&self.entries[i].1)
            },
            None => None,
        }
    }

    /// Number of labels.
    pub fn len(&self) -> (n: usize)
        ensures
            self@.dom().finite(),
            n == self@.dom().len(),
    {
        proof {
            use_type_invariant(self);
            lemma_dom_len(self.entries@);
        }
        self.entries.len()
    }

    /// The labels with their values, each label once.
    pub fn entries(&self) -> (entries: &[(String, V)])
        ensures
            entries@.len() == self@.dom().len(),
            forall|i: int|
                0 <= i < entries@.len() ==> self@.contains_key((#[trigger] entries@[i]).0@)
                    && self@[entries@[i].0@] == entries@[i].1@,
            forall|i: int, j: int|
                0 <= i < j < entries@.len() ==> (#[trigger] entries@[i]).0@ != (
                #[trigger] entries@[j]).0@,
    {
        proof {
            use_type_invariant(self);
            lemma_dom_len(self.entries@);
            assert forall|i: int| 0 <= i < self.entries@.len() implies self@.contains_key(
                (#[trigger] self.entries@[i]).0@,
            ) && self@[self.entries@[i].0@] == self.entries@[i].1@ by {
                lemma_found(self.entries@, self.entries@[i].0@, i);
            }
        }
        self.entries.as_slice()
    }

    /// Gives `key` the value `value`, in place of the one it had.
    pub fn insert(&mut self, key: String, value: V)
        ensures
            final(self)@ == old(self)@.insert(key@, value@),
    {
        proof {
            use_type_invariant(&*self);
        }
        let ghost k = key@;
        let ghost v = value@;
        let ghost before = self.entries@;
        let found: Option<usize> = self.position(key.as_str());
        let mut entries: Vec<(String, V)> = Vec::new();
        std::mem::swap(&mut entries, &mut self.entries);
        let at: usize = match found {
            Some(i) => {
                entries.set(i, (key, value));
                i
            },
            None => {
                let n: usize = entries.len();
                entries.push((key, value));
                n
            },
        };
        proof {
            lemma_inserted(before, entries@, k, v, at as int);
        }
        self.entries = entries;
    }
}

impl<V: Reading> LabelMap<V> {
    /// Whether two maps have the same labels with the same values.
    pub fn same(&self, other: &Self) -> (equal: bool)
        ensures
            equal == (self@ == other@),
    {
        proof {
            use_type_invariant(self);
            use_type_invariant(other);
            lemma_dom_len(self.entries@);
            lemma_dom_len(other.entries@);
        }
        if self.entries.len() != other.entries.len() {
            return false;
        }
        let mut i: usize = 0;
        while i < self.entries.len()
            invariant
                i <= self.entries@.len(),
                self@ == contents(self.entries@),
                labels_distinct(self.entries@),
                forall|k: int|
                    0 <= k < i ==> other@.contains_key((#[trigger] self.entries@[k]).0@)
                        && other@[self.entries@[k].0@] == self.entries@[k].1@,
            decreases self.entries@.len() - i,
        {
            proof {
                lemma_found(self.entries@, self.entries@[i as int].0@, i as int);
            }
            match other.get(self.entries[i].0.as_str()) {
                Some(v) => {
                    if !self.entries[i].1.same(v) {
                        return false;
                    }
                },
                None => {
                    return false;
                },
            }
            i = i + 1;
        }
        proof {
            lemma_same(self.entries@, other.entries@);
        }
        true
    }
}

impl<V: Reading> Clone for LabelMap<V> {
    /// A copy with the same labels and values.
    fn clone(&self) -> (copy: Self)
        ensures
            copy@ == self@,
    {
        proof {
            use_type_invariant(self);
        }
        let mut entries: Vec<(String, V)> = Vec::new();
        let mut i: usize = 0;
        while i < self.entries.len()
            invariant
                i <= self.entries@.len(),
                entries@.len() == i,
                forall|k: int|
                    0 <= k < i ==> (#[trigger] entries@[k]).0@ == self.entries@[k].0@
                        && entries@[k].1@ == self.entries@[k].1@,
            decreases self.entries@.len() - i,
        {
            let label: String = self.entries[i].0.clone();
            entries.push((label, self.entries[i].1.duplicate()));
            i = i + 1;
        }
        proof {
            let a = entries@;
            let b = self.entries@;
            assert forall|i: int, j: int| 0 <= i < j < a.len() implies (#[trigger] a[i]).0@ != (
            #[trigger] a[j]).0@ by {
                assert(b[i].0@ != b[j].0@);
            }
            assert forall|i: int| 0 <= i < a.len() implies contents(b).contains_key(
                (#[trigger] a[i]).0@,
            ) && contents(b)[a[i].0@] == a[i].1@ by {
                assert(holds_at(b, a[i].0@, i));
                lemma_found(b, a[i].0@, i);
            }
            lemma_same(a, b);
        }
        LabelMap { entries }
    }
}

impl<V: Reading> PartialEq for LabelMap<V> {
    fn eq(&self, other: &Self) -> (equal: bool) {
        self.same(other)
    }
}

impl<V: Reading> vstd::std_specs::cmp::PartialEqSpecImpl for LabelMap<V> {
    open spec fn obeys_eq_spec() -> bool {
        true
    }

    open spec fn eq_spec(&self, other: &Self) -> bool {
        self@ == other@
    }
}

impl<V: Reading> Eq for LabelMap<V> {

}

} // verus!
