//! An ordered multi-valued map from text keys to the list of their values,
//! as read from a query string or a form body.

use vstd::prelude::*;

verus! {

/// The character views of a list of strings.
pub open spec fn views(v: Seq<String>) -> Seq<Seq<char>> {
    v.map_values(|s: String| s@)
}

/// What a sequence of key-value pairs groups into: each key that occurs maps
/// to its values in the order of the pairs.
pub open spec fn grouped(p: Seq<(Seq<char>, Seq<char>)>) -> Map<Seq<char>, Seq<Seq<char>>>
    decreases p.len(),
{
    if p.len() == 0 {
        Map::empty()
    } else {
        let m = grouped(p.drop_last());
        let (k, v) = p.last();
        if m.contains_key(k) {
            m.insert(k, m[k].push(v))
        } else {
            m.insert(k, seq![v])
        }
    }
}

/// The values that the pairs give to `k`, in order.
pub open spec fn values_for(p: Seq<(Seq<char>, Seq<char>)>, k: Seq<char>) -> Seq<Seq<char>> {
    p.filter_map(|x: (Seq<char>, Seq<char>)| if x.0 == k { Some(x.1) } else { None })
}

/// Grouping keeps every value of a key, in the order given, and records a key
/// exactly when some pair carries it.
pub proof fn lemma_grouped_values(p: Seq<(Seq<char>, Seq<char>)>, k: Seq<char>)
    ensures
        grouped(p).contains_key(k) <==> values_for(p, k).len() > 0,
        grouped(p).contains_key(k) ==> grouped(p)[k] == values_for(p, k),
    decreases p.len(),
{
    if p.len() > 0 {
        lemma_grouped_values(p.drop_last(), k);
    }
}

pub struct ValueMultiset {
    entries: Vec<(String, Vec<String>)>,
    contents: Ghost<Map<Seq<char>, Seq<Seq<char>>>>,
}

impl View for ValueMultiset {
    type V = Map<Seq<char>, Seq<Seq<char>>>;

    closed spec fn view(&self) -> Map<Seq<char>, Seq<Seq<char>>> {
        self.contents@
    }
}

impl ValueMultiset {
    /// Keys are distinct, every recorded key has at least one value, and the
    /// entries are exactly what the view holds.
    pub closed spec fn wf(&self) -> bool {
        &&& forall|i: int, j: int|
            0 <= i < self.entries@.len() && 0 <= j < self.entries@.len() && i != j
                ==> self.entries@[i].0@ != self.entries@[j].0@
        &&& forall|i: int|
            #![trigger self.entries@[i]]
            0 <= i < self.entries@.len() ==> {
                &&& self.entries@[i].1@.len() > 0
                &&& self.contents@.contains_key(self.entries@[i].0@)
                &&& self.contents@[self.entries@[i].0@] == views(self.entries@[i].1@)
            }
        &&& forall|k: Seq<char>|
            #[trigger] self.contents@.contains_key(k) ==> exists|i: int|
                0 <= i < self.entries@.len() && self.entries@[i].0@ == k
    }

    pub fn new() -> (r: Self)
        ensures
            r.wf(),
            r@ == Map::<Seq<char>, Seq<Seq<char>>>::empty(),
    {
        ValueMultiset { entries: Vec::new(), contents: Ghost(Map::empty()) }
    }

    fn find(&self, key: &str) -> (r: Option<usize>)
        requires
            self.wf(),
        ensures
            match r {
                Some(i) => {
                    &&& i < self.entries@.len()
                    &&& self.entries@[i as int].0@ == key@
                    &&& self.entries@[i as int].1@.len() > 0
                    &&& self@.contains_key(key@)
                    &&& self@[key@] == views(self.entries@[i as int].1@)
                },
                None => !self@.contains_key(key@),
            },
    {
        let k = key.to_owned();
        let mut i: usize = 0;
        while i < self.entries.len()
            invariant
                self.wf(),
                k@ == key@,
                i <= self.entries@.len(),
                forall|j: int| 0 <= j < i ==> self.entries@[j].0@ != key@,
            decreases self.entries@.len() - i,
        {
            if self.entries[i].0 == k {
                return Some(i);
            }
            i = i + 1;
        }
        None
    }

    /// Appends `value` to the values of `key`.
    pub fn insert(&mut self, key: String, value: String)
        requires
            old(self).wf(),
        ensures
            final(self).wf(),
            final(self)@ == (if old(self)@.contains_key(key@) {
                old(self)@.insert(key@, old(self)@[key@].push(value@))
            } else {
                old(self)@.insert(key@, seq![value@])
            }),
    {
        let ghost m = self@;
        match self.find(key.as_str()) {
            Some(i) => {
                let ghost old_entries = self.entries@;
                let mut entry = (String::new(), Vec::new());
                std::mem::swap(&mut entry, &mut self.entries[i]);
                entry.1.push(value);
                assert(entry.0 == old_entries[i as int].0);
                self.entries.set(i, entry);
                assert(forall|j: int| 0 <= j < self.entries@.len() ==> self.entries@[j].0 == old_entries[j].0);
                self.contents = Ghost(m.insert(key@, m[key@].push(value@)));
                proof {
                    assert(views(self.entries@[i as int].1@) =~= views(old_entries[i as int].1@).push(value@));
                    assert forall|j: int|
                        #![trigger self.entries@[j]]
                        0 <= j < self.entries@.len() implies {
                        &&& self.entries@[j].1@.len() > 0
                        &&& self.contents@.contains_key(self.entries@[j].0@)
                        &&& self.contents@[self.entries@[j].0@] == views(self.entries@[j].1@)
                    } by {
                        if j != i {
                            assert(self.entries@[j] == old_entries[j]);
                            assert(m.contains_key(old_entries[j].0@));
                        } else {
                            assert(self.entries@[j].1@.len() == views(self.entries@[j].1@).len());
                        }
                    }
                    assert forall|k: Seq<char>| #[trigger] self.contents@.contains_key(k) implies exists|j: int|
                        0 <= j < self.entries@.len() && self.entries@[j].0@ == k by {
                        if k != key@ {
                            let j = choose|j: int| 0 <= j < old_entries.len() && old_entries[j].0@ == k;
                            assert(self.entries@[j].0@ == k);
                        } else {
                            assert(self.entries@[i as int].0@ == k);
                        }
                    }
                }
            },
            None => {
                let ghost old_entries = self.entries@;
                self.entries.push((key, vec![value]));
                self.contents = Ghost(m.insert(key@, seq![value@]));
                proof {
                    let n = old_entries.len() as int;
                    assert(views(self.entries@[n].1@) =~= seq![value@]);
                    assert forall|j: int| 0 <= j < n implies old_entries[j].0@ != key@ by {
                        assert(m.contains_key(old_entries[j].0@));
                    }
                    assert forall|j: int|
                        #![trigger self.entries@[j]]
                        0 <= j < self.entries@.len() implies {
                        &&& self.entries@[j].1@.len() > 0
                        &&& self.contents@.contains_key(self.entries@[j].0@)
                        &&& self.contents@[self.entries@[j].0@] == views(self.entries@[j].1@)
                    } by {
                        if j != n {
                            assert(self.entries@[j] == old_entries[j]);
                            assert(m.contains_key(old_entries[j].0@));
                        } else {
                            assert(self.entries@[j].1@.len() == views(self.entries@[j].1@).len());
                        }
                    }
                    assert forall|k: Seq<char>| #[trigger] self.contents@.contains_key(k) implies exists|j: int|
                        0 <= j < self.entries@.len() && self.entries@[j].0@ == k by {
                        if k != key@ {
                            let j = choose|j: int| 0 <= j < old_entries.len() && old_entries[j].0@ == k;
                            assert(self.entries@[j].0@ == k);
                        } else {
                            assert(self.entries@[n].0@ == k);
                        }
                    }
                }
            },
        }
    }

    /// The first value of `key`, if it has any.
    pub fn get_first(&self, key: &str) -> (r: Option<&String>)
        requires
            self.wf(),
        ensures
            match r {
                Some(v) => self@.contains_key(key@) && v@ == self@[key@].first(),
                None => !self@.contains_key(key@),
            },
    {
        match self.find(key) {
            Some(i) => Some(&self.entries[i].1[0]),
            None => None,
        }
    }

    /// The last value of `key`, if it has any: of repeated singular fields the
    /// last one wins.
    pub fn get_last(&self, key: &str) -> (r: Option<&String>)
        requires
            self.wf(),
        ensures
            match r {
                Some(v) => self@.contains_key(key@) && v@ == self@[key@].last(),
                None => !self@.contains_key(key@),
            },
    {
        match self.find(key) {
            Some(i) => {
                let n = self.entries[i].1.len();
                Some(&self.entries[i].1[n - 1])
            },
            None => None,
        }
    }

    /// All values of `key`, in order, if it has any.
    pub fn get_list(&self, key: &str) -> (r: Option<&[String]>)
        requires
            self.wf(),
        ensures
            match r {
                Some(vs) => self@.contains_key(key@) && views(vs@) == self@[key@],
                None => !self@.contains_key(key@),
            },
    {
        match self.find(key) {
            Some(i) => Some(self.entries[i].1.as_slice()),
            None => None,
        }
    }

    /// All values of `key`, in order; none for a key that was never given.
    pub fn get_list_or_empty(&self, key: &str) -> (r: &[String])
        requires
            self.wf(),
        ensures
            views(r@) == (if self@.contains_key(key@) {
                self@[key@]
            } else {
                Seq::<Seq<char>>::empty()
            }),
    {
        match self.get_list(key) {
            Some(vs) => vs,
            None => {
                let empty: &[String] = &[];
                assert(views(empty@) =~= Seq::<Seq<char>>::empty());
                empty
            },
        }
    }

    /// Every key with all its values: keys distinct, each with at least one
    /// value, and together exactly the view.
    pub fn entries(&self) -> (r: &[(String, Vec<String>)])
        requires
            self.wf(),
        ensures
            forall|i: int, j: int|
                0 <= i < r@.len() && 0 <= j < r@.len() && i != j ==> r@[i].0@ != r@[j].0@,
            forall|i: int|
                #![trigger r@[i]]
                0 <= i < r@.len() ==> {
                    &&& r@[i].1@.len() > 0
                    &&& self@.contains_key(r@[i].0@)
                    &&& self@[r@[i].0@] == views(r@[i].1@)
                },
            forall|k: Seq<char>|
                #[trigger] self@.contains_key(k) ==> exists|i: int| 0 <= i < r@.len() && r@[i].0@ == k,
    {
        self.entries.as_slice()
    }

    /// Groups key-value pairs by key, keeping the order of the values.
    pub fn from_pairs(pairs: Vec<(String, String)>) -> (r: Self)
        ensures
            r.wf(),
            r@ == grouped(pairs@.map_values(|x: (String, String)| (x.0@, x.1@))),
    {
        let ghost p = pairs@.map_values(|x: (String, String)| (x.0@, x.1@));
        let mut r = ValueMultiset::new();
        let n = pairs.len();
        let mut i: usize = 0;
        while i < n
            invariant
                r.wf(),
                n == p.len(),
                n == pairs@.len(),
                i <= n,
                p == pairs@.map_values(|x: (String, String)| (x.0@, x.1@)),
                r@ == grouped(p.subrange(0, i as int)),
            decreases n - i,
        {
            assert(p.subrange(0, i + 1).drop_last() =~= p.subrange(0, i as int));
            let k = pairs[i].0.clone();
            let v = pairs[i].1.clone();
            r.insert(k, v);
            i = i + 1;
        }
        assert(p.subrange(0, n as int) =~= p);
        r
    }
}

impl Default for ValueMultiset {
    fn default() -> (r: Self)
        ensures
            r.wf(),
            r@ == Map::<Seq<char>, Seq<Seq<char>>>::empty(),
    {
        ValueMultiset::new()
    }
}

} // verus!
