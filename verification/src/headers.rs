//! A header map: name/value pairs with unique names, kept in insertion
//! order. The request serializer walks the entries in order; the response
//! parser and the parameter resolver fill them with the latest value winning.

use vstd::prelude::*;
use vstd::string::*;

verus! {

/// A mapping from header names to values with unique names, in insertion
/// order.
#[derive(Debug)]
pub struct Headers {
    entries: Vec<(String, String)>,
}

impl View for Headers {
    type V = Seq<(Seq<char>, Seq<char>)>;

    closed spec fn view(&self) -> Seq<(Seq<char>, Seq<char>)> {
        Seq::new(self.entries@.len(), |i: int| (self.entries@[i].0@, self.entries@[i].1@))
    }
}

/// True when no two entries share a name.
pub open spec fn keys_unique(s: Seq<(Seq<char>, Seq<char>)>) -> bool {
    forall|i: int, j: int| 0 <= i < j < s.len() ==> s[i].0 != s[j].0
}

/// The value under a name: that of the first entry carrying it.
pub open spec fn lookup(s: Seq<(Seq<char>, Seq<char>)>, name: Seq<char>) -> Option<Seq<char>>
    decreases s.len(),
{
    if s.len() == 0 {
        None
    } else if s[0].0 == name {
        Some(s[0].1)
    } else {
        lookup(s.drop_first(), name)
    }
}

/// The entries after setting a name to a value: the entry carrying the name
/// keeps its place with the new value, or a new entry goes to the end.
pub open spec fn insert_entry(
    s: Seq<(Seq<char>, Seq<char>)>,
    name: Seq<char>,
    value: Seq<char>,
) -> Seq<(Seq<char>, Seq<char>)>
    decreases s.len(),
{
    if s.len() == 0 {
        seq![(name, value)]
    } else if s[0].0 == name {
        seq![(name, value)] + s.drop_first()
    } else {
        seq![s[0]] + insert_entry(s.drop_first(), name, value)
    }
}

proof fn lemma_insert_entry_found(
    s: Seq<(Seq<char>, Seq<char>)>,
    name: Seq<char>,
    value: Seq<char>,
    j: int,
)
    requires
        0 <= j < s.len(),
        s[j].0 == name,
        forall|i: int| 0 <= i < j ==> s[i].0 != name,
    ensures
        insert_entry(s, name, value) == s.update(j, (name, value)),
    decreases j,
{
    if j == 0 {
        assert(insert_entry(s, name, value) =~= s.update(0, (name, value)));
    } else {
        let d = s.drop_first();
        assert(forall|i: int| 0 <= i < j - 1 ==> d[i] == s[#[trigger] (i + 1)]);
        lemma_insert_entry_found(d, name, value, j - 1);
        assert(insert_entry(s, name, value) =~= s.update(j, (name, value)));
    }
}

proof fn lemma_insert_entry_missing(
    s: Seq<(Seq<char>, Seq<char>)>,
    name: Seq<char>,
    value: Seq<char>,
)
    requires
        forall|i: int| 0 <= i < s.len() ==> s[i].0 != name,
    ensures
        insert_entry(s, name, value) == s.push((name, value)),
    decreases s.len(),
{
    if s.len() == 0 {
        assert(insert_entry(s, name, value) =~= s.push((name, value)));
    } else {
        let d = s.drop_first();
        assert(forall|i: int| 0 <= i < d.len() ==> d[i] == s[#[trigger] (i + 1)]);
        lemma_insert_entry_missing(d, name, value);
        assert(insert_entry(s, name, value) =~= s.push((name, value)));
    }
}

proof fn lemma_lookup_found(s: Seq<(Seq<char>, Seq<char>)>, name: Seq<char>, j: int)
    requires
        0 <= j < s.len(),
        s[j].0 == name,
        forall|i: int| 0 <= i < j ==> s[i].0 != name,
    ensures
        lookup(s, name) == Some(s[j].1),
    decreases j,
{
    if j > 0 {
        let d = s.drop_first();
        assert(forall|i: int| 0 <= i < j - 1 ==> d[i] == s[#[trigger] (i + 1)]);
        lemma_lookup_found(d, name, j - 1);
    }
}

proof fn lemma_lookup_missing(s: Seq<(Seq<char>, Seq<char>)>, name: Seq<char>)
    requires
        forall|i: int| 0 <= i < s.len() ==> s[i].0 != name,
    ensures
        lookup(s, name) is None,
    decreases s.len(),
{
    if s.len() > 0 {
        let d = s.drop_first();
        assert(forall|i: int| 0 <= i < d.len() ==> d[i] == s[#[trigger] (i + 1)]);
        lemma_lookup_missing(d, name);
    }
}

impl Headers {
    /// An empty header map.
    pub fn new() -> (r: Headers)
        ensures
            r@ == Seq::<(Seq<char>, Seq<char>)>::empty(),
            keys_unique(r@),
    {
        let r = Headers { entries: Vec::new() };
        proof {
            assert(r@ =~= Seq::<(Seq<char>, Seq<char>)>::empty());
        }
        r
    }

    /// The number of entries.
    pub fn len(&self) -> (r: usize)
        ensures
            r == self@.len(),
    {
        self.entries.len()
    }

    /// The name and value of the entry at an index, in insertion order.
    pub fn entry_at(&self, i: usize) -> (r: &(String, String))
        requires
            i < self@.len(),
        ensures
            (r.0@, r.1@) == self@[i as int],
    {
        &self.entries[i]
    }

    /// Sets a name to a value: an entry already carrying the name keeps its
    /// place and takes the new value; otherwise the entry goes to the end.
    pub fn insert(&mut self, name: String, value: String)
        requires
            keys_unique(old(self)@),
        ensures
            final(self)@ == insert_entry(old(self)@, name@, value@),
            keys_unique(final(self)@),
    {
        let n = self.entries.len();
        let mut j: usize = 0;
        while j < n
            invariant
                j <= n,
                n == self.entries@.len(),
                self == old(self),
                keys_unique(old(self)@),
                forall|i: int| 0 <= i < j ==> self@[i].0 != name@,
            decreases n - j,
        {
            if self.entries[j].0 == name {
                proof {
                    lemma_insert_entry_found(self@, name@, value@, j as int);
                }
                let ghost prev = self@;
                self.entries.remove(j);
                self.entries.insert(j, (name, value));
                proof {
                    assert(self@ =~= prev.update(j as int, (name@, value@)));
                    assert(prev == old(self)@);
                    assert(keys_unique(prev));
                    assert forall|a: int, b: int|
                        0 <= a < b < self@.len() implies self@[a].0 != self@[b].0 by {
                        assert(prev[a].0 != prev[b].0);
                        assert(self@[j as int].0 == prev[j as int].0);
                        if a != j {
                            assert(self@[a] == prev[a]);
                        }
                        if b != j {
                            assert(self@[b] == prev[b]);
                        }
                    }
                }
                return ;
            }
            j += 1;
        }
        proof {
            lemma_insert_entry_missing(self@, name@, value@);
        }
        let ghost prev = self@;
        self.entries.push((name, value));
        proof {
            assert(self@ =~= prev.push((name@, value@)));
        }
    }

    /// The value stored under a name, or `None` when the name is absent.
    pub fn get(&self, name: &str) -> (r: Option<&String>)
        ensures
            match r {
                Some(v) => lookup(self@, name@) == Some(v@),
                None => lookup(self@, name@) is None,
            },
    {
        let key = String::from_str(name);
        let n = self.entries.len();
        let mut j: usize = 0;
        while j < n
            invariant
                j <= n,
                n == self.entries@.len(),
                key@ == name@,
                forall|i: int| 0 <= i < j ==> self@[i].0 != name@,
            decreases n - j,
        {
            if self.entries[j].0 == key {
                proof {
                    lemma_lookup_found(self@, name@, j as int);
                }
                return Some(&self.entries[j].1);
            }
            j += 1;
        }
        proof {
            lemma_lookup_missing(self@, name@);
        }
        None
    }
}

} // verus!
