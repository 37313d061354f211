//! A small table from names to values, in insertion order.
use vstd::prelude::*;
use crate::text::same_text;
use crate::value::Value;

verus! {

/// Names and their values: the fields of an instance, the members of a class
/// or of a module.
#[derive(Debug)]
pub struct Fields {
    pub entries: Vec<(String, Value)>,
}

/// What a list of entries maps each name to; the first entry of a name counts.
pub open spec fn entries_map(s: Seq<(String, Value)>) -> Map<Seq<char>, Value>
    decreases s.len(),
{
    if s.len() == 0 {
        Map::empty()
    } else {
        entries_map(s.skip(1)).insert(s[0].0@, s[0].1)
    }
}

impl View for Fields {
    type V = Map<Seq<char>, Value>;

    open spec fn view(&self) -> Map<Seq<char>, Value> {
        entries_map(self.entries@)
    }
}

/// The first entry of a name decides.
proof fn lemma_first(s: Seq<(String, Value)>, i: int, name: Seq<char>)
    requires
        0 <= i < s.len(),
        s[i].0@ == name,
        forall|j: int| 0 <= j < i ==> (#[trigger] s[j]).0@ != name,
    ensures
        entries_map(s).dom().contains(name),
        entries_map(s)[name] == s[i].1,
    decreases s.len(),
{
    if i > 0 {
        let t = s.skip(1);
        assert forall|j: int| 0 <= j < i - 1 implies (#[trigger] t[j]).0@ != name by {
            assert(t[j] == s[j + 1]);
        }
        assert(t[i - 1] == s[i]);
        lemma_first(t, i - 1, name);
        assert(s[0].0@ != name);
    }
}

proof fn lemma_absent(s: Seq<(String, Value)>, name: Seq<char>)
    requires forall|j: int| 0 <= j < s.len() ==> (#[trigger] s[j]).0@ != name,
    ensures !entries_map(s).dom().contains(name),
    decreases s.len(),
{
    if s.len() > 0 {
        let t = s.skip(1);
        assert forall|j: int| 0 <= j < t.len() implies (#[trigger] t[j]).0@ != name by {
            assert(t[j] == s[j + 1]);
        }
        lemma_absent(t, name);
        assert(s[0].0@ != name);
    }
}

proof fn lemma_update(s: Seq<(String, Value)>, i: int, e: (String, Value))
    requires
        0 <= i < s.len(),
        e.0@ == s[i].0@,
        forall|j: int| 0 <= j < i ==> (#[trigger] s[j]).0@ != e.0@,
    ensures entries_map(s.update(i, e)) =~= entries_map(s).insert(e.0@, e.1),
    decreases s.len(),
{
    let u = s.update(i, e);
    if i == 0 {
        assert(u.skip(1) =~= s.skip(1));
    } else {
        let t = s.skip(1);
        assert forall|j: int| 0 <= j < i - 1 implies (#[trigger] t[j]).0@ != e.0@ by {
            assert(t[j] == s[j + 1]);
        }
        lemma_update(t, i - 1, e);
        assert(u.skip(1) =~= t.update(i - 1, e));
        assert(s[0].0@ != e.0@);
    }
}

proof fn lemma_push(s: Seq<(String, Value)>, e: (String, Value))
    requires forall|j: int| 0 <= j < s.len() ==> (#[trigger] s[j]).0@ != e.0@,
    ensures entries_map(s.push(e)) =~= entries_map(s).insert(e.0@, e.1),
    decreases s.len(),
{
    let u = s.push(e);
    if s.len() == 0 {
        assert(u.skip(1).len() == 0);
        assert(entries_map(u.skip(1)) == Map::<Seq<char>, Value>::empty());
        assert(entries_map(s) == Map::<Seq<char>, Value>::empty());
    } else {
        let t = s.skip(1);
        assert forall|j: int| 0 <= j < t.len() implies (#[trigger] t[j]).0@ != e.0@ by {
            assert(t[j] == s[j + 1]);
        }
        lemma_push(t, e);
        assert(u.skip(1) =~= t.push(e));
        assert(s[0].0@ != e.0@);
    }
}

impl Fields {
    /// An empty table.
    pub fn new() -> (r: Fields)
        ensures r@ == Map::<Seq<char>, Value>::empty(), r.entries@.len() == 0,
    {
        Fields { entries: Vec::new() }
    }

    fn position(&self, name: &str) -> (r: Option<usize>)
        ensures
            match r {
                Some(i) => i < self.entries.len() && self.entries[i as int].0@ == name@
                    && forall|j: int| 0 <= j < i ==> (#[trigger] self.entries@[j]).0@ != name@,
                None => forall|j: int| 0 <= j < self.entries.len() ==> (#[trigger] self.entries@[j]).0@ != name@,
            },
    {
        let mut i: usize = 0;
        while i < self.entries.len()
            invariant
                i <= self.entries.len(),
                forall|j: int| 0 <= j < i ==> (#[trigger] self.entries@[j]).0@ != name@,
            decreases self.entries.len() - i,
        {
            if same_text(self.entries[i].0.as_str(), name) {
                return Some(i);
            }
            i += 1;
        }
        None
    }

    /// The value under `name`.
    pub open spec fn spec_get(&self, name: Seq<char>) -> Option<Value> {
        if self@.dom().contains(name) { Some(self@[name]) } else { None }
    }

    /// The value under `name`.
    pub fn get(&self, name: &str) -> (r: Option<Value>)
        ensures r == self.spec_get(name@),
    {
        match self.position(name) {
            Some(i) => {
                proof { lemma_first(self.entries@, i as int, name@); }
                Some(self.entries[i].1)
            }
            None => {
                proof { lemma_absent(self.entries@, name@); }
                None
            }
        }
    }

    /// Put `value` under `name`, over whatever was there.
    pub fn insert(&mut self, name: String, value: Value)
        ensures final(self)@ == old(self)@.insert(name@, value),
    {
        let ghost before = self.entries@;
        match self.position(name.as_str()) {
            Some(i) => {
                proof { lemma_update(before, i as int, (name, value)); }
                self.entries.set(i, (name, value));
            }
            None => {
                proof { lemma_push(before, (name, value)); }
                self.entries.push((name, value));
            }
        }
    }
}

} // verus!
