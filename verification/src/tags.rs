//! Metadata tags: names with their values, each name once.

use vstd::prelude::*;
use crate::text;

verus! {

/// Tags by name. No name occurs twice.
pub struct Tags {
    pub entries: Vec<(String, String)>,
}

/// Whether no name occurs twice.
pub open spec fn distinct_names(entries: Seq<(String, String)>) -> bool {
    forall|i: int, j: int|
        0 <= i < j < entries.len() ==> #[trigger] entries[i].0@ != #[trigger] entries[j].0@
}

/// The value that stands beside `name`.
pub open spec fn tag_value(entries: Seq<(String, String)>, name: Seq<char>) -> Option<Seq<char>>
    decreases entries.len(),
{
    if entries.len() == 0 {
        None
    } else if entries.last().0@ == name {
        Some(entries.last().1@)
    } else {
        tag_value(entries.drop_last(), name)
    }
}

impl View for Tags {
    type V = Map<Seq<char>, Seq<char>>;

    open spec fn view(&self) -> Map<Seq<char>, Seq<char>> {
        Map::new(
            |name: Seq<char>| tag_value(self.entries@, name) is Some,
            |name: Seq<char>| tag_value(self.entries@, name)->Some_0,
        )
    }
}

/// A name with a value stands at some position, and the other way round.
proof fn lemma_tag_position(entries: Seq<(String, String)>, name: Seq<char>)
    ensures
        tag_value(entries, name) is Some <==> exists|i: int|
            0 <= i < entries.len() && #[trigger] entries[i].0@ == name,
    decreases entries.len(),
{
    if entries.len() > 0 {
        let rest = entries.drop_last();
        lemma_tag_position(rest, name);
        if entries.last().0@ != name && tag_value(entries, name) is Some {
            let i = choose|i: int| 0 <= i < rest.len() && #[trigger] rest[i].0@ == name;
            assert(entries[i].0@ == name);
        }
        if tag_value(entries, name) is None {
            assert forall|i: int| 0 <= i < entries.len() implies #[trigger] entries[i].0@
                != name by {
                if i < rest.len() {
                    assert(rest[i] == entries[i]);
                }
            }
        }
    }
}

/// The value at a position is the one of its name, where no name occurs twice.
proof fn lemma_tag_at(entries: Seq<(String, String)>, i: int)
    requires
        distinct_names(entries),
        0 <= i < entries.len(),
    ensures
        tag_value(entries, entries[i].0@) == Some(entries[i].1@),
    decreases entries.len(),
{
    if i < entries.len() - 1 {
        let rest = entries.drop_last();
        assert forall|a: int, b: int| 0 <= a < b < rest.len() implies #[trigger] rest[a].0@
            != #[trigger] rest[b].0@ by {
            assert(entries[a] == rest[a] && entries[b] == rest[b]);
        }
        assert(entries[i].0@ != entries[entries.len() - 1].0@);
        lemma_tag_at(rest, i);
        assert(rest[i] == entries[i]);
    }
}

/// A new value at a position is the new value of its name and of no other.
proof fn lemma_tag_update(entries: Seq<(String, String)>, i: int, value: String, name: Seq<char>)
    requires
        distinct_names(entries),
        0 <= i < entries.len(),
    ensures
        ({
            let changed = entries.update(i, (entries[i].0, value));
            distinct_names(changed) && tag_value(changed, name) == if name == entries[i].0@ {
                Some(value@)
            } else {
                tag_value(entries, name)
            }
        }),
    decreases entries.len(),
{
    let changed = entries.update(i, (entries[i].0, value));
    assert forall|a: int, b: int| 0 <= a < b < changed.len() implies #[trigger] changed[a].0@
        != #[trigger] changed[b].0@ by {
        assert(entries[a].0@ != entries[b].0@);
    }
    if name == entries[i].0@ {
        lemma_tag_at(changed, i);
    } else if i < entries.len() - 1 {
        let rest = entries.drop_last();
        assert forall|a: int, b: int| 0 <= a < b < rest.len() implies #[trigger] rest[a].0@
            != #[trigger] rest[b].0@ by {
            assert(entries[a] == rest[a] && entries[b] == rest[b]);
        }
        lemma_tag_update(rest, i, value, name);
        assert(changed.drop_last() =~= rest.update(i, (rest[i].0, value)));
    } else {
        assert(changed.drop_last() =~= entries.drop_last());
    }
}

impl Tags {
    /// No name occurs twice.
    pub open spec fn wf(self) -> bool {
        distinct_names(self.entries@)
    }

    /// No tags.
    pub fn new() -> (t: Tags)
        ensures
            t.wf(),
            t.entries@ == Seq::<(String, String)>::empty(),
            t@ == Map::<Seq<char>, Seq<char>>::empty(),
    {
        let t: Tags = Tags { entries: Vec::new() };
        proof {
            assert(t@ =~= Map::<Seq<char>, Seq<char>>::empty());
        }
        t
    }

    /// Whether there are no tags.
    pub fn is_empty(&self) -> (b: bool)
        ensures
            b == (self.entries@.len() == 0),
            b == (self@ == Map::<Seq<char>, Seq<char>>::empty()),
    {
        let b: bool = self.entries.len() == 0;
        proof {
            if b {
                assert(self@ =~= Map::<Seq<char>, Seq<char>>::empty());
            } else {
                let name = self.entries@[0].0@;
                lemma_tag_position(self.entries@, name);
                assert(self@.contains_key(name));
            }
        }
        b
    }

    /// The value of `name`.
    pub fn get(&self, name: &str) -> (r: Option<&String>)
        requires
            self.wf(),
        ensures
            r is Some == self@.contains_key(name@),
            r is Some ==> r->Some_0@ == self@[name@],
    {
        match self.position(name) {
            Some(i) => {
                proof {
                    lemma_tag_at(self.entries@, i as int);
                }
                Some(&self.entries[i].1)
            },
            None => None,
        }
    }

    /// A copy of the tags.
    pub fn copy(&self) -> (t: Tags)
        ensures
            t.entries@ == self.entries@,
            t@ == self@,
    {
        let mut entries: Vec<(String, String)> = Vec::new();
        let mut i: usize = 0;
        while i < self.entries.len()
            invariant
                i <= self.entries@.len(),
                entries@ == self.entries@.take(i as int),
            decreases self.entries.len() - i,
        {
            let name: String = self.entries[i].0.clone();
            let value: String = self.entries[i].1.clone();
            entries.push((name, value));
            proof {
                assert(entries@ =~= self.entries@.take(i + 1));
            }
            i += 1;
        }
        proof {
            assert(self.entries@.take(i as int) =~= self.entries@);
        }
        Tags { entries }
    }

    /// Where `name` stands.
    fn position(&self, name: &str) -> (r: Option<usize>)
        requires
            self.wf(),
        ensures
            match r {
                Some(i) => i < self.entries@.len() && self.entries@[i as int].0@ == name@,
                None => forall|i: int|
                    0 <= i < self.entries@.len() ==> #[trigger] self.entries@[i].0@ != name@,
            },
            r is Some == self@.contains_key(name@),
    {
        proof {
            lemma_tag_position(self.entries@, name@);
        }
        let mut i: usize = 0;
        while i < self.entries.len()
            invariant
                i <= self.entries@.len(),
                forall|k: int| 0 <= k < i ==> #[trigger] self.entries@[k].0@ != name@,
                tag_value(self.entries@, name@) is Some <==> exists|k: int|
                    0 <= k < self.entries@.len() && #[trigger] self.entries@[k].0@ == name@,
            decreases self.entries.len() - i,
        {
            if text::same_text(self.entries[i].0.as_str(), name) {
                return Some(i);
            }
            i += 1;
        }
        None
    }

    /// Sets the value of `name`, in place of one that it has.
    pub fn insert(&mut self, name: String, value: String)
        requires
            old(self).wf(),
        ensures
            final(self).wf(),
            final(self)@ == old(self)@.insert(name@, value@),
    {
        let ghost before = self.entries@;
        match self.position(name.as_str()) {
            Some(i) => {
                let kept: String = self.entries[i].0.clone();
                self.entries.set(i, (kept, value));
                proof {
                    assert forall|n: Seq<char>|
                        #[trigger] tag_value(self.entries@, n) == if n == name@ {
                            Some(value@)
                        } else {
                            tag_value(before, n)
                        } by {
                        lemma_tag_update(before, i as int, value, n);
                    }
                    lemma_tag_update(before, i as int, value, name@);
                    assert(self@ =~= old(self)@.insert(name@, value@));
                }
            },
            None => {
                self.append(name, value);
            },
        }
    }

    /// Sets the value of `name` where it has none.
    pub fn insert_absent(&mut self, name: String, value: String)
        requires
            old(self).wf(),
        ensures
            final(self).wf(),
            final(self)@ == if old(self)@.contains_key(name@) {
                old(self)@
            } else {
                old(self)@.insert(name@, value@)
            },
    {
        if self.position(name.as_str()).is_none() {
            self.append(name, value);
        }
    }

    /// Adds a name that is not there yet.
    fn append(&mut self, name: String, value: String)
        requires
            old(self).wf(),
            forall|i: int|
                0 <= i < old(self).entries@.len() ==> #[trigger] old(self).entries@[i].0@ != name@,
        ensures
            final(self).wf(),
            final(self)@ == old(self)@.insert(name@, value@),
    {
        let ghost before = self.entries@;
        self.entries.push((name, value));
        proof {
            assert(self.entries@.drop_last() =~= before);
            assert forall|a: int, b: int|
                0 <= a < b < self.entries@.len() implies #[trigger] self.entries@[a].0@
                != #[trigger] self.entries@[b].0@ by {
                assert(before[a] == self.entries@[a]);
                if b < before.len() {
                    assert(before[b] == self.entries@[b]);
                }
            }
            assert(self@ =~= old(self)@.insert(name@, value@));
        }
    }
}

/// Tags are their entries: each name has the value that stands beside it, and no other name has
/// one.
pub proof fn law_tags_are_their_entries(t: Tags, i: int, name: Seq<char>)
    requires
        t.wf(),
        0 <= i < t.entries@.len(),
    ensures
        t@.contains_key(t.entries@[i].0@),
        t@[t.entries@[i].0@] == t.entries@[i].1@,
        t@.contains_key(name) <==> exists|k: int|
            0 <= k < t.entries@.len() && #[trigger] t.entries@[k].0@ == name,
        forall|k: int|
            0 <= k < t.entries@.len() && #[trigger] t.entries@[k].0@ == t.entries@[i].0@ ==> k == i,
{
    lemma_tag_at(t.entries@, i);
    lemma_tag_position(t.entries@, name);
}

} // verus!
