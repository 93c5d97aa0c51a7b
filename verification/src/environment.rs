//! The shell's variables: the names and values that the startup file sets,
//! that substitution reads and that every child process inherits.

use crate::text::same_text;
use vstd::prelude::*;

verus! {

/// Whether no name occurs twice among `entries`.
pub open spec fn distinct_names(entries: Seq<(String, String)>) -> bool {
    forall|i: int, j: int|
        0 <= i < j < entries.len() ==> (#[trigger] entries[i]).0@ != (#[trigger] entries[j]).0@
}

/// The map from names to values that `entries` stand for.  Where a name
/// occurs twice, the later entry counts.
pub open spec fn bindings(entries: Seq<(String, String)>) -> Map<Seq<char>, Seq<char>>
    decreases entries.len(),
{
    if entries.len() == 0 {
        Map::empty()
    } else {
        bindings(entries.drop_last()).insert(entries.last().0@, entries.last().1@)
    }
}

/// Where no name occurs twice, none does once the last entry is left out,
/// and the name of the last entry is none of the others'.
proof fn lemma_distinct_front(entries: Seq<(String, String)>)
    requires
        distinct_names(entries),
        entries.len() > 0,
    ensures
        distinct_names(entries.drop_last()),
        forall|i: int|
            0 <= i < entries.len() - 1 ==> (#[trigger] entries.drop_last()[i]).0@
                != entries.last().0@,
{
    let front = entries.drop_last();
    assert forall|i: int, j: int| 0 <= i < j < front.len() implies (#[trigger] front[i]).0@ != (
    #[trigger] front[j]).0@ by {
        assert(front[i] == entries[i] && front[j] == entries[j]);
    }
    assert forall|i: int| 0 <= i < entries.len() - 1 implies (#[trigger] front[i]).0@
        != entries.last().0@ by {
        assert(front[i] == entries[i]);
        assert(entries[i].0@ != entries[entries.len() - 1].0@);
    }
}

/// A name that no entry holds is not bound.
proof fn lemma_unbound(entries: Seq<(String, String)>, name: Seq<char>)
    requires
        forall|i: int| 0 <= i < entries.len() ==> (#[trigger] entries[i]).0@ != name,
    ensures
        !bindings(entries).contains_key(name),
    decreases entries.len(),
{
    if entries.len() > 0 {
        assert(entries.last().0@ != name);
        assert forall|i: int| 0 <= i < entries.drop_last().len() implies (
        #[trigger] entries.drop_last()[i]).0@ != name by {
            assert(entries.drop_last()[i] == entries[i]);
        }
        lemma_unbound(entries.drop_last(), name);
    }
}

/// Where no name occurs twice, each entry's name is bound to its value.
proof fn lemma_bound(entries: Seq<(String, String)>, at: int)
    requires
        distinct_names(entries),
        0 <= at < entries.len(),
    ensures
        bindings(entries).contains_key(entries[at].0@),
        bindings(entries)[entries[at].0@] == entries[at].1@,
    decreases entries.len(),
{
    if at < entries.len() - 1 {
        let front = entries.drop_last();
        assert(front[at] == entries[at]);
        lemma_distinct_front(entries);
        lemma_bound(front, at);
        assert(entries[at].0@ != entries[entries.len() - 1].0@);
    }
}

/// Where no name occurs twice, replacing an entry by one of the same name
/// binds that name anew and changes nothing else.
proof fn lemma_rebound(entries: Seq<(String, String)>, at: int, entry: (String, String))
    requires
        distinct_names(entries),
        0 <= at < entries.len(),
        entry.0@ == entries[at].0@,
    ensures
        bindings(entries.update(at, entry)) == bindings(entries).insert(entry.0@, entry.1@),
        distinct_names(entries.update(at, entry)),
    decreases entries.len(),
{
    let changed = entries.update(at, entry);
    assert(distinct_names(changed)) by {
        assert forall|i: int, j: int| 0 <= i < j < changed.len() implies (
        #[trigger] changed[i]).0@ != (#[trigger] changed[j]).0@ by {
            assert(changed[i].0@ == entries[i].0@ && changed[j].0@ == entries[j].0@);
        }
    }
    let front = entries.drop_last();
    if at == entries.len() - 1 {
        assert(changed.drop_last() == front);
        assert(bindings(front).insert(entries.last().0@, entries.last().1@).insert(
            entry.0@,
            entry.1@,
        ) == bindings(front).insert(entry.0@, entry.1@));
    } else {
        assert(changed.drop_last() == front.update(at, entry));
        assert(changed.last() == entries.last());
        assert(front[at] == entries[at]);
        lemma_distinct_front(entries);
        lemma_rebound(front, at, entry);
        assert(entries[at].0@ != entries[entries.len() - 1].0@);
        assert(bindings(front).insert(entry.0@, entry.1@).insert(
            entries.last().0@,
            entries.last().1@,
        ) == bindings(front).insert(entries.last().0@, entries.last().1@).insert(
            entry.0@,
            entry.1@,
        ));
    }
}

/// A set of variables: each name is bound to one value.
pub struct Environment {
    entries: Vec<(String, String)>,
}

impl View for Environment {
    type V = Map<Seq<char>, Seq<char>>;

    closed spec fn view(&self) -> Map<Seq<char>, Seq<char>> {
        bindings(self.entries@)
    }
}

impl Environment {
    #[verifier::type_invariant]
    spec fn well_formed(self) -> bool {
        distinct_names(self.entries@)
    }

    /// The environment without variables.
    pub fn new() -> (env: Environment)
        ensures
            env@ == Map::<Seq<char>, Seq<char>>::empty(),
    {
        Environment { entries: Vec::new() }
    }

    /// The place of `name` among the entries, if it is bound.
    fn position(&self, name: &str) -> (at: Option<usize>)
        ensures
            match at {
                Some(i) => i < self.entries.len() && self.entries[i as int].0@ == name@,
                None => forall|i: int|
                    0 <= i < self.entries.len() ==> (#[trigger] self.entries[i]).0@ != name@,
            },
    {
        let mut i: usize = 0;
        while i < self.entries.len()
            invariant
                i <= self.entries.len(),
                forall|j: int| 0 <= j < i ==> (#[trigger] self.entries[j]).0@ != name@,
            decreases self.entries.len() - i,
        {
            if same_text(self.entries[i].0.as_str(), name) {
                return Some(i);
            }
            i = i + 1;
        }
        None
    }

    /// The value that `name` is bound to, if it is bound.
    pub fn get(&self, name: &str) -> (value: Option<&str>)
        ensures
            value is Some <==> self@.contains_key(name@),
            value matches Some(v) ==> v@ == self@[name@],
    {
        proof {
            use_type_invariant(self);
        }
        match self.position(name) {
            Some(i) => {
                proof {
                    lemma_bound(self.entries@, i as int);
                }
                Some(self.entries[i].1.as_str())
            },
            None => {
                proof {
                    lemma_unbound(self.entries@, name@);
                }
                None
            },
        }
    }

    /// Binds `name` to `value`, whether or not it was bound before.
    pub fn set(&mut self, name: String, value: String)
        ensures
            final(self)@ == old(self)@.insert(name@, value@),
    {
        proof {
            use_type_invariant(&*self);
        }
        let place = self.position(name.as_str());
        let mut entries: Vec<(String, String)> = Vec::new();
        std::mem::swap(&mut self.entries, &mut entries);
        match place {
            Some(i) => {
                proof {
                    lemma_rebound(entries@, i as int, (name, value));
                }
                entries.set(i, (name, value));
            },
            None => {
                proof {
                    let grown = entries@.push((name, value));
                    assert(grown.drop_last() == entries@);
                    assert forall|i: int, j: int| 0 <= i < j < grown.len() implies (
                    #[trigger] grown[i]).0@ != (#[trigger] grown[j]).0@ by {
                        if j < entries@.len() {
                            assert(grown[i] == entries@[i] && grown[j] == entries@[j]);
                        } else {
                            assert(grown[i] == entries@[i]);
                        }
                    }
                }
                entries.push((name, value));
            },
        }
        std::mem::swap(&mut self.entries, &mut entries);
    }

    /// The number of variables.
    pub fn len(&self) -> (n: usize)
        ensures
            n == self@.len(),
    {
        proof {
            use_type_invariant(self);
            lemma_count(self.entries@);
        }
        self.entries.len()
    }

    /// Every variable with its value, each name once.
    pub fn entries(&self) -> (entries: &Vec<(String, String)>)
        ensures
            bindings(entries@) == self@,
            distinct_names(entries@),
    {
        proof {
            use_type_invariant(self);
        }
        &self.entries
    }
}

/// Where no name occurs twice, there are as many variables as entries.
proof fn lemma_count(entries: Seq<(String, String)>)
    requires
        distinct_names(entries),
    ensures
        bindings(entries).dom().finite(),
        bindings(entries).len() == entries.len(),
    decreases entries.len(),
{
    if entries.len() > 0 {
        let front = entries.drop_last();
        lemma_distinct_front(entries);
        lemma_count(front);
        lemma_unbound(front, entries.last().0@);
    }
}

} // verus!
