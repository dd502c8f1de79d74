//! The symbol table of the function being lowered: which storage location
//! each variable name stands for.

use vstd::prelude::*;
use crate::text::same_text;

verus! {

/// The map that a stack of bindings stands for: a later binding of a name
/// hides every earlier one.
pub open spec fn bindings(entries: Seq<(String, usize)>) -> Map<Seq<char>, nat>
    decreases entries.len(),
{
    if entries.len() == 0 {
        Map::empty()
    } else {
        bindings(entries.drop_last()).insert(entries.last().0@, entries.last().1 as nat)
    }
}

proof fn lemma_bindings_push(entries: Seq<(String, usize)>, entry: (String, usize))
    ensures
        bindings(entries.push(entry)) == bindings(entries).insert(entry.0@, entry.1 as nat),
{
    assert(entries.push(entry).drop_last() =~= entries);
}

/// A stack of bindings from names to storage locations.
#[derive(Debug)]
pub struct Scope {
    entries: Vec<(String, usize)>,
}

impl View for Scope {
    type V = Map<Seq<char>, nat>;

    closed spec fn view(&self) -> Map<Seq<char>, nat> {
        bindings(self.entries@)
    }
}

impl Scope {
    /// A scope without bindings.
    pub fn new() -> (r: Self)
        ensures
            r@ == Map::<Seq<char>, nat>::empty(),
    {
        Scope { entries: Vec::new() }
    }

    /// Drops every binding.
    pub fn clear(&mut self)
        ensures
            final(self)@ == Map::<Seq<char>, nat>::empty(),
    {
        self.entries.clear();
    }

    /// The storage location that `name` stands for, if it is bound.
    pub fn lookup(&self, name: &str) -> (r: Option<usize>)
        ensures
            r is Some <==> self@.contains_key(name@),
            r is Some ==> r->0 == self@[name@],
    {
        let mut i: usize = self.entries.len();
        assert(self.entries@.take(i as int) =~= self.entries@);
        while i > 0
            invariant
                i <= self.entries.len(),
                bindings(self.entries@).contains_key(name@) <==> bindings(
                    self.entries@.take(i as int),
                ).contains_key(name@),
                bindings(self.entries@).contains_key(name@) ==> bindings(self.entries@)[name@]
                    == bindings(self.entries@.take(i as int))[name@],
            decreases i,
        {
            let ghost prefix = self.entries@.take(i as int);
            assert(prefix.drop_last() =~= self.entries@.take(i - 1));
            i -= 1;
            if same_text(self.entries[i].0.as_str(), name) {
                return Some(self.entries[i].1);
            }
        }
        None
    }

    /// Binds `name` to `slot` and hands back what it was bound to before.
    pub fn insert(&mut self, name: &str, slot: usize) -> (previous: Option<usize>)
        ensures
            final(self)@ == old(self)@.insert(name@, slot as nat),
            previous is Some <==> old(self)@.contains_key(name@),
            previous is Some ==> previous->0 == old(self)@[name@],
    {
        let previous = self.lookup(name);
        let key = String::from_str(name);
        proof {
            lemma_bindings_push(self.entries@, (key, slot));
        }
        self.entries.push((key, slot));
        previous
    }

    /// Drops the binding of `name`, if it has one.
    pub fn remove(&mut self, name: &str)
        ensures
            final(self)@ == old(self)@.remove(name@),
    {
        let mut kept: Vec<(String, usize)> = Vec::new();
        let mut i: usize = 0;
        while i < self.entries.len()
            invariant
                i <= self.entries.len(),
                bindings(kept@) == bindings(self.entries@.take(i as int)).remove(name@),
            decreases self.entries.len() - i,
        {
            let ghost prefix = self.entries@.take(i as int);
            let ghost next = self.entries@[i as int];
            proof {
                assert(self.entries@.take(i + 1) =~= prefix.push(next));
                lemma_bindings_push(prefix, next);
            }
            if !same_text(self.entries[i].0.as_str(), name) {
                let key = self.entries[i].0.clone();
                let slot = self.entries[i].1;
                proof {
                    lemma_bindings_push(kept@, (key, slot));
                    assert(bindings(kept@).insert(key@, slot as nat) =~= bindings(prefix).insert(
                        next.0@,
                        next.1 as nat,
                    ).remove(name@));
                }
                kept.push((key, slot));
            } else {
                assert(bindings(prefix).remove(name@) =~= bindings(prefix).insert(
                    next.0@,
                    next.1 as nat,
                ).remove(name@));
            }
            i += 1;
        }
        assert(self.entries@.take(self.entries.len() as int) =~= self.entries@);
        self.entries = kept;
    }

    /// Gives `name` back the binding it had: `previous`, or none.
    pub fn restore(&mut self, name: &str, previous: Option<usize>)
        ensures
            final(self)@ == match previous {
                Some(slot) => old(self)@.insert(name@, slot as nat),
                None => old(self)@.remove(name@),
            },
    {
        match previous {
            Some(slot) => {
                let _ = self.insert(name, slot);
            },
            None => {
                self.remove(name);
            },
        }
    }
}

} // verus!
