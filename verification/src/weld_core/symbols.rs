//! The table of defined symbols: from a symbol's name to its offset in the
//! merged text.

use vstd::prelude::*;

verus! {

/// One definition: a name and the offset that it stands for.
#[derive(Debug)]
pub struct Definition {
    pub name: String,
    pub offset: u128,
}

/// The map that a row of definitions makes when they are recorded one after
/// the other: of two definitions of one name, the later one stays.
pub open spec fn recorded(entries: Seq<Definition>) -> Map<Seq<char>, int>
    decreases entries.len(),
{
    if entries.len() == 0 {
        Map::empty()
    } else {
        recorded(entries.drop_last()).insert(entries.last().name@, entries.last().offset as int)
    }
}

/// A map from names to offsets in which a later definition of a name
/// replaces an earlier one.
#[derive(Debug)]
pub struct SymbolTable {
    entries: Vec<Definition>,
}

impl View for SymbolTable {
    type V = Map<Seq<char>, int>;

    closed spec fn view(&self) -> Map<Seq<char>, int> {
        recorded(self.entries@)
    }
}

impl SymbolTable {
    /// The table without definitions.
    pub fn new() -> (table: SymbolTable)
        ensures
            table@ == Map::<Seq<char>, int>::empty(),
    {
        SymbolTable { entries: Vec::new() }
    }

    /// Records that `name` stands for `offset`, whatever it stood for before.
    pub fn insert(&mut self, name: String, offset: u128)
        ensures
            final(self)@ == old(self)@.insert(name@, offset as int),
    {
        self.entries.push(Definition { name, offset });
        assert(self.entries@.drop_last() == old(self).entries@);
    }

    /// The offset that `name` stands for, if it is defined.
    pub fn get(&self, name: &String) -> (offset: Option<u128>)
        ensures
            match offset {
                Some(value) => self@.contains_key(name@) && self@[name@] == value,
                None => !self@.contains_key(name@),
            },
    {
        let mut i: usize = self.entries.len();
        assert(self.entries@.take(i as int) == self.entries@);
        while i > 0
            invariant
                i <= self.entries@.len(),
                recorded(self.entries@).contains_key(name@) == recorded(
                    self.entries@.take(i as int),
                ).contains_key(name@),
                recorded(self.entries@).contains_key(name@) ==> recorded(self.entries@)[name@]
                    == recorded(self.entries@.take(i as int))[name@],
            decreases i,
        {
            i -= 1;
            assert(self.entries@.take(i + 1).drop_last() == self.entries@.take(i as int));
            assert(self.entries@.take(i + 1).last() == self.entries@[i as int]);
            if self.entries[i].name == *name {
                return Some(self.entries[i].offset);
            }
        }
        None
    }
}

} // verus!
