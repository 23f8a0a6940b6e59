//! The table of word definitions.

use internment::Intern;
use vstd::prelude::*;
use crate::cell::Code;
use crate::intern::{name_of, same_symbol, Name, Symbol};

verus! {

/// Maps symbols to the code that runs when they are called. A later
/// definition of a symbol replaces the earlier one.
pub struct Definitions {
    entries: Vec<(Intern<Symbol>, Code)>,
}

impl Definitions {
    /// No symbol is listed twice.
    pub closed spec fn wf(&self) -> bool {
        forall|i: int, j: int|
            0 <= i < j < self.entries.len() ==> name_of(#[trigger] self.entries[i].0) != name_of(
                #[trigger] self.entries[j].0,
            )
    }

    /// The table as a map from names to code.
    pub closed spec fn view(&self) -> Map<Name, Code> {
        Map::new(
            |name: Name|
                exists|i: int|
                    0 <= i < self.entries.len() && name_of(#[trigger] self.entries[i].0) == name,
            |name: Name|
                self.entries[choose|i: int|
                    0 <= i < self.entries.len() && name_of(#[trigger] self.entries[i].0)
                        == name].1,
        )
    }

    /// The empty table.
    pub fn new() -> (table: Definitions)
        ensures
            table.wf(),
            table@ == Map::<Name, Code>::empty(),
    {
        Definitions { entries: Vec::new() }
    }

    /// Where `symbol` is listed, if it is.
    fn position(&self, symbol: Intern<Symbol>) -> (at: Option<usize>)
        requires
            self.wf(),
        ensures
            match at {
                Some(i) => i < self.entries.len() && name_of(self.entries[i as int].0) == name_of(
                    symbol,
                ),
                None => forall|i: int|
                    0 <= i < self.entries.len() ==> name_of(#[trigger] self.entries[i].0)
                        != name_of(symbol),
            },
    {
        let mut i: usize = 0;
        while i < self.entries.len()
            invariant
                i <= self.entries.len(),
                forall|j: int|
                    0 <= j < i ==> name_of(#[trigger] self.entries[j].0) != name_of(symbol),
            decreases self.entries.len() - i,
        {
            if same_symbol(self.entries[i].0, symbol) {
                return Some(i);
            }
            i += 1;
        }
        None
    }

    /// The code that `symbol` is defined as, if it is defined.
    pub fn get(&self, symbol: Intern<Symbol>) -> (code: Option<Code>)
        requires
            self.wf(),
        ensures
            code == if self@.contains_key(name_of(symbol)) {
                Some(self@[name_of(symbol)])
            } else {
                None
            },
    {
        match self.position(symbol) {
            Some(i) => Some(self.entries[i].1),
            None => None,
        }
    }

    /// Defines `symbol` as `code`, in place of what it was defined as before.
    pub fn insert(&mut self, symbol: Intern<Symbol>, code: Code)
        requires
            old(self).wf(),
        ensures
            final(self).wf(),
            final(self)@ == old(self)@.insert(name_of(symbol), code),
    {
        let ghost before = self.entries@;
        let ghost wanted = old(self)@.insert(name_of(symbol), code);
        match self.position(symbol) {
            Some(i) => {
                self.entries.set(i, (symbol, code));
                assert forall|name: Name| wanted.contains_key(name) implies self@.contains_key(
                    name,
                ) by {
                    if old(self)@.contains_key(name) {
                        let k = choose|k: int|
                            0 <= k < before.len() && name_of(#[trigger] before[k].0) == name;
                        assert(name_of(self.entries[k].0) == name);
                    }
                }
            },
            None => {
                self.entries.push((symbol, code));
                assert forall|name: Name| wanted.contains_key(name) implies self@.contains_key(
                    name,
                ) by {
                    if old(self)@.contains_key(name) {
                        let k = choose|k: int|
                            0 <= k < before.len() && name_of(#[trigger] before[k].0) == name;
                        assert(name_of(self.entries[k].0) == name);
                    } else {
                        assert(name_of(self.entries[before.len() as int].0) == name);
                    }
                }
            },
        }
    }
}

} // verus!
