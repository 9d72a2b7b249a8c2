//! The assembler's two symbol tables — labels and macros — as association
//! lists whose spec-level view is a `Map` keyed by name, where a later
//! definition of the same name overwrites the earlier one.

use vstd::prelude::*;
use crate::avcmacro::{macro_wf, AvcMacro, MacroView};
use crate::text::str_eq;

verus! {

/// The map that an entry list denotes: entries applied left to right.
pub open spec fn label_map(entries: Seq<(String, u16)>) -> Map<Seq<char>, u16>
    decreases entries.len(),
{
    if entries.len() == 0 {
        Map::empty()
    } else {
        label_map(entries.drop_last()).insert(entries.last().0@, entries.last().1)
    }
}

/// Skipping entries whose name is not `name` does not change what the map
/// says about `name`.
proof fn lemma_label_map_skip(entries: Seq<(String, u16)>, idx: int, name: Seq<char>)
    requires
        0 <= idx <= entries.len(),
        forall|j: int| idx <= j < entries.len() ==> entries[j].0@ != name,
    ensures
        label_map(entries).contains_key(name) == label_map(entries.take(idx)).contains_key(name),
        label_map(entries).contains_key(name) ==> label_map(entries)[name] == label_map(
            entries.take(idx),
        )[name],
    decreases entries.len() - idx,
{
    if idx < entries.len() {
        lemma_label_map_skip(entries, idx + 1, name);
        let t = entries.take(idx + 1);
        assert(t.drop_last() =~= entries.take(idx));
        assert(t.last() == entries[idx]);
    } else {
        assert(entries.take(idx) =~= entries);
    }
}

/// The label table.
pub struct LabelTable {
    pub entries: Vec<(String, u16)>,
}

impl View for LabelTable {
    type V = Map<Seq<char>, u16>;

    open spec fn view(&self) -> Map<Seq<char>, u16> {
        label_map(self.entries@)
    }
}

impl LabelTable {
    /// An empty table.
    pub fn new() -> (t: LabelTable)
        ensures
            t@ == Map::<Seq<char>, u16>::empty(),
    {
        LabelTable { entries: Vec::new() }
    }

    /// Records `addr` under `name`, shadowing any earlier definition.
    pub fn insert(&mut self, name: String, addr: u16)
        ensures
            final(self)@ == old(self)@.insert(name@, addr),
    {
        self.entries.push((name, addr));
        proof {
            assert(self.entries@.drop_last() =~= old(self).entries@);
        }
    }

    /// The address last recorded under `name`, if any.
    pub fn get(&self, name: &str) -> (r: Option<u16>)
        ensures
            match r {
                Some(a) => self@.contains_key(name@) && self@[name@] == a,
                None => !self@.contains_key(name@),
            },
    {
        let mut idx: usize = self.entries.len();
        while idx > 0
            invariant
                idx <= self.entries@.len(),
                forall|j: int| idx <= j < self.entries@.len() ==> self.entries@[j].0@ != name@,
            decreases idx,
        {
            idx = idx - 1;
            if str_eq(self.entries[idx].0.as_str(), name) {
                proof {
                    lemma_label_map_skip(self.entries@, idx + 1, name@);
                    let t = self.entries@.take(idx + 1);
                    assert(t.drop_last() =~= self.entries@.take(idx as int));
                    assert(t.last() == self.entries@[idx as int]);
                }
                return Some(self.entries[idx].1);
            }
        }
        proof {
            lemma_label_map_skip(self.entries@, 0, name@);
            assert(self.entries@.take(0) =~= Seq::<(String, u16)>::empty());
        }
        None
    }
}

/// The map that a macro entry list denotes.
pub open spec fn macro_map(entries: Seq<(String, AvcMacro)>) -> Map<Seq<char>, MacroView>
    decreases entries.len(),
{
    if entries.len() == 0 {
        Map::empty()
    } else {
        macro_map(entries.drop_last()).insert(entries.last().0@, entries.last().1@)
    }
}

proof fn lemma_macro_map_skip(entries: Seq<(String, AvcMacro)>, idx: int, name: Seq<char>)
    requires
        0 <= idx <= entries.len(),
        forall|j: int| idx <= j < entries.len() ==> entries[j].0@ != name,
    ensures
        macro_map(entries).contains_key(name) == macro_map(entries.take(idx)).contains_key(name),
        macro_map(entries).contains_key(name) ==> macro_map(entries)[name] == macro_map(
            entries.take(idx),
        )[name],
    decreases entries.len() - idx,
{
    if idx < entries.len() {
        lemma_macro_map_skip(entries, idx + 1, name);
        let t = entries.take(idx + 1);
        assert(t.drop_last() =~= entries.take(idx));
        assert(t.last() == entries[idx]);
    } else {
        assert(entries.take(idx) =~= entries);
    }
}

/// The macro table.
pub struct MacroTable {
    pub entries: Vec<(String, AvcMacro)>,
}

impl View for MacroTable {
    type V = Map<Seq<char>, MacroView>;

    open spec fn view(&self) -> Map<Seq<char>, MacroView> {
        macro_map(self.entries@)
    }
}

impl MacroTable {
    /// Every stored macro keeps its marker invariant.
    pub open spec fn wf(&self) -> bool {
        forall|j: int| 0 <= j < self.entries@.len() ==> macro_wf(self.entries@[j].1@)
    }

    /// An empty table.
    pub fn new() -> (t: MacroTable)
        ensures
            t@ == Map::<Seq<char>, MacroView>::empty(),
            t.wf(),
    {
        MacroTable { entries: Vec::new() }
    }

    /// Records `m` under `name`, shadowing any earlier definition.
    pub fn insert(&mut self, name: String, m: AvcMacro)
        requires
            macro_wf(m@),
        ensures
            final(self)@ == old(self)@.insert(name@, m@),
            old(self).wf() ==> final(self).wf(),
    {
        self.entries.push((name, m));
        proof {
            assert(self.entries@.drop_last() =~= old(self).entries@);
        }
    }

    /// The macro last recorded under `name`, if any.
    pub fn get(&self, name: &str) -> (r: Option<&AvcMacro>)
        ensures
            match r {
                Some(m) => self@.contains_key(name@) && self@[name@] == m@ && (self.wf()
                    ==> macro_wf(m@)),
                None => !self@.contains_key(name@),
            },
    {
        let mut idx: usize = self.entries.len();
        while idx > 0
            invariant
                idx <= self.entries@.len(),
                forall|j: int| idx <= j < self.entries@.len() ==> self.entries@[j].0@ != name@,
            decreases idx,
        {
            idx = idx - 1;
            if str_eq(self.entries[idx].0.as_str(), name) {
                proof {
                    lemma_macro_map_skip(self.entries@, idx + 1, name@);
                    let t = self.entries@.take(idx + 1);
                    assert(t.drop_last() =~= self.entries@.take(idx as int));
                    assert(t.last() == self.entries@[idx as int]);
                }
                return Some(&self.entries[idx].1);
            }
        }
        proof {
            lemma_macro_map_skip(self.entries@, 0, name@);
            assert(self.entries@.take(0) =~= Seq::<(String, AvcMacro)>::empty());
        }
        None
    }
}

} // verus!
