//! The table of the tools that a file has defined, by name.

use crate::parser::commands::{Aperture, ApertureTemplatePrimitive, TemplateView};
use vstd::prelude::*;

verus! {

/// The tools defined so far. No name stands in it twice.
pub struct ToolTable {
    entries: Vec<Aperture>,
}

/// The names of `entries`, each with the shape that stands under it last.
pub open spec fn table_of(entries: Seq<Aperture>) -> Map<Seq<char>, TemplateView>
    decreases entries.len(),
{
    if entries.len() == 0 {
        Map::empty()
    } else {
        table_of(entries.drop_last()).insert(entries.last().name@, entries.last().template@)
    }
}

/// No two of `entries` have one name.
pub open spec fn distinct(entries: Seq<Aperture>) -> bool {
    forall|i: int, j: int|
        0 <= i < j < entries.len() ==> (#[trigger] entries[i]).name@ != (
        #[trigger] entries[j]).name@
}

proof fn lemma_table_names(entries: Seq<Aperture>, name: Seq<char>)
    ensures
        table_of(entries).dom().contains(name) <==> exists|i: int|
            0 <= i < entries.len() && (#[trigger] entries[i]).name@ == name,
    decreases entries.len(),
{
    if entries.len() > 0 {
        let front = entries.drop_last();
        lemma_table_names(front, name);
        if table_of(entries).dom().contains(name) {
            if entries.last().name@ == name {
                assert(entries[entries.len() - 1].name@ == name);
            } else {
                let i = choose|i: int| 0 <= i < front.len() && (#[trigger] front[i]).name@ == name;
                assert(entries[i].name@ == name);
            }
        }
        if exists|i: int| 0 <= i < entries.len() && (#[trigger] entries[i]).name@ == name {
            let i = choose|i: int| 0 <= i < entries.len() && (#[trigger] entries[i]).name@ == name;
            if i < front.len() {
                assert(front[i].name@ == name);
            }
        }
    }
}

proof fn lemma_table_value(entries: Seq<Aperture>, i: int)
    requires
        distinct(entries),
        0 <= i < entries.len(),
    ensures
        table_of(entries).dom().contains(entries[i].name@),
        table_of(entries)[entries[i].name@] == entries[i].template@,
    decreases entries.len(),
{
    let front = entries.drop_last();
    if i < entries.len() - 1 {
        assert(distinct(front)) by {
            assert forall|a: int, b: int| 0 <= a < b < front.len() implies (#[trigger] front[a]).name@
                != (#[trigger] front[b]).name@ by {
                assert(entries[a].name@ != entries[b].name@);
            }
        }
        lemma_table_value(front, i);
        assert(front[i] == entries[i]);
        assert(entries[i].name@ != entries[entries.len() - 1].name@);
    }
}

proof fn lemma_table_remove(entries: Seq<Aperture>, i: int)
    requires
        distinct(entries),
        0 <= i < entries.len(),
    ensures
        distinct(entries.remove(i)),
        table_of(entries.remove(i)) == table_of(entries).remove(entries[i].name@),
    decreases entries.len(),
{
    let cut = entries.remove(i);
    let front = entries.drop_last();
    assert(distinct(cut)) by {
        assert forall|a: int, b: int| 0 <= a < b < cut.len() implies (#[trigger] cut[a]).name@ != (
        #[trigger] cut[b]).name@ by {
            let a0 = if a < i {
                a
            } else {
                a + 1
            };
            let b0 = if b < i {
                b
            } else {
                b + 1
            };
            assert(cut[a] == entries[a0] && cut[b] == entries[b0]);
            assert(entries[a0].name@ != entries[b0].name@);
        }
    }
    if i == entries.len() - 1 {
        assert(cut =~= front);
        lemma_table_names(front, entries[i].name@);
        if table_of(front).dom().contains(entries[i].name@) {
            let k = choose|k: int|
                0 <= k < front.len() && (#[trigger] front[k]).name@ == entries[i].name@;
            assert(entries[k].name@ != entries[i].name@);
        }
        assert(table_of(front) =~= table_of(entries).remove(entries[i].name@));
    } else {
        assert(distinct(front)) by {
            assert forall|a: int, b: int| 0 <= a < b < front.len() implies (#[trigger] front[a]).name@
                != (#[trigger] front[b]).name@ by {
                assert(entries[a].name@ != entries[b].name@);
            }
        }
        lemma_table_remove(front, i);
        assert(cut.drop_last() =~= front.remove(i));
        assert(cut.last() == entries.last());
        assert(front[i] == entries[i]);
        assert(entries[i].name@ != entries[entries.len() - 1].name@);
        assert(table_of(cut) =~= table_of(entries).remove(entries[i].name@));
    }
}

impl View for ToolTable {
    type V = Map<Seq<char>, TemplateView>;

    closed spec fn view(&self) -> Map<Seq<char>, TemplateView> {
        table_of(self.entries@)
    }
}

impl ToolTable {
    /// No name stands in the table twice.
    pub closed spec fn wf(&self) -> bool {
        distinct(self.entries@)
    }

    /// A table without tools.
    pub fn new() -> (table: ToolTable)
        ensures
            table.wf(),
            table@ == Map::<Seq<char>, TemplateView>::empty(),
    {
        ToolTable { entries: Vec::new() }
    }

    /// Where `name` stands in the table, if it does.
    fn position(&self, name: &String) -> (found: Option<usize>)
        ensures
            match found {
                Some(i) => i < self.entries@.len() && self.entries@[i as int].name@ == name@,
                None => forall|i: int|
                    0 <= i < self.entries@.len() ==> (#[trigger] self.entries@[i]).name@ != name@,
            },
    {
        let mut i: usize = 0;
        while i < self.entries.len()
            invariant
                i <= self.entries@.len(),
                forall|k: int| 0 <= k < i ==> (#[trigger] self.entries@[k]).name@ != name@,
            decreases self.entries@.len() - i,
        {
            if self.entries[i].name == *name {
                return Some(i);
            }
            i += 1;
        }
        None
    }

    /// Whether a tool stands under `name`.
    pub fn contains(&self, name: &String) -> (found: bool)
        requires
            self.wf(),
        ensures
            found == self@.dom().contains(name@),
    {
        proof {
            lemma_table_names(self.entries@, name@);
        }
        self.position(name).is_some()
    }

    /// Puts `template` under `name`, in place of what stood there.
    pub fn insert(&mut self, name: String, template: ApertureTemplatePrimitive)
        requires
            old(self).wf(),
        ensures
            final(self).wf(),
            final(self)@ == old(self)@.insert(name@, template@),
    {
        match self.position(&name) {
            Some(i) => {
                proof {
                    lemma_table_remove(self.entries@, i as int);
                }
                let _ = self.entries.remove(i);
            },
            None => {},
        }
        let ghost kept = self.entries@;
        self.entries.push(Aperture { name, template });
        proof {
            assert(self.entries@.drop_last() =~= kept);
            assert(final(self)@ =~= old(self)@.insert(name@, template@));
        }
    }

    /// Takes the tool under `name` out of the table.
    pub fn remove_entry(&mut self, name: &String) -> (taken: Option<Aperture>)
        requires
            old(self).wf(),
        ensures
            final(self).wf(),
            match taken {
                Some(tool) => {
                    &&& old(self)@.dom().contains(name@)
                    &&& tool.name@ == name@
                    &&& tool.template@ == old(self)@[name@]
                    &&& final(self)@ == old(self)@.remove(name@)
                },
                None => !old(self)@.dom().contains(name@) && final(self)@ == old(self)@,
            },
    {
        proof {
            lemma_table_names(self.entries@, name@);
        }
        match self.position(name) {
            Some(i) => {
                proof {
                    lemma_table_remove(self.entries@, i as int);
                    lemma_table_value(self.entries@, i as int);
                }
                Some(self.entries.remove(i))
            },
            None => None,
        }
    }
}

} // verus!
