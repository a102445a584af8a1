use crate::blocks::{Block, CodeBlock};
use crate::text::same_text;
use vstd::prelude::*;

verus! {

/// The namespace that a list of declarations builds, the later ones over the
/// earlier ones.
pub open spec fn namespace(entries: Seq<(Vec<char>, CodeBlock)>) -> Map<Seq<char>, Block>
    decreases entries.len(),
{
    if entries.len() == 0 {
        Map::empty()
    } else {
        namespace(entries.drop_last()).insert(entries.last().0@, entries.last().1@)
    }
}

/// A label that the last declarations do not use is looked up among the
/// earlier ones.
proof fn lemma_lookup_skips(entries: Seq<(Vec<char>, CodeBlock)>, from: int, label: Seq<char>)
    requires
        0 <= from <= entries.len(),
        forall|j: int| from <= j < entries.len() ==> (#[trigger] entries[j]).0@ != label,
    ensures
        namespace(entries).contains_key(label) == namespace(entries.take(from)).contains_key(label),
        namespace(entries).contains_key(label) ==> namespace(entries)[label] == namespace(
            entries.take(from),
        )[label],
    decreases entries.len(),
{
    if from == entries.len() {
        assert(entries.take(from) == entries);
    } else {
        lemma_lookup_skips(entries.drop_last(), from, label);
        assert(entries.drop_last().take(from) == entries.take(from));
        assert(entries.last() == entries[entries.len() - 1]);
    }
}

/// The procedures declared so far: each label with the block tree that its
/// body compiled to.
#[derive(Debug)]
pub struct ProcMap {
    entries: Vec<(Vec<char>, CodeBlock)>,
}

impl View for ProcMap {
    type V = Map<Seq<char>, Block>;

    closed spec fn view(&self) -> Map<Seq<char>, Block> {
        namespace(self.entries@)
    }
}

impl ProcMap {
    /// A namespace without procedures.
    pub fn new() -> (procs: Self)
        ensures
            procs@ == Map::<Seq<char>, Block>::empty(),
    {
        ProcMap { entries: Vec::new() }
    }

    /// The block tree of the procedure `label`, if one is declared.
    pub fn get(&self, label: &Vec<char>) -> (found: Option<&CodeBlock>)
        ensures
            match found {
                Some(root) => self@.contains_key(label@) && root@ == self@[label@],
                None => !self@.contains_key(label@),
            },
    {
        let mut i: usize = self.entries.len();
        while i > 0
            invariant
                i <= self.entries.len(),
                forall|j: int| i <= j < self.entries.len() ==> (#[trigger] self.entries@[j]).0@ != label@,
            decreases i,
        {
            i -= 1;
            if same_text(&self.entries[i].0, label) {
                proof {
                    lemma_lookup_skips(self.entries@, i + 1, label@);
                    assert(self.entries@.take(i + 1).drop_last() == self.entries@.take(i as int));
                }
                return Some(&self.entries[i].1);
            }
        }
        proof {
            lemma_lookup_skips(self.entries@, 0, label@);
        }
        None
    }

    /// Whether a procedure `label` is declared.
    pub fn contains_key(&self, label: &Vec<char>) -> (found: bool)
        ensures
            found == self@.contains_key(label@),
    {
        self.get(label).is_some()
    }

    /// Declares the procedure `label` with the block tree `root`. An earlier
    /// procedure of the same label is replaced.
    pub fn insert(&mut self, label: Vec<char>, root: CodeBlock)
        ensures
            final(self)@ == old(self)@.insert(label@, root@),
    {
        self.entries.push((label, root));
        assert(self.entries@.drop_last() == old(self).entries@);
    }
}

} // verus!
