//! Sets of texts.

use vstd::prelude::*;
use crate::text;

verus! {

/// A set of texts, kept in the order in which they came in.
pub struct TextSet {
    items: Vec<String>,
}

impl View for TextSet {
    type V = Set<Seq<char>>;

    closed spec fn view(&self) -> Set<Seq<char>> {
        text::views(self.items@).to_set()
    }
}

impl TextSet {
    /// Nothing is held twice.
    #[verifier::type_invariant]
    spec fn distinct(self) -> bool {
        text::views(self.items@).no_duplicates()
    }

    /// The empty set.
    pub fn new() -> (result: TextSet)
        ensures
            result@ == Set::<Seq<char>>::empty(),
    {
        let items: Vec<String> = Vec::new();
        proof {
            assert(text::views(items@) =~= Seq::<Seq<char>>::empty());
            assert(text::views(items@).to_set() =~= Set::<Seq<char>>::empty());
        }
        TextSet { items }
    }

    /// Whether the set holds the text.
    pub fn contains(&self, wanted: &str) -> (result: bool)
        ensures
            result == self@.contains(wanted@),
    {
        text::holds(&self.items, wanted)
    }

    /// How many texts the set holds.
    pub fn len(&self) -> (result: usize)
        ensures
            result == self@.len(),
            self@.finite(),
    {
        proof {
            use_type_invariant(self);
            text::views(self.items@).unique_seq_to_set();
            vstd::seq_lib::seq_to_set_is_finite(text::views(self.items@));
        }
        self.items.len()
    }

    /// Adds a text.
    pub fn insert(&mut self, added: String)
        ensures
            final(self)@ == old(self)@.insert(added@),
    {
        proof {
            use_type_invariant(&*self);
        }
        let ghost earlier = text::views(self.items@);
        if !text::holds(&self.items, added.as_str()) {
            let mut items: Vec<String> = Vec::new();
            std::mem::swap(&mut items, &mut self.items);
            items.push(added);
            proof {
                assert(text::views(items@) =~= earlier.push(added@));
                earlier.lemma_push_to_set_commute(added@);
            }
            self.items = items;
        } else {
            assert(earlier.to_set() =~= earlier.to_set().insert(added@));
        }
    }

    /// Adds all texts of another set.
    pub fn add_all(&mut self, other: &TextSet)
        ensures
            final(self)@ == old(self)@.union(other@),
    {
        let ghost before = self@;
        let ghost added = text::views(other.items@);
        let mut at: usize = 0;
        assert(before.union(added.take(0).to_set()) =~= before);
        while at < other.items.len()
            invariant
                at <= other.items@.len(),
                added == text::views(other.items@),
                self@ == before.union(added.take(at as int).to_set()),
            decreases other.items@.len() - at,
        {
            self.insert(other.items[at].clone());
            proof {
                let now = added.take(at + 1);
                let entry = added[at as int];
                assert(now =~= added.take(at as int).push(entry));
                added.take(at as int).lemma_push_to_set_commute(entry);
                assert(before.union(now.to_set()) =~= self@);
            }
            at = at + 1;
        }
        assert(added.take(added.len() as int) =~= added);
    }

    /// Takes a text out.
    pub fn remove(&mut self, removed: &str)
        ensures
            final(self)@ == old(self)@.remove(removed@),
    {
        proof {
            use_type_invariant(&*self);
        }
        let ghost earlier = text::views(self.items@);
        let mut items: Vec<String> = Vec::new();
        std::mem::swap(&mut items, &mut self.items);
        let mut at: usize = 0;
        while at < items.len()
            invariant
                at <= items@.len(),
                text::views(items@) == earlier,
                earlier.no_duplicates(),
                forall|k: int| 0 <= k < at ==> earlier[k] != removed@,
            ensures
                at <= items@.len(),
                at < items@.len() ==> earlier[at as int] == removed@,
                forall|k: int| 0 <= k < at ==> earlier[k] != removed@,
            decreases items@.len() - at,
        {
            if text::same(items[at].as_str(), removed) {
                assert(earlier[at as int] == removed@);
                break;
            }
            at = at + 1;
        }
        if at < items.len() {
            items.remove(at);
            proof {
                assert(text::views(items@) =~= earlier.remove(at as int));
                assert(earlier.remove(at as int).to_set() =~= earlier.to_set().remove(removed@))
                    by {
                    assert forall|entry: Seq<char>|
                        earlier.remove(at as int).contains(entry) == (earlier.contains(entry)
                            && entry != removed@) by {
                        if earlier.contains(entry) && entry != removed@ {
                            let k = choose|k: int| 0 <= k < earlier.len() && earlier[k] == entry;
                            if k < at {
                                assert(earlier.remove(at as int)[k] == entry);
                            } else {
                                assert(earlier.remove(at as int)[k - 1] == entry);
                            }
                        }
                    }
                }
            }
        } else {
            assert(earlier.to_set() =~= earlier.to_set().remove(removed@));
        }
        self.items = items;
    }
}

}
