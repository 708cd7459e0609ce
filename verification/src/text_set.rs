//! A set of texts, in the order in which they came in.

use crate::text;
use vstd::prelude::*;

verus! {

/// The set of the items of a list.
pub open spec fn set_of(items: Seq<Seq<char>>) -> Set<Seq<char>> {
    Set::new(|t: Seq<char>| items.contains(t))
}

/// The texts of a list but for one, in order.
pub open spec fn others(items: Seq<Seq<char>>, t: Seq<char>) -> Seq<Seq<char>> {
    items.filter(|x: Seq<char>| x != t)
}

/// No text stands in the list twice.
pub open spec fn all_distinct(items: Seq<Seq<char>>) -> bool {
    forall|i: int, j: int| 0 <= i < j < items.len() ==> items[i] != items[j]
}

/// Texts without repetition.
#[derive(Debug)]
pub struct TextSet {
    items: Vec<String>,
}

impl View for TextSet {
    type V = Set<Seq<char>>;

    open spec fn view(&self) -> Set<Seq<char>> {
        set_of(self.order())
    }
}

impl TextSet {
    /// The texts in the order in which they came in.
    pub closed spec fn order(&self) -> Seq<Seq<char>> {
        text::views(self.items@)
    }

    /// No text stands twice.
    #[verifier::type_invariant]
    pub open spec fn wf(&self) -> bool {
        all_distinct(self.order())
    }

    pub fn new() -> (s: TextSet)
        ensures
            s@ == Set::<Seq<char>>::empty(),
            s.order() == Seq::<Seq<char>>::empty(),
    {
        let items: Vec<String> = Vec::new();
        assert(text::views(items@) =~= Seq::empty());
        assert(set_of(text::views(items@)) =~= Set::empty());
        TextSet { items }
    }

    fn position(&self, t: &str) -> (r: Option<usize>)
        ensures
            match r {
                Some(i) => i < self.items@.len() && self.items@[i as int]@ == t@,
                None => !self@.contains(t@),
            },
    {
        let mut i: usize = 0;
        while i < self.items.len()
            invariant
                i <= self.items@.len(),
                forall|j: int| 0 <= j < i ==> self.items@[j]@ != t@,
            decreases self.items@.len() - i,
        {
            if text::same_text(self.items[i].as_str(), t) {
                return Some(i);
            }
            i += 1;
        }
        proof {
            let all = text::views(self.items@);
            if all.contains(t@) {
                let j = choose|j: int| 0 <= j < all.len() && all[j] == t@;
                assert(self.items@[j]@ == t@);
            }
        }
        None
    }

    pub fn contains(&self, t: &str) -> (r: bool)
        ensures
            r == self@.contains(t@),
    {
        match self.position(t) {
            Some(i) => {
                assert(text::views(self.items@)[i as int] == t@);
                true
            },
            None => false,
        }
    }

    /// Adds a text; one that is there already stays where it is.
    pub fn insert(&mut self, t: &str)
        ensures
            final(self)@ == old(self)@.insert(t@),
            final(self).order() == (if old(self)@.contains(t@) {
                old(self).order()
            } else {
                old(self).order().push(t@)
            }),
    {
        if self.contains(t) {
            assert(self@ =~= old(self)@.insert(t@));
            return;
        }
        proof {
            use_type_invariant(&*self);
        }
        let ghost before = text::views(self.items@);
        let mut items: Vec<String> = Vec::new();
        std::mem::swap(&mut items, &mut self.items);
        items.push(t.to_owned());
        proof {
            let now = text::views(items@);
            assert(now =~= before.push(t@));
            assert forall|x: Seq<char>| now.contains(x) <==> before.contains(x) || x == t@ by {
                if before.contains(x) {
                    let j = choose|j: int| 0 <= j < before.len() && before[j] == x;
                    assert(now[j] == x);
                }
                if x == t@ {
                    assert(now[before.len() as int] == x);
                }
            }
            assert(set_of(now) =~= old(self)@.insert(t@));
            assert forall|i: int, j: int| 0 <= i < j < now.len() implies now[i] != now[j] by {
                if j == before.len() {
                    assert(before.contains(before[i]));
                }
            }
        }
        self.items = items;
    }

    /// Takes a text out; the others keep their order.
    pub fn remove(&mut self, t: &str)
        ensures
            final(self)@ == old(self)@.remove(t@),
            !old(self)@.contains(t@) ==> final(self).order() == old(self).order(),
            final(self).order() == others(old(self).order(), t@),
    {
        match self.position(t) {
            Some(i) => {
                proof {
                    use_type_invariant(&*self);
                }
                let ghost before = text::views(self.items@);
                let mut items: Vec<String> = Vec::new();
                std::mem::swap(&mut items, &mut self.items);
                let _gone = items.remove(i);
                proof {
                    let now = text::views(items@);
                    assert(now =~= before.remove(i as int));
                    assert(before[i as int] == t@);
                    assert(before.contains(t@));
                    assert forall|x: Seq<char>| now.contains(x) <==> before.contains(x) && x
                        != t@ by {
                        if now.contains(x) {
                            let j = choose|j: int| 0 <= j < now.len() && now[j] == x;
                            if j < i {
                                assert(before[j] == x);
                            } else {
                                assert(before[j + 1] == x);
                            }
                        }
                        if before.contains(x) && x != t@ {
                            let j = choose|j: int| 0 <= j < before.len() && before[j] == x;
                            if j < i {
                                assert(now[j] == x);
                            } else {
                                assert(now[j - 1] == x);
                            }
                        }
                    }
                    assert(set_of(now) =~= old(self)@.remove(t@));
                    lemma_filtered(before, t@, i as int);
                }
                self.items = items;
            },
            None => {
                assert(self@ =~= old(self)@.remove(t@));
                proof {
                    lemma_filtered(self.order(), t@, -1);
                }
            },
        }
    }

    pub fn clear(&mut self)
        ensures
            final(self)@ == Set::<Seq<char>>::empty(),
            final(self).order() == Seq::<Seq<char>>::empty(),
    {
        let items: Vec<String> = Vec::new();
        assert(text::views(items@) =~= Seq::empty());
        assert(set_of(text::views(items@)) =~= Set::empty());
        self.items = items;
    }

    /// How many texts there are.
    pub fn len(&self) -> (n: usize)
        ensures
            n == self.order().len(),
    {
        self.items.len()
    }

    /// The text at place `i`.
    pub fn get(&self, i: usize) -> (t: &str)
        requires
            i < self.order().len(),
        ensures
            t@ == self.order()[i as int],
            self@.contains(t@),
    {
        assert(text::views(self.items@)[i as int] == self.items@[i as int]@);
        self.items[i].as_str()
    }

    pub fn is_empty(&self) -> (r: bool)
        ensures
            r == (self@ == Set::<Seq<char>>::empty()),
            r == (self.order().len() == 0),
    {
        proof {
            if self.items@.len() == 0 {
                assert(self@ =~= Set::empty());
            } else {
                assert(text::views(self.items@)[0] == self.items@[0]@);
                assert(self@.contains(self.items@[0]@));
            }
        }
        self.items.len() == 0
    }
}

/// Taking out the one place where a text stands leaves the other texts.
proof fn lemma_filtered(items: Seq<Seq<char>>, t: Seq<char>, i: int)
    requires
        forall|j: int| 0 <= j < items.len() && j != i ==> #[trigger] items[j] != t,
        0 <= i < items.len() ==> items[i] == t,
    ensures
        others(items, t) == (if 0 <= i < items.len() {
            items.remove(i)
        } else {
            items
        }),
    decreases items.len(),
{
    reveal(Seq::filter);
    if items.len() > 0 {
        let rest = items.drop_last();
        assert forall|j: int| 0 <= j < rest.len() && j != i implies #[trigger] rest[j] != t by {
            assert(rest[j] == items[j]);
        }
        assert(items.last() == items[items.len() - 1]);
        lemma_filtered(rest, t, i);
        if i == items.len() - 1 {
            assert(items.remove(i) =~= rest);
        } else if 0 <= i < rest.len() {
            assert(items.remove(i) =~= rest.remove(i).push(items.last()));
        } else {
            assert(items =~= rest.push(items.last()));
        }
    }
}

} // verus!
