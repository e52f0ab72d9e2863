//! Small additions to types of the standard library.

use vstd::prelude::*;
use vstd::string::StrSliceExecFns;
use crate::search::{fuzzy_positions, skim_indices};
use crate::text::{sort_texts, texts_ascending};

verus! {

/// Marks every type; a trait that has it as a supertrait cannot be implemented outside.
pub trait Sealed {

}

impl<T> Sealed for T {

}

/// Values that can be taken out of their place, which is left empty.
pub trait Take: Sized {
    /// Whether the value is the one that a taken value leaves.
    spec fn is_vacant(&self) -> bool;

    /// Hands the value out and leaves an empty one.
    fn take(&mut self) -> (taken: Self)
        ensures
            taken == *old(self),
            final(self).is_vacant(),
    ;
}

impl Take for String {
    open spec fn is_vacant(&self) -> bool {
        self@ == Seq::<char>::empty()
    }

    fn take(&mut self) -> (taken: Self) {
        let mut taken = String::new();
        std::mem::swap(&mut taken, self);
        taken
    }
}

/// Taking the text out of a `String`.
pub trait StringExt: Sized {
    /// The characters of the text.
    spec fn text(&self) -> Seq<char>;

    /// Hands the text out and leaves an empty one.
    fn take(&mut self) -> (taken: String)
        ensures
            taken@ == old(self).text(),
            final(self).text() == Seq::<char>::empty(),
    ;
}

impl StringExt for String {
    open spec fn text(&self) -> Seq<char> {
        self@
    }

    fn take(&mut self) -> (taken: String) {
        let mut taken = String::new();
        std::mem::swap(&mut taken, self);
        taken
    }
}

/// Emptying an `Option`.
pub trait OptionExt {
    /// Whether there is no value.
    spec fn is_dropped(&self) -> bool;

    /// Removes the value, if there is one.
    fn drop(&mut self)
        ensures
            final(self).is_dropped(),
    ;
}

impl<T> OptionExt for Option<T> {
    open spec fn is_dropped(&self) -> bool {
        self is None
    }

    fn drop(&mut self) {
        if self.is_some() {
            *self = None
        }
    }
}

/// Parts of a text by the positions of its characters.
pub trait StrExt {
    /// The characters of the text.
    spec fn characters(&self) -> Seq<char>;

    /// The positions of the characters of `choice` that match this text as a pattern of
    /// a fuzzy search; `None` where `choice` does not match.
    fn fuzzy_indices(&self, choice: &str) -> (found: Option<Vec<usize>>)
        ensures
            match found {
                Some(positions) => fuzzy_positions(choice@, self.characters()) == Some(
                    positions@,
                ),
                None => fuzzy_positions(choice@, self.characters()) is None,
            },
    ;

    /// The characters from position `start` up to, not including, position `end`; `None`
    /// for an empty or inverted range and for one that reaches beyond the text.
    fn slice(&self, start: usize, end: usize) -> (part: Option<&str>)
        ensures
            part is Some <==> start < end <= self.characters().len(),
            part matches Some(text) ==> text@ == self.characters().subrange(
                start as int,
                end as int,
            ),
    ;
}

impl StrExt for str {
    open spec fn characters(&self) -> Seq<char> {
        self@
    }

    fn fuzzy_indices(&self, choice: &str) -> (found: Option<Vec<usize>>) {
        skim_indices(choice, self)
    }

    fn slice(&self, start: usize, end: usize) -> (part: Option<&str>) {
        if start >= end {
            return None;
        }
        if end > self.unicode_len() {
            return None;
        }
        Some(self.substring_char(start, end))
    }
}

/// Whether the numbers come in ascending order.
pub open spec fn ascending(numbers: Seq<u64>) -> bool {
    forall|i: int, j: int| 0 <= i < j < numbers.len() ==> numbers[i] <= numbers[j]
}

/// Sorting a vector that is handed over.
pub trait VecExt: Sized {
    /// Whether `self` holds the items of `other` in ascending order.
    spec fn is_sorted_from(&self, other: &Self) -> bool;

    /// The items in ascending order.
    fn sort_inplace(self) -> (sorted: Self)
        ensures
            sorted.is_sorted_from(&self),
    ;
}

impl VecExt for Vec<u64> {
    open spec fn is_sorted_from(&self, other: &Self) -> bool {
        ascending(self@) && self@.to_multiset() == other@.to_multiset()
    }

    fn sort_inplace(self) -> (sorted: Self) {
        let mut sorted: Vec<u64> = Vec::new();
        let ghost all = self@;
        assert(all.take(0) =~= Seq::<u64>::empty());
        for number in it: self
            invariant
                it.seq() == all,
                ascending(sorted@),
                sorted@.to_multiset() == all.take(it.index() as int).to_multiset(),
        {
            let mut k: usize = sorted.len();
            while k > 0 && sorted[k - 1] > number
                invariant
                    k <= sorted.len(),
                    forall|j: int| k <= j < sorted.len() ==> sorted@[j] > number,
                decreases k,
            {
                k -= 1;
            }
            let ghost before = sorted@;
            sorted.insert(k, number);
            proof {
                let grown = sorted@;
                assert(grown.remove(k as int) =~= before);
                vstd::seq_lib::to_multiset_remove(grown, k as int);
                grown.to_multiset_ensures();
                assert(grown.contains(number)) by {
                    assert(grown[k as int] == number);
                }
                assert(grown.to_multiset() =~= before.to_multiset().insert(number));
                vstd::seq_lib::to_multiset_build(all.take(it.index() as int), number);
                assert(all.take(it.index() as int).push(number) =~= all.take(it.index() + 1));
                assert forall|i: int, j: int| 0 <= i < j < grown.len() implies grown[i]
                    <= grown[j] by {
                    let a = if i < k { i } else { i - 1 };
                    let b = if j < k { j } else { j - 1 };
                    if i != k && j != k {
                        assert(grown[i] == before[a] && grown[j] == before[b]);
                    } else if i == k {
                        assert(grown[j] == before[b]);
                    } else {
                        assert(grown[i] == before[a]);
                        if k > 0 {
                            assert(before[a] <= before[k - 1]);
                        }
                    }
                }
            }
        }
        assert(all.take(all.len() as int) =~= all);
        sorted
    }
}

impl VecExt for Vec<String> {
    open spec fn is_sorted_from(&self, other: &Self) -> bool {
        texts_ascending(self.deep_view()) && self.deep_view().to_multiset()
            == other.deep_view().to_multiset()
    }

    fn sort_inplace(self) -> (sorted: Self) {
        let mut sorted = self;
        sort_texts(&mut sorted);
        sorted
    }
}

/// What a menu shows of an item.
pub trait AsMenuItem {
    /// The text of the item.
    spec fn menu_text(&self) -> Seq<char>;

    /// The text of the item.
    fn as_menu_item(&self) -> (text: &str)
        ensures
            text@ == self.menu_text(),
    ;
}

impl AsMenuItem for str {
    open spec fn menu_text(&self) -> Seq<char> {
        self@
    }

    fn as_menu_item(&self) -> (text: &str) {
        self
    }
}

impl AsMenuItem for String {
    open spec fn menu_text(&self) -> Seq<char> {
        self@
    }

    fn as_menu_item(&self) -> (text: &str) {
        self.as_str()
    }
}

} // verus!
