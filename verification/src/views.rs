//! Views of sequences, element by element.

use vstd::prelude::*;

verus! {

/// The sequence of the views of `items`.
pub open spec fn view_each<T: View>(items: Seq<T>) -> Seq<T::V> {
    Seq::new(items.len(), |i: int| items[i]@)
}

/// Viewing element by element commutes with appending one element.
pub proof fn lemma_view_each_push<T: View>(items: Seq<T>, item: T)
    ensures
        view_each(items.push(item)) == view_each(items).push(item@),
{
    assert(view_each(items.push(item)) =~= view_each(items).push(item@));
}

/// `texts` with `text` at its end, unless it occurs in it already.
pub open spec fn add_once(texts: Seq<Seq<char>>, text: Seq<char>) -> Seq<Seq<char>> {
    if texts.contains(text) {
        texts
    } else {
        texts.push(text)
    }
}

/// Adding once keeps a sequence free of duplicates.
pub proof fn lemma_add_once_no_duplicates(texts: Seq<Seq<char>>, text: Seq<char>)
    requires
        texts.no_duplicates(),
    ensures
        add_once(texts, text).no_duplicates(),
        add_once(texts, text).contains(text),
        forall|other: Seq<char>| texts.contains(other) ==> add_once(texts, text).contains(other),
{
    let after = add_once(texts, text);
    if texts.contains(text) {
    } else {
        assert(after[texts.len() as int] == text);
        assert forall|other: Seq<char>| texts.contains(other) implies after.contains(other) by {
            let k = choose|k: int| 0 <= k < texts.len() && texts[k] == other;
            assert(after[k] == other);
        }
    }
}

/// Adding a text once adds it to the set of the texts.
pub proof fn lemma_add_once_to_set(texts: Seq<Seq<char>>, text: Seq<char>)
    ensures
        add_once(texts, text).to_set() == texts.to_set().insert(text),
{
    let after = add_once(texts, text);
    assert forall|other: Seq<char>| after.to_set().contains(other) <==> texts.to_set().insert(
        text,
    ).contains(other) by {
        if texts.contains(text) {
        } else {
            if after.contains(other) {
                let k = choose|k: int| 0 <= k < after.len() && after[k] == other;
                if k < texts.len() {
                    assert(texts[k] == other);
                }
            }
            if texts.contains(other) {
                let k = choose|k: int| 0 <= k < texts.len() && texts[k] == other;
                assert(after[k] == other);
            }
            assert(after[texts.len() as int] == text);
        }
    }
    assert(after.to_set() =~= texts.to_set().insert(text));
}

/// Puts `text` at the end of `texts` unless one of them reads the same.
pub fn push_once(texts: &mut Vec<String>, text: &String)
    ensures
        view_each(final(texts)@) == add_once(view_each(old(texts)@), text@),
{
    let mut k: usize = 0;
    while k < texts.len()
        invariant
            k <= texts.len(),
            *texts == *old(texts),
            forall|j: int| 0 <= j < k ==> view_each(texts@)[j] != text@,
        decreases texts.len() - k,
    {
        if texts[k] == *text {
            assert(view_each(texts@)[k as int] == text@);
            return ;
        }
        k += 1;
    }
    proof {
        lemma_view_each_push(texts@, *text);
    }
    texts.push(text.clone());
}

} // verus!
