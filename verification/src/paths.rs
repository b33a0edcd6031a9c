//! Lists of entries that are addressed by a path from the root of a tree.

use vstd::prelude::*;
use crate::tree::{PathView};
use crate::views::{clone_strings, views};

verus! {

/// The entries of a subtree as seen from its parent: each path starts with `tag`.
pub open spec fn under<T>(tag: Seq<char>, entries: Seq<(PathView, T)>) -> Seq<(PathView, T)> {
    entries.map_values(|entry: (PathView, T)| (seq![tag] + entry.0, entry.1))
}

/// The model of a list of entries: the model of each path with the model of what it addresses.
pub open spec fn entries_view<T: View>(entries: Seq<(Vec<String>, T)>) -> Seq<(PathView, T::V)> {
    entries.map_values(|entry: (Vec<String>, T)| (views(entry.0@), entry.1@))
}

/// The model of a list with one more entry is the model with one more entry.
pub proof fn lemma_entries_push<T: View>(entries: Seq<(Vec<String>, T)>, entry: (Vec<String>, T))
    ensures
        entries_view(entries.push(entry)) == entries_view(entries).push((views(entry.0@), entry.1@)),
{
    assert(entries_view(entries.push(entry)) =~= entries_view(entries).push(
        (views(entry.0@), entry.1@),
    ));
}

/// Seen from the parent, a list with one more entry is the list with one more entry.
pub proof fn lemma_under_push<T>(tag: Seq<char>, entries: Seq<(PathView, T)>, entry: (PathView, T))
    ensures
        under(tag, entries.push(entry)) == under(tag, entries).push((seq![tag] + entry.0, entry.1)),
{
    assert(under(tag, entries.push(entry)) =~= under(tag, entries).push(
        (seq![tag] + entry.0, entry.1),
    ));
}

/// The path that goes through the antecedent `tag` and then follows `path`.
pub fn path_under(tag: &String, path: &Vec<String>) -> (res: Vec<String>)
    ensures
        views(res@) == seq![tag@] + views(path@),
{
    let mut res = clone_strings(path);
    res.insert(0, tag.clone());
    assert(views(res@) =~= seq![tag@] + views(path@));
    res
}

/// Appends the entries of a subtree to `entries`, each path starting with `tag`.
pub(crate) fn append_under<T: View + Clone>(
    entries: &mut Vec<(Vec<String>, T)>,
    tag: &String,
    below: &Vec<(Vec<String>, T)>,
)
    requires
        forall|entry: T, copy: T| #[trigger] cloned::<T>(entry, copy) ==> copy@ == entry@,
    ensures
        entries_view(final(entries)@) == entries_view(old(entries)@) + under(tag@, entries_view(below@)),
{
    let mut k: usize = 0;
    assert(entries_view(entries@) =~= entries_view(old(entries)@) + under(
        tag@,
        entries_view(below@.take(0)),
    ));
    while k < below.len()
        invariant
            k <= below.len(),
            forall|entry: T, copy: T| #[trigger] cloned::<T>(entry, copy) ==> copy@ == entry@,
            entries_view(entries@) == entries_view(old(entries)@) + under(
                tag@,
                entries_view(below@.take(k as int)),
            ),
        decreases below.len() - k,
    {
        let entry = (path_under(tag, &below[k].0), below[k].1.clone());
        proof {
            let seen = below@.take(k as int);
            assert(cloned::<T>(below@[k as int].1, entry.1));
            assert(below@.take(k + 1) =~= seen.push(below@[k as int]));
            lemma_entries_push(entries@, entry);
            lemma_entries_push(seen, below@[k as int]);
            let added = (views(below@[k as int].0@), below@[k as int].1@);
            lemma_under_push(tag@, entries_view(seen), added);
            assert((entries_view(old(entries)@) + under(tag@, entries_view(seen))).push(
                (views(entry.0@), entry.1@),
            ) =~= entries_view(old(entries)@) + under(tag@, entries_view(seen)).push(
                (views(entry.0@), entry.1@),
            ));
        }
        entries.push(entry);
        k += 1;
    }
    assert(below@.take(k as int) =~= below@);
}

} // verus!
