//! Element-wise models of sequences, and copies of vectors that preserve them.

use vstd::prelude::*;

verus! {

/// The models of the elements of `s`, in order.
pub open spec fn views<T: View>(s: Seq<T>) -> Seq<T::V> {
    s.map_values(|x: T| x@)
}

/// The model of a sequence with one more element is the model with one more element.
pub proof fn lemma_views_push<T: View>(s: Seq<T>, x: T)
    ensures
        views(s.push(x)) == views(s).push(x@),
{
    assert(views(s.push(x)) =~= views(s).push(x@));
}

/// The model of the first `i + 1` elements extends the model of the first `i`.
pub proof fn lemma_views_take<T: View>(s: Seq<T>, i: int)
    requires
        0 <= i < s.len(),
    ensures
        views(s.take(i + 1)) == views(s.take(i)).push(s[i]@),
        i + 1 == s.len() ==> s.take(i + 1) == s,
{
    assert(s.take(i + 1) =~= s.take(i).push(s[i]));
    lemma_views_push(s.take(i), s[i]);
    if i + 1 == s.len() {
        assert(s.take(i + 1) =~= s);
    }
}

/// Copies a list of strings.
pub fn clone_strings(strings: &Vec<String>) -> (res: Vec<String>)
    ensures
        views(res@) == views(strings@),
{
    let mut res: Vec<String> = Vec::new();
    let mut i: usize = 0;
    assert(views(res@) =~= views(strings@.take(0)));
    while i < strings.len()
        invariant
            i <= strings.len(),
            views(res@) == views(strings@.take(i as int)),
        decreases strings.len() - i,
    {
        proof {
            lemma_views_push(res@, strings@[i as int]);
            lemma_views_take(strings@, i as int);
        }
        res.push(strings[i].clone());
        i += 1;
    }
    assert(strings@.take(i as int) =~= strings@);
    res
}

} // verus!
