//! The search filter: narrows a list of memos to those whose path holds the
//! query, without regard to case, and never narrows it to nothing.

use crate::memo::{memo_views, Memo, MemoView};
use crate::text::{
    contains_text, is_substring, lemma_filter_empty, lemma_filter_holds, lemma_filter_keeps_all,
};
use vstd::prelude::*;

verus! {

/// The lower-case form of a text as `str::to_lowercase` gives it, by the
/// Unicode rules for lower case, which are the same for every locale.
pub uninterp spec fn lowercase_of(text: Seq<char>) -> Seq<char>;

/// `str::to_lowercase`.
///
/// The call gives the lower-case equivalent of the text as a new string. Its
/// result depends on the text alone and is here given the name
/// `lowercase_of`.
#[verifier::external_body]
fn lowercase(text: &str) -> (lowered: String)
    ensures
        lowered@ == lowercase_of(text@),
{
    text.to_lowercase()
}

/// The path holds the query when both are taken in lower case.
pub open spec fn path_matches(path: Seq<char>, query: Seq<char>) -> bool {
    is_substring(lowercase_of(query), lowercase_of(path))
}

/// The predicate that holds of a memo whose path holds `query`.
pub open spec fn path_hit(query: Seq<char>) -> spec_fn(MemoView) -> bool {
    |memo: MemoView| path_matches(memo.path, query)
}

/// The memos of `current` whose path holds `query`, in their order.
pub open spec fn hits(current: Seq<MemoView>, query: Seq<char>) -> Seq<MemoView> {
    current.filter(path_hit(query))
}

/// The list that a search leaves: the hits, or the list as it was where
/// nothing is hit.
pub open spec fn narrowed(current: Seq<MemoView>, query: Seq<char>) -> Seq<MemoView> {
    if hits(current, query).len() == 0 {
        current
    } else {
        hits(current, query)
    }
}

/// The items of `items` whose mark is set, in their order.
pub open spec fn marked<A>(items: Seq<A>, marks: Seq<bool>) -> Seq<A>
    recommends
        items.len() == marks.len(),
    decreases items.len(),
{
    if items.len() == 0 || marks.len() == 0 {
        Seq::empty()
    } else if marks.last() {
        marked(items.drop_last(), marks.drop_last()).push(items.last())
    } else {
        marked(items.drop_last(), marks.drop_last())
    }
}

/// Marks that say of each item whether it satisfies a predicate pick what the
/// filter by that predicate keeps.
pub proof fn lemma_marked_is_filter<A>(items: Seq<A>, marks: Seq<bool>, pred: spec_fn(A) -> bool)
    requires
        items.len() == marks.len(),
        forall|i: int| 0 <= i < items.len() ==> marks[i] == pred(items[i]),
    ensures
        marked(items, marks) == items.filter(pred),
    decreases items.len(),
{
    reveal(Seq::filter);
    if items.len() > 0 {
        lemma_marked_is_filter(items.drop_last(), marks.drop_last(), pred);
    }
}

/// A search never empties a list: what it leaves is empty only where the list
/// was empty before.
pub proof fn lemma_narrowed_is_not_emptied(current: Seq<MemoView>, query: Seq<char>)
    ensures
        narrowed(current, query).len() == 0 <==> current.len() == 0,
{
    if current.len() == 0 {
        current.lemma_filter_len(path_hit(query));
    }
}

/// A search, applied to what it left with the same query, changes nothing.
pub proof fn lemma_narrow_idempotent(current: Seq<MemoView>, query: Seq<char>)
    ensures
        narrowed(narrowed(current, query), query) == narrowed(current, query),
{
    let found = hits(current, query);
    if found.len() > 0 {
        lemma_filter_holds(current, path_hit(query));
        lemma_filter_keeps_all(found, path_hit(query));
    }
}

/// Whether the path holds the query, both given in lower case already.
pub fn lowered_path_matches(lowered_path: &str, lowered_query: &str) -> (b: bool)
    ensures
        b == is_substring(lowered_query@, lowered_path@),
{
    contains_text(lowered_path, lowered_query)
}

/// The memos whose mark is set, in their order.
pub fn pick_marked(current: &Vec<Memo>, marks: &Vec<bool>) -> (picked: Vec<Memo>)
    requires
        current@.len() == marks@.len(),
    ensures
        memo_views(picked@) == marked(memo_views(current@), marks@),
{
    let ghost all = memo_views(current@);
    let mut picked: Vec<Memo> = Vec::new();
    let mut i: usize = 0;
    assert(memo_views(picked@) =~= marked(all.take(0), marks@.take(0)));
    while i < current.len()
        invariant
            i <= current.len(),
            current@.len() == marks@.len(),
            all == memo_views(current@),
            memo_views(picked@) == marked(all.take(i as int), marks@.take(i as int)),
        decreases current.len() - i,
    {
        proof {
            assert(all.take(i + 1).drop_last() =~= all.take(i as int));
            assert(marks@.take(i + 1).drop_last() =~= marks@.take(i as int));
        }
        if marks[i] {
            let ghost before = memo_views(picked@);
            let memo = current[i].clone();
            picked.push(memo);
            assert(memo_views(picked@) =~= before.push(all[i as int]));
        }
        i += 1;
    }
    proof {
        assert(all.take(current.len() as int) =~= all);
        assert(marks@.take(current.len() as int) =~= marks@);
    }
    picked
}

/// The memos of `current` whose path holds `query` without regard to case,
/// in their order. There may be none.
pub fn search_hits(current: &Vec<Memo>, query: &str) -> (found: Vec<Memo>)
    ensures
        memo_views(found@) == hits(memo_views(current@), query@),
{
    let lowered_query = lowercase(query);
    let ghost all = memo_views(current@);
    let mut marks: Vec<bool> = Vec::new();
    let mut i: usize = 0;
    while i < current.len()
        invariant
            i <= current.len(),
            marks@.len() == i,
            all == memo_views(current@),
            lowered_query@ == lowercase_of(query@),
            forall|j: int| 0 <= j < i ==> marks@[j] == path_hit(query@)(all[j]),
        decreases current.len() - i,
    {
        let lowered_path = lowercase(current[i].get_path().as_str());
        let hit = lowered_path_matches(lowered_path.as_str(), lowered_query.as_str());
        marks.push(hit);
        i += 1;
    }
    proof {
        lemma_marked_is_filter(all, marks@, path_hit(query@));
    }
    pick_marked(current, &marks)
}

/// Narrows a list of memos by a query. A memo stays when its path holds the
/// query without regard to case. Where no memo would stay, the list is
/// returned as it was, so that no query ever leaves an empty list; otherwise
/// exactly the memos that are hit are returned, in their order.
pub fn narrow(current: &Vec<Memo>, query: &str) -> (res: Vec<Memo>)
    ensures
        memo_views(res@) == narrowed(memo_views(current@), query@),
        current@.len() > 0 ==> res@.len() > 0,
        (forall|i: int| 0 <= i < current@.len() ==> !path_matches(current@[i]@.path, query@))
            ==> memo_views(res@) == memo_views(current@),
        (exists|i: int| 0 <= i < current@.len() && path_matches(current@[i]@.path, query@))
            ==> memo_views(res@) == hits(memo_views(current@), query@),
{
    let found = search_hits(current, query);
    proof {
        let all = memo_views(current@);
        lemma_filter_empty(all, path_hit(query@));
        lemma_narrowed_is_not_emptied(all, query@);
        if forall|i: int| 0 <= i < current@.len() ==> !path_matches(current@[i]@.path, query@) {
            assert forall|i: int| 0 <= i < all.len() implies !path_hit(query@)(#[trigger] all[i]) by {
                assert(all[i] == current@[i]@);
            }
        }
        if exists|i: int| 0 <= i < current@.len() && path_matches(current@[i]@.path, query@) {
            let i = choose|i: int| 0 <= i < current@.len() && path_matches(current@[i]@.path, query@);
            assert(path_hit(query@)(all[i]));
        }
    }
    if found.len() == 0 {
        crate::memo::clone_memos(current)
    } else {
        found
    }
}

} // verus!
