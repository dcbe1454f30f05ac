//! One pass over a list of pages, each page visited once however often
//! the list names it.

use crate::frontier::{contains_text, lemma_with_members, with_member, with_members};
use crate::text::texts;
use std::collections::VecDeque;
use vstd::prelude::*;

verus! {

/// The state of a pass, as mathematical values.
pub struct PassView {
    /// The pages handed out so far, in order.
    pub done: Seq<Seq<char>>,
    /// The entries of the list not looked at yet.
    pub rest: Seq<Seq<char>>,
}

impl PassView {
    /// The pages that the pass will have handed out at its end: those
    /// handed out so far, then each page left that is new, in the order
    /// of the list.
    pub open spec fn outcome(self) -> Seq<Seq<char>> {
        with_members(self.done, self.rest)
    }
}

/// Adding the first of a list and then the others adds the list.
pub proof fn lemma_with_members_first(s: Seq<Seq<char>>, xs: Seq<Seq<char>>)
    requires
        xs.len() > 0,
    ensures
        with_members(s, xs) == with_members(with_member(s, xs[0]), xs.skip(1)),
    decreases xs.len(),
{
    let first = with_member(s, xs[0]);
    if xs.len() == 1 {
        assert(xs.drop_last() =~= Seq::<Seq<char>>::empty());
        assert(xs.skip(1) =~= Seq::<Seq<char>>::empty());
        assert(with_members(s, xs.drop_last()) == s);
        assert(with_members(first, xs.skip(1)) == first);
    } else {
        lemma_with_members_first(s, xs.drop_last());
        assert(xs.drop_last().skip(1) =~= xs.skip(1).drop_last());
        assert(xs.drop_last()[0] == xs[0]);
        assert(xs.skip(1).last() == xs.last());
        assert(with_members(s, xs) == with_member(
            with_members(s, xs.drop_last()),
            xs.last(),
        ));
        assert(with_members(first, xs.skip(1)) == with_member(
            with_members(first, xs.skip(1).drop_last()),
            xs.skip(1).last(),
        ));
    }
}

/// A pass over a list of pages.
pub struct CrawlPass {
    pending: VecDeque<String>,
    processed: Vec<String>,
}

impl View for CrawlPass {
    type V = PassView;

    closed spec fn view(&self) -> PassView {
        PassView { done: texts(self.processed@), rest: texts(self.pending@) }
    }
}

impl CrawlPass {
    /// No page was handed out twice.
    pub open spec fn wf(&self) -> bool {
        self@.done.no_duplicates()
    }

    /// The pass over the pages of `urls`.
    pub fn new(urls: &Vec<String>) -> (pass: CrawlPass)
        ensures
            pass.wf(),
            pass@.done == Seq::<Seq<char>>::empty(),
            pass@.rest == texts(urls@),
    {
        let mut pending: VecDeque<String> = VecDeque::new();
        let mut i: usize = 0;
        while i < urls.len()
            invariant
                i <= urls.len(),
                pending.len() == i,
                forall|j: int| 0 <= j < i ==> (#[trigger] pending@[j])@ == urls@[j]@,
            decreases urls.len() - i,
        {
            pending.push_back(urls[i].clone());
            i += 1;
        }
        let pass = CrawlPass { pending, processed: Vec::new() };
        assert(pass@.rest =~= texts(urls@));
        assert(pass@.done =~= Seq::<Seq<char>>::empty());
        pass
    }

    /// The page to visit next: the first entry left of the list that was
    /// not handed out before. None when the list is used up. What the
    /// pass hands out in all does not depend on how far it has come.
    pub fn next(&mut self) -> (url: Option<String>)
        requires
            old(self).wf(),
        ensures
            final(self).wf(),
            final(self)@.outcome() == old(self)@.outcome(),
            match url {
                Some(u) => !old(self)@.done.contains(u@) && final(self)@.done == old(self)@.done.push(
                    u@,
                ),
                None => final(self)@.rest.len() == 0 && final(self)@.done == old(self)@.done
                    && final(self)@.done == old(self)@.outcome(),
            },
    {
        loop
            invariant
                self.wf(),
                self@.done == old(self)@.done,
                self@.outcome() == old(self)@.outcome(),
            decreases self.pending.len(),
        {
            let ghost before = self@;
            match self.pending.pop_front() {
                None => {
                    return None;
                },
                Some(url) => {
                    proof {
                        assert(texts(self.pending@) =~= before.rest.skip(1));
                        assert(url@ == before.rest[0]);
                        lemma_with_members_first(before.done, before.rest);
                    }
                    if !contains_text(&self.processed, &url) {
                        self.processed.push(url.clone());
                        assert(texts(self.processed@) =~= before.done.push(url@));
                        return Some(url);
                    }
                },
            }
        }
    }

    /// The pages handed out so far, in order.
    pub fn processed(&self) -> (v: &Vec<String>)
        ensures
            texts(v@) == self@.done,
    {
        &self.processed
    }
}

/// A pass hands out each page of its list, and each once: at its start
/// the pages it will hand out are free of repeats and are, as a set, the
/// entries of the list.
pub proof fn lemma_pass_visits_each_once(urls: Seq<Seq<char>>)
    ensures
        (PassView { done: Seq::empty(), rest: urls }).outcome().no_duplicates(),
        (PassView { done: Seq::empty(), rest: urls }).outcome().to_set() == urls.to_set(),
{
    lemma_with_members(Seq::empty(), urls);
    assert(Seq::<Seq<char>>::empty().to_set().union(urls.to_set()) =~= urls.to_set());
}

} // verus!
