//! The paginator: walking the pages of the feed until the server reports the
//! last one, and gathering their items in order.

use vstd::prelude::*;
use crate::model::{Mediafile, Root};

verus! {

/// The items of all of `pages`, page after page.
pub open spec fn all_items(pages: Seq<Root>) -> Seq<Mediafile>
    decreases pages.len(),
{
    if pages.len() == 0 {
        Seq::empty()
    } else {
        all_items(pages.drop_last()) + pages.last().media_files@
    }
}

/// The items that a walk over `pages` gathers: those of every page up to and
/// including the first one that announces no successor.
pub open spec fn enumerated(pages: Seq<Root>) -> Seq<Mediafile>
    decreases pages.len(),
{
    if pages.len() == 0 {
        Seq::empty()
    } else if !pages[0].has_next {
        pages[0].media_files@
    } else {
        pages[0].media_files@ + enumerated(pages.skip(1))
    }
}

/// The number of pages that a walk over `pages` asks for: every page up to
/// and including the first one that announces no successor.
pub open spec fn pages_asked(pages: Seq<Root>) -> nat
    decreases pages.len(),
{
    if pages.len() == 0 {
        0
    } else if !pages[0].has_next {
        1
    } else {
        1 + pages_asked(pages.skip(1))
    }
}

/// The page numbers 1 to `n`, in order.
pub open spec fn page_numbers(n: nat) -> Seq<i32> {
    Seq::new(n, |i: int| (i + 1) as i32)
}

/// While every page so far announces a successor, the walk has asked for
/// each of them and goes on with the rest.
pub proof fn lemma_asked_split(pages: Seq<Root>, k: int)
    requires
        0 <= k <= pages.len(),
        forall|j: int| 0 <= j < k ==> pages[j].has_next,
    ensures
        pages_asked(pages) == k + pages_asked(pages.skip(k)),
    decreases k,
{
    if k == 0 {
        assert(pages.skip(0) =~= pages);
    } else {
        lemma_asked_split(pages, k - 1);
        let rest = pages.skip(k - 1);
        assert(rest[0] == pages[k - 1]);
        assert(rest.skip(1) =~= pages.skip(k));
    }
}

/// While every page so far announces a successor, the walk has gathered all
/// of their items and goes on with the rest.
pub proof fn lemma_enumerated_split(pages: Seq<Root>, k: int)
    requires
        0 <= k <= pages.len(),
        forall|j: int| 0 <= j < k ==> pages[j].has_next,
    ensures
        enumerated(pages) == all_items(pages.take(k)) + enumerated(pages.skip(k)),
    decreases k,
{
    if k == 0 {
        assert(pages.skip(0) =~= pages);
        assert(all_items(pages.take(0)) =~= Seq::<Mediafile>::empty());
        assert(enumerated(pages) =~= Seq::<Mediafile>::empty() + enumerated(pages));
    } else {
        lemma_enumerated_split(pages, k - 1);
        let rest = pages.skip(k - 1);
        assert(rest[0] == pages[k - 1]);
        assert(rest.skip(1) =~= pages.skip(k));
        assert(pages.take(k).drop_last() =~= pages.take(k - 1));
        assert(pages.take(k).last() == pages[k - 1]);
        assert(all_items(pages.take(k - 1)) + (pages[k - 1].media_files@ + enumerated(
            pages.skip(k),
        )) =~= all_items(pages.take(k)) + enumerated(pages.skip(k)));
    }
}

/// The walk stops exactly at the first page that announces no successor: it
/// gathers the items of the pages up to and including that one, in page
/// order, and nothing of the pages behind it.
pub proof fn lemma_enumeration_stops_at_last_page(pages: Seq<Root>, k: int)
    requires
        0 <= k < pages.len(),
        !pages[k].has_next,
        forall|j: int| 0 <= j < k ==> pages[j].has_next,
    ensures
        enumerated(pages) == all_items(pages.take(k + 1)),
        pages_asked(pages) == k + 1,
{
    lemma_asked_split(pages, k);
    lemma_enumerated_split(pages, k);
    assert(pages.skip(k)[0] == pages[k]);
    assert(pages.take(k + 1).drop_last() =~= pages.take(k));
    assert(pages.take(k + 1).last() == pages[k]);
}

/// The state of a walk over the feed.
pub struct Paginator {
    next_page: i32,
    items: Vec<Mediafile>,
    finished: bool,
}

impl Paginator {
    /// The number of the page to ask for next.
    pub closed spec fn spec_next_page(&self) -> int {
        self.next_page as int
    }

    /// The items gathered so far.
    pub closed spec fn spec_items(&self) -> Seq<Mediafile> {
        self.items@
    }

    /// The last page has been read.
    pub closed spec fn spec_finished(&self) -> bool {
        self.finished
    }

    /// A walk that has read nothing yet and starts at page 1.
    pub fn new() -> (p: Paginator)
        ensures
            p.spec_next_page() == 1,
            p.spec_items() == Seq::<Mediafile>::empty(),
            !p.spec_finished(),
    {
        Paginator { next_page: 1, items: Vec::new(), finished: false }
    }

    /// The number of the page to fetch next, or `None` once the last page has
    /// been read.
    pub fn next_request(&self) -> (r: Option<i32>)
        ensures
            r == if self.spec_finished() {
                None
            } else {
                Some(self.spec_next_page() as i32)
            },
    {
        if self.finished {
            None
        } else {
            Some(self.next_page)
        }
    }

    /// Whether the last page has been read.
    pub fn is_finished(&self) -> (r: bool)
        ensures
            r == self.spec_finished(),
    {
        self.finished
    }

    /// Takes in the page that was asked for: its items follow those gathered
    /// before, and the walk ends if the page announces no successor. A walk
    /// that has ended takes in nothing more.
    pub fn accept(&mut self, page: Root)
        requires
            !old(self).spec_finished() && page.has_next ==> old(self).spec_next_page() < i32::MAX,
        ensures
            old(self).spec_finished() ==> *final(self) == *old(self),
            !old(self).spec_finished() ==> {
                &&& final(self).spec_items() == old(self).spec_items() + page.media_files@
                &&& final(self).spec_finished() == !page.has_next
                &&& final(self).spec_next_page() == if page.has_next {
                    old(self).spec_next_page() + 1
                } else {
                    old(self).spec_next_page()
                }
            },
    {
        if self.finished {
            return ;
        }
        let mut page = page;
        self.items.append(&mut page.media_files);
        if page.has_next {
            self.next_page = self.next_page + 1;
        } else {
            self.finished = true;
        }
    }

    /// The items gathered, in the order in which they were read.
    pub fn into_items(self) -> (items: Vec<Mediafile>)
        ensures
            items@ == self.spec_items(),
    {
        self.items
    }
}

/// The walk over a feed that serves `pages`, the first page first: the items
/// that it gathers, and the numbers of the pages that it asks for, in the
/// order of asking. It asks for 1, 2 and so on, each once, up to the first
/// page that announces no successor, and for none behind that page.
pub fn walk_pages(pages: Vec<Root>) -> (r: (Vec<Mediafile>, Vec<i32>))
    requires
        pages.len() < i32::MAX,
    ensures
        r.0@ == enumerated(pages@),
        r.1@ == page_numbers(pages_asked(pages@)),
{
    let ghost all = pages@;
    let mut walk = Paginator::new();
    let mut asked: Vec<i32> = Vec::new();
    assert(asked@ =~= page_numbers(0));
    for page in it: pages
        invariant
            it.seq() == all,
            all.len() < i32::MAX,
            walk.spec_finished() ==> walk.spec_items() == enumerated(all) && asked@
                == page_numbers(pages_asked(all)),
            !walk.spec_finished() ==> {
                &&& walk.spec_items() == all_items(all.take(it.index() as int))
                &&& walk.spec_next_page() == it.index() + 1
                &&& asked@ == page_numbers(it.index() as nat)
                &&& forall|j: int| 0 <= j < it.index() ==> all[j].has_next
            },
    {
        proof {
            let i = it.index() as int;
            if !walk.spec_finished() {
                lemma_enumerated_split(all, i);
                lemma_asked_split(all, i);
                assert(all.skip(i)[0] == all[i]);
                assert(all.take(i + 1).drop_last() =~= all.take(i));
                assert(all.take(i + 1).last() == all[i]);
                assert(page_numbers(i as nat).push((i + 1) as i32) =~= page_numbers(
                    (i + 1) as nat,
                ));
                if all[i].has_next && i + 1 < all.len() {
                    assert(all.skip(i).skip(1) =~= all.skip(i + 1));
                }
            }
        }
        match walk.next_request() {
            Some(number) => asked.push(number),
            None => {},
        }
        walk.accept(page);
    }
    proof {
        if !walk.spec_finished() {
            lemma_enumerated_split(all, all.len() as int);
            lemma_asked_split(all, all.len() as int);
            assert(all.take(all.len() as int) =~= all);
            assert(all.skip(all.len() as int) =~= Seq::<Root>::empty());
            assert(all_items(all) + Seq::<Mediafile>::empty() =~= all_items(all));
        }
    }
    (walk.into_items(), asked)
}

/// The items that a walk gathers from a feed that serves `pages`, the first
/// page first.
pub fn collect_pages(pages: Vec<Root>) -> (items: Vec<Mediafile>)
    requires
        pages.len() < i32::MAX,
    ensures
        items@ == enumerated(pages@),
{
    walk_pages(pages).0
}

} // verus!
