//! Page-based navigation over a list of items.
use vstd::prelude::*;

verus! {

/// Number of pages needed for `items` items, `size` per page (`usize::div_ceil`).
pub open spec fn pages_for(items: nat, size: nat) -> nat
    recommends
        size >= 1,
{
    if items == 0 {
        0
    } else if items % size == 0 {
        items / size
    } else {
        items / size + 1
    }
}

/// The page after `page`, wrapping around after the last of `pages` pages.
pub open spec fn next_page_of(page: nat, pages: nat) -> nat {
    if pages > 0 {
        (page + 1) % pages
    } else {
        page
    }
}

/// The page before `page`, wrapping around to the last of `pages` pages.
pub open spec fn prev_page_of(page: nat, pages: nat) -> nat {
    if pages > 0 {
        if page == 0 {
            (pages - 1) as nat
        } else {
            (page - 1) as nat
        }
    } else {
        page
    }
}

/// `page` moved onto the last page when it lies past it, and onto page 0 when there are none.
pub open spec fn clamp_page_of(page: nat, pages: nat) -> nat {
    if pages == 0 {
        0
    } else if page >= pages {
        (pages - 1) as nat
    } else {
        page
    }
}

/// The half-open range of item indices shown on `page`.
pub open spec fn window_of(page: nat, size: nat, items: nat) -> (nat, nat) {
    if items == 0 {
        (0, 0)
    } else {
        let start = page * size;
        let end = if start + size <= items {
            start + size
        } else {
            items
        };
        (start, end)
    }
}

/// A cursor over pages of a fixed size.
pub struct Pager {
    current_page: usize,
    page_size: usize,
}

impl Pager {
    /// The page the pager is on.
    pub closed spec fn page(&self) -> nat {
        self.current_page as nat
    }

    /// The number of items per page.
    pub closed spec fn size(&self) -> nat {
        self.page_size as nat
    }

    /// Pages hold at least one item, and the page index can always be advanced by one.
    pub open spec fn wf(&self) -> bool {
        self.size() >= 1 && self.page() < usize::MAX
    }

    /// A pager on the first page; a page size of 0 is taken as 1.
    pub fn new(page_size: usize) -> (p: Self)
        ensures
            p.wf(),
            p.page() == 0,
            p.size() == if page_size >= 1 { page_size as nat } else { 1 },
    {
        Self { current_page: 0, page_size: if page_size >= 1 { page_size } else { 1 } }
    }

    pub fn current_page(&self) -> (r: usize)
        ensures
            r == self.page(),
    {
        self.current_page
    }

    /// Changes the page size (0 is taken as 1) and keeps the page.
    pub fn set_page_size(&mut self, page_size: usize)
        requires
            old(self).wf(),
        ensures
            final(self).wf(),
            final(self).page() == old(self).page(),
            final(self).size() == if page_size >= 1 { page_size as nat } else { 1 },
    {
        self.page_size = if page_size >= 1 { page_size } else { 1 };
    }

    /// Moves to the next page, from the last back to the first.
    pub fn next_page(&mut self, total_items: usize)
        requires
            old(self).wf(),
        ensures
            final(self).wf(),
            final(self).size() == old(self).size(),
            final(self).page() == next_page_of(
                old(self).page(),
                pages_for(total_items as nat, old(self).size()),
            ),
    {
        let total_pages = self.total_pages(total_items);
        if total_pages > 0 {
            self.current_page = (self.current_page + 1) % total_pages;
        }
    }

    /// Moves to the previous page, from the first to the last.
    pub fn prev_page(&mut self, total_items: usize)
        requires
            old(self).wf(),
        ensures
            final(self).wf(),
            final(self).size() == old(self).size(),
            final(self).page() == prev_page_of(
                old(self).page(),
                pages_for(total_items as nat, old(self).size()),
            ),
    {
        let total_pages = self.total_pages(total_items);
        if total_pages > 0 {
            self.current_page = if self.current_page == 0 {
                total_pages - 1
            } else {
                self.current_page - 1
            };
        }
    }

    /// Brings the page back into range after the number of items changed.
    pub fn clamp(&mut self, total_items: usize)
        requires
            old(self).wf(),
        ensures
            final(self).wf(),
            final(self).size() == old(self).size(),
            final(self).page() == clamp_page_of(
                old(self).page(),
                pages_for(total_items as nat, old(self).size()),
            ),
    {
        let total_pages = self.total_pages(total_items);
        if total_pages == 0 {
            self.current_page = 0;
        } else if self.current_page >= total_pages {
            self.current_page = total_pages - 1;
        }
    }

    /// The number of pages that `total_items` items fill.
    pub fn total_pages(&self, total_items: usize) -> (r: usize)
        requires
            self.wf(),
        ensures
            r == pages_for(total_items as nat, self.size()),
    {
        if total_items == 0 {
            0
        } else if total_items % self.page_size == 0 {
            total_items / self.page_size
        } else {
            assert(total_items / self.page_size < total_items) by (nonlinear_arith)
                requires
                    self.page_size >= 1,
                    total_items % self.page_size != 0,
            {
                if self.page_size == 1 {
                    assert(total_items % 1 == 0);
                }
            }
            total_items / self.page_size + 1
        }
    }

    /// The range `(start, end)` of item indices on the current page.
    pub fn window(&self, total_items: usize) -> (r: (usize, usize))
        requires
            self.wf(),
            total_items == 0 || (self.page() + 1) * self.size() <= usize::MAX,
        ensures
            (r.0 as nat, r.1 as nat) == window_of(self.page(), self.size(), total_items as nat),
    {
        if total_items == 0 {
            return (0, 0);
        }
        assert(self.page() * self.size() + self.size() == (self.page() + 1) * self.size())
            by (nonlinear_arith);
        let start = self.current_page * self.page_size;
        let end = if start + self.page_size <= total_items {
            start + self.page_size
        } else {
            total_items
        };
        (start, end)
    }
}

/// From a page in range, going forward then back, or back then forward, returns to that page.
pub proof fn lemma_next_prev_inverse(page: nat, pages: nat)
    requires
        page < pages,
    ensures
        next_page_of(page, pages) < pages,
        prev_page_of(page, pages) < pages,
        prev_page_of(next_page_of(page, pages), pages) == page,
        next_page_of(prev_page_of(page, pages), pages) == page,
{
    if page + 1 == pages {
        assert((page + 1) % pages == 0) by (nonlinear_arith)
            requires
                page + 1 == pages,
        ;
    } else {
        assert((page + 1) % pages == page + 1) by (nonlinear_arith)
            requires
                page + 1 < pages,
        ;
    }
    if page == 0 {
        assert(((pages - 1) as nat + 1) % pages == 0) by (nonlinear_arith)
            requires
                pages >= 1,
        ;
    } else {
        assert(((page - 1) as nat + 1) % pages == page) by (nonlinear_arith)
            requires
                0 < page < pages,
        ;
    }
}

/// After clamping, the page lies within the pages there are (page 0 when there are none).
pub proof fn lemma_clamp_in_range(page: nat, pages: nat)
    ensures
        pages > 0 ==> clamp_page_of(page, pages) < pages,
        pages == 0 ==> clamp_page_of(page, pages) == 0,
        page < pages ==> clamp_page_of(page, pages) == page,
{
}

/// Every item lies in the window of exactly the page `index / size`, and that page exists.
pub proof fn lemma_window_covers_item(index: nat, size: nat, items: nat)
    requires
        size >= 1,
        index < items,
    ensures
        index / size < pages_for(items, size),
        window_of(index / size, size, items).0 <= index < window_of(index / size, size, items).1,
{
    let p = index / size;
    assert(p * size <= index < p * size + size) by (nonlinear_arith)
        requires
            size >= 1,
            p == index / size,
    ;
    assert(p < pages_for(items, size)) by (nonlinear_arith)
        requires
            size >= 1,
            p == index / size,
            index < items,
            pages_for(items, size) == if items % size == 0 {
                items / size
            } else {
                items / size + 1
            },
    {
        assert(index / size <= items / size) by {
            vstd::arithmetic::div_mod::lemma_div_is_ordered(index as int, items as int, size as int);
        }
        if items % size == 0 && index / size == items / size {
            assert(items == size * (items / size));
            assert(index >= size * (index / size));
        }
    }
}

/// On a page that exists, the window is non-empty, holds at most `size` items and ends within the list.
pub proof fn lemma_window_in_bounds(page: nat, size: nat, items: nat)
    requires
        size >= 1,
        page < pages_for(items, size),
    ensures
        window_of(page, size, items).0 < window_of(page, size, items).1 <= items,
        window_of(page, size, items).1 - window_of(page, size, items).0 <= size,
        window_of(page, size, items).0 == page * size,
{
    let q = items / size;
    vstd::arithmetic::div_mod::lemma_fundamental_div_mod(items as int, size as int);
    vstd::arithmetic::mul::lemma_mul_is_commutative(size as int, q as int);
    if items % size == 0 {
        vstd::arithmetic::mul::lemma_mul_inequality((page + 1) as int, q as int, size as int);
        assert((page + 1) * size == page * size + size) by (nonlinear_arith);
    } else {
        vstd::arithmetic::mul::lemma_mul_inequality(page as int, q as int, size as int);
    }
}

} // verus!
