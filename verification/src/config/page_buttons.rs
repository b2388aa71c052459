//! Which page each page button stands for.

use std::collections::HashSet;
use vstd::prelude::*;

use crate::config::{DeviceConfig, PageButton, ResolvedPageButton};

verus! {

/// The lowest page that is not in the list.
pub open spec fn is_lowest_free(page: u8, taken: Seq<u8>) -> bool {
    &&& !taken.contains(page)
    &&& forall|lower: u8| lower < page ==> taken.contains(lower)
}

/// The pages of a list of entries: an entry with a page of its own has that
/// page, any other the lowest page that no entry before it has.
pub open spec fn resolved_pages(entries: Seq<PageButton>) -> Seq<u8>
    decreases entries.len(),
{
    if entries.len() == 0 {
        seq![]
    } else {
        let before = resolved_pages(entries.drop_last());
        before.push(
            match entries.last().page {
                Some(page) => page,
                None => choose|page: u8| is_lowest_free(page, before),
            },
        )
    }
}

/// Whether some page is left for each entry that has none of its own.
pub open spec fn resolvable(entries: Seq<PageButton>) -> bool {
    forall|i: int|
        0 <= i < entries.len() && (#[trigger] entries[i]).page is None ==> exists|page: u8|
            !resolved_pages(entries.take(i)).contains(page)
}

/// The entries with their pages and hold flags.
pub open spec fn resolved_entries(entries: Seq<PageButton>, hold_by_default: bool) -> Seq<
    ResolvedPageButton,
> {
    Seq::new(
        entries.len(),
        |i: int|
            ResolvedPageButton {
                button: entries[i].button,
                page: resolved_pages(entries)[i],
                hold: match entries[i].hold_to_preview {
                    Some(hold) => hold,
                    None => hold_by_default,
                },
            },
    )
}

pub proof fn lemma_resolved_pages_len(entries: Seq<PageButton>)
    ensures
        resolved_pages(entries).len() == entries.len(),
    decreases entries.len(),
{
    if entries.len() > 0 {
        lemma_resolved_pages_len(entries.drop_last());
    }
}

/// The pages of the first entries do not depend on the entries after them.
pub proof fn lemma_resolved_pages_prefix(entries: Seq<PageButton>, n: int)
    requires
        0 <= n <= entries.len(),
    ensures
        resolved_pages(entries.take(n)) == resolved_pages(entries).take(n),
    decreases entries.len() - n,
{
    lemma_resolved_pages_len(entries);
    if n == entries.len() {
        assert(entries.take(n) =~= entries);
        assert(resolved_pages(entries).take(n) =~= resolved_pages(entries));
    } else {
        lemma_resolved_pages_prefix(entries, n + 1);
        lemma_resolved_pages_len(entries.take(n));
        assert(entries.take(n + 1).drop_last() =~= entries.take(n));
        assert(resolved_pages(entries.take(n)) =~= resolved_pages(entries.take(n + 1)).drop_last());
        assert(resolved_pages(entries).take(n + 1).drop_last() =~= resolved_pages(entries).take(n));
    }
}

/// If any page is free then one of them is the lowest.
pub proof fn lemma_lowest_free(taken: Seq<u8>, free: u8)
    requires
        !taken.contains(free),
    ensures
        exists|page: u8| is_lowest_free(page, taken),
    decreases free,
{
    if !is_lowest_free(free, taken) {
        let lower = choose|lower: u8| lower < free && !taken.contains(lower);
        lemma_lowest_free(taken, lower);
    }
}

/// The lowest free page is the only one.
proof fn lemma_lowest_free_is_unique(taken: Seq<u8>, a: u8, b: u8)
    requires
        is_lowest_free(a, taken),
        is_lowest_free(b, taken),
    ensures
        a == b,
{
    if a < b {
        assert(taken.contains(a));
    }
    if b < a {
        assert(taken.contains(b));
    }
}

impl DeviceConfig {
    /// Resolve `page_buttons` to a list with definite page indices and
    /// hold flags. Walks the list in strict declaration order: each
    /// unconstrained entry claims the lowest free index at that point in
    /// the walk; entries with explicit `page` are taken as written. An
    /// explicit `page = N` that lands on a page an earlier auto-assigned
    /// entry already claimed is allowed; the two buttons then map to the
    /// same page (both light up, both jump or preview to that page).
    /// `hold` falls back to `page_buttons_hold_to_preview` when unset.
    ///
    /// Callers should run `Config::validate` first; this method assumes
    /// (and does not re-check) that explicit pages are `< pages` and
    /// pair-wise distinct, and that `page_buttons.len() <= pages`. All that it
    /// needs is that a page is left for each entry that claims one.
    pub fn resolved_page_buttons(&self) -> (resolved: Vec<ResolvedPageButton>)
        requires
            resolvable(self.page_buttons@),
        ensures
            resolved@ == resolved_entries(self.page_buttons@, self.page_buttons_hold_to_preview),
    {
        let mut used: HashSet<u8> = HashSet::new();
        let mut out: Vec<ResolvedPageButton> = Vec::new();
        let ghost entries = self.page_buttons@;
        for i in 0..self.page_buttons.len()
            invariant
                entries == self.page_buttons@,
                resolvable(entries),
                out@ == resolved_entries(entries.take(i as int), self.page_buttons_hold_to_preview),
                forall|page: u8|
                    used@.contains(page) <==> resolved_pages(entries.take(i as int)).contains(page),
        {
            broadcast use vstd::std_specs::hash::group_hash_axioms;

            let pb = self.page_buttons[i];
            let ghost taken = resolved_pages(entries.take(i as int));
            let page: u8 = match pb.page {
                Some(p) => p,
                None => {
                    let mut candidate: u8 = 0;
                    assert(exists|page: u8| !taken.contains(page)) by {
                        assert(entries[i as int].page is None);
                    }
                    while used.contains(&candidate)
                        invariant
                            exists|page: u8| !taken.contains(page),
                            forall|page: u8| used@.contains(page) <==> taken.contains(page),
                            forall|lower: u8| lower < candidate ==> taken.contains(lower),
                        decreases 255 - candidate,
                    {
                        broadcast use vstd::std_specs::hash::group_hash_axioms;

                        proof {
                            if candidate == 255 {
                                assert forall|page: u8| taken.contains(page) by {
                                    if page < candidate {
                                    } else {
                                        assert(page == candidate);
                                    }
                                }
                            }
                        }
                        candidate = candidate + 1;
                    }
                    proof {
                        assert(is_lowest_free(candidate, taken));
                        lemma_lowest_free_is_unique(
                            taken,
                            candidate,
                            choose|page: u8| is_lowest_free(page, taken),
                        );
                    }
                    candidate
                },
            };
            used.insert(page);
            let hold = match pb.hold_to_preview {
                Some(hold) => hold,
                None => self.page_buttons_hold_to_preview,
            };
            out.push(ResolvedPageButton { button: pb.button, page, hold });
            proof {
                let next = entries.take(i + 1);
                assert(next.drop_last() =~= entries.take(i as int));
                lemma_resolved_pages_len(entries.take(i as int));
                assert(resolved_pages(next) == taken.push(page));
                assert forall|p: u8| used@.contains(p) <==> resolved_pages(next).contains(p) by {
                    if taken.contains(p) {
                        let k = choose|k: int| 0 <= k < taken.len() && taken[k] == p;
                        assert(taken.push(page)[k] == p);
                    }
                    assert(taken.push(page)[taken.len() as int] == page);
                }
                assert(out@ =~= resolved_entries(next, self.page_buttons_hold_to_preview));
            }
        }
        assert(entries.take(entries.len() as int) =~= entries);
        out
    }
}

/// The pages below `n` that no page button leads to. Page zero is not among
/// them: it is shown at startup.
pub open spec fn pages_without_button(pages: Seq<u8>, n: int) -> Seq<u8>
    decreases n,
{
    if n <= 1 {
        seq![]
    } else {
        let before = pages_without_button(pages, n - 1);
        let page = (n - 1) as u8;
        if pages.contains(page) {
            before
        } else {
            before.push(page)
        }
    }
}

/// The pages of a device that nothing leads to. A next or previous button leads
/// to all of them.
pub open spec fn unreachable(cfg: DeviceConfig) -> Seq<u8> {
    if cfg.next_page_button is Some || cfg.previous_page_button is Some {
        seq![]
    } else {
        pages_without_button(resolved_pages(cfg.page_buttons@), cfg.pages as int)
    }
}

impl DeviceConfig {
    /// The pages that no button leads to, in ascending order: worth a warning at
    /// startup. The other pages work normally.
    pub fn unreachable_pages(&self) -> (pages: Vec<u8>)
        requires
            resolvable(self.page_buttons@),
        ensures
            pages@ == unreachable(*self),
    {
        let mut pages: Vec<u8> = Vec::new();
        if self.next_page_button.is_some() || self.previous_page_button.is_some() {
            return pages;
        }
        let resolved = self.resolved_page_buttons();
        let ghost taken = resolved_pages(self.page_buttons@);
        proof {
            lemma_resolved_pages_len(self.page_buttons@);
        }
        let mut page: u8 = 1;
        while page < self.pages
            invariant
                1 <= page,
                page <= self.pages || (self.pages == 0 && page == 1),
                taken == resolved_pages(self.page_buttons@),
                taken.len() == self.page_buttons@.len(),
                resolved@ == resolved_entries(
                    self.page_buttons@,
                    self.page_buttons_hold_to_preview,
                ),
                pages@ == pages_without_button(taken, page as int),
            decreases self.pages - page,
        {
            let mut found = false;
            for i in 0..resolved.len()
                invariant
                    taken == resolved_pages(self.page_buttons@),
                    taken.len() == self.page_buttons@.len(),
                    resolved@ == resolved_entries(
                        self.page_buttons@,
                        self.page_buttons_hold_to_preview,
                    ),
                    found == exists|k: int| 0 <= k < i && #[trigger] taken[k] == page,
            {
                if resolved[i].page == page {
                    assert(taken[i as int] == page);
                    found = true;
                }
            }
            assert(found == taken.contains(page)) by {
                if found {
                    let k = choose|k: int| 0 <= k < resolved@.len() && #[trigger] taken[k] == page;
                    assert(taken[k] == page);
                }
            }
            if !found {
                pages.push(page);
            }
            page = page + 1;
        }
        pages
    }
}

} // verus!
