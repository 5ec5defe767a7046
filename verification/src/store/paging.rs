//! What following the cursor from page to page lists.

use vstd::prelude::*;

use crate::store::window;

verus! {

/// The rows of a window that stand behind a cursor; all of them without one.
pub open spec fn is_ahead(
    newest_first: bool,
    rows: Set<window::SortKey>,
    after: Option<window::SortKey>,
    row: window::SortKey,
) -> bool {
    rows.contains(row) && (after matches Some(key) ==> window::continues(newest_first, key, row))
}

/// What a page query answers: the first rows behind the cursor, in the order of
/// the list and at most `limit` of them.
pub open spec fn is_page(
    newest_first: bool,
    rows: Set<window::SortKey>,
    after: Option<window::SortKey>,
    limit: nat,
    page: Seq<window::SortKey>,
) -> bool {
    &&& page.len() <= limit
    &&& forall|i: int|
        0 <= i < page.len() ==> is_ahead(newest_first, rows, after, #[trigger] page[i])
    &&& is_listing(newest_first, page)
    &&& forall|row: window::SortKey|
        #[trigger] is_ahead(newest_first, rows, after, row) && !page.contains(row) ==> page.len()
            == limit && window::listed_before(newest_first, page.last(), row)
}

/// Each row is listed before the later ones.
pub open spec fn is_listing(newest_first: bool, page: Seq<window::SortKey>) -> bool {
    forall|i: int, j: int|
        0 <= i < j < page.len() ==> window::listed_before(
            newest_first,
            #[trigger] page[i],
            #[trigger] page[j],
        )
}

/// The cursor that page `k` continues after: the last row of the page before.
pub open spec fn cursor(pages: Seq<Seq<window::SortKey>>, k: int) -> Option<window::SortKey> {
    if k > 0 {
        Some(pages[k - 1].last())
    } else {
        None
    }
}

/// The pages of a list that does not change, each read behind the one before;
/// only the last may be empty.
pub open spec fn are_pages(
    newest_first: bool,
    rows: Set<window::SortKey>,
    limit: nat,
    pages: Seq<Seq<window::SortKey>>,
) -> bool {
    forall|k: int|
        #![trigger pages[k]]
        0 <= k < pages.len() ==> is_page(newest_first, rows, cursor(pages, k), limit, pages[k]) && (k
            + 1 < pages.len() ==> pages[k].len() > 0)
}

/// The rows of all pages, one page behind the other.
pub open spec fn rows_of(pages: Seq<Seq<window::SortKey>>) -> Seq<window::SortKey>
    decreases pages.len(),
{
    if pages.len() == 0 {
        Seq::empty()
    } else {
        rows_of(pages.drop_last()) + pages.last()
    }
}

/// No two rows share an id.
pub open spec fn ids_differ(rows: Set<window::SortKey>) -> bool {
    forall|a: window::SortKey, b: window::SortKey|
        #[trigger] rows.contains(a) && #[trigger] rows.contains(b) && a.id == b.id ==> a == b
}

/// What was listed is in order and in the window, and what is missing comes
/// behind all of it.
spec fn is_prefix(
    newest_first: bool,
    rows: Set<window::SortKey>,
    listed: Seq<window::SortKey>,
) -> bool {
    &&& is_listing(newest_first, listed)
    &&& forall|i: int| 0 <= i < listed.len() ==> rows.contains(#[trigger] listed[i])
    &&& forall|row: window::SortKey| #[trigger]
        rows.contains(row) && !listed.contains(row) ==> listed.len() == 0 || window::listed_before(
            newest_first,
            listed.last(),
            row,
        )
}

proof fn lemma_pages(
    newest_first: bool,
    rows: Set<window::SortKey>,
    limit: nat,
    pages: Seq<Seq<window::SortKey>>,
)
    requires
        limit >= 1,
        ids_differ(rows),
        are_pages(newest_first, rows, limit, pages),
    ensures
        is_prefix(newest_first, rows, rows_of(pages)),
        pages.len() > 0 && pages.last().len() > 0 ==> rows_of(pages).len() > 0 && rows_of(
            pages,
        ).last() == pages.last().last(),
        pages.len() > 0 && pages.last().len() < limit ==> forall|row: window::SortKey| #[trigger]
            rows.contains(row) ==> rows_of(pages).contains(row),
        pages.len() <= rows_of(pages).len() + 1,
        pages.len() > 0 && pages.last().len() > 0 ==> pages.len() <= rows_of(pages).len(),
    decreases pages.len(),
{
    if pages.len() > 0 {
        let n = pages.len() - 1;
        let before = pages.drop_last();
        let page = pages.last();
        assert(pages[n] == page);
        assert forall|k: int|
            #![trigger before[k]]
            0 <= k < before.len() implies is_page(
            newest_first,
            rows,
            cursor(before, k),
            limit,
            before[k],
        ) && (k + 1 < before.len() ==> before[k].len() > 0) by {
            assert(pages[k] == before[k]);
            if k > 0 {
                assert(pages[k - 1] == before[k - 1]);
            }
        }
        lemma_pages(newest_first, rows, limit, before);
        let listed = rows_of(before);
        let all = rows_of(pages);
        let after = cursor(pages, n);
        if n > 0 {
            assert(pages[n - 1] == before[n - 1]);
            assert(before.last() == before[n - 1]);
            assert(listed.len() > 0 && after == Some(listed.last()));
        } else {
            assert(before.len() == 0);
            assert(listed =~= Seq::empty());
        }
        // Rows behind the cursor are exactly those not listed yet.
        assert forall|row: window::SortKey| rows.contains(row) implies (is_ahead(
            newest_first,
            rows,
            after,
            row,
        ) <==> !listed.contains(row)) by {
            if n > 0 {
                let last = listed.last();
                if listed.contains(row) {
                    let k = listed.index_of(row);
                    assert(listed[k] == row);
                    if k < listed.len() - 1 {
                        assert(window::listed_before(newest_first, listed[k], last));
                    }
                }
            }
        }
        assert forall|i: int| 0 <= i < all.len() implies rows.contains(#[trigger] all[i]) by {
            if i < listed.len() {
                assert(all[i] == listed[i]);
            } else {
                assert(all[i] == page[i - listed.len()]);
                assert(is_ahead(newest_first, rows, after, page[i - listed.len()]));
            }
        }
        assert forall|i: int, j: int| 0 <= i < j < all.len() implies window::listed_before(
            newest_first,
            #[trigger] all[i],
            #[trigger] all[j],
        ) by {
            if j < listed.len() {
                assert(all[i] == listed[i] && all[j] == listed[j]);
            } else {
                let b = page[j - listed.len()];
                assert(all[j] == b);
                if i < listed.len() {
                    assert(all[i] == listed[i]);
                    assert(is_ahead(newest_first, rows, after, b));
                    let last = listed.last();
                    assert(window::listed_before(newest_first, last, b));
                    if i < listed.len() - 1 {
                        assert(window::listed_before(newest_first, listed[i], last));
                        window::the_list_order_is_total(newest_first, listed[i], last, b);
                    }
                } else {
                    assert(all[i] == page[i - listed.len()]);
                }
            }
        }
        assert forall|row: window::SortKey| #[trigger]
            rows.contains(row) && !all.contains(row) implies (all.len() == 0
            || window::listed_before(newest_first, all.last(), row)) && page.len() == limit by {
            if listed.contains(row) {
                let k = listed.index_of(row);
                assert(all[k] == row);
            }
            if page.contains(row) {
                let k = page.index_of(row);
                assert(all[listed.len() + k] == row);
            }
            assert(is_ahead(newest_first, rows, after, row));
            assert(page.len() == limit);
            assert(all.last() == page.last());
        }
        if page.len() > 0 {
            assert(all.last() == page.last());
        }
    }
}

/// Following the cursor lists every row of a window exactly once and in order,
/// those without a time last: the pages end with one that is empty, no page is
/// larger than the limit, and until the end every row still missing stands
/// behind the last one listed.
pub proof fn following_the_cursor_lists_every_row_once(
    newest_first: bool,
    rows: Set<window::SortKey>,
    limit: nat,
    pages: Seq<Seq<window::SortKey>>,
)
    requires
        limit >= 1,
        rows.finite(),
        ids_differ(rows),
        pages.len() > 0,
        are_pages(newest_first, rows, limit, pages),
    ensures
        is_listing(newest_first, rows_of(pages)),
        rows_of(pages).no_duplicates(),
        rows_of(pages).to_set().subset_of(rows),
        pages.last().len() == 0 ==> rows_of(pages).to_set() == rows,
        pages.last().len() > 0 ==> pages.len() <= rows.len(),
        forall|k: int| 0 <= k < pages.len() ==> (#[trigger] pages[k]).len() <= limit,
{
    lemma_pages(newest_first, rows, limit, pages);
    let all = rows_of(pages);
    assert forall|i: int, j: int| 0 <= i < j < all.len() implies all[i] != all[j] by {
        assert(window::listed_before(newest_first, all[i], all[j]));
    }
    assert forall|row: window::SortKey| all.to_set().contains(row) implies rows.contains(row) by {
        let k = all.index_of(row);
        assert(rows.contains(all[k]));
    }
    all.unique_seq_to_set();
    vstd::set_lib::lemma_len_subset(all.to_set(), rows);
    if pages.last().len() == 0 {
        assert forall|row: window::SortKey| rows.contains(row) implies all.to_set().contains(
            row,
        ) by {
            assert(all.contains(row));
        }
        assert(all.to_set() =~= rows);
    }
}

} // verus!
