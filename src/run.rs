use crate::crawl::{
    above_cursor, fresh_len, initial, newest_first, page_events, step, CrawlError, CrawlState,
    Crawler,
};
use crate::json::json_is_null;
use crate::prelude::{SuiEventData, SuiResult};
use vstd::prelude::*;

verus! {

broadcast use vstd::seq_lib::group_seq_properties;

/// A whole crawl run against a node that answers its successive requests for
/// events with `pages`: the crawler at the end, the events persisted in
/// order, and the number of pages requested.
pub open spec fn run(c: Crawler, pages: Seq<SuiResult>) -> (Crawler, Seq<SuiEventData>, nat)
    decreases pages.len(),
{
    if c.state != CrawlState::Running || pages.len() == 0 {
        (c, Seq::empty(), 0)
    } else {
        let (next, out) = step(c, pages[0]);
        let persisted = match out {
            Ok(s) => s,
            Err(_) => Seq::empty(),
        };
        let (last, rest, n) = run(next, pages.drop_first());
        (last, persisted + rest, n + 1)
    }
}

/// The events of the given pages, one page after another.
pub open spec fn all_events(pages: Seq<SuiResult>) -> Seq<SuiEventData>
    decreases pages.len(),
{
    if pages.len() == 0 {
        Seq::empty()
    } else {
        page_events(pages[0]) + all_events(pages.drop_first())
    }
}

/// The page is a page of events and names a page after it.
pub open spec fn has_token(page: SuiResult) -> bool {
    match page {
        SuiResult::Event { next_cursor, .. } => !json_is_null(next_cursor),
        SuiResult::Package { .. } => false,
    }
}

/// Holds of the events not ingested yet when the store's latest timestamp is `cursor`.
pub open spec fn is_fresh(cursor: Option<i64>) -> spec_fn(SuiEventData) -> bool {
    |e: SuiEventData| above_cursor(cursor, e.timestamp)
}

proof fn lemma_fresh_len_bound(cursor: Option<i64>, data: Seq<SuiEventData>, j: int)
    requires
        0 <= j < data.len(),
        !above_cursor(cursor, data[j].timestamp),
    ensures
        fresh_len(cursor, data) <= j,
    decreases j,
{
    if j > 0 && above_cursor(cursor, data[0].timestamp) {
        assert(data.drop_first()[j - 1] == data[j]);
        lemma_fresh_len_bound(cursor, data.drop_first(), j - 1);
    }
}

proof fn lemma_fresh_len_all(cursor: Option<i64>, data: Seq<SuiEventData>)
    requires
        forall|j: int| 0 <= j < data.len() ==> above_cursor(cursor, #[trigger] data[j].timestamp),
    ensures
        fresh_len(cursor, data) == data.len(),
        data.filter(is_fresh(cursor)) == data,
    decreases data.len(),
{
    if data.len() == 0 {
        reveal(Seq::filter);
        assert(data.filter(is_fresh(cursor)) =~= data);
    } else {
        let rest = data.drop_first();
        assert forall|j: int| 0 <= j < rest.len() implies above_cursor(cursor, #[trigger] rest[j].timestamp) by {
            assert(rest[j] == data[j + 1]);
        }
        lemma_fresh_len_all(cursor, rest);
        assert(data =~= seq![data[0]] + rest);
        rest.lemma_filter_prepend(data[0], is_fresh(cursor));
    }
}

/// On a page listed newest first, the events ahead of the cursor are exactly
/// the fresh ones.
proof fn lemma_fresh_prefix_is_filter(cursor: Option<i64>, data: Seq<SuiEventData>)
    requires
        newest_first(data),
    ensures
        data.filter(is_fresh(cursor)) == data.take(fresh_len(cursor, data) as int),
        fresh_len(cursor, data) <= data.len(),
    decreases data.len(),
{
    if data.len() == 0 {
        reveal(Seq::filter);
        assert(data.filter(is_fresh(cursor)) =~= data.take(0));
    } else {
        let rest = data.drop_first();
        assert(newest_first(rest)) by {
            assert forall|i: int, j: int| 0 <= i <= j < rest.len() implies rest[j].timestamp
                <= rest[i].timestamp by {
                assert(rest[i] == data[i + 1] && rest[j] == data[j + 1]);
            }
        }
        lemma_fresh_prefix_is_filter(cursor, rest);
        assert(data =~= seq![data[0]] + rest);
        rest.lemma_filter_prepend(data[0], is_fresh(cursor));
        if above_cursor(cursor, data[0].timestamp) {
            assert(data.take(fresh_len(cursor, data) as int) =~= seq![data[0]] + rest.take(
                fresh_len(cursor, rest) as int,
            ));
        } else if rest.len() > 0 {
            assert(rest[0] == data[1]);
            assert(!above_cursor(cursor, rest[0].timestamp));
            assert(data.take(0) =~= rest.take(0));
        } else {
            assert(data.take(0) =~= rest.take(0));
        }
    }
}

proof fn lemma_take_next(pages: Seq<SuiResult>, k: int)
    requires
        0 <= k < pages.len(),
    ensures
        all_events(pages.take(k + 1)) == page_events(pages[0]) + all_events(
            pages.drop_first().take(k),
        ),
{
    assert(pages.take(k + 1).drop_first() =~= pages.drop_first().take(k));
}

proof fn lemma_resume_from(c: Crawler, t: i64, pages: Seq<SuiResult>, k: int)
    requires
        c.state == CrawlState::Running,
        c.cursor == Some(t),
        0 <= k < pages.len(),
        forall|i: int| 0 <= i <= k ==> pages[i] is Event,
        forall|i: int| 0 <= i < k ==> has_token(#[trigger] pages[i]),
        forall|i: int, j: int|
            0 <= i < k && 0 <= j < page_events(pages[i]).len() ==> #[trigger] page_events(
                pages[i],
            )[j].timestamp > t,
        newest_first(page_events(pages[k])),
        exists|j: int|
            0 <= j < page_events(pages[k]).len() && #[trigger] page_events(pages[k])[j].timestamp
                <= t,
    ensures
        run(c, pages).0.state == CrawlState::StoppedByCursor,
        run(c, pages).1 == all_events(pages.take(k + 1)).filter(is_fresh(Some(t))),
        run(c, pages).2 == k + 1,
    decreases k,
{
    let data = page_events(pages[0]);
    let rest = pages.drop_first();
    let (next, out) = step(c, pages[0]);
    lemma_take_next(pages, k);
    if k == 0 {
        let j = choose|j: int| 0 <= j < data.len() && #[trigger] data[j].timestamp <= t;
        lemma_fresh_len_bound(Some(t), data, j);
        lemma_fresh_prefix_is_filter(Some(t), data);
        assert(rest.take(0) =~= Seq::<SuiResult>::empty());
        assert(data + Seq::<SuiEventData>::empty() =~= data);
        assert(data.take(fresh_len(Some(t), data) as int) + Seq::<SuiEventData>::empty()
            =~= data.take(fresh_len(Some(t), data) as int));
        assert(next.state == CrawlState::StoppedByCursor);
        assert(out == Ok::<Seq<SuiEventData>, CrawlError>(data.take(fresh_len(Some(t), data) as int)));
        assert(run(next, rest) == (next, Seq::<SuiEventData>::empty(), 0nat));
        assert(all_events(rest.take(0)) =~= Seq::<SuiEventData>::empty());
    } else {
        assert forall|j: int| 0 <= j < data.len() implies above_cursor(
            Some(t),
            #[trigger] data[j].timestamp,
        ) by {
            assert(page_events(pages[0])[j].timestamp > t);
        }
        lemma_fresh_len_all(Some(t), data);
        assert(data.take(data.len() as int) =~= data);
        assert forall|i: int, j: int|
            0 <= i < k - 1 && 0 <= j < page_events(rest[i]).len() implies #[trigger] page_events(
            rest[i],
        )[j].timestamp > t by {
            assert(rest[i] == pages[i + 1]);
        }
        assert forall|i: int| 0 <= i < k - 1 implies has_token(#[trigger] rest[i]) by {
            assert(rest[i] == pages[i + 1]);
        }
        assert(rest[k - 1] == pages[k]);
        assert(next.state == CrawlState::Running);
        assert(out == Ok::<Seq<SuiEventData>, CrawlError>(data));
        lemma_resume_from(next, t, rest, k - 1);
        Seq::filter_distributes_over_add(data, all_events(rest.take(k)), is_fresh(Some(t)));
    }
}

/// Resumption. Start a run from a store whose latest timestamp is `t`, against
/// a node whose pages before page `k` hold only newer events and each name a
/// next page, and whose page `k` lists its events newest first and holds one
/// at or below `t`. The run persists exactly the events newer than `t` among
/// the pages up to `k`, in the order received, requests no page after page
/// `k`, and stops at the cursor.
pub proof fn lemma_resumes_at_cursor(t: i64, pages: Seq<SuiResult>, k: int)
    requires
        0 <= k < pages.len(),
        forall|i: int| 0 <= i <= k ==> pages[i] is Event,
        forall|i: int| 0 <= i < k ==> has_token(#[trigger] pages[i]),
        forall|i: int, j: int|
            0 <= i < k && 0 <= j < page_events(pages[i]).len() ==> #[trigger] page_events(
                pages[i],
            )[j].timestamp > t,
        newest_first(page_events(pages[k])),
        exists|j: int|
            0 <= j < page_events(pages[k]).len() && #[trigger] page_events(pages[k])[j].timestamp
                <= t,
    ensures
        run(initial(Some(t)), pages).0.state == CrawlState::StoppedByCursor,
        run(initial(Some(t)), pages).1 == all_events(pages.take(k + 1)).filter(
            is_fresh(Some(t)),
        ),
        run(initial(Some(t)), pages).2 == k + 1,
{
    lemma_resume_from(initial(Some(t)), t, pages, k);
}

/// Pagination ends: whatever the cursor, when the first page of events names
/// no next page, the run requests exactly that one page and persists its
/// events ahead of the cursor. It ends exhausted, unless an event of the page
/// reached the cursor, which takes precedence.
pub proof fn lemma_tokenless_page_ends_run(cursor: Option<i64>, pages: Seq<SuiResult>)
    requires
        pages.len() >= 1,
        pages[0] is Event,
        !has_token(pages[0]),
    ensures
        run(initial(cursor), pages).2 == 1,
        run(initial(cursor), pages).1 == page_events(pages[0]).take(
            fresh_len(cursor, page_events(pages[0])) as int,
        ),
        run(initial(cursor), pages).0.state == (if fresh_len(cursor, page_events(pages[0]))
            == page_events(pages[0]).len() {
            CrawlState::StoppedByExhaustion
        } else {
            CrawlState::StoppedByCursor
        }),
{
    let data = page_events(pages[0]);
    let (next, out) = step(initial(cursor), pages[0]);
    lemma_fresh_prefix_len(cursor, data);
    assert(next.state != CrawlState::Running);
    assert(run(next, pages.drop_first()) == (next, Seq::<SuiEventData>::empty(), 0nat));
    assert(data.take(fresh_len(cursor, data) as int) + Seq::<SuiEventData>::empty() =~= data.take(
        fresh_len(cursor, data) as int,
    ));
}

proof fn lemma_fresh_prefix_len(cursor: Option<i64>, data: Seq<SuiEventData>)
    ensures
        fresh_len(cursor, data) <= data.len(),
    decreases data.len(),
{
    if data.len() > 0 {
        lemma_fresh_prefix_len(cursor, data.drop_first());
    }
}

proof fn lemma_no_cursor_from(c: Crawler, pages: Seq<SuiResult>, k: int)
    requires
        c.state == CrawlState::Running,
        c.cursor is None,
        0 <= k < pages.len(),
        forall|i: int| 0 <= i <= k ==> pages[i] is Event,
        forall|i: int| 0 <= i < k ==> has_token(#[trigger] pages[i]),
        !has_token(pages[k]),
    ensures
        run(c, pages).0.state == CrawlState::StoppedByExhaustion,
        run(c, pages).1 == all_events(pages.take(k + 1)),
        run(c, pages).2 == k + 1,
    decreases k,
{
    let data = page_events(pages[0]);
    let rest = pages.drop_first();
    let (next, out) = step(c, pages[0]);
    lemma_take_next(pages, k);
    lemma_fresh_len_all(c.cursor, data);
    assert(data.take(data.len() as int) =~= data);
    assert(out == Ok::<Seq<SuiEventData>, CrawlError>(data));
    if k == 0 {
        assert(next.state == CrawlState::StoppedByExhaustion);
        assert(run(next, rest) == (next, Seq::<SuiEventData>::empty(), 0nat));
        assert(all_events(rest.take(0)) =~= Seq::<SuiEventData>::empty());
        assert(data + Seq::<SuiEventData>::empty() =~= data);
    } else {
        assert(next.state == CrawlState::Running);
        assert forall|i: int| 0 <= i < k - 1 implies has_token(#[trigger] rest[i]) by {
            assert(rest[i] == pages[i + 1]);
        }
        assert(rest[k - 1] == pages[k]);
        lemma_no_cursor_from(next, rest, k - 1);
    }
}

/// A first run on an empty store stops nowhere early: against pages of
/// events that each name a next page up to page `k`, which names none, it
/// persists every event of those pages, in the order received, and requests
/// exactly `k + 1` pages.
pub proof fn lemma_empty_store_persists_all(pages: Seq<SuiResult>, k: int)
    requires
        0 <= k < pages.len(),
        forall|i: int| 0 <= i <= k ==> pages[i] is Event,
        forall|i: int| 0 <= i < k ==> has_token(#[trigger] pages[i]),
        !has_token(pages[k]),
    ensures
        run(initial(None), pages).0.state == CrawlState::StoppedByExhaustion,
        run(initial(None), pages).1 == all_events(pages.take(k + 1)),
        run(initial(None), pages).2 == k + 1,
{
    lemma_no_cursor_from(initial(None), pages, k);
}

} // verus!
