//! Assembling one cycle's records from per-page outcomes.
//!
//! A cycle requests a fixed number of pages sequentially, each offset by the
//! page size times the page index. A page can fail — transport error,
//! non-success status, malformed body — and a failed page is skipped: it
//! contributes no records and does not abort the remaining pages. The cycle's
//! record list is the concatenation, in page order, of the successfully
//! parsed pages' records.

use vstd::prelude::*;

use crate::record::FetchedRecord;

verus! {

/// Default number of pages requested per cycle.
pub const DEFAULT_PAGE: usize = 20;

/// Records per page: a page's request offset is its index times this.
pub const DEFAULT_LIMIT: usize = 100;

/// The outcome of one page request.
pub enum PageOutcome {
    /// The page answered with a success status and a well-formed body that
    /// decoded to these records.
    Success(Vec<FetchedRecord>),
    /// The request failed in transport, answered with a non-success status,
    /// or carried a body that did not decode; the page is skipped.
    Failed,
}

/// The records one page outcome contributes: its own on success, none on
/// failure.
pub open spec fn page_records(p: PageOutcome) -> Seq<FetchedRecord> {
    match p {
        PageOutcome::Success(v) => v@,
        PageOutcome::Failed => Seq::empty(),
    }
}

/// The concatenation, in page order, of all pages' contributions.
pub open spec fn collected(pages: Seq<PageOutcome>) -> Seq<FetchedRecord>
    decreases pages.len(),
{
    if pages.len() == 0 {
        Seq::empty()
    } else {
        page_records(pages[0]) + collected(pages.skip(1))
    }
}

/// Collecting one more page's outcome comes last.
proof fn lemma_collected_push(pages: Seq<PageOutcome>, x: PageOutcome)
    ensures
        collected(pages.push(x)) == collected(pages) + page_records(x),
    decreases pages.len(),
{
    if pages.len() == 0 {
        assert(pages.push(x)[0] == x);
        assert(pages.push(x).skip(1) =~= Seq::<PageOutcome>::empty());
        assert(collected(pages) == Seq::<FetchedRecord>::empty());
        assert(collected(Seq::<PageOutcome>::empty()) == Seq::<FetchedRecord>::empty());
        assert(page_records(x) + Seq::<FetchedRecord>::empty() =~= Seq::<
            FetchedRecord,
        >::empty() + page_records(x));
    } else {
        assert(pages.push(x)[0] == pages[0]);
        assert(pages.push(x).skip(1) =~= pages.skip(1).push(x));
        lemma_collected_push(pages.skip(1), x);
        assert(collected(pages.push(x)) == page_records(pages[0]) + (collected(pages.skip(1))
            + page_records(x)));
        assert(collected(pages) == page_records(pages[0]) + collected(pages.skip(1)));
        assert(page_records(pages[0]) + (collected(pages.skip(1)) + page_records(x))
            =~= (page_records(pages[0]) + collected(pages.skip(1))) + page_records(x));
    }
}

/// The request offset of a page: the page size times the page index.
pub fn page_offset(page: usize, page_size: usize) -> (r: usize)
    requires
        page * page_size <= usize::MAX,
    ensures
        r == page * page_size,
{
    page * page_size
}

/// One cycle's record list from its page outcomes: the concatenation, in
/// page order, of the successful pages' records. A failed page contributes
/// nothing; the pages after it still contribute in order.
pub fn collect_records(pages: Vec<PageOutcome>) -> (r: Vec<FetchedRecord>)
    ensures
        r@ == collected(pages@),
{
    let ghost orig = pages@;
    let mut pages = pages;
    let mut out: Vec<FetchedRecord> = Vec::new();
    let ghost k: int = 0;
    while pages.len() > 0
        invariant
            0 <= k <= orig.len(),
            pages@ == orig.skip(k),
            out@ == collected(orig.take(k)),
        decreases orig.len() - k,
    {
        let p = pages.remove(0);
        proof {
            assert(orig.skip(k)[0] == orig[k]);
            assert(orig.skip(k).remove(0) =~= orig.skip(k + 1));
            assert(orig.take(k + 1) =~= orig.take(k).push(orig[k]));
            lemma_collected_push(orig.take(k), orig[k]);
        }
        match p {
            PageOutcome::Success(mut v) => {
                out.append(&mut v);
            },
            PageOutcome::Failed => {
                proof {
                    assert(out@ + page_records(orig[k]) =~= out@);
                }
            },
        }
        proof {
            k = k + 1;
        }
    }
    proof {
        assert(orig.skip(k).len() == 0);
        assert(orig.take(k) =~= orig);
    }
    out
}

} // verus!
