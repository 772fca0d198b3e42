use vstd::prelude::*;

use core::marker::PhantomData;

use crate::error::Error;
use crate::query::QueryParam;
use crate::query::QueryParams;
use crate::ItemWithDetails;

pub mod html_scraper;
pub mod json_scraper;

verus! {

/// Position within a multi-page listing after parsing one page: the 1-based
/// page number, the total page count when the source reports one, and the
/// single query-parameter delta that advances to the next page, absent on the
/// last page.
pub struct PaginationData {
    pub current_page: u16,
    pub total_pages: Option<u16>,
    pub next_page_query: Option<QueryParam>,
}

/// A record type parsed out of plain text.
pub trait TextParser {
    fn parse(text: &str) -> Result<Self, Error> where Self: Sized;
}

/// Turns one fetched page's raw text into the format-specific document.
pub trait Converter<Data> {
    fn convert(&self, raw: &str) -> Result<Data, Error>;
}

/// Extracts the listing records and the pagination state from one listing
/// document. The pagination state must be derived from the document alone.
pub trait ListParser<Data, ItemBase> {
    fn parse_list(&self, base_url: &str, document: Data) -> Result<
        (Vec<ItemBase>, Option<PaginationData>),
        Error,
    >;
}

/// Extracts the details record from one detail-page document.
pub trait DetailsParser<Data, ItemDetails> {
    fn parse_details(&self, document: Data) -> Result<ItemDetails, Error>;
}

/// The loop guard fired: the page carries a next-page delta, but applying it
/// leaves the query unchanged, so fetching again would repeat forever.
pub open spec fn guard_triggered(
    q: Map<Seq<char>, Seq<char>>,
    pag: Option<PaginationData>,
) -> bool {
    match pag {
        Some(p) => match p.next_page_query {
            Some(d) => q.insert(d.0@, d.1@) == q,
            None => false,
        },
        None => false,
    }
}

/// The termination decision taken after parsing one page: `None` to stop
/// (no pagination state, no next-page delta, or a delta that changes
/// nothing), or the query to fetch the next page with.
pub open spec fn step_query(q: Map<Seq<char>, Seq<char>>, pag: Option<PaginationData>) -> Option<
    Map<Seq<char>, Seq<char>>,
> {
    match pag {
        None => None,
        Some(p) => match p.next_page_query {
            None => None,
            Some(d) => if q.insert(d.0@, d.1@) == q {
                None
            } else {
                Some(q.insert(d.0@, d.1@))
            },
        },
    }
}

/// Applies the termination decision to a concrete query: the next page's
/// query when the loop continues, `None` when it stops.
pub fn advance_query(current: &QueryParams, pagination: &Option<PaginationData>) -> (r: Option<
    QueryParams,
>)
    requires
        current.wf(),
    ensures
        match r {
            Some(next) => next.wf() && step_query(current@, *pagination) == Some(next@),
            None => step_query(current@, *pagination) is None,
        },
{
    match pagination {
        None => None,
        Some(p) => match &p.next_page_query {
            None => None,
            Some(d) => {
                let mut candidate = current.clone();
                candidate.insert(d.0.clone(), d.1.clone());
                if candidate.same_query(current) {
                    None
                } else {
                    Some(candidate)
                }
            },
        },
    }
}

/// The state of one listing fetch loop: the query for the page to fetch
/// next, the accumulated items, and how and whether the loop ended.
pub struct ListRun<ItemBase> {
    pub query: QueryParams,
    pub items: Vec<ItemBase>,
    pub pages_fetched: usize,
    pub finished: bool,
    pub guard_stop: bool,
}

/// One step of the listing loop: the parsed page's items are appended, the
/// page counter advances, and the termination decision on the parsed
/// pagination state either moves the query on or ends the run.
pub open spec fn feed_step<ItemBase>(
    pre: ListRun<ItemBase>,
    post: ListRun<ItemBase>,
    page_items: Seq<ItemBase>,
    pagination: Option<PaginationData>,
) -> bool {
    &&& post.items@ == pre.items@ + page_items
    &&& post.pages_fetched == pre.pages_fetched + 1
    &&& match step_query(pre.query@, pagination) {
        Some(q2) => !post.finished && post.query@ == q2 && post.guard_stop == pre.guard_stop,
        None => post.finished && post.query@ == pre.query@ && post.guard_stop == (pre.guard_stop
            || guard_triggered(pre.query@, pagination)),
    }
}

impl<ItemBase> ListRun<ItemBase> {
    pub open spec fn wf_run(&self) -> bool {
        self.query.wf()
    }

    /// A fresh run, about to fetch its first page with `query`.
    pub fn start(query: &QueryParams) -> (r: Self)
        requires
            query.wf(),
        ensures
            r.wf_run(),
            r.query@ == query@,
            r.items@ == Seq::<ItemBase>::empty(),
            r.pages_fetched == 0,
            !r.finished,
            !r.guard_stop,
    {
        ListRun {
            query: query.clone(),
            items: Vec::new(),
            pages_fetched: 0,
            finished: false,
            guard_stop: false,
        }
    }

    /// Account one parsed page and take the termination decision.
    pub fn feed(&mut self, page_items: Vec<ItemBase>, pagination: Option<PaginationData>)
        requires
            old(self).wf_run(),
            !old(self).finished,
            old(self).pages_fetched < usize::MAX,
        ensures
            final(self).wf_run(),
            feed_step(*old(self), *final(self), page_items@, pagination),
    {
        let mut page_items = page_items;
        self.items.append(&mut page_items);
        self.pages_fetched = self.pages_fetched + 1;
        match advance_query(&self.query, &pagination) {
            Some(next) => {
                self.query = next;
            },
            None => {
                self.finished = true;
                match &pagination {
                    Some(p) => match &p.next_page_query {
                        Some(_) => {
                            self.guard_stop = true;
                        },
                        None => {},
                    },
                    None => {},
                }
            },
        }
    }
}

/// One fetch-and-parse outcome handed to the engine: the parsed page, or the
/// error the fetch, conversion or parse ended in.
pub struct ParsedPage<ItemBase> {
    pub items: Vec<ItemBase>,
    pub pagination: Option<PaginationData>,
}

/// What the listing loop returns when page outcomes arrive as given: the
/// concatenation of the consumed pages' items in page order, or the first
/// page-level error unchanged. A run that exhausts the given outcomes keeps
/// everything consumed so far.
pub open spec fn run_result<ItemBase>(
    q: Map<Seq<char>, Seq<char>>,
    pages: Seq<Result<ParsedPage<ItemBase>, Error>>,
) -> Result<Seq<ItemBase>, Error>
    decreases pages.len(),
{
    if pages.len() == 0 {
        Ok(Seq::empty())
    } else {
        match pages[0] {
            Err(e) => Err(e),
            Ok(p) => match step_query(q, p.pagination) {
                None => Ok(p.items@),
                Some(q2) => match run_result(q2, pages.drop_first()) {
                    Ok(rest) => Ok(p.items@ + rest),
                    Err(e) => Err(e),
                },
            },
        }
    }
}

/// How many of the given page outcomes the listing loop consumes before it
/// stops.
pub open spec fn run_consumed<ItemBase>(
    q: Map<Seq<char>, Seq<char>>,
    pages: Seq<Result<ParsedPage<ItemBase>, Error>>,
) -> nat
    decreases pages.len(),
{
    if pages.len() == 0 {
        0
    } else {
        match pages[0] {
            Err(_) => 1,
            Ok(p) => match step_query(q, p.pagination) {
                None => 1,
                Some(q2) => 1 + run_consumed(q2, pages.drop_first()),
            },
        }
    }
}

/// The abstract value of a concrete listing result.
pub open spec fn listing_view<ItemBase>(r: Result<Vec<ItemBase>, Error>) -> Result<
    Seq<ItemBase>,
    Error,
> {
    match r {
        Ok(v) => Ok(v@),
        Err(e) => Err(e),
    }
}

/// The listing loop, run over page outcomes given as data: exactly the live
/// loop's decisions and accumulation, with the fetching factored out.
pub fn run_listing<ItemBase>(
    query: &QueryParams,
    outcomes: Vec<Result<ParsedPage<ItemBase>, Error>>,
) -> (r: Result<Vec<ItemBase>, Error>)
    requires
        query.wf(),
    ensures
        listing_view(r) == run_result(query@, outcomes@),
{
    let ghost all = outcomes@;
    let mut pending = outcomes;
    let total = pending.len();
    let mut run = ListRun::<ItemBase>::start(query);
    while !run.finished && pending.len() > 0
        invariant
            all == outcomes@,
            query.wf(),
            run.wf_run(),
            run.pages_fetched + pending@.len() <= total,
            !run.finished ==> run_result(query@, all) == (match run_result(
                run.query@,
                pending@,
            ) {
                Ok(rest) => Ok::<Seq<ItemBase>, Error>(run.items@ + rest),
                Err(e) => Err::<Seq<ItemBase>, Error>(e),
            }),
            run.finished ==> run_result(query@, all) == Ok::<Seq<ItemBase>, Error>(run.items@),
        decreases pending@.len(),
    {
        let ghost pre_outcomes = pending@;
        let ghost pre_run = run;
        let oc = pending.remove(0);
        proof {
            assert(pre_outcomes.drop_first() =~= pending@);
        }
        match oc {
            Err(e) => {
                proof {
                    assert(pre_outcomes[0] == Err::<ParsedPage<ItemBase>, Error>(e));
                    assert(run_result(pre_run.query@, pre_outcomes) == Err::<
                        Seq<ItemBase>,
                        Error,
                    >(e));
                    assert(run_result(query@, all) == Err::<Seq<ItemBase>, Error>(e));
                }
                return Err(e);
            },
            Ok(p) => {
                let ghost page_items = p.items@;
                let ghost pagination = p.pagination;
                run.feed(p.items, p.pagination);
                proof {
                    match step_query(pre_run.query@, pagination) {
                        None => {},
                        Some(q2) => {
                            match run_result(q2, pending@) {
                                Ok(rest) => {
                                    assert((pre_run.items@ + page_items) + rest
                                        =~= pre_run.items@ + (page_items + rest));
                                },
                                Err(_) => {},
                            }
                        },
                    }
                }
            },
        }
    }
    proof {
        if !run.finished {
            assert(run.items@ + Seq::<ItemBase>::empty() =~= run.items@);
        }
    }
    Ok(run.items)
}

/// What a split fetch returns when every value's page outcomes arrive as
/// data: for each split value in order, the listing run on the base query
/// with that value bound to the split dimension; the runs' items
/// concatenated in value order, or the first failing run's error unchanged,
/// with no later value's run consulted.
pub open spec fn split_result<ItemBase>(
    q: Map<Seq<char>, Seq<char>>,
    name: Seq<char>,
    values: Seq<String>,
    scripts: Seq<Vec<Result<ParsedPage<ItemBase>, Error>>>,
) -> Result<Seq<ItemBase>, Error>
    decreases values.len(),
{
    if values.len() == 0 {
        Ok(Seq::empty())
    } else {
        match run_result(q.insert(name, values[0]@), scripts[0]@) {
            Err(e) => Err(e),
            Ok(items) => match split_result(q, name, values.drop_first(), scripts.drop_first()) {
                Err(e) => Err(e),
                Ok(rest) => Ok(items + rest),
            },
        }
    }
}

/// The split fetch, run over page outcomes given as data: one listing run
/// per split value, in the given value order, aborting on the first failure.
pub fn run_split<ItemBase>(
    query: &QueryParams,
    split_by: &String,
    values: &[String],
    scripts: Vec<Vec<Result<ParsedPage<ItemBase>, Error>>>,
) -> (r: Result<Vec<ItemBase>, Error>)
    requires
        query.wf(),
        values@.len() == scripts@.len(),
    ensures
        listing_view(r) == split_result(query@, split_by@, values@, scripts@),
{
    let ghost all_scripts = scripts@;
    let mut pending = scripts;
    let mut items: Vec<ItemBase> = Vec::new();
    let mut i: usize = 0;
    proof {
        assert(values@.skip(0) =~= values@);
        assert(all_scripts.skip(0) =~= all_scripts);
        match split_result(query@, split_by@, values@, all_scripts) {
            Ok(rest) => {
                assert(Seq::<ItemBase>::empty() + rest =~= rest);
            },
            Err(_) => {},
        }
    }
    while i < values.len()
        invariant
            all_scripts == scripts@,
            query.wf(),
            values@.len() == all_scripts.len(),
            i <= values@.len(),
            pending@ =~= all_scripts.skip(i as int),
            split_result(query@, split_by@, values@, all_scripts) == (match split_result(
                query@,
                split_by@,
                values@.skip(i as int),
                all_scripts.skip(i as int),
            ) {
                Ok(rest) => Ok::<Seq<ItemBase>, Error>(items@ + rest),
                Err(e) => Err::<Seq<ItemBase>, Error>(e),
            }),
        decreases values@.len() - i,
    {
        let mut value_query = query.clone();
        value_query.insert(split_by.clone(), values[i].clone());
        let script = pending.remove(0);
        proof {
            assert(all_scripts.skip(i as int).drop_first() =~= all_scripts.skip(i + 1));
            assert(script == all_scripts[i as int]);
        }
        let ghost pre_items = items@;
        match run_listing(&value_query, script) {
            Err(e) => {
                proof {
                    lemma_split_unfold(query@, split_by@, values@, all_scripts, i as int);
                }
                return Err(e);
            },
            Ok(mut got) => {
                let ghost got_items = got@;
                items.append(&mut got);
                proof {
                    lemma_split_unfold(query@, split_by@, values@, all_scripts, i as int);
                    match split_result(
                        query@,
                        split_by@,
                        values@.skip(i + 1),
                        all_scripts.skip(i + 1),
                    ) {
                        Ok(rest) => {
                            assert((pre_items + got_items) + rest =~= pre_items + (got_items
                                + rest));
                        },
                        Err(_) => {},
                    }
                }
            },
        }
        i = i + 1;
    }
    proof {
        assert(values@.skip(i as int).len() == 0);
        assert(items@ + Seq::<ItemBase>::empty() =~= items@);
    }
    Ok(items)
}

/// The query the engine fetches page `i` with, threading the termination
/// decisions through the pages before it.
pub open spec fn query_at<ItemBase>(
    q: Map<Seq<char>, Seq<char>>,
    pages: Seq<Result<ParsedPage<ItemBase>, Error>>,
    i: int,
) -> Map<Seq<char>, Seq<char>>
    decreases i,
{
    if i <= 0 {
        q
    } else {
        let prev = query_at(q, pages, i - 1);
        match pages[i - 1] {
            Ok(p) => match step_query(prev, p.pagination) {
                Some(q2) => q2,
                None => prev,
            },
            Err(_) => prev,
        }
    }
}

/// The items of the first `n` pages, in page order.
pub open spec fn items_concat<ItemBase>(
    pages: Seq<Result<ParsedPage<ItemBase>, Error>>,
    n: int,
) -> Seq<ItemBase>
    decreases n,
{
    if n <= 0 {
        Seq::empty()
    } else {
        items_concat(pages, n - 1) + (match pages[n - 1] {
            Ok(p) => p.items@,
            Err(_) => Seq::empty(),
        })
    }
}

/// Pages before `k` all parsed and all carry a delta that advances the query.
pub open spec fn advancing_before<ItemBase>(
    q: Map<Seq<char>, Seq<char>>,
    pages: Seq<Result<ParsedPage<ItemBase>, Error>>,
    k: int,
) -> bool {
    forall|i: int| 0 <= i < k ==> (#[trigger] pages[i]) is Ok && step_query(
        query_at(q, pages, i),
        pages[i]->Ok_0.pagination,
    ) is Some
}

proof fn lemma_query_at_shift<ItemBase>(
    q: Map<Seq<char>, Seq<char>>,
    pages: Seq<Result<ParsedPage<ItemBase>, Error>>,
    i: int,
)
    requires
        0 <= i,
        i + 1 <= pages.len(),
        pages[0] is Ok,
        step_query(q, pages[0]->Ok_0.pagination) is Some,
    ensures
        query_at(
            step_query(q, pages[0]->Ok_0.pagination)->Some_0,
            pages.drop_first(),
            i,
        ) == query_at(q, pages, i + 1),
    decreases i,
{
    if i == 0 {
        assert(query_at(q, pages, 0) == q);
        assert(query_at(step_query(q, pages[0]->Ok_0.pagination)->Some_0, pages.drop_first(), 0)
            == step_query(q, pages[0]->Ok_0.pagination)->Some_0);
    } else {
        lemma_query_at_shift(q, pages, i - 1);
        assert(pages.drop_first()[i - 1] == pages[i]);
        assert(query_at(q, pages, i + 1) == (match pages[i] {
            Ok(p) => match step_query(query_at(q, pages, i), p.pagination) {
                Some(q2) => q2,
                None => query_at(q, pages, i),
            },
            Err(_) => query_at(q, pages, i),
        }));
    }
}

proof fn lemma_items_concat_shift<ItemBase>(
    pages: Seq<Result<ParsedPage<ItemBase>, Error>>,
    n: int,
)
    requires
        1 <= n <= pages.len(),
    ensures
        items_concat(pages, n) == (match pages[0] {
            Ok(p) => p.items@,
            Err(_) => Seq::<ItemBase>::empty(),
        }) + items_concat(pages.drop_first(), n - 1),
    decreases n,
{
    let head: Seq<ItemBase> = match pages[0] {
        Ok(p) => p.items@,
        Err(_) => Seq::empty(),
    };
    if n == 1 {
        assert(items_concat(pages, 0) == Seq::<ItemBase>::empty());
        assert(items_concat(pages.drop_first(), 0) == Seq::<ItemBase>::empty());
        assert(Seq::<ItemBase>::empty() + head =~= head);
        assert(head =~= head + Seq::<ItemBase>::empty());
    } else {
        lemma_items_concat_shift(pages, n - 1);
        assert(pages.drop_first()[n - 2] == pages[n - 1]);
        let tail: Seq<ItemBase> = match pages[n - 1] {
            Ok(p) => p.items@,
            Err(_) => Seq::empty(),
        };
        assert((head + items_concat(pages.drop_first(), n - 2)) + tail =~= head + (items_concat(
            pages.drop_first(),
            n - 2,
        ) + tail));
    }
}

/// Where the termination decision at page `k` says stop, and every earlier
/// page advances, the run consumes exactly the pages up to `k` and returns
/// their items in page order.
pub proof fn lemma_run_stops_at<ItemBase>(
    q: Map<Seq<char>, Seq<char>>,
    pages: Seq<Result<ParsedPage<ItemBase>, Error>>,
    k: int,
)
    requires
        0 <= k < pages.len(),
        advancing_before(q, pages, k),
        pages[k] is Ok,
        step_query(query_at(q, pages, k), pages[k]->Ok_0.pagination) is None,
    ensures
        run_consumed(q, pages) == k + 1,
        run_result(q, pages) == Ok::<Seq<ItemBase>, Error>(items_concat(pages, k + 1)),
    decreases k,
{
    if k == 0 {
        assert(items_concat(pages, 0) == Seq::<ItemBase>::empty());
        assert(items_concat(pages, 1) =~= pages[0]->Ok_0.items@);
    } else {
        assert(pages[0] is Ok && step_query(query_at(q, pages, 0), pages[0]->Ok_0.pagination)
            is Some);
        let q2 = step_query(q, pages[0]->Ok_0.pagination)->Some_0;
        let rest = pages.drop_first();
        assert forall|i: int| 0 <= i < k - 1 implies (#[trigger] rest[i]) is Ok && step_query(
            query_at(q2, rest, i),
            rest[i]->Ok_0.pagination,
        ) is Some by {
            assert(rest[i] == pages[i + 1]);
            lemma_query_at_shift(q, pages, i);
            assert(pages[i + 1] is Ok && step_query(
                query_at(q, pages, i + 1),
                pages[i + 1]->Ok_0.pagination,
            ) is Some);
        }
        assert(rest[k - 1] == pages[k]);
        lemma_query_at_shift(q, pages, k - 1);
        lemma_run_stops_at(q2, rest, k - 1);
        lemma_items_concat_shift(pages, k + 1);
    }
}

/// Pagination termination: where every page before `k` advances the query
/// and page `k` reports no next-page delta, the engine consumes exactly the
/// pages up to `k` and returns the concatenation of their items, in page
/// order.
pub proof fn lemma_pagination_termination<ItemBase>(
    q: Map<Seq<char>, Seq<char>>,
    pages: Seq<Result<ParsedPage<ItemBase>, Error>>,
    k: int,
)
    requires
        0 <= k < pages.len(),
        advancing_before(q, pages, k),
        pages[k] is Ok,
        pages[k]->Ok_0.pagination is None || pages[k]->Ok_0.pagination->Some_0.next_page_query
            is None,
    ensures
        run_consumed(q, pages) == k + 1,
        run_result(q, pages) == Ok::<Seq<ItemBase>, Error>(items_concat(pages, k + 1)),
{
    lemma_run_stops_at(q, pages, k);
}

/// Loop guard: where every page before `k` advances the query and page `k`'s
/// delta, applied to the query page `k` was fetched with, changes nothing,
/// the engine stops after page `k` without fetching again and without error.
pub proof fn lemma_loop_guard<ItemBase>(
    q: Map<Seq<char>, Seq<char>>,
    pages: Seq<Result<ParsedPage<ItemBase>, Error>>,
    k: int,
)
    requires
        0 <= k < pages.len(),
        advancing_before(q, pages, k),
        pages[k] is Ok,
        guard_triggered(query_at(q, pages, k), pages[k]->Ok_0.pagination),
    ensures
        run_consumed(q, pages) == k + 1,
        run_result(q, pages) == Ok::<Seq<ItemBase>, Error>(items_concat(pages, k + 1)),
{
    lemma_run_stops_at(q, pages, k);
}

/// Split ordering: with two split values whose runs both succeed, the split
/// returns the first value's items followed by the second value's items.
pub proof fn lemma_split_ordering<ItemBase>(
    q: Map<Seq<char>, Seq<char>>,
    name: Seq<char>,
    v1: String,
    v2: String,
    s1: Vec<Result<ParsedPage<ItemBase>, Error>>,
    s2: Vec<Result<ParsedPage<ItemBase>, Error>>,
)
    requires
        run_result(q.insert(name, v1@), s1@) is Ok,
        run_result(q.insert(name, v2@), s2@) is Ok,
    ensures
        split_result(q, name, seq![v1, v2], seq![s1, s2]) == Ok::<Seq<ItemBase>, Error>(
            run_result(q.insert(name, v1@), s1@)->Ok_0 + run_result(
                q.insert(name, v2@),
                s2@,
            )->Ok_0,
        ),
{
    let values = seq![v1, v2];
    let scripts = seq![s1, s2];
    let tail_values = seq![v2];
    let tail_scripts = seq![s2];
    let empty_values = Seq::<String>::empty();
    let empty_scripts = Seq::<Vec<Result<ParsedPage<ItemBase>, Error>>>::empty();
    let r1 = run_result(q.insert(name, v1@), s1@)->Ok_0;
    let r2 = run_result(q.insert(name, v2@), s2@)->Ok_0;
    assert(split_result(q, name, empty_values, empty_scripts) == Ok::<Seq<ItemBase>, Error>(
        Seq::empty(),
    ));
    assert(tail_values.drop_first() =~= empty_values);
    assert(tail_scripts.drop_first() =~= empty_scripts);
    assert(tail_values[0] == v2);
    assert(tail_scripts[0] == s2);
    assert(r2 + Seq::<ItemBase>::empty() =~= r2);
    assert(split_result(q, name, tail_values, tail_scripts) == Ok::<Seq<ItemBase>, Error>(r2));
    assert(values.drop_first() =~= tail_values);
    assert(scripts.drop_first() =~= tail_scripts);
    assert(values[0] == v1);
    assert(scripts[0] == s1);
}

/// Fail-fast aggregation: where the runs of the split values before `j`
/// succeed and value `j`'s run fails, the split returns exactly that error,
/// and no value after `j` contributes anything.
pub proof fn lemma_split_fail_fast<ItemBase>(
    q: Map<Seq<char>, Seq<char>>,
    name: Seq<char>,
    values: Seq<String>,
    scripts: Seq<Vec<Result<ParsedPage<ItemBase>, Error>>>,
    j: int,
)
    requires
        0 <= j < values.len(),
        values.len() == scripts.len(),
        forall|i: int| 0 <= i < j ==> run_result(
            q.insert(name, (#[trigger] values[i])@),
            scripts[i]@,
        ) is Ok,
        run_result(q.insert(name, values[j]@), scripts[j]@) is Err,
    ensures
        split_result(q, name, values, scripts) == Err::<Seq<ItemBase>, Error>(
            run_result(q.insert(name, values[j]@), scripts[j]@)->Err_0,
        ),
    decreases j,
{
    if j == 0 {
    } else {
        assert(values.drop_first()[j - 1] == values[j]);
        assert(scripts.drop_first()[j - 1] == scripts[j]);
        assert forall|i: int| 0 <= i < j - 1 implies run_result(
            q.insert(name, (#[trigger] values.drop_first()[i])@),
            scripts.drop_first()[i]@,
        ) is Ok by {
            assert(values.drop_first()[i] == values[i + 1]);
            assert(scripts.drop_first()[i] == scripts[i + 1]);
        }
        lemma_split_fail_fast(q, name, values.drop_first(), scripts.drop_first(), j - 1);
    }
}

/// Classifies one HTTP response: 200 hands the body through, 429 is the
/// distinguished rate-limit error, and any other status is reported with its
/// numeric code. Nothing is retried here.
pub fn classify_response(status: u16, body: String) -> (r: Result<String, Error>)
    ensures
        status == 200 ==> r == Ok::<String, Error>(body),
        status == 429 ==> r == Err::<String, Error>(Error::RateLimited),
        status != 200 && status != 429 ==> r == Err::<String, Error>(
            Error::UnexpectedStatus(status),
        ),
{
    if status == 200 {
        Ok(body)
    } else if status == 429 {
        Err(Error::RateLimited)
    } else {
        Err(Error::UnexpectedStatus(status))
    }
}

/// The engine's configuration and plug-ins: the resolved base URL and the
/// listing path, the mock-mode flag with the fixed resources that replace
/// the network there, the three per-format plug-ins, the optional politeness
/// delay, and the optional cap on the aggregated item count.
pub struct WebScraper<Data, ItemBase, ItemDetails, C, L, D> {
    pub base_url: String,
    pub list_path: String,
    pub mock: bool,
    pub converter: C,
    pub list_parser: L,
    pub details_parser: D,
    pub delay_ms: Option<u64>,
    pub mock_list: Option<String>,
    pub mock_details: Option<String>,
    pub item_limit: Option<usize>,
    pub _marker: PhantomData<(Data, ItemBase, ItemDetails)>,
}

impl<
    Data,
    ItemBase,
    ItemDetails,
    C: Converter<Data>,
    L: ListParser<Data, ItemBase>,
    D: DetailsParser<Data, ItemDetails>,
> WebScraper<Data, ItemBase, ItemDetails, C, L, D> {
    /// A scraper with the given configuration, no mock resources and no
    /// item cap.
    pub fn new(
        base_url: String,
        list_path: String,
        mock: bool,
        converter: C,
        base_parser: L,
        details_parser: D,
        delay_ms: Option<u64>,
    ) -> (r: Self)
        ensures
            r.base_url == base_url,
            r.list_path == list_path,
            r.mock == mock,
            r.converter == converter,
            r.list_parser == base_parser,
            r.details_parser == details_parser,
            r.delay_ms == delay_ms,
            r.mock_list is None,
            r.mock_details is None,
            r.item_limit is None,
    {
        WebScraper {
            base_url,
            list_path,
            mock,
            converter,
            list_parser: base_parser,
            details_parser,
            delay_ms,
            mock_list: None,
            mock_details: None,
            item_limit: None,
            _marker: PhantomData,
        }
    }

    /// The same scraper with the fixed mock resources that replace the
    /// listing fetch and the detail fetch in mock mode.
    pub fn with_mock_content(self, list: String, details: String) -> (r: Self)
        ensures
            r == (WebScraper { mock_list: Some(list), mock_details: Some(details), ..self }),
    {
        WebScraper { mock_list: Some(list), mock_details: Some(details), ..self }
    }

    /// The same scraper with a cap on the aggregated item count.
    pub fn with_item_limit(self, limit: usize) -> (r: Self)
        ensures
            r == (WebScraper { item_limit: Some(limit), ..self }),
    {
        WebScraper { item_limit: Some(limit), ..self }
    }

    /// The raw text a listing fetch returns in mock mode: always the stored
    /// listing resource, whatever query the caller would have sent.
    pub fn mock_list_content(&self) -> (r: String)
        requires
            self.mock_list is Some,
        ensures
            Some(r) == self.mock_list,
    {
        match &self.mock_list {
            Some(s) => s.clone(),
            None => String::new(),
        }
    }

    /// The raw text a detail fetch returns in mock mode: always the stored
    /// detail resource.
    pub fn mock_details_content(&self) -> (r: String)
        requires
            self.mock_details is Some,
        ensures
            Some(r) == self.mock_details,
    {
        match &self.mock_details {
            Some(s) => s.clone(),
            None => String::new(),
        }
    }

    /// One pagination-loop step on raw page text: convert, parse, then
    /// account the parsed page exactly as `feed` does. A conversion or parse
    /// error is handed back unchanged with the run untouched; otherwise the
    /// returned flag says whether the run is finished.
    pub fn ingest_list_page(&self, run: &mut ListRun<ItemBase>, raw: &str) -> (r: Result<
        bool,
        Error,
    >)
        requires
            old(run).wf_run(),
            !old(run).finished,
            old(run).pages_fetched < usize::MAX,
        ensures
            final(run).wf_run(),
            match r {
                Ok(done) => done == final(run).finished && exists|
                    page_items: Seq<ItemBase>,
                    pagination: Option<PaginationData>,
                |
                    feed_step(*old(run), *final(run), page_items, pagination),
                Err(_) => *final(run) == *old(run),
            },
    {
        let document = match self.converter.convert(raw) {
            Ok(d) => d,
            Err(e) => {
                return Err(e);
            },
        };
        match self.list_parser.parse_list(self.base_url.as_str(), document) {
            Ok((page_items, pagination)) => {
                let ghost gi = page_items@;
                let ghost gp = pagination;
                run.feed(page_items, pagination);
                proof {
                    assert(feed_step(*old(run), *run, gi, gp));
                }
                Ok(run.finished)
            },
            Err(e) => Err(e),
        }
    }

    /// Converts a detail page's raw text, parses the details record and
    /// joins it with the base record, which is returned unchanged. A
    /// conversion or parse error is handed back unchanged.
    pub fn parse_item_details(&self, raw: &str, base: ItemBase) -> (r: Result<
        ItemWithDetails<ItemBase, ItemDetails>,
        Error,
    >)
        ensures
            r matches Ok(v) ==> v.base == base,
    {
        let document = match self.converter.convert(raw) {
            Ok(d) => d,
            Err(e) => {
                return Err(e);
            },
        };
        match self.details_parser.parse_details(document) {
            Ok(details) => Ok(ItemWithDetails { base, details }),
            Err(e) => Err(e),
        }
    }

    /// Applies the configured cap to an aggregated result: a count that hits
    /// the cap exactly is the source's hard page-size limit showing through,
    /// and is reported as its own error instead of a silently truncated
    /// result.
    pub fn enforce_item_limit(&self, items: Vec<ItemBase>) -> (r: Result<Vec<ItemBase>, Error>)
        ensures
            match self.item_limit {
                Some(limit) => if items@.len() == limit {
                    r == Err::<Vec<ItemBase>, Error>(Error::TooManyItems(limit))
                } else {
                    r == Ok::<Vec<ItemBase>, Error>(items)
                },
                None => r == Ok::<Vec<ItemBase>, Error>(items),
            },
    {
        match self.item_limit {
            Some(limit) => {
                if items.len() == limit {
                    Err(Error::TooManyItems(limit))
                } else {
                    Ok(items)
                }
            },
            None => Ok(items),
        }
    }
}

/// Unrolls one value off the split model.
proof fn lemma_split_unfold<ItemBase>(
    q: Map<Seq<char>, Seq<char>>,
    name: Seq<char>,
    values: Seq<String>,
    scripts: Seq<Vec<Result<ParsedPage<ItemBase>, Error>>>,
    i: int,
)
    requires
        0 <= i < values.len(),
        values.len() == scripts.len(),
    ensures
        split_result(q, name, values.skip(i), scripts.skip(i)) == (match run_result(
            q.insert(name, values[i]@),
            scripts[i]@,
        ) {
            Err(e) => Err::<Seq<ItemBase>, Error>(e),
            Ok(items) => match split_result(q, name, values.skip(i + 1), scripts.skip(i + 1)) {
                Err(e) => Err::<Seq<ItemBase>, Error>(e),
                Ok(rest) => Ok::<Seq<ItemBase>, Error>(items + rest),
            },
        }),
{
    assert(values.skip(i)[0] == values[i]);
    assert(scripts.skip(i)[0] == scripts[i]);
    assert(values.skip(i).drop_first() =~= values.skip(i + 1));
    assert(scripts.skip(i).drop_first() =~= scripts.skip(i + 1));
}

} // verus!
