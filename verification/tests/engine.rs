use web_scraper::error::Error;
use web_scraper::query::QueryParams;
use web_scraper::scrapers::classify_response;
use web_scraper::scrapers::run_listing;
use web_scraper::scrapers::run_split;
use web_scraper::scrapers::ListRun;
use web_scraper::scrapers::PaginationData;
use web_scraper::scrapers::ParsedPage;

fn qp(pairs: &[(&str, &str)]) -> QueryParams {
    let mut q = QueryParams::new();
    for (k, v) in pairs {
        q.insert((*k).to_string(), (*v).to_string());
    }
    q
}

fn page(
    items: &[&str],
    next: Option<(&str, &str)>,
    with_pagination: bool,
    number: u16,
) -> Result<ParsedPage<String>, Error> {
    let pagination = if with_pagination {
        Some(PaginationData {
            current_page: number,
            total_pages: None,
            next_page_query: next.map(|(k, v)| (k.to_string(), v.to_string())),
        })
    } else {
        None
    };
    Ok(ParsedPage {
        items: items.iter().map(|s| s.to_string()).collect(),
        pagination,
    })
}

#[test]
fn classify_ok_returns_body() {
    match classify_response(200, "X".to_string()) {
        Ok(body) => assert_eq!(body, "X"),
        Err(_) => panic!("200 must succeed"),
    }
}

#[test]
fn classify_rate_limited_any_body() {
    assert!(matches!(
        classify_response(429, "irrelevant".to_string()),
        Err(Error::RateLimited)
    ));
    assert!(matches!(
        classify_response(429, String::new()),
        Err(Error::RateLimited)
    ));
}

#[test]
fn classify_unexpected_status_keeps_code() {
    assert!(matches!(
        classify_response(404, "missing".to_string()),
        Err(Error::UnexpectedStatus(404))
    ));
    assert!(matches!(
        classify_response(500, "boom".to_string()),
        Err(Error::UnexpectedStatus(500))
    ));
}

#[test]
fn query_insert_overwrites() {
    let mut q = QueryParams::new();
    q.insert("a".to_string(), "1".to_string());
    q.insert("a".to_string(), "2".to_string());
    assert_eq!(q.get(&"a".to_string()), Some(&"2".to_string()));
    assert_eq!(q.get(&"b".to_string()), None);
}

#[test]
fn query_equality_ignores_order() {
    let q1 = qp(&[("a", "1"), ("b", "2")]);
    let q2 = qp(&[("b", "2"), ("a", "1")]);
    let q3 = qp(&[("a", "1"), ("b", "3")]);
    assert!(q1.same_query(&q2));
    assert!(q2.same_query(&q1));
    assert!(!q1.same_query(&q3));
    assert!(!q1.same_query(&qp(&[("a", "1")])));
}

#[test]
fn pagination_stops_when_next_absent() {
    // Three pages; the third reports pagination but no next-page delta.
    let outcomes = vec![
        page(&["a", "b"], Some(("page", "2")), true, 1),
        page(&["c"], Some(("page", "3")), true, 2),
        page(&["d", "e"], None, true, 3),
        page(&["never"], None, true, 4),
    ];
    let q = qp(&[("cat", "phones")]);
    let got = run_listing(&q, outcomes).expect("run must succeed");
    assert_eq!(got, vec!["a", "b", "c", "d", "e"]);
}

#[test]
fn pagination_single_page_without_state() {
    let outcomes = vec![page(&["only"], None, false, 1)];
    let q = qp(&[]);
    let got = run_listing(&q, outcomes).expect("run must succeed");
    assert_eq!(got, vec!["only"]);
}

#[test]
fn pagination_counts_pages_via_run() {
    let q = qp(&[]);
    let mut run = ListRun::<String>::start(&q);
    let feed = |run: &mut ListRun<String>, items: &[&str], next: Option<(&str, &str)>| {
        let pagination = Some(PaginationData {
            current_page: 1,
            total_pages: Some(3),
            next_page_query: next.map(|(k, v)| (k.to_string(), v.to_string())),
        });
        run.feed(items.iter().map(|s| s.to_string()).collect(), pagination);
    };
    feed(&mut run, &["a"], Some(("page", "2")));
    assert!(!run.finished);
    feed(&mut run, &["b"], Some(("page", "3")));
    assert!(!run.finished);
    feed(&mut run, &["c"], None);
    assert!(run.finished);
    assert!(!run.guard_stop);
    assert_eq!(run.pages_fetched, 3);
    assert_eq!(run.items, vec!["a", "b", "c"]);
}

#[test]
fn loop_guard_stops_on_unchanged_query() {
    // The page's delta re-binds "page" to the value it already has.
    let q = qp(&[("page", "2")]);
    let mut run = ListRun::<String>::start(&q);
    run.feed(
        vec!["x".to_string()],
        Some(PaginationData {
            current_page: 2,
            total_pages: None,
            next_page_query: Some(("page".to_string(), "2".to_string())),
        }),
    );
    assert!(run.finished);
    assert!(run.guard_stop);
    assert_eq!(run.pages_fetched, 1);
    assert_eq!(run.items, vec!["x"]);
}

#[test]
fn loop_guard_run_returns_items_without_error() {
    let outcomes = vec![
        page(&["x", "y"], Some(("page", "2")), true, 2),
        page(&["never"], None, true, 3),
    ];
    let q = qp(&[("page", "2")]);
    let got = run_listing(&q, outcomes).expect("guard stop is not an error");
    assert_eq!(got, vec!["x", "y"]);
}

#[test]
fn pagination_aborts_on_page_error() {
    let outcomes = vec![
        page(&["a"], Some(("page", "2")), true, 1),
        Err(Error::UnexpectedStatus(500)),
        page(&["never"], None, true, 3),
    ];
    let q = qp(&[]);
    assert!(matches!(
        run_listing(&q, outcomes),
        Err(Error::UnexpectedStatus(500))
    ));
}

#[test]
fn split_concatenates_in_value_order() {
    let q = qp(&[("kind", "phone")]);
    let values = vec!["a".to_string(), "b".to_string()];
    let scripts = vec![
        vec![page(&["a1", "a2"], None, false, 1)],
        vec![page(&["b1"], None, false, 1)],
    ];
    let got = run_split(&q, &"region".to_string(), &values, scripts).expect("split must succeed");

    // The same as running the two listings separately, in the given order.
    let first = run_listing(
        &qp(&[("kind", "phone"), ("region", "a")]),
        vec![page(&["a1", "a2"], None, false, 1)],
    )
    .expect("first value");
    let second = run_listing(
        &qp(&[("kind", "phone"), ("region", "b")]),
        vec![page(&["b1"], None, false, 1)],
    )
    .expect("second value");
    let mut expected = first;
    expected.extend(second);
    assert_eq!(got, expected);
    assert_eq!(got, vec!["a1", "a2", "b1"]);
}

#[test]
fn split_fails_fast_on_second_value() {
    let q = qp(&[]);
    let values = vec!["a".to_string(), "b".to_string(), "c".to_string()];
    let scripts = vec![
        vec![page(&["a1"], None, false, 1)],
        vec![Err(Error::RateLimited)],
        vec![page(&["c1"], None, false, 1)],
    ];
    let got = run_split(&q, &"region".to_string(), &values, scripts);
    assert!(matches!(got, Err(Error::RateLimited)));
}

#[test]
fn errors_clone_exactly() {
    let e = Error::RecordParseError("bad field".to_string());
    match e.clone() {
        Error::RecordParseError(msg) => assert_eq!(msg, "bad field"),
        _ => panic!("clone changed the variant"),
    }
    assert!(matches!(Error::TooManyItems(70).clone(), Error::TooManyItems(70)));
    match Error::TransportError("connection reset".to_string()).clone() {
        Error::TransportError(msg) => assert_eq!(msg, "connection reset"),
        _ => panic!("clone changed the variant"),
    }
}
