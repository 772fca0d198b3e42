use web_scraper::error::Error;
use web_scraper::query::QueryParams;
use web_scraper::scrapers::html_scraper::get_all_text;
use web_scraper::scrapers::html_scraper::get_first_text_by_selector;
use web_scraper::scrapers::html_scraper::get_first_text_part;
use web_scraper::scrapers::html_scraper::first_trimmed;
use web_scraper::scrapers::html_scraper::join_trimmed;
use web_scraper::scrapers::html_scraper::HtmlConverter;
use web_scraper::scrapers::json_scraper::JsonConverter;
use web_scraper::scrapers::DetailsParser;
use web_scraper::scrapers::ListParser;
use web_scraper::scrapers::ListRun;
use web_scraper::scrapers::PaginationData;
use web_scraper::scrapers::WebScraper;

#[derive(Debug, PartialEq, Clone)]
struct Details {
    name: String,
    weight: u64,
}

struct JsonListParser;

impl ListParser<serde_json::Value, String> for JsonListParser {
    fn parse_list(
        &self,
        _base_url: &str,
        document: serde_json::Value,
    ) -> Result<(Vec<String>, Option<PaginationData>), Error> {
        let obj = document
            .as_object()
            .ok_or_else(|| Error::RecordParseError("listing is not an object".to_string()))?;
        let raw_items = obj
            .get("items")
            .and_then(|v| v.as_array())
            .ok_or_else(|| Error::RecordParseError("no items array".to_string()))?;
        let mut items = Vec::new();
        for v in raw_items {
            let s = v
                .as_str()
                .ok_or_else(|| Error::RecordParseError("item is not a string".to_string()))?;
            items.push(s.to_string());
        }
        let next_page_query = obj
            .get("next")
            .and_then(|v| v.as_str())
            .map(|s| ("page".to_string(), s.to_string()));
        let pagination = Some(PaginationData {
            current_page: 1,
            total_pages: None,
            next_page_query,
        });
        Ok((items, pagination))
    }
}

struct JsonDetailsParser;

impl DetailsParser<serde_json::Value, Details> for JsonDetailsParser {
    fn parse_details(&self, document: serde_json::Value) -> Result<Details, Error> {
        let obj = document
            .as_object()
            .ok_or_else(|| Error::RecordParseError("details are not an object".to_string()))?;
        let name = obj
            .get("name")
            .and_then(|v| v.as_str())
            .ok_or_else(|| Error::RecordParseError("no name".to_string()))?
            .to_string();
        let weight = obj
            .get("weight")
            .and_then(|v| v.as_u64())
            .ok_or_else(|| Error::RecordParseError("no weight".to_string()))?;
        Ok(Details { name, weight })
    }
}

fn json_scraper(mock: bool) -> WebScraper<
    serde_json::Value,
    String,
    Details,
    JsonConverter,
    JsonListParser,
    JsonDetailsParser,
> {
    WebScraper::new(
        "http://source.test/".to_string(),
        "list".to_string(),
        mock,
        JsonConverter,
        JsonListParser,
        JsonDetailsParser,
        None,
    )
}

#[test]
fn mock_mode_is_deterministic() {
    let scraper = json_scraper(true).with_mock_content(
        "{\"items\":[\"a\"]}".to_string(),
        "{\"name\":\"Widget\",\"weight\":42}".to_string(),
    );
    let first = scraper.mock_list_content();
    let second = scraper.mock_list_content();
    assert_eq!(first.as_bytes(), second.as_bytes());
    assert_eq!(first, "{\"items\":[\"a\"]}");
    let d1 = scraper.mock_details_content();
    let d2 = scraper.mock_details_content();
    assert_eq!(d1.as_bytes(), d2.as_bytes());
}

#[test]
fn ingest_drives_pagination_from_raw_json() {
    let scraper = json_scraper(false);
    let mut q = QueryParams::new();
    q.insert("cat".to_string(), "phones".to_string());
    let mut run = ListRun::<String>::start(&q);

    let done = scraper
        .ingest_list_page(&mut run, "{\"items\":[\"a\",\"b\"],\"next\":\"2\"}")
        .expect("first page parses");
    assert!(!done);
    assert_eq!(run.query.get(&"page".to_string()), Some(&"2".to_string()));
    assert_eq!(run.query.get(&"cat".to_string()), Some(&"phones".to_string()));

    let done = scraper
        .ingest_list_page(&mut run, "{\"items\":[\"c\"]}")
        .expect("second page parses");
    assert!(done);
    assert_eq!(run.items, vec!["a", "b", "c"]);
    assert_eq!(run.pages_fetched, 2);
    assert!(!run.guard_stop);
}

#[test]
fn ingest_propagates_decode_error_unchanged() {
    let scraper = json_scraper(false);
    let q = QueryParams::new();
    let mut run = ListRun::<String>::start(&q);
    let got = scraper.ingest_list_page(&mut run, "{not json");
    assert!(matches!(got, Err(Error::DecodeError)));
    assert_eq!(run.items.len(), 0);
    assert_eq!(run.pages_fetched, 0);
}

#[test]
fn item_limit_flags_exact_cap() {
    let scraper = json_scraper(false).with_item_limit(2);
    let hit = scraper.enforce_item_limit(vec!["a".to_string(), "b".to_string()]);
    assert!(matches!(hit, Err(Error::TooManyItems(2))));
    let under = scraper.enforce_item_limit(vec!["a".to_string()]);
    assert_eq!(under.expect("under the cap"), vec!["a"]);
    let no_cap = json_scraper(false).enforce_item_limit(vec![
        "a".to_string(),
        "b".to_string(),
    ]);
    assert_eq!(no_cap.expect("no cap configured").len(), 2);
}

#[test]
fn json_round_trip_details() {
    let scraper = json_scraper(false);
    let raw = "{\"name\":\"Widget\",\"weight\":42}";
    let got = scraper
        .parse_item_details(raw, "w1".to_string())
        .expect("details parse");
    assert_eq!(got.base, "w1");
    assert_eq!(
        got.details,
        Details {
            name: "Widget".to_string(),
            weight: 42,
        }
    );
}

#[test]
fn json_details_error_propagates() {
    let scraper = json_scraper(false);
    let got = scraper.parse_item_details("{\"name\":\"Widget\"}", "w1".to_string());
    assert!(matches!(got, Err(Error::RecordParseError(_))));
}

struct HtmlDetailsParser;

impl DetailsParser<scraper::Html, Details> for HtmlDetailsParser {
    fn parse_details(&self, document: scraper::Html) -> Result<Details, Error> {
        let root = document.root_element();
        let name_sel = scraper::Selector::parse("h1").expect("selector");
        let weight_sel = scraper::Selector::parse(".weight").expect("selector");
        let name = get_first_text_by_selector(&root, &name_sel)
            .ok_or_else(|| Error::RecordParseError("no name".to_string()))?;
        let weight_text = get_first_text_by_selector(&root, &weight_sel)
            .ok_or_else(|| Error::RecordParseError("no weight".to_string()))?;
        let weight = weight_text
            .parse::<u64>()
            .map_err(|_| Error::RecordParseError("weight is not a number".to_string()))?;
        Ok(Details { name, weight })
    }
}

struct HtmlNoListParser;

impl ListParser<scraper::Html, String> for HtmlNoListParser {
    fn parse_list(
        &self,
        _base_url: &str,
        _document: scraper::Html,
    ) -> Result<(Vec<String>, Option<PaginationData>), Error> {
        Ok((Vec::new(), None))
    }
}

#[test]
fn html_round_trip_details() {
    let scraper = WebScraper::new(
        "http://source.test/".to_string(),
        "list".to_string(),
        false,
        HtmlConverter,
        HtmlNoListParser,
        HtmlDetailsParser,
        None,
    );
    let raw = "<html><body><h1>  Widget  </h1><span class=\"weight\"> 42 </span></body></html>";
    let got = scraper
        .parse_item_details(raw, "w1".to_string())
        .expect("details parse");
    assert_eq!(got.base, "w1");
    assert_eq!(
        got.details,
        Details {
            name: "Widget".to_string(),
            weight: 42,
        }
    );
}

#[test]
fn first_text_part_is_trimmed() {
    let html = scraper::Html::parse_fragment("<p>   padded text \t</p>");
    let root = html.root_element();
    assert_eq!(get_first_text_part(&root), Some("padded text".to_string()));
}

#[test]
fn all_text_joins_trimmed_chunks() {
    let html = scraper::Html::parse_fragment("<p> alpha <b> beta </b> gamma </p>");
    let root = html.root_element();
    assert_eq!(get_all_text(&root), Some("alpha beta gamma".to_string()));
}

#[test]
fn text_helpers_report_absence() {
    let html = scraper::Html::parse_fragment("<p><br/></p>");
    let root = html.root_element();
    let sel = scraper::Selector::parse("h1").expect("selector");
    assert_eq!(get_first_text_by_selector(&root, &sel), None);
}

#[test]
fn chunk_helpers_trim_and_join() {
    assert_eq!(first_trimmed(&vec![]), None);
    assert_eq!(first_trimmed(&vec!["  a  ", "b"]), Some("a".to_string()));
    assert_eq!(join_trimmed(&vec![]), None);
    assert_eq!(join_trimmed(&vec!["  a  "]), Some("a".to_string()));
    assert_eq!(
        join_trimmed(&vec![" a ", "\tb\t", " c"]),
        Some("a b c".to_string())
    );
}
