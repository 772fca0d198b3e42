use vstd::prelude::*;
use vstd::string::StringExecFns;

use crate::error::Error;
use crate::scrapers::Converter;
use crate::scrapers::DetailsParser;
use crate::scrapers::ListParser;
use crate::scrapers::WebScraper;

verus! {

#[verifier::external_type_specification]
#[verifier::external_body]
pub struct ExHtml(scraper::Html);

#[verifier::external_type_specification]
#[verifier::external_body]
pub struct ExSelector(scraper::Selector);

#[verifier::external_type_specification]
#[verifier::external_body]
pub struct ExElementRef<'a>(scraper::ElementRef<'a>);

/// Relies on scraper::Html::parse_document: builds the document tree from
/// raw text; HTML error recovery means there is no failure case.
#[verifier::external_body]
fn parse_html_document(raw: &str) -> (r: scraper::Html) {
    scraper::Html::parse_document(raw)
}

/// Converts raw page text with scraper's HTML parser.
pub struct HtmlConverter;

impl Converter<scraper::Html> for HtmlConverter {
    /// HTML parsing recovers from malformed input, so conversion always
    /// succeeds.
    fn convert(&self, raw: &str) -> (r: Result<scraper::Html, Error>)
        ensures
            r is Ok,
    {
        Ok(parse_html_document(raw))
    }
}

/// A web scraper whose pages are HTML documents.
pub struct HtmlScraper<ItemBase, ItemDetails, L, D> {
    pub inner: WebScraper<scraper::Html, ItemBase, ItemDetails, HtmlConverter, L, D>,
}

impl<
    ItemBase,
    ItemDetails,
    L: ListParser<scraper::Html, ItemBase>,
    D: DetailsParser<scraper::Html, ItemDetails>,
> HtmlScraper<ItemBase, ItemDetails, L, D> {
    /// A scraper over HTML documents with the given configuration.
    pub fn new(
        base_url: String,
        list_path: String,
        mock: bool,
        base_parser: L,
        details_parser: D,
        delay_ms: Option<u64>,
    ) -> (r: Self)
        ensures
            r.inner.base_url == base_url,
            r.inner.list_path == list_path,
            r.inner.mock == mock,
            r.inner.list_parser == base_parser,
            r.inner.details_parser == details_parser,
            r.inner.delay_ms == delay_ms,
            r.inner.mock_list is None,
            r.inner.mock_details is None,
            r.inner.item_limit is None,
    {
        HtmlScraper {
            inner: WebScraper::new(
                base_url,
                list_path,
                mock,
                HtmlConverter,
                base_parser,
                details_parser,
                delay_ms,
            ),
        }
    }
}

/// A record type parsed out of one HTML element.
pub trait HtmlParser {
    fn parse(element: &scraper::ElementRef<'_>) -> Result<Self, Error> where Self: Sized;
}

/// What str::trim leaves of a string: the characters with leading and
/// trailing whitespace removed.
pub uninterp spec fn trimmed_of(s: Seq<char>) -> Seq<char>;

/// Relies on str::trim: removes leading and trailing whitespace; the result
/// depends on the characters alone.
#[verifier::external_body]
fn trim_str<'a>(s: &'a str) -> (r: &'a str)
    ensures
        r@ == trimmed_of(s@),
{
    s.trim()
}

/// Relies on ElementRef::select and the Select iterator: the first
/// descendant element matched by the selector, if any.
#[verifier::external_body]
fn select_first<'a>(element: &scraper::ElementRef<'a>, selector: &scraper::Selector) -> (r:
    Option<scraper::ElementRef<'a>>) {
    element.select(selector).next()
}

/// Relies on ElementRef::text: the text chunks of the element's subtree, in
/// document order.
#[verifier::external_body]
fn text_parts<'a>(element: &scraper::ElementRef<'a>) -> (r: Vec<&'a str>) {
    element.text().collect()
}

/// The first of the given text chunks, trimmed: absent exactly when there
/// is no chunk.
pub fn first_trimmed(parts: &Vec<&str>) -> (r: Option<String>)
    ensures
        r is None <==> parts@.len() == 0,
        r matches Some(t) ==> t@ == trimmed_of(parts@[0]@),
{
    if parts.len() == 0 {
        None
    } else {
        let t = trim_str(parts[0]);
        Some(t.to_owned())
    }
}

/// The given text chunks each trimmed, joined with single spaces, in order.
pub open spec fn joined_trimmed(parts: Seq<Seq<char>>) -> Seq<char>
    decreases parts.len(),
{
    if parts.len() == 0 {
        Seq::empty()
    } else if parts.len() == 1 {
        trimmed_of(parts[0])
    } else {
        joined_trimmed(parts.drop_last()) + seq![' '] + trimmed_of(parts.last())
    }
}

/// Trims each of the given text chunks and joins them with single spaces:
/// absent exactly when there is no chunk.
pub fn join_trimmed(parts: &Vec<&str>) -> (r: Option<String>)
    ensures
        r is None <==> parts@.len() == 0,
        r matches Some(t) ==> t@ == joined_trimmed(parts@.map_values(|p: &str| p@)),
{
    if parts.len() == 0 {
        return None;
    }
    let mut out: String = trim_str(parts[0]).to_owned();
    proof {
        assert(parts@.subrange(0, 1).map_values(|p: &str| p@) =~= seq![parts@[0]@]);
    }
    let mut i: usize = 1;
    while i < parts.len()
        invariant
            1 <= i <= parts@.len(),
            out@ == joined_trimmed(parts@.subrange(0, i as int).map_values(|p: &str| p@)),
        decreases parts@.len() - i,
    {
        let ghost pre = parts@.subrange(0, i as int).map_values(|p: &str| p@);
        out.append(" ");
        out.append(trim_str(parts[i]));
        proof {
            reveal_strlit(" ");
            assert(" "@ =~= seq![' ']);
            let post = parts@.subrange(0, i + 1).map_values(|p: &str| p@);
            assert(post.drop_last() =~= pre);
            assert(post.last() == parts@[i as int]@);
        }
        i = i + 1;
    }
    proof {
        assert(parts@.subrange(0, parts@.len() as int) =~= parts@);
    }
    Some(out)
}

/// The first text chunk under the first element matching the selector,
/// trimmed; absent when nothing matches or the match has no text.
pub fn get_first_text_by_selector(
    element: &scraper::ElementRef<'_>,
    selector: &scraper::Selector,
) -> (r: Option<String>)
    ensures
        r matches Some(t) ==> exists|s: Seq<char>| t@ == trimmed_of(s),
{
    match select_first(element, selector) {
        Some(first_matching) => get_first_text_part(&first_matching),
        None => None,
    }
}

/// All text under the first element matching the selector, trimmed
/// chunk-wise and joined with spaces; absent when nothing matches or the
/// match has no text.
pub fn get_text_by_selector(
    element: &scraper::ElementRef<'_>,
    selector: &scraper::Selector,
) -> (r: Option<String>)
    ensures
        r matches Some(t) ==> exists|parts: Seq<Seq<char>>|
            parts.len() > 0 && t@ == joined_trimmed(parts),
{
    match select_first(element, selector) {
        Some(first_matching) => get_all_text(&first_matching),
        None => None,
    }
}

/// The element's first text chunk, trimmed; absent when the element holds
/// no text at all.
pub fn get_first_text_part(element: &scraper::ElementRef<'_>) -> (r: Option<String>)
    ensures
        r matches Some(t) ==> exists|s: Seq<char>| t@ == trimmed_of(s),
{
    let parts = text_parts(element);
    let r = first_trimmed(&parts);
    proof {
        if r is Some {
            assert(r->Some_0@ == trimmed_of(parts@[0]@));
        }
    }
    r
}

/// All the element's text chunks, trimmed and joined with single spaces;
/// absent when the element holds no text at all.
pub fn get_all_text(element: &scraper::ElementRef<'_>) -> (r: Option<String>)
    ensures
        r matches Some(t) ==> exists|parts: Seq<Seq<char>>|
            parts.len() > 0 && t@ == joined_trimmed(parts),
{
    let parts = text_parts(element);
    let r = join_trimmed(&parts);
    proof {
        if r is Some {
            let chunks = parts@.map_values(|p: &str| p@);
            assert(chunks.len() > 0 && r->Some_0@ == joined_trimmed(chunks));
        }
    }
    r
}

} // verus!
