use vstd::prelude::*;

use crate::scrapers::Converter;
use crate::scrapers::DetailsParser;
use crate::scrapers::ListParser;
use crate::scrapers::WebScraper;

verus! {

#[verifier::external_type_specification]
#[verifier::external_body]
pub struct ExJsonValue(serde_json::Value);

/// Whether serde_json accepts the given text as a JSON document; a function
/// of the characters alone.
pub uninterp spec fn json_accepts(raw: Seq<char>) -> bool;

/// Relies on serde_json::from_str::<Value>: parses JSON text into a value
/// tree; the result is absent exactly when serde_json rejects the text.
#[verifier::external_body]
fn parse_json_value(raw: &str) -> (r: Option<serde_json::Value>)
    ensures
        r is Some <==> json_accepts(raw@),
{
    serde_json::from_str(raw).ok()
}

/// Converts raw page text with serde_json's parser; a parse failure becomes
/// the library's decode error.
pub struct JsonConverter;

impl Converter<serde_json::Value> for JsonConverter {
    fn convert(&self, raw: &str) -> (r: Result<serde_json::Value, crate::error::Error>)
        ensures
            r is Ok <==> json_accepts(raw@),
            r is Err ==> r == Err::<serde_json::Value, crate::error::Error>(
                crate::error::Error::DecodeError,
            ),
    {
        match parse_json_value(raw) {
            Some(v) => Ok(v),
            None => Err(crate::error::Error::DecodeError),
        }
    }
}

/// A web scraper whose pages are JSON documents.
pub struct JsonScraper<ItemBase, ItemDetails, L, D> {
    pub inner: WebScraper<serde_json::Value, ItemBase, ItemDetails, JsonConverter, L, D>,
}

impl<
    ItemBase,
    ItemDetails,
    L: ListParser<serde_json::Value, ItemBase>,
    D: DetailsParser<serde_json::Value, ItemDetails>,
> JsonScraper<ItemBase, ItemDetails, L, D> {
    /// A scraper over JSON documents with the given configuration.
    pub fn new(
        base_url: String,
        list_path: String,
        mock: bool,
        base_parser: L,
        details_parser: D,
        delay_ms: Option<u64>,
    ) -> (r: Self)
        ensures
            r.inner.base_url == base_url,
            r.inner.list_path == list_path,
            r.inner.mock == mock,
            r.inner.list_parser == base_parser,
            r.inner.details_parser == details_parser,
            r.inner.delay_ms == delay_ms,
            r.inner.mock_list is None,
            r.inner.mock_details is None,
            r.inner.item_limit is None,
    {
        JsonScraper {
            inner: WebScraper::new(
                base_url,
                list_path,
                mock,
                JsonConverter,
                base_parser,
                details_parser,
                delay_ms,
            ),
        }
    }
}

/// A record type parsed out of one JSON value.
pub trait JsonParser {
    fn parse(value: &serde_json::Value) -> Result<Self, crate::error::Error> where Self: Sized;
}

} // verus!
