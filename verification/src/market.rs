//! Metadata the external market service describes an entity with, and the
//! decoding of its JSON-encoded outcome-label list.

use vstd::prelude::*;

verus! {

/// Descriptive market metadata fetched from the external service.
pub struct MarketMetadata {
    /// The service's own market identifier, when it reports one.
    pub id: Option<String>,
    /// The market question text.
    pub question: String,
    /// URL-friendly slug.
    pub slug: String,
    /// Condition identifier as hex text with a `0x` prefix.
    pub condition_id: String,
    /// Outcome labels, decoded from the service's JSON-encoded string.
    pub outcomes: Vec<String>,
    /// Market start date, ISO 8601 text.
    pub start_date: Option<String>,
    /// Market end date, ISO 8601 text.
    pub end_date: Option<String>,
}

/// Mathematical image of `MarketMetadata`.
#[verifier::ext_equal]
pub ghost struct MetadataV {
    pub id: Option<Seq<char>>,
    pub question: Seq<char>,
    pub slug: Seq<char>,
    pub condition_id: Seq<char>,
    pub outcomes: Seq<Seq<char>>,
    pub start_date: Option<Seq<char>>,
    pub end_date: Option<Seq<char>>,
}

impl View for MarketMetadata {
    type V = MetadataV;

    open spec fn view(&self) -> MetadataV {
        MetadataV {
            id: self.id.deep_view(),
            question: self.question@,
            slug: self.slug@,
            condition_id: self.condition_id@,
            outcomes: self.outcomes.deep_view(),
            start_date: self.start_date.deep_view(),
            end_date: self.end_date.deep_view(),
        }
    }
}

/// A tag the service associates with a market; many-to-many with markets.
pub struct Tag {
    /// The service's tag identifier.
    pub id: String,
    /// Human-readable label.
    pub label: Option<String>,
    /// URL-friendly slug.
    pub slug: Option<String>,
}

/// Mathematical image of a `Tag`.
#[verifier::ext_equal]
pub ghost struct TagV {
    pub id: Seq<char>,
    pub label: Option<Seq<char>>,
    pub slug: Option<Seq<char>>,
}

impl View for Tag {
    type V = TagV;

    open spec fn view(&self) -> TagV {
        TagV { id: self.id@, label: self.label.deep_view(), slug: self.slug.deep_view() }
    }
}

impl DeepView for Tag {
    type V = TagV;

    open spec fn deep_view(&self) -> TagV {
        self.view()
    }
}

/// The string array a JSON text denotes, `None` when it is not a JSON
/// array of strings.
pub uninterp spec fn json_string_array(s: Seq<char>) -> Option<Seq<Seq<char>>>;

/// Relies on `serde_json::from_str::<Vec<String>>`: the decoded array is a
/// function of the text alone.
#[verifier::external_body]
fn decode_json_string_array(s: &str) -> (r: Option<Vec<String>>)
    ensures
        r.deep_view() == json_string_array(s@),
{
    serde_json::from_str::<Vec<String>>(s).ok()
}

impl MarketMetadata {
    /// Builds metadata from the service's row fields, decoding the
    /// JSON-encoded outcome list; `None` when that text does not denote a
    /// string array (a structural parse error).
    pub fn from_parts(
        id: Option<String>,
        question: String,
        slug: String,
        condition_id: String,
        outcomes_text: &str,
        start_date: Option<String>,
        end_date: Option<String>,
    ) -> (r: Option<MarketMetadata>)
        ensures
            r is Some <==> json_string_array(outcomes_text@) is Some,
            r matches Some(m) ==> m@ == (MetadataV {
                id: id.deep_view(),
                question: question@,
                slug: slug@,
                condition_id: condition_id@,
                outcomes: json_string_array(outcomes_text@)->Some_0,
                start_date: start_date.deep_view(),
                end_date: end_date.deep_view(),
            }),
    {
        let outcomes: Vec<String> = match decode_json_string_array(outcomes_text) {
            Some(v) => v,
            None => {
                return None;
            },
        };
        Some(MarketMetadata { id, question, slug, condition_id, outcomes, start_date, end_date })
    }
}

} // verus!
