//! Content sniffing: from the leading bytes of a stream, decide whether it is
//! safe to print as text.
use vstd::prelude::*;

verus! {

/// Coarse content category of a stream, decided from its leading bytes.
#[derive(Debug, Clone, Copy, PartialEq, Eq, Structural)]
pub enum ContentCategory {
    /// A recognised text-like format: plain text, markdown, CSV, JSON or XML.
    PreviewableText,
    /// No signature matched; rendered anyway.
    Unknown,
    /// A recognised binary format; not rendered.
    NonPreviewable,
}

/// The MIME label that signature matching gives a window, if any signature
/// matches.
pub uninterp spec fn sniffed_mime(window: Seq<u8>) -> Option<Seq<char>>;

/// The view of an optional owned string.
pub open spec fn label_view(m: Option<String>) -> Option<Seq<char>> {
    match m {
        Some(s) => Some(s@),
        None => None,
    }
}

/// Relies on `infer::get` and `infer::Type::mime_type`: signature matching
/// over the window, whose label depends on the bytes alone; no signature
/// matches an empty window.
#[verifier::external_body]
pub(crate) fn sniff_label(window: &[u8]) -> (r: Option<String>)
    ensures
        label_view(r) == sniffed_mime(window@),
        window@.len() == 0 ==> r is None,
{
    infer::get(window).map(|t| String::from(t.mime_type()))
}

/// The labels that count as text.
pub open spec fn is_text_label(m: Seq<char>) -> bool {
    ||| m == "text/plain"@
    ||| m == "text/markdown"@
    ||| m == "text/csv"@
    ||| m == "application/json"@
    ||| m == "application/xml"@
    ||| m == "text/xml"@
}

/// The category of a sniffing outcome.
pub open spec fn category_of(mime: Option<Seq<char>>) -> ContentCategory {
    match mime {
        None => ContentCategory::Unknown,
        Some(m) => if is_text_label(m) {
            ContentCategory::PreviewableText
        } else {
            ContentCategory::NonPreviewable
        },
    }
}

/// The category of the window's leading bytes.
pub open spec fn classify_spec(window: Seq<u8>) -> ContentCategory {
    category_of(sniffed_mime(window))
}

/// Whether a stream of this category is rendered at all.
pub open spec fn is_rendered(c: ContentCategory) -> bool {
    c != ContentCategory::NonPreviewable
}

/// True when the two strings hold the same characters.
pub(crate) fn same_text(a: &str, b: &str) -> (r: bool)
    ensures
        r == (a@ == b@),
{
    a.to_owned() == b.to_owned()
}

/// The category of a sniffing outcome: `None` is unknown, one of the text
/// labels is previewable text, any other label is a binary format.
pub fn category_of_mime(mime: Option<&str>) -> (r: ContentCategory)
    ensures
        r == category_of(
            match mime {
                Some(m) => Some(m@),
                None => None,
            },
        ),
{
    match mime {
        None => ContentCategory::Unknown,
        Some(m) => {
            if same_text(m, "text/plain") || same_text(m, "text/markdown") || same_text(m, "text/csv")
                || same_text(m, "application/json") || same_text(m, "application/xml")
                || same_text(m, "text/xml") {
                ContentCategory::PreviewableText
            } else {
                ContentCategory::NonPreviewable
            }
        },
    }
}

/// Classifies a window of leading bytes by signature matching.
pub fn classify(window: &[u8]) -> (r: ContentCategory)
    ensures
        r == classify_spec(window@),
        window@.len() == 0 ==> r == ContentCategory::Unknown,
{
    let label = sniff_label(window);
    match label {
        Some(s) => category_of_mime(Some(s.as_str())),
        None => category_of_mime(None),
    }
}

/// Classification is a function of the window alone: two calls on equal
/// windows give the same category.
pub proof fn lemma_classify_deterministic(w1: Seq<u8>, w2: Seq<u8>)
    requires
        w1 == w2,
    ensures
        classify_spec(w1) == classify_spec(w2),
{
}

/// A window that no signature matches is rendered, not rejected.
pub proof fn lemma_unknown_is_rendered(window: Seq<u8>)
    requires
        sniffed_mime(window) is None,
    ensures
        is_rendered(classify_spec(window)),
{
}

} // verus!
