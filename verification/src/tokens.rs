//! The document model the extractor works on: a pre-order walk of the
//! parsed HTML tree, one token per element boundary or text node. The walk
//! itself comes from the HTML parser; everything downstream of it is
//! verified against this token sequence.
use vstd::prelude::*;

verus! {

/// One event of a pre-order walk over the parsed document tree. An element
/// contributes an opening token carrying its tag name and class list, then
/// the tokens of its contents, then one closing token; a text node
/// contributes a single text token.
#[derive(Debug, Clone)]
pub enum HtmlToken {
    Open { tag: String, classes: Vec<String> },
    Close,
    Text { text: String },
}

/// The mathematical shape of one walk event.
pub enum HtmlTokenV {
    Open { tag: Seq<char>, classes: Seq<Seq<char>> },
    Close,
    Text { text: Seq<char> },
}

impl DeepView for HtmlToken {
    type V = HtmlTokenV;

    open spec fn deep_view(&self) -> HtmlTokenV {
        match self {
            HtmlToken::Open { tag, classes } => HtmlTokenV::Open {
                tag: tag@,
                classes: classes.deep_view(),
            },
            HtmlToken::Close => HtmlTokenV::Close,
            HtmlToken::Text { text } => HtmlTokenV::Text { text: text@ },
        }
    }
}

/// The walk of the tree that the HTML parser builds for a given document
/// text. The parse is best-effort and total: every input, however
/// malformed, has a token sequence.
pub uninterp spec fn html_tokens(s: Seq<char>) -> Seq<HtmlTokenV>;

/// Relies on scraper::Html::parse_document for the tolerant HTML parse and
/// on the depth-first traversal of ego_tree for the walk over the resulting
/// tree from its root element: each element node yields an opening token
/// with its tag name and its classes (the class attribute split on
/// whitespace, sorted and deduplicated, so good for membership alone) and a
/// closing token at the matching close edge; each text node yields a text
/// token; other node kinds yield nothing. Both the parse and the walk
/// depend on the document text alone.
#[verifier::external_body]
pub fn tokenize(html: &str) -> (r: Vec<HtmlToken>)
    ensures
        r.deep_view() == html_tokens(html@),
{
    let document = scraper::Html::parse_document(html);
    document.root_element().traverse().filter_map(|edge| match edge {
        ego_tree::iter::Edge::Open(node) => match node.value() {
            scraper::Node::Element(el) => Some(HtmlToken::Open {
                tag: el.name().to_string(),
                classes: el.classes().map(|c| c.to_string()).collect(),
            }),
            scraper::Node::Text(t) => Some(HtmlToken::Text { text: String::from(&**t) }),
            _ => None,
        },
        ego_tree::iter::Edge::Close(node) => match node.value() {
            scraper::Node::Element(_) => Some(HtmlToken::Close),
            _ => None,
        },
    }).collect()
}

} // verus!
