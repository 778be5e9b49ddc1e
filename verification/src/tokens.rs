//! The typed token stream of one document.
//!
//! A markup parser is taken as a capability that turns a document's content
//! into a flat sequence of typed events; the checker only needs heading
//! boundaries, text-bearing tokens and link or image targets, so every other
//! event is kept as an opaque `Other` token.

use vstd::prelude::*;

use pulldown_cmark::Event::{Code, End, Start, Text};
use pulldown_cmark::Parser;
use pulldown_cmark::Tag::{Heading, Image, Link};

verus! {

/// Whether a target token is a link or an image.
#[derive(Clone, Copy, PartialEq, Eq, Structural, Debug)]
pub enum LinkKind {
    Link,
    Image,
}

/// One typed token of a document's parsed event stream.
#[derive(Debug)]
pub enum Token {
    /// A heading opens.
    HeadingStart,
    /// A heading closes.
    HeadingEnd,
    /// A plain text node.
    Text(Vec<u8>),
    /// An inline code node.
    Code(Vec<u8>),
    /// A link or image opens; the fields are the kind and the raw
    /// destination.
    LinkStart(LinkKind, Vec<u8>),
    /// Any other event; carried only so that the stream keeps its shape.
    Other,
}

/// The mathematical model of one token.
pub enum TokenView {
    HeadingStart,
    HeadingEnd,
    Text(Seq<u8>),
    Code(Seq<u8>),
    LinkStart(LinkKind, Seq<u8>),
    Other,
}

impl View for Token {
    type V = TokenView;

    open spec fn view(&self) -> TokenView {
        match self {
            Token::HeadingStart => TokenView::HeadingStart,
            Token::HeadingEnd => TokenView::HeadingEnd,
            Token::Text(t) => TokenView::Text(t@),
            Token::Code(t) => TokenView::Code(t@),
            Token::LinkStart(k, d) => TokenView::LinkStart(*k, d@),
            Token::Other => TokenView::Other,
        }
    }
}

/// The model of a whole token stream.
pub open spec fn tokens_view(s: Seq<Token>) -> Seq<TokenView> {
    s.map_values(|t: Token| t@)
}

/// The token stream that parsing a given content yields; parsing is
/// deterministic, so the stream is a function of the content alone.
pub uninterp spec fn tokens_of(content: Seq<u8>) -> Seq<TokenView>;

/// Relies on `pulldown_cmark::Parser`: it parses the content into an event
/// stream, a pure function of the content alone, yielded in document order.
#[verifier::external_body]
pub(crate) fn parse_tokens(content: &[u8]) -> (r: Vec<Token>)
    ensures
        tokens_view(r@) == tokens_of(content@),
{
    let mut out: Vec<Token> = Vec::new();
    for ev in Parser::new(&String::from_utf8_lossy(content)) {
        out.push(match ev {
            Start(Heading(_, _, _)) => Token::HeadingStart,
            End(Heading(_, _, _)) => Token::HeadingEnd,
            Text(t) => Token::Text(t.into_string().into_bytes()),
            Code(t) => Token::Code(t.into_string().into_bytes()),
            Start(Link(_, d, _)) => Token::LinkStart(LinkKind::Link, d.into_string().into_bytes()),
            Start(Image(_, d, _)) => Token::LinkStart(LinkKind::Image, d.into_string().into_bytes()),
            _ => Token::Other,
        });
    }
    out
}

} // verus!
