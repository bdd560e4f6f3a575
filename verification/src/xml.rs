//! The boundary to the markup reader.
//!
//! Reading markup text into tokens is the work of the `quick_xml` crate. This
//! module holds what the rest of the library needs from it: a token type made
//! of plain strings, the few calls into the crate, and the loop that drains a
//! reader into a vector.

use quick_xml::events::attributes::Attributes;
use quick_xml::events::Event;
use quick_xml::Reader;
use vstd::prelude::*;

verus! {

/// One lexical unit of markup text.
#[derive(Debug)]
pub enum Token {
    /// A start tag: the element's name and the raw text of its attributes.
    Open { name: String, attrs: String },
    /// An end tag.
    Close,
    /// Character data between tags, still in its escaped form.
    Text(String),
    /// A character data section, which holds no escapes.
    CData(String),
    /// A comment, a declaration, a processing instruction or a document type.
    Skip,
    /// The place at which the reader gave up.
    Invalid,
}

/// The mathematical value of a [`Token`].
pub enum TokenView {
    Open { name: Seq<char>, attrs: Seq<char> },
    Close,
    Text(Seq<char>),
    CData(Seq<char>),
    Skip,
    Invalid,
}

impl View for Token {
    type V = TokenView;

    open spec fn view(&self) -> TokenView {
        match self {
            Token::Open { name, attrs } => TokenView::Open { name: name@, attrs: attrs@ },
            Token::Close => TokenView::Close,
            Token::Text(s) => TokenView::Text(s@),
            Token::CData(s) => TokenView::CData(s@),
            Token::Skip => TokenView::Skip,
            Token::Invalid => TokenView::Invalid,
        }
    }
}

/// The values of a run of tokens.
pub open spec fn token_views(tokens: Seq<Token>) -> Seq<TokenView> {
    tokens.map_values(|t: Token| t@)
}

/// One attribute of a start tag.
#[derive(Debug)]
pub struct Attr {
    pub key: String,
    pub value: String,
}

impl View for Attr {
    type V = (Seq<char>, Seq<char>);

    open spec fn view(&self) -> (Seq<char>, Seq<char>) {
        (self.key@, self.value@)
    }
}

/// The values of a run of attributes.
pub open spec fn attr_views(attrs: Seq<Attr>) -> Seq<(Seq<char>, Seq<char>)> {
    attrs.map_values(|a: Attr| a@)
}

/// The reader of `quick_xml`, `quick_xml::Reader`. The library carries a
/// reader from call to call and looks at nothing inside it.
#[verifier::external_type_specification]
#[verifier::external_body]
#[verifier::reject_recursive_types(R)]
pub struct ExReader<R>(Reader<R>);

/// The tokens that `quick_xml` reads from `text` when text is trimmed and
/// empty elements are expanded into a start and an end tag.
pub uninterp spec fn xml_tokens(text: Seq<char>) -> Seq<TokenView>;

/// The tokens that a reader has not handed out yet: what its calls will
/// return, in order, up to the end of the input or to the place at which it
/// gives up.
pub uninterp spec fn pending_tokens(reader: Reader<&[u8]>) -> Seq<TokenView>;

/// The attributes that `quick_xml` finds in the raw attribute text of a start
/// tag, with their values unescaped; `None` where it reports an error.
pub uninterp spec fn xml_attributes(raw: Seq<char>) -> Option<Seq<(Seq<char>, Seq<char>)>>;

/// `raw` with its character and entity references resolved by `quick_xml`;
/// `None` where it reports an error.
pub uninterp spec fn xml_unescaped(raw: Seq<char>) -> Option<Seq<char>>;

/// Calls `Reader::from_str`, and on the new reader `Reader::trim_text(true)`
/// and `Reader::expand_empty_elements(true)`. The contract gives the tokens
/// of the fresh reader their name: nothing is claimed of them but that they
/// depend on the text alone.
#[verifier::external_body]
fn open_reader<'a>(text: &'a str) -> (reader: Reader<&'a [u8]>)
    ensures
        pending_tokens(reader) == xml_tokens(text@),
{
    let mut reader = Reader::from_str(text);
    reader.trim_text(true);
    reader.expand_empty_elements(true);
    reader
}

/// Calls `Reader::read_event` and copies what the event holds into a
/// [`Token`]. The contract claims that the reader hands out its pending
/// tokens one by one, in order, and returns `None` once none is left. An
/// error of the reader is the token [`Token::Invalid`]; after it, as after
/// the end of the input, `quick_xml` reports the end on every call.
#[verifier::external_body]
fn read_token(reader: &mut Reader<&[u8]>) -> (token: Option<Token>)
    ensures
        token matches Some(t) ==> pending_tokens(*old(reader)).len() > 0
            && t@ == pending_tokens(*old(reader)).first()
            && pending_tokens(*final(reader)) == pending_tokens(*old(reader)).drop_first(),
        token is None ==> pending_tokens(*old(reader)).len() == 0,
{
    match reader.read_event() {
        Ok(Event::Start(e)) => Some(Token::Open {
            name: String::from_utf8_lossy(e.name().as_ref()).into_owned(),
            attrs: String::from_utf8_lossy(e.attributes_raw()).into_owned(),
        }),
        Ok(Event::End(_)) => Some(Token::Close),
        Ok(Event::Text(t)) => Some(Token::Text(String::from_utf8_lossy(&t).into_owned())),
        Ok(Event::CData(t)) => Some(Token::CData(String::from_utf8_lossy(&t).into_owned())),
        Ok(Event::Eof) => None,
        Ok(_) => Some(Token::Skip),
        Err(_) => Some(Token::Invalid),
    }
}

/// Iterates `Attributes::new(raw, 0)` and copies each attribute's key and
/// unescaped value (`Attribute::unescape_value`). The contract names the
/// result; `None` stands for the first error that the iterator or the
/// unescaping reports.
#[verifier::external_body]
pub(crate) fn read_attributes(raw: &str) -> (attrs: Option<Vec<Attr>>)
    ensures
        attrs matches Some(v) ==> xml_attributes(raw@) == Some(attr_views(v@)),
        attrs is None ==> xml_attributes(raw@) is None,
{
    let mut out = Vec::new();
    for item in Attributes::new(raw, 0) {
        let attr = item.ok()?;
        let key = String::from_utf8_lossy(attr.key.as_ref()).into_owned();
        out.push(Attr { key, value: attr.unescape_value().ok()?.into_owned() });
    }
    Some(out)
}

/// Calls `quick_xml::escape::unescape`. The contract names the result;
/// `None` stands for an error.
#[verifier::external_body]
pub(crate) fn unescape(raw: &str) -> (text: Option<String>)
    ensures
        text matches Some(s) ==> xml_unescaped(raw@) == Some(s@),
        text is None ==> xml_unescaped(raw@) is None,
{
    match quick_xml::escape::unescape(raw) {
        Ok(s) => Some(s.into_owned()),
        Err(_) => None,
    }
}

/// Reads markup text into its tokens.
pub fn tokenize(text: &str) -> (tokens: Vec<Token>)
    ensures
        token_views(tokens@) == xml_tokens(text@),
{
    let mut reader = open_reader(text);
    let mut tokens: Vec<Token> = Vec::new();
    loop
        invariant_except_break
            token_views(tokens@) + pending_tokens(reader) == xml_tokens(text@),
        ensures
            token_views(tokens@) == xml_tokens(text@),
        decreases pending_tokens(reader).len(),
    {
        let ghost before = tokens@;
        let ghost rest = pending_tokens(reader);
        match read_token(&mut reader) {
            Some(t) => {
                tokens.push(t);
                assert(token_views(tokens@) =~= token_views(before).push(rest.first()));
                assert(token_views(tokens@) + rest.drop_first() =~= token_views(before) + rest);
            },
            None => {
                assert(token_views(tokens@) + rest =~= token_views(tokens@));
                break ;
            },
        }
    }
    tokens
}

} // verus!
