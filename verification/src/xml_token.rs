//! XML documents read as a flat list of tokens, by the outside XML readers.

use vstd::prelude::*;
use quick_xml::events::BytesStart;
use self::XmlToken::{End, Eof, Failure, Other, Tag, Text};
use quick_xml::events::Event::{Empty as QEmpty, End as QEnd, Eof as QEof, Start as QStart, Text as QText};
use xml::reader::XmlEvent as XrEvent;

verus! {

/// One `key="value"` attribute of a tag, as the reader gives it: key and value.
pub type XmlAttr = (String, String);

/// One event of an XML reader.
#[derive(Debug)]
pub enum XmlToken {
    /// A tag: its name, its attributes, and whether it closes itself (`<a/>`) or opens an element.
    Tag(String, Vec<XmlAttr>, bool),
    /// A closing tag.
    End(String),
    /// Character data.
    Text(String),
    /// An event the library passes over (a comment, a declaration, ...).
    Other,
    /// The end of the document.
    Eof,
    /// The reader failed here, with its message; nothing follows.
    Failure(String),
}

/// The mathematical value of an attribute: key and value texts.
pub type AttrView = (Seq<char>, Seq<char>);

/// The mathematical value of a token.
pub enum TokenView {
    Tag(Seq<char>, Seq<AttrView>, bool),
    End(Seq<char>),
    Text(Seq<char>),
    Other,
    Eof,
    Failure(Seq<char>),
}

/// The views of a list of attributes.
pub open spec fn attrs_view(a: Seq<XmlAttr>) -> Seq<AttrView> {
    a.map_values(|x: XmlAttr| (x.0@, x.1@))
}

impl View for XmlToken {
    type V = TokenView;

    open spec fn view(&self) -> TokenView {
        match self {
            XmlToken::Tag(n, a, e) => TokenView::Tag(n@, attrs_view(a@), *e),
            XmlToken::End(n) => TokenView::End(n@),
            XmlToken::Text(t) => TokenView::Text(t@),
            XmlToken::Other => TokenView::Other,
            XmlToken::Eof => TokenView::Eof,
            XmlToken::Failure(m) => TokenView::Failure(m@),
        }
    }
}

/// The views of a list of tokens.
pub open spec fn tokens_view(t: Seq<XmlToken>) -> Seq<TokenView> {
    t.map_values(|x: XmlToken| x@)
}

/// The events quick-xml's `Reader::from_str` gives for a document (text trimmed when `trim`),
/// up to and including its `Eof` or its first error.
pub uninterp spec fn quick_xml_tokens(xml: Seq<char>, trim: bool) -> Seq<TokenView>;

/// The events a quick-xml reader has still to give, up to and including `Eof` or the first error.
pub uninterp spec fn qx_pending(r: quick_xml::Reader<&[u8]>) -> Seq<TokenView>;

/// The events xml-rs's `EventReader::from_str` gives for a document, up to and including the end
/// of the document or its first error.
pub uninterp spec fn xml_rs_tokens(xml: Seq<char>) -> Seq<TokenView>;


/// Whether a token ends a token list.
pub open spec fn is_last_token(t: TokenView) -> bool {
    t is Eof || t is Failure
}

/// A token list that ends with its only `Eof` or `Failure`.
pub open spec fn well_ended(ts: Seq<TokenView>) -> bool {
    &&& ts.len() > 0
    &&& is_last_token(ts.last())
    &&& forall|i: int| 0 <= i < ts.len() - 1 ==> !is_last_token(#[trigger] ts[i])
}

#[verifier::external_type_specification]
#[verifier::external_body]
#[verifier::reject_recursive_types(R)]
pub struct ExQxReader<R>(quick_xml::Reader<R>);

/// quick-xml's `Reader::from_str` with `trim_text(trim)`. Trusted: the reader has the events of
/// `quick_xml_tokens(xml, trim)` to give, which end with their only end-of-file or error event.
#[verifier::external_body]
fn qx_reader(xml: &str, trim: bool) -> (r: quick_xml::Reader<&[u8]>)
    ensures
        qx_pending(r) == quick_xml_tokens(xml@, trim),
        well_ended(qx_pending(r)),
{
    let mut rd = quick_xml::Reader::from_str(xml);
    rd.trim_text(trim);
    rd
}

/// quick-xml's `Reader::read_event`, one event converted. Trusted: the token is the first pending
/// event and the reader then has the rest; start and empty tags carry the tag name and the
/// well-formed attributes with their raw (not unescaped) values, text its unescaped content
/// (text that cannot be unescaped comes as `Other`); comments, declarations and CDATA come as
/// `Other`.
#[verifier::external_body]
fn qx_next(rd: &mut quick_xml::Reader<&[u8]>) -> (t: XmlToken)
    ensures
        qx_pending(*old(rd)).len() > 0 ==> t@ == qx_pending(*old(rd))[0]
            && qx_pending(*final(rd)) == qx_pending(*old(rd)).drop_first(),
{
    let s = |b: &_| String::from_utf8_lossy(b).into_owned();
    let tag = |e: BytesStart, z| Tag(s(e.name().0),
        e.attributes().flatten().map(|a| (s(a.key.0), s(&a.value))).collect(), z);
    match rd.read_event() {
        Ok(QStart(e)) => tag(e, false),
        Ok(QEmpty(e)) => tag(e, true),
        Ok(QEnd(e)) => End(s(&e)),
        Ok(QText(e)) => e.unescape().map_or(Other, |t| Text(t.into_owned())),
        Ok(QEof) => Eof,
        Ok(_) => Other,
        Err(e) => Failure(e.to_string()),
    }
}

/// Reads a whole document with quick-xml: its events, up to and including the end or the first error.
pub fn read_quick_xml(xml: &str, trim: bool) -> (r: Vec<XmlToken>)
    ensures
        tokens_view(r@) == quick_xml_tokens(xml@, trim),
{
    let mut rd = qx_reader(xml, trim);
    let ghost all = quick_xml_tokens(xml@, trim);
    let mut out: Vec<XmlToken> = Vec::new();
    loop
        invariant
            all == quick_xml_tokens(xml@, trim),
            well_ended(all),
            out@.len() < all.len(),
            tokens_view(out@) == all.take(out@.len() as int),
            qx_pending(rd) == all.skip(out@.len() as int),
        decreases all.len() - out@.len(),
    {
        let t = qx_next(&mut rd);
        let last = match &t {
            XmlToken::Eof => true,
            XmlToken::Failure(_) => true,
            _ => false,
        };
        let ghost k = out@.len() as int;
        out.push(t);
        proof {
            assert(all.skip(k)[0] == all[k]);
            assert(tokens_view(out@) =~= all.take(k + 1));
            assert(all.skip(k).drop_first() =~= all.skip(k + 1));
        }
        if last {
            proof {
                assert(is_last_token(all[k]));
                assert(k == all.len() - 1);
                assert(all.take(k + 1) =~= all);
            }
            return out;
        }
    }
}

/// xml-rs's `EventReader::from_str`, iterated: each event converted, one for one. xml-rs's
/// iterator gives the end of the document or the first error once and then stops. Trusted: the
/// tokens are `xml_rs_tokens(xml)`; a start tag carries its qualified name and its attributes
/// (namespace declarations are not attributes), an end tag its name, character data its text,
/// the end of the document is `Eof`, an error `Failure` with its message, and every other event
/// (whitespace-only text, comments, declarations, CDATA) `Other`.
#[verifier::external_body]
fn xml_rs_events(xml: &str) -> (r: Vec<XmlToken>)
    ensures
        tokens_view(r@) == xml_rs_tokens(xml@),
{
    xml::reader::EventReader::from_str(xml).into_iter().map(|ev| match ev {
        Ok(XrEvent::StartElement { name, attributes, .. }) => XmlToken::Tag(name.borrow().to_repr(),
            attributes.into_iter().map(|a| (a.name.borrow().to_repr(), a.value)).collect(), false),
        Ok(XrEvent::EndElement { name }) => XmlToken::End(name.borrow().to_repr()),
        Ok(XrEvent::Characters(t)) => XmlToken::Text(t),
        Ok(XrEvent::EndDocument) => XmlToken::Eof,
        Ok(_) => XmlToken::Other,
        Err(e) => XmlToken::Failure(e.to_string()),
    }).collect()
}

/// A token list without its `Other` events.
pub open spec fn without_others(ts: Seq<TokenView>) -> Seq<TokenView>
    decreases ts.len(),
{
    if ts.len() == 0 {
        ts
    } else if ts.last() is Other {
        without_others(ts.drop_last())
    } else {
        without_others(ts.drop_last()).push(ts.last())
    }
}

/// What reading a document with xml-rs gives: its events up to and including the end of the
/// document or the first error, without the events the library passes over.
pub open spec fn xml_rs_read(xml: Seq<char>) -> Seq<TokenView> {
    without_others(xml_rs_tokens(xml))
}

/// Reads a whole document with xml-rs: its events up to the end or the first error, leaving out
/// whitespace-only text, comments, declarations and CDATA.
pub fn read_xml_rs(xml: &str) -> (r: Vec<XmlToken>)
    ensures
        tokens_view(r@) == xml_rs_read(xml@),
{
    let events = xml_rs_events(xml);
    let ghost all = tokens_view(events@);
    let mut out: Vec<XmlToken> = Vec::new();
    let mut rest = events;
    // turn the list round, so that popping gives the events in order
    let mut rev: Vec<XmlToken> = Vec::new();
    while rest.len() > 0
        invariant
            tokens_view(rev@) == all.skip(rest@.len() as int).reverse(),
            tokens_view(rest@) == all.take(rest@.len() as int),
            rest@.len() <= all.len(),
        decreases rest@.len(),
    {
        let ghost n = rest@.len() as int;
        let t = rest.pop().unwrap();
        let ghost prev = rev@;
        rev.push(t);
        proof {
            assert(tokens_view(rest@) =~= all.take(n - 1));
            assert(all.take(n)[n - 1] == all[n - 1]);
            assert(tokens_view(rev@) =~= tokens_view(prev).push(all[n - 1]));
            assert(all.skip(n - 1) =~= seq![all[n - 1]] + all.skip(n));
            assert(all.skip(n - 1).reverse() =~= all.skip(n).reverse().push(all[n - 1]));
        }
    }
    proof {
        assert(all.skip(0) =~= all);
        assert(all.reverse().len() == all.len());
        assert(tokens_view(rev@).len() == rev@.len());
        assert(all.take(0) =~= Seq::<TokenView>::empty());
    }
    let n = rev.len();
    let mut k: usize = 0;
    while rev.len() > 0
        invariant
            k + rev@.len() == all.len(),
            all.len() == n,
            tokens_view(rev@) == all.skip(k as int).reverse(),
            tokens_view(out@) == without_others(all.take(k as int)),
        decreases rev@.len(),
    {
        let t = rev.pop().unwrap();
        proof {
            assert(all.skip(k as int).reverse().last() == all[k as int]);
            assert(t@ == all[k as int]);
            assert(all.skip(k + 1).reverse() =~= all.skip(k as int).reverse().drop_last());
            assert(all.take(k + 1).drop_last() =~= all.take(k as int));
        }
        let keep = match &t {
            XmlToken::Other => false,
            _ => true,
        };
        if keep {
            let ghost prev = out@;
            out.push(t);
            proof {
                assert(tokens_view(out@) =~= tokens_view(prev).push(all[k as int]));
            }
        }
        k = k + 1;
    }
    proof {
        assert(all.take(k as int) =~= all);
    }
    out
}

} // verus!
