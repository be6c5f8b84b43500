//! Event sources: the built-in clock and configured MQTT, HTTP or file feeds, with their XML form.

use vstd::prelude::*;
use crate::rule::{attr_xml, push, push_attr, text_of, DocError, DocErrorView};
use crate::text::{
    i64_to_string, lowercase, parse_i64, parse_i64_spec, signed_decimal, str_eq, to_lowercase,
};
use crate::xml_token::{attrs_view, quick_xml_tokens, read_quick_xml, tokens_view, AttrView, TokenView, XmlAttr, XmlToken};

verus! {

/// Kind of an event source.
#[derive(Debug, Clone, Copy, PartialEq, Eq, Structural)]
pub enum SourceType {
    Mqtt,
    Http,
    File,
    Internal,
}

/// The attribute text of a source type.
pub open spec fn source_type_text(t: SourceType) -> Seq<char> {
    match t {
        SourceType::Mqtt => "mqtt"@,
        SourceType::Http => "http"@,
        SourceType::File => "file"@,
        SourceType::Internal => "internal"@,
    }
}

/// The source type an exact (already lowercased) text names.
pub open spec fn source_type_from_text(t: Seq<char>) -> Option<SourceType> {
    if t == "mqtt"@ {
        Some(SourceType::Mqtt)
    } else if t == "http"@ {
        Some(SourceType::Http)
    } else if t == "file"@ {
        Some(SourceType::File)
    } else if t == "internal"@ {
        Some(SourceType::Internal)
    } else {
        None
    }
}

impl SourceType {
    /// The XML attribute value of this type.
    pub fn as_str(&self) -> (r: &'static str)
        ensures
            r@ == source_type_text(*self),
    {
        match self {
            SourceType::Mqtt => "mqtt",
            SourceType::Http => "http",
            SourceType::File => "file",
            SourceType::Internal => "internal",
        }
    }

    /// The type named by a text already in lower case.
    pub fn from_lowercase(t: &str) -> (r: Option<SourceType>)
        ensures
            r == source_type_from_text(t@),
    {
        if str_eq(t, "mqtt") {
            Some(SourceType::Mqtt)
        } else if str_eq(t, "http") {
            Some(SourceType::Http)
        } else if str_eq(t, "file") {
            Some(SourceType::File)
        } else if str_eq(t, "internal") {
            Some(SourceType::Internal)
        } else {
            None
        }
    }

    /// Parses a source type, ignoring case.
    pub fn from_str(s: &str) -> (r: Option<SourceType>)
        ensures
            r == source_type_from_text(lowercase(s@)),
    {
        let l = to_lowercase(s);
        SourceType::from_lowercase(l.as_str())
    }
}

/// Format of the data a source delivers.
#[derive(Debug, Clone, Copy, PartialEq, Eq, Structural)]
pub enum DataFormat {
    Json,
    Csv,
    Text,
}

/// The attribute text of a data format.
pub open spec fn format_text(f: DataFormat) -> Seq<char> {
    match f {
        DataFormat::Json => "json"@,
        DataFormat::Csv => "csv"@,
        DataFormat::Text => "text"@,
    }
}

/// The data format an exact (already lowercased) text names.
pub open spec fn format_from_text(t: Seq<char>) -> Option<DataFormat> {
    if t == "json"@ {
        Some(DataFormat::Json)
    } else if t == "csv"@ {
        Some(DataFormat::Csv)
    } else if t == "text"@ {
        Some(DataFormat::Text)
    } else {
        None
    }
}

impl DataFormat {
    /// The XML attribute value of this format.
    pub fn as_str(&self) -> (r: &'static str)
        ensures
            r@ == format_text(*self),
    {
        match self {
            DataFormat::Json => "json",
            DataFormat::Csv => "csv",
            DataFormat::Text => "text",
        }
    }

    /// The format named by a text already in lower case.
    pub fn from_lowercase(t: &str) -> (r: Option<DataFormat>)
        ensures
            r == format_from_text(t@),
    {
        if str_eq(t, "json") {
            Some(DataFormat::Json)
        } else if str_eq(t, "csv") {
            Some(DataFormat::Csv)
        } else if str_eq(t, "text") {
            Some(DataFormat::Text)
        } else {
            None
        }
    }

    /// Parses a data format, ignoring case.
    pub fn from_str(s: &str) -> (r: Option<DataFormat>)
        ensures
            r == format_from_text(lowercase(s@)),
    {
        let l = to_lowercase(s);
        DataFormat::from_lowercase(l.as_str())
    }
}

/// A source of events.
#[derive(Debug)]
pub struct EventSource {
    pub id: String,
    pub name: String,
    pub source_type: SourceType,
    /// Broker URL, HTTP URL or file path.
    pub endpoint: Option<String>,
    /// MQTT topic or HTTP path.
    pub topic: Option<String>,
    pub format: Option<DataFormat>,
    /// Polling interval in milliseconds (HTTP and file sources).
    pub poll_interval_ms: Option<i64>,
}

/// The mathematical value of an event source.
pub struct SourceView {
    pub id: Seq<char>,
    pub name: Seq<char>,
    pub source_type: SourceType,
    pub endpoint: Option<Seq<char>>,
    pub topic: Option<Seq<char>>,
    pub format: Option<DataFormat>,
    pub poll_interval_ms: Option<i64>,
}

/// The view of an optional text.
pub open spec fn opt_text(s: Option<String>) -> Option<Seq<char>> {
    match s {
        Some(t) => Some(t@),
        None => None,
    }
}

impl View for EventSource {
    type V = SourceView;

    open spec fn view(&self) -> SourceView {
        SourceView {
            id: self.id@,
            name: self.name@,
            source_type: self.source_type,
            endpoint: opt_text(self.endpoint),
            topic: opt_text(self.topic),
            format: self.format,
            poll_interval_ms: self.poll_interval_ms,
        }
    }
}

/// The name of the built-in clock source.
pub open spec fn clock_name() -> Seq<char> {
    "系统时钟"@
}

/// The view of the built-in clock source.
pub open spec fn clock_view() -> SourceView {
    SourceView {
        id: "clock"@,
        name: clock_name(),
        source_type: SourceType::Internal,
        endpoint: None,
        topic: None,
        format: None,
        poll_interval_ms: None,
    }
}

/// The required attributes of a `<source>` element: `id`, `name` and `type`.
pub open spec fn source_base_xml(s: SourceView) -> Seq<char> {
    "id=\""@ + crate::text::escape_seq(s.id) + "\""@ + attr_xml("name"@, s.name) + " type=\""@
        + source_type_text(s.source_type) + "\""@
}

/// The optional attributes of a `<source>` element, each led by a space.
pub open spec fn source_opt_xml(s: SourceView) -> Seq<char> {
    opt_attr_xml("endpoint"@, s.endpoint) + opt_attr_xml("topic"@, s.topic) + format_attr_xml(s.format)
        + poll_attr_xml(s.poll_interval_ms)
}

/// An escaped attribute led by a space, when the value is set.
pub open spec fn opt_attr_xml(name: Seq<char>, v: Option<Seq<char>>) -> Seq<char> {
    match v {
        Some(e) => attr_xml(name, e),
        None => Seq::<char>::empty(),
    }
}

/// The `format` attribute led by a space, when set.
pub open spec fn format_attr_xml(f: Option<DataFormat>) -> Seq<char> {
    match f {
        Some(f) => " format=\""@ + format_text(f) + "\""@,
        None => Seq::<char>::empty(),
    }
}

/// The `poll-interval-ms` attribute led by a space, when set.
pub open spec fn poll_attr_xml(p: Option<i64>) -> Seq<char> {
    match p {
        Some(p) => " poll-interval-ms=\""@ + signed_decimal(p as int) + "\""@,
        None => Seq::<char>::empty(),
    }
}

fn push_opt_attr(s: &mut String, name: &str, v: &Option<String>)
    ensures
        final(s)@ == old(s)@ + opt_attr_xml(name@, opt_text(*v)),
{
    match v {
        Some(x) => push_attr(s, name, x.as_str()),
        None => { proof { assert(s@ =~= old(s)@ + Seq::<char>::empty()); } },
    }
}

fn push_format_attr(s: &mut String, f: Option<DataFormat>)
    ensures
        final(s)@ == old(s)@ + format_attr_xml(f),
{
    match f {
        Some(f) => {
            push(s, " format=\"");
            push(s, f.as_str());
            push(s, "\"");
            proof { assert(s@ =~= old(s)@ + format_attr_xml(Some(f))); }
        },
        None => { proof { assert(s@ =~= old(s)@ + Seq::<char>::empty()); } },
    }
}

fn push_poll_attr(s: &mut String, p: Option<i64>)
    ensures
        final(s)@ == old(s)@ + poll_attr_xml(p),
{
    match p {
        Some(p) => {
            push(s, " poll-interval-ms=\"");
            let n = i64_to_string(p);
            push(s, n.as_str());
            push(s, "\"");
            proof { assert(s@ =~= old(s)@ + poll_attr_xml(Some(p))); }
        },
        None => { proof { assert(s@ =~= old(s)@ + Seq::<char>::empty()); } },
    }
}

/// The attributes of a `<source>` element, joined by single spaces.
pub open spec fn source_attrs_xml(s: SourceView) -> Seq<char> {
    source_base_xml(s) + source_opt_xml(s)
}

/// The `<source ... />` line of a source, indented four spaces.
pub open spec fn source_xml(s: SourceView) -> Seq<char> {
    "    <source "@ + source_attrs_xml(s) + " />"@
}

/// The newline-led lines of a list of sources.
pub open spec fn sources_lines(ss: Seq<SourceView>) -> Seq<char>
    decreases ss.len(),
{
    if ss.len() == 0 {
        Seq::empty()
    } else {
        sources_lines(ss.drop_last()) + "\n"@ + source_xml(ss.last())
    }
}

/// A whole sources document: the opening line, one line per source, the closing line.
pub open spec fn sources_doc_xml(open_tag: Seq<char>, ss: Seq<SourceView>) -> Seq<char> {
    open_tag + sources_lines(ss) + "\n</EventSources>"@
}

impl EventSource {
    /// The built-in clock source.
    pub fn clock() -> (s: EventSource)
        ensures
            s@ == clock_view(),
    {
        EventSource {
            id: text_of("clock"),
            name: text_of("系统时钟"),
            source_type: SourceType::Internal,
            endpoint: None,
            topic: None,
            format: None,
            poll_interval_ms: None,
        }
    }

    /// Whether this is the clock source.
    pub fn is_clock(&self) -> (b: bool)
        ensures
            b == (self.id@ == "clock"@),
    {
        str_eq(self.id.as_str(), "clock")
    }

    fn push_base(&self, s: &mut String)
        ensures
            final(s)@ == old(s)@ + source_base_xml(self@),
    {
        push(s, "id=\"");
        let e = crate::text::xml_escape(self.id.as_str());
        push(s, e.as_str());
        push(s, "\"");
        push_attr(s, "name", self.name.as_str());
        push(s, " type=\"");
        push(s, self.source_type.as_str());
        push(s, "\"");
        proof {
            assert(final(s)@ =~= old(s)@ + source_base_xml(self@));
        }
    }

    fn push_optional(&self, s: &mut String)
        ensures
            final(s)@ == old(s)@ + source_opt_xml(self@),
    {
        push_opt_attr(s, "endpoint", &self.endpoint);
        push_opt_attr(s, "topic", &self.topic);
        push_format_attr(s, self.format);
        push_poll_attr(s, self.poll_interval_ms);
        proof {
            assert(final(s)@ =~= old(s)@ + source_opt_xml(self@));
        }
    }

    /// Serialises the source as one self-closing `<source />` element.
    pub fn to_xml_element(&self) -> (r: String)
        ensures
            r@ == source_xml(self@),
    {
        let mut s = text_of("    <source ");
        self.push_base(&mut s);
        self.push_optional(&mut s);
        push(&mut s, " />");
        proof {
            assert(s@ =~= source_xml(self@));
        }
        s
    }
}

fn copy_opt(s: &Option<String>) -> (r: Option<String>)
    ensures
        opt_text(r) == opt_text(*s),
{
    match s {
        Some(t) => Some(t.clone()),
        None => None,
    }
}

impl Clone for EventSource {
    fn clone(&self) -> (r: Self)
        ensures
            r@ == self@,
    {
        EventSource {
            id: self.id.clone(),
            name: self.name.clone(),
            source_type: self.source_type,
            endpoint: copy_opt(&self.endpoint),
            topic: copy_opt(&self.topic),
            format: self.format,
            poll_interval_ms: self.poll_interval_ms,
        }
    }
}

/// A set of event sources.
#[derive(Debug)]
pub struct EventSources {
    pub sources: Vec<EventSource>,
}

/// The views of a list of sources.
pub open spec fn sources_view(ss: Seq<EventSource>) -> Seq<SourceView> {
    ss.map_values(|s: EventSource| s@)
}

impl EventSources {
    /// The source set holding only the clock.
    pub fn default_with_clock() -> (r: EventSources)
        ensures
            sources_view(r.sources@) == seq![clock_view()],
    {
        let mut v: Vec<EventSource> = Vec::new();
        v.push(EventSource::clock());
        proof {
            assert(sources_view(v@) =~= seq![clock_view()]);
        }
        EventSources { sources: v }
    }

    fn doc(&self, s: String) -> (r: String)
        ensures
            r@ == sources_doc_xml(s@, sources_view(self.sources@)),
    {
        let mut s = s;
        let ghost start = s@;
        let mut i: usize = 0;
        proof {
            assert(sources_view(self.sources@).take(0) =~= Seq::<SourceView>::empty());
            assert(s@ =~= start + sources_lines(Seq::<SourceView>::empty()));
        }
        while i < self.sources.len()
            invariant
                i <= self.sources@.len(),
                s@ == start + sources_lines(sources_view(self.sources@).take(i as int)),
            decreases self.sources.len() - i,
        {
            push(&mut s, "\n");
            let e = self.sources[i].to_xml_element();
            push(&mut s, e.as_str());
            proof {
                let t = sources_view(self.sources@).take(i + 1);
                assert(t.drop_last() =~= sources_view(self.sources@).take(i as int));
                assert(s@ =~= start + sources_lines(t));
            }
            i = i + 1;
        }
        proof {
            assert(sources_view(self.sources@).take(self.sources@.len() as int) =~= sources_view(self.sources@));
        }
        push(&mut s, "\n</EventSources>");
        proof {
            assert(s@ =~= sources_doc_xml(start, sources_view(self.sources@)));
        }
        s
    }

    /// Serialises the source set: lines joined by newlines.
    pub fn to_xml(&self) -> (r: String)
        ensures
            r@ == sources_doc_xml("<EventSources xmlns:x=\"/nop/schema/xdsl.xdef\">"@, sources_view(self.sources@)),
    {
        self.doc(text_of("<EventSources xmlns:x=\"/nop/schema/xdsl.xdef\">"))
    }

    /// Serialises the source set as a delta extending `extends_file`.
    pub fn to_delta_xml(&self, extends_file: &str) -> (r: String)
        ensures
            r@ == sources_doc_xml(
                "<EventSources xmlns:x=\"/nop/schema/xdsl.xdef\""@ + attr_xml("x:extends"@, extends_file@) + ">"@,
                sources_view(self.sources@),
            ),
    {
        let mut s = text_of("<EventSources xmlns:x=\"/nop/schema/xdsl.xdef\"");
        push_attr(&mut s, "x:extends", extends_file);
        push(&mut s, ">");
        self.doc(s)
    }
}

// ---------------------------------------------------------------------------
// Reading sources back
// ---------------------------------------------------------------------------

/// A source with one raw attribute read, or the error it raises.
pub open spec fn source_set_attr(s: SourceView, key: Seq<char>, v: Seq<char>) -> Result<SourceView, DocErrorView> {
    if key == "id"@ {
        Ok(SourceView { id: v, ..s })
    } else if key == "name"@ {
        Ok(SourceView { name: v, ..s })
    } else if key == "type"@ {
        match source_type_from_text(lowercase(v)) {
            Some(t) => Ok(SourceView { source_type: t, ..s }),
            None => Err(DocErrorView::InvalidSourceType(v)),
        }
    } else if key == "endpoint"@ {
        Ok(SourceView { endpoint: Some(v), ..s })
    } else if key == "topic"@ {
        Ok(SourceView { topic: Some(v), ..s })
    } else if key == "format"@ {
        match format_from_text(lowercase(v)) {
            Some(f) => Ok(SourceView { format: Some(f), ..s }),
            None => Err(DocErrorView::InvalidFormat(v)),
        }
    } else if key == "poll-interval-ms"@ {
        match parse_i64_spec(v) {
            Some(n) => Ok(SourceView { poll_interval_ms: Some(n as i64), ..s }),
            None => Err(DocErrorView::InvalidNumber(v)),
        }
    } else {
        Ok(s)
    }
}

/// The source an attribute list gives before the checks of `id` and `name`.
pub open spec fn source_attrs_fold(attrs: Seq<AttrView>) -> Result<SourceView, DocErrorView>
    decreases attrs.len(),
{
    if attrs.len() == 0 {
        Ok(SourceView {
            id: Seq::empty(),
            name: Seq::empty(),
            source_type: SourceType::Internal,
            endpoint: None,
            topic: None,
            format: None,
            poll_interval_ms: None,
        })
    } else {
        match source_attrs_fold(attrs.drop_last()) {
            Ok(s) => source_set_attr(s, attrs.last().0, attrs.last().1),
            Err(e) => Err(e),
        }
    }
}

/// The source a `<source>` element's attributes describe: `id` and `name` must be non-empty.
pub open spec fn source_from_attrs(attrs: Seq<AttrView>) -> Result<SourceView, DocErrorView> {
    match source_attrs_fold(attrs) {
        Ok(s) => if s.id.len() == 0 {
            Err(DocErrorView::MissingId)
        } else if s.name.len() == 0 {
            Err(DocErrorView::MissingName)
        } else {
            Ok(s)
        },
        Err(e) => Err(e),
    }
}

/// The sources a token list describes (every `source` tag, open or self-closing), or the first error.
pub open spec fn sources_from_tokens(ts: Seq<TokenView>) -> Result<Seq<SourceView>, DocErrorView>
    decreases ts.len(),
{
    if ts.len() == 0 {
        Ok(Seq::empty())
    } else {
        match sources_from_tokens(ts.drop_last()) {
            Ok(ss) => match ts.last() {
                TokenView::Tag(n, a, _) => if n == "source"@ {
                    match source_from_attrs(a) {
                        Ok(s) => Ok(ss.push(s)),
                        Err(e) => Err(e),
                    }
                } else {
                    Ok(ss)
                },
                TokenView::Failure(m) => Err(DocErrorView::Xml(m)),
                _ => Ok(ss),
            },
            Err(e) => Err(e),
        }
    }
}

fn copy_text(s: &str) -> (r: String)
    ensures
        r@ == s@,
{
    text_of(s)
}

/// Sets one raw attribute of a source, as `source_set_attr` describes.
fn set_source_attr(s: &mut EventSource, key: &str, v: &str) -> (r: Result<(), DocError>)
    ensures
        match source_set_attr(old(s)@, key@, v@) {
            Ok(x) => r is Ok && final(s)@ == x,
            Err(e) => r matches Err(f) && f@ == e,
        },
{
    if str_eq(key, "id") {
        s.id = copy_text(v);
    } else if str_eq(key, "name") {
        s.name = copy_text(v);
    } else if str_eq(key, "type") {
        match SourceType::from_str(v) {
            Some(t) => { s.source_type = t; },
            None => { return Err(DocError::InvalidSourceType(copy_text(v))); },
        }
    } else if str_eq(key, "endpoint") {
        s.endpoint = Some(copy_text(v));
    } else if str_eq(key, "topic") {
        s.topic = Some(copy_text(v));
    } else if str_eq(key, "format") {
        match DataFormat::from_str(v) {
            Some(f) => { s.format = Some(f); },
            None => { return Err(DocError::InvalidFormat(copy_text(v))); },
        }
    } else if str_eq(key, "poll-interval-ms") {
        match parse_i64(v) {
            Some(n) => { s.poll_interval_ms = Some(n); },
            None => { return Err(DocError::InvalidNumber(copy_text(v))); },
        }
    }
    Ok(())
}

/// Reads the source a `<source>` element's attributes describe.
pub fn source_of_attrs(attrs: &Vec<XmlAttr>) -> (r: Result<EventSource, DocError>)
    ensures
        match r {
            Ok(s) => source_from_attrs(attrs_view(attrs@)) == Ok::<SourceView, DocErrorView>(s@),
            Err(e) => source_from_attrs(attrs_view(attrs@)) == Err::<SourceView, DocErrorView>(e@),
        },
{
    let ghost av = attrs_view(attrs@);
    let mut s = EventSource {
        id: String::new(),
        name: String::new(),
        source_type: SourceType::Internal,
        endpoint: None,
        topic: None,
        format: None,
        poll_interval_ms: None,
    };
    let mut i: usize = 0;
    proof {
        assert(av.take(0) =~= Seq::<AttrView>::empty());
    }
    while i < attrs.len()
        invariant
            i <= attrs@.len(),
            av == attrs_view(attrs@),
            source_attrs_fold(av.take(i as int)) == Ok::<SourceView, DocErrorView>(s@),
        decreases attrs.len() - i,
    {
        let ghost before = s@;
        let res = set_source_attr(&mut s, attrs[i].0.as_str(), attrs[i].1.as_str());
        proof {
            let t = av.take(i + 1);
            assert(t.drop_last() =~= av.take(i as int));
            assert(t.last() == av[i as int]);
        }
        match res {
            Ok(()) => {},
            Err(e) => {
                proof {
                    let t = av.take(i + 1);
                    assert forall|j: int| i + 1 <= j <= av.len() implies
                        #[trigger] source_attrs_fold(av.take(j)) == Err::<SourceView, DocErrorView>(e@) by {
                        lemma_fold_error_stays(av, i + 1, j, e@);
                    }
                    assert(av.take(av.len() as int) =~= av);
                }
                return Err(e);
            },
        }
        i = i + 1;
    }
    proof {
        assert(av.take(attrs@.len() as int) =~= av);
    }
    if s.id.as_str().unicode_len() == 0 {
        return Err(DocError::MissingId);
    }
    if s.name.as_str().unicode_len() == 0 {
        return Err(DocError::MissingName);
    }
    Ok(s)
}

proof fn lemma_fold_error_stays(av: Seq<AttrView>, k: int, j: int, e: DocErrorView)
    requires
        0 <= k <= j <= av.len(),
        source_attrs_fold(av.take(k)) == Err::<SourceView, DocErrorView>(e),
    ensures
        source_attrs_fold(av.take(j)) == Err::<SourceView, DocErrorView>(e),
    decreases j - k,
{
    if j > k {
        lemma_fold_error_stays(av, k, j - 1, e);
        assert(av.take(j).drop_last() =~= av.take(j - 1));
    }
}

proof fn lemma_sources_error_stays(tv: Seq<TokenView>, k: int, j: int, e: DocErrorView)
    requires
        0 <= k <= j <= tv.len(),
        sources_from_tokens(tv.take(k)) == Err::<Seq<SourceView>, DocErrorView>(e),
    ensures
        sources_from_tokens(tv.take(j)) == Err::<Seq<SourceView>, DocErrorView>(e),
    decreases j - k,
{
    if j > k {
        lemma_sources_error_stays(tv, k, j - 1, e);
        assert(tv.take(j).drop_last() =~= tv.take(j - 1));
    }
}

/// Reads the sources a token list describes, or the first error.
pub fn sources_of_tokens(ts: &Vec<XmlToken>) -> (r: Result<Vec<EventSource>, DocError>)
    ensures
        match r {
            Ok(ss) => sources_from_tokens(tokens_view(ts@)) == Ok::<Seq<SourceView>, DocErrorView>(sources_view(ss@)),
            Err(e) => sources_from_tokens(tokens_view(ts@)) == Err::<Seq<SourceView>, DocErrorView>(e@),
        },
{
    let ghost tv = tokens_view(ts@);
    let mut out: Vec<EventSource> = Vec::new();
    let mut i: usize = 0;
    proof {
        assert(tv.take(0) =~= Seq::<TokenView>::empty());
        assert(sources_view(out@) =~= Seq::<SourceView>::empty());
    }
    while i < ts.len()
        invariant
            i <= ts@.len(),
            tv == tokens_view(ts@),
            sources_from_tokens(tv.take(i as int)) == Ok::<Seq<SourceView>, DocErrorView>(sources_view(out@)),
        decreases ts.len() - i,
    {
        proof {
            let t = tv.take(i + 1);
            assert(t.drop_last() =~= tv.take(i as int));
            assert(t.last() == ts@[i as int]@);
        }
        let mut failed: Option<DocError> = None;
        match &ts[i] {
            XmlToken::Tag(name, attrs, _) => {
                if str_eq(name.as_str(), "source") {
                    match source_of_attrs(attrs) {
                        Ok(s) => {
                            let ghost prev = out@;
                            out.push(s);
                            proof {
                                assert(sources_view(out@) =~= sources_view(prev).push(s@));
                            }
                        },
                        Err(e) => { failed = Some(e); },
                    }
                }
            },
            XmlToken::Failure(m) => { failed = Some(DocError::Xml(copy_text(m.as_str()))); },
            _ => {},
        }
        match failed {
            Some(e) => {
                proof {
                    assert forall|j: int| i + 1 <= j <= tv.len() implies
                        #[trigger] sources_from_tokens(tv.take(j)) == Err::<Seq<SourceView>, DocErrorView>(e@) by {
                        lemma_sources_error_stays(tv, i + 1, j, e@);
                    }
                    assert(tv.take(tv.len() as int) =~= tv);
                }
                return Err(e);
            },
            None => {},
        }
        i = i + 1;
    }
    proof {
        assert(tv.take(ts@.len() as int) =~= tv);
    }
    Ok(out)
}

impl EventSources {
    /// Reads a sources document (text trimmed): every `source` tag in order. The outside XML
    /// reader's events are named by `quick_xml_tokens`; its first error, an unknown type or
    /// format, a bad number, or a source without `id` or `name` makes the result an error.
    pub fn from_xml(xml: &str) -> (r: Result<EventSources, DocError>)
        ensures
            match r {
                Ok(ss) => sources_from_tokens(quick_xml_tokens(xml@, true)) == Ok::<Seq<SourceView>, DocErrorView>(sources_view(ss.sources@)),
                Err(e) => sources_from_tokens(quick_xml_tokens(xml@, true)) == Err::<Seq<SourceView>, DocErrorView>(e@),
            },
    {
        let ts = read_quick_xml(xml, true);
        match sources_of_tokens(&ts) {
            Ok(sources) => Ok(EventSources { sources }),
            Err(e) => Err(e),
        }
    }
}

/// Reading back the text of a source type gives the type.
pub proof fn lemma_source_type_text_roundtrip(t: SourceType)
    ensures
        source_type_from_text(source_type_text(t)) == Some(t),
{
    reveal_strlit("mqtt");
    reveal_strlit("http");
    reveal_strlit("file");
    reveal_strlit("internal");
    match t {
        SourceType::Mqtt => {},
        SourceType::Http => { assert("http"@[0] != "mqtt"@[0]); },
        SourceType::File => { assert("file"@[0] != "mqtt"@[0] && "file"@[0] != "http"@[0]); },
        SourceType::Internal => {
            assert("internal"@.len() != "mqtt"@.len());
            assert("internal"@.len() != "http"@.len());
            assert("internal"@.len() != "file"@.len());
        },
    }
}

/// Reading back the text of a data format gives the format.
pub proof fn lemma_format_text_roundtrip(f: DataFormat)
    ensures
        format_from_text(format_text(f)) == Some(f),
{
    reveal_strlit("json");
    reveal_strlit("csv");
    reveal_strlit("text");
    match f {
        DataFormat::Json => {},
        DataFormat::Csv => { assert("csv"@.len() != "json"@.len()); },
        DataFormat::Text => {
            assert("text"@[0] != "json"@[0]);
            assert("text"@.len() != "csv"@.len());
        },
    }
}

} // verus!
