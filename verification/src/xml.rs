//! The low-level XML event model the parser consumes, and the trusted
//! boundary that produces such events from raw bytes.

use quick_xml::events::Event;
use vstd::prelude::*;

verus! {

/// One attribute of an element: its key and its raw (still escaped) value.
pub struct XmlAttr {
    pub key: String,
    pub value: String,
}

impl XmlAttr {
    /// Pairs a key with a value.
    pub fn new(key: String, value: String) -> (r: XmlAttr)
        ensures
            r.key == key,
            r.value == value,
    {
        XmlAttr { key, value }
    }
}

/// One low-level XML event, as the parser sees it.
pub enum XmlEvent {
    /// An opening tag with its attributes: `<tag k="v">`.
    Start(String, Vec<XmlAttr>),
    /// A self-closing tag with its attributes: `<tag k="v"/>`.
    Empty(String, Vec<XmlAttr>),
    /// Literal character data between tags.
    Text(String),
    /// A general reference (`&amp;`, `&#x26;`) in character data, already
    /// resolved to its replacement text; `None` when it cannot be resolved.
    Ref(Option<String>),
    /// A closing tag: `</tag>`.
    End(String),
    /// The end of the document.
    Eof,
    /// Any other event (declaration, comment, CDATA, ...).
    Other,
}

/// The value of the last attribute with the given key, or the empty string
/// when no attribute has that key.
pub open spec fn attr_lookup(attrs: Seq<XmlAttr>, key: Seq<char>) -> Seq<char>
    decreases attrs.len(),
{
    if attrs.len() == 0 {
        Seq::empty()
    } else if attrs.last().key@ == key {
        attrs.last().value@
    } else {
        attr_lookup(attrs.drop_last(), key)
    }
}

/// When no attribute carries the key, the lookup degrades to the empty string.
pub proof fn lemma_attr_lookup_absent(attrs: Seq<XmlAttr>, key: Seq<char>)
    requires
        forall|i: int| 0 <= i < attrs.len() ==> (#[trigger] attrs[i]).key@ != key,
    ensures
        attr_lookup(attrs, key) == Seq::<char>::empty(),
    decreases attrs.len(),
{
    if attrs.len() > 0 {
        assert(attrs.last() == attrs[attrs.len() - 1]);
        lemma_attr_lookup_absent(attrs.drop_last(), key);
    }
}

#[verifier::external_type_specification]
#[verifier::external_body]
#[verifier::reject_recursive_types(R)]
pub struct ExReader<R>(quick_xml::Reader<R>);

#[verifier::external_type_specification]
#[verifier::external_body]
pub struct ExBytesStart<'a>(quick_xml::events::BytesStart<'a>);

#[verifier::external_type_specification]
#[verifier::external_body]
pub struct ExBytesRef<'a>(quick_xml::events::BytesRef<'a>);

#[verifier::external_type_specification]
#[verifier::external_body]
pub struct ExXmlError(quick_xml::Error);

/// One event as the XML layer hands it out, before its pieces are converted.
pub(crate) enum RawEvent<'a> {
    /// An opening tag.
    Start(quick_xml::events::BytesStart<'a>),
    /// A self-closing tag.
    Empty(quick_xml::events::BytesStart<'a>),
    /// Literal character data.
    Text(String),
    /// A general reference in character data.
    Ref(quick_xml::events::BytesRef<'a>),
    /// A closing tag, by name.
    End(String),
    /// The end of the document.
    Eof,
    /// Any other event.
    Other,
}

// The outcome of reading one more event from the stream over `input`, after
// `k` events were already read: the event, or `None` for a structural error.
pub uninterp spec fn stream_outcome(input: Seq<u8>, k: int) -> Option<XmlEvent>;

/// The first `n` events of the input's stream, each read having yielded one.
pub open spec fn stream_events(input: Seq<u8>, n: nat) -> Seq<XmlEvent>
    decreases n,
{
    if n == 0 {
        Seq::empty()
    } else {
        stream_events(input, (n - 1) as nat).push(stream_outcome(input, n - 1)->0)
    }
}

/// Whether the first `n` reads all yield events, none of them ending the
/// document.
pub open spec fn live_prefix(input: Seq<u8>, n: nat) -> bool {
    forall|k: int|
        0 <= k < n ==> ((#[trigger] stream_outcome(input, k)) matches Some(ev) && !(ev is Eof))
}

/// The event stream over one input, with its position as a ghost so that each
/// read can be named as a function of the input and that position.
pub(crate) struct EventStream<'a> {
    pub(crate) inner: quick_xml::Reader<&'a [u8]>,
    pub(crate) pos: Ghost<int>,
    pub(crate) input: Ghost<Seq<u8>>,
}

/// Relies on `quick_xml::Reader::from_reader`: a reader over the given bytes.
#[verifier::external_body]
fn xml_reader<'a>(input: &'a [u8]) -> (r: quick_xml::Reader<&'a [u8]>) {
    quick_xml::Reader::from_reader(input)
}

/// A stream over the given bytes, with no event read yet.
pub(crate) fn open_stream<'a>(input: &'a [u8]) -> (r: EventStream<'a>)
    ensures
        r.input@ == input@,
        r.pos@ == 0,
{
    let ghost start: int = 0;
    EventStream { inner: xml_reader(input), pos: Ghost(start), input: Ghost(input@) }
}

/// Relies on `quick_xml::Reader::read_event` over a byte slice: what it hands
/// out is a function of the input bytes and of how many events were already
/// read — no chance, clock or environment enters — which `stream_outcome`
/// names, error outcomes included.
#[verifier::external_body]
pub(crate) fn stream_next<'a>(s: &mut EventStream<'a>) -> (r: Result<XmlEvent, quick_xml::Error>)
    ensures
        final(s).input == old(s).input,
        final(s).pos@ == old(s).pos@ + 1,
        match r {
            Ok(ev) => stream_outcome(old(s).input@, old(s).pos@) == Some(ev),
            Err(_) => stream_outcome(old(s).input@, old(s).pos@) is None,
        },
{
    let raw = match s.inner.read_event() {
        Ok(Event::Start(e)) => RawEvent::Start(e),
        Ok(Event::Empty(e)) => RawEvent::Empty(e),
        Ok(Event::Text(t)) => RawEvent::Text(t.into_inner().into_owned()),
        Ok(Event::GeneralRef(rf)) => RawEvent::Ref(rf),
        Ok(Event::End(e)) => RawEvent::End(e.name().as_ref().to_owned()),
        Ok(Event::Eof) => RawEvent::Eof,
        Ok(_) => RawEvent::Other,
        Err(e) => return Err(e),
    };
    Ok(refine_event(raw))
}

/// Relies on `quick_xml::events::BytesStart::name`: the tag's name.
#[verifier::external_body]
pub(crate) fn start_name(e: &quick_xml::events::BytesStart<'_>) -> (r: String) {
    e.name().as_ref().to_owned()
}

/// Relies on `quick_xml::events::BytesStart::attributes`: the tag's
/// attributes in document order, ill-formed ones left out.
#[verifier::external_body]
pub(crate) fn start_attrs(e: &quick_xml::events::BytesStart<'_>) -> (r: Vec<XmlAttr>) {
    e.attributes().filter_map(|a| a.ok()).map(
        |a| XmlAttr::new(a.key.as_ref().to_owned(), a.value.into_owned()),
    ).collect()
}

/// Relies on `quick_xml::events::BytesRef::resolve_char_ref`: the character a
/// numeric reference stands for, `None` for a named reference.
#[verifier::external_body]
pub(crate) fn char_ref_text(rf: &quick_xml::events::BytesRef<'_>) -> (r: Result<
    Option<String>,
    quick_xml::Error,
>) {
    rf.resolve_char_ref().map(|o| o.map(|c| c.to_string()))
}

/// Relies on `quick_xml::escape::resolve_predefined_entity`: the replacement
/// text of a predefined entity, `None` for an unknown one.
#[verifier::external_body]
pub(crate) fn predefined_entity_text(rf: &quick_xml::events::BytesRef<'_>) -> (r: Option<String>) {
    quick_xml::escape::resolve_predefined_entity(rf.as_ref()).map(|s| s.to_owned())
}

/// Relies on the `Display` impl of `quick_xml::Error`: a description of the
/// structural fault.
#[verifier::external_body]
pub(crate) fn xml_error_text(e: &quick_xml::Error) -> (r: String) {
    format!("{}", e)
}

/// Converts one raw event into the plain event the parser folds.
pub(crate) fn refine_event(raw: RawEvent<'_>) -> (r: XmlEvent) {
    match raw {
        RawEvent::Start(e) => XmlEvent::Start(start_name(&e), start_attrs(&e)),
        RawEvent::Empty(e) => XmlEvent::Empty(start_name(&e), start_attrs(&e)),
        RawEvent::Text(t) => XmlEvent::Text(t),
        RawEvent::Ref(rf) => {
            let resolved = match char_ref_text(&rf) {
                Ok(Some(t)) => Some(t),
                Ok(None) => predefined_entity_text(&rf),
                Err(_) => None,
            };
            XmlEvent::Ref(resolved)
        },
        RawEvent::End(name) => XmlEvent::End(name),
        RawEvent::Eof => XmlEvent::Eof,
        RawEvent::Other => XmlEvent::Other,
    }
}

/// Compares a string against a literal.
pub fn str_eq(a: &String, lit: &str) -> (r: bool)
    ensures
        r == (a@ == lit@),
{
    let l: String = lit.to_owned();
    *a == l
}

/// The value of the last attribute named by `key`, or the empty string when
/// the tag has no such attribute.
pub fn find_attr(attrs: &Vec<XmlAttr>, key: &str) -> (r: String)
    ensures
        r@ == attr_lookup(attrs@, key@),
{
    let mut r = String::new();
    let mut i: usize = 0;
    while i < attrs.len()
        invariant
            i <= attrs@.len(),
            r@ == attr_lookup(attrs@.take(i as int), key@),
        decreases attrs@.len() - i,
    {
        if str_eq(&attrs[i].key, key) {
            r = attrs[i].value.clone();
        }
        proof {
            let pre = attrs@.take(i + 1 as int);
            assert(pre.drop_last() =~= attrs@.take(i as int));
            assert(pre.last() == attrs@[i as int]);
        }
        i += 1;
    }
    proof {
        assert(attrs@.take(attrs@.len() as int) =~= attrs@);
    }
    r
}

} // verus!
