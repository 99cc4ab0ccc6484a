//! The XML configuration files of the games, read with quick-xml as the
//! events of a pull reader (with surrounding whitespace trimmed from text);
//! this module decides what the events say.

use vstd::prelude::*;
use crate::text::{push_char, str_eq};
use quick_xml::events::Event;

verus! {

/// One attribute of a tag, as the reader's attribute iterator gives it:
/// its key and raw value, or `None` where the reader reports an error.
pub type XmlAttribute = Option<(String, String)>;

/// One event of an XML pull reader. Names, attribute keys and attribute
/// values are the raw text of the document.
pub enum XmlEvent {
    /// An opening tag, with its attributes in order.
    Start { name: String, attributes: Vec<XmlAttribute> },
    /// A closing tag.
    End { name: String },
    /// A self-closing tag, with its attributes in order.
    Empty { name: String, attributes: Vec<XmlAttribute> },
    /// Character data; `None` where it could not be decoded.
    Text { text: Option<String> },
    /// Any other event: comments, declarations, CDATA and the like.
    Other,
    /// The reader reported a syntax error, with the reader's message; no
    /// event follows it.
    Error { message: String },
}

/// Why reading a configuration stops short.
#[derive(PartialEq, Eq, Clone, Debug)]
pub enum XmlScanError {
    /// The XML reader reported an error, with its message.
    Malformed { message: String },
    /// The text sought could not be decoded.
    Undecodable,
}

/// The value of the attribute `key` among a tag's attributes, as
/// `BytesStart::try_get_attribute` finds it: the first attribute with that
/// key, where no attribute before it is in error; `None` where there is no
/// such attribute or an error comes first.
pub open spec fn attr_value(attributes: Seq<XmlAttribute>, key: Seq<char>) -> Option<Seq<char>>
    decreases attributes.len(),
{
    if attributes.len() == 0 {
        None
    } else {
        match attributes[0] {
            None => None,
            Some((k, v)) => if k@ == key {
                Some(v@)
            } else {
                attr_value(attributes.drop_first(), key)
            },
        }
    }
}

/// The value of the attribute `key` among a tag's attributes.
pub fn attribute_value(attributes: &Vec<XmlAttribute>, key: &str) -> (r: Option<String>)
    ensures
        match attr_value(attributes@, key@) {
            Some(v) => r matches Some(s) && s@ == v,
            None => r is None,
        },
{
    let mut i: usize = 0;
    assert(attributes@.skip(0) =~= attributes@);
    while i < attributes.len()
        invariant
            i <= attributes@.len(),
            attr_value(attributes@, key@) == attr_value(attributes@.skip(i as int), key@),
        decreases attributes.len() - i,
    {
        let ghost rest = attributes@.skip(i as int);
        assert(rest[0] == attributes@[i as int]);
        assert(rest.drop_first() =~= attributes@.skip(i + 1));
        match &attributes[i] {
            None => {
                return None;
            },
            Some((k, v)) => {
                if str_eq(k.as_str(), key) {
                    return Some(v.clone());
                }
            },
        }
        i = i + 1;
    }
    None
}

/// The names of the open elements joined by dots, outermost first.
pub open spec fn join_path(path: Seq<String>) -> Seq<char>
    decreases path.len(),
{
    if path.len() == 0 {
        seq![]
    } else if path.len() == 1 {
        path[0]@
    } else {
        join_path(path.drop_last()) + seq!['.'] + path.last()@
    }
}

/// The text of the first element whose dotted path is `key`, read from the
/// events that follow while `path` is open. An element that ends pops the
/// innermost open name. Where no text matches, the empty text.
pub open spec fn entry_scan(events: Seq<XmlEvent>, key: Seq<char>, path: Seq<String>) -> Result<
    Seq<char>,
    XmlScanError,
>
    decreases events.len(),
{
    if events.len() == 0 {
        Ok(seq![])
    } else {
        let rest = events.drop_first();
        match events[0] {
            XmlEvent::Error { message } => Err(XmlScanError::Malformed { message }),
            XmlEvent::Start { name, .. } => entry_scan(rest, key, path.push(name)),
            XmlEvent::End { .. } => entry_scan(
                rest,
                key,
                if path.len() > 0 { path.drop_last() } else { path },
            ),
            XmlEvent::Text { text } => if join_path(path) == key {
                match text {
                    Some(t) => Ok(t@),
                    None => Err(XmlScanError::Undecodable),
                }
            } else {
                entry_scan(rest, key, path)
            },
            _ => entry_scan(rest, key, path),
        }
    }
}

fn join_dotted(path: &Vec<String>) -> (r: String)
    ensures
        r@ == join_path(path@),
{
    let mut r = String::new();
    let mut i: usize = 0;
    assert(path@.take(0) =~= Seq::<String>::empty());
    while i < path.len()
        invariant
            i <= path@.len(),
            r@ == join_path(path@.take(i as int)),
        decreases path.len() - i,
    {
        assert(path@.take(i + 1).drop_last() =~= path@.take(i as int));
        if i > 0 {
            push_char(&mut r, '.');
        }
        r.append(path[i].as_str());
        i = i + 1;
        assert(r@ =~= join_path(path@.take(i as int)));
    }
    assert(path@.take(i as int) =~= path@);
    r
}

/// The events that quick-xml's `Reader`, set to trim whitespace around
/// text, reports for a document, up to its end or to its first error.
pub uninterp spec fn xml_reader_events(text: Seq<char>) -> Seq<XmlEvent>;

/// quick-xml's pull reader over a string.
#[verifier::external_type_specification]
#[verifier::external_body]
#[verifier::reject_recursive_types(R)]
pub struct ExXmlReader<R>(quick_xml::Reader<R>);

/// An opening or self-closing tag as quick-xml reports it.
#[verifier::external_type_specification]
#[verifier::external_body]
pub struct ExBytesStart<'a>(quick_xml::events::BytesStart<'a>);

/// A closing tag as quick-xml reports it.
#[verifier::external_type_specification]
#[verifier::external_body]
pub struct ExBytesEnd<'a>(quick_xml::events::BytesEnd<'a>);

/// Character data as quick-xml reports it.
#[verifier::external_type_specification]
#[verifier::external_body]
pub struct ExBytesText<'a>(quick_xml::events::BytesText<'a>);

/// One attribute as quick-xml's attribute iterator gives it.
#[verifier::external_type_specification]
#[verifier::external_body]
pub struct ExAttribute<'a>(quick_xml::events::attributes::Attribute<'a>);

/// An error of quick-xml's attribute iterator.
#[verifier::external_type_specification]
#[verifier::external_body]
pub struct ExAttrError(quick_xml::events::attributes::AttrError);

/// The name of a tag, read as (lossy) UTF-8.
///
/// Trusted: calls `BytesStart::name`. Nothing is claimed of the result.
#[verifier::external_body]
fn start_name(e: &quick_xml::events::BytesStart) -> String {
    String::from_utf8_lossy(e.name().as_ref()).into_owned()
}

/// The name of a closing tag, read as (lossy) UTF-8.
///
/// Trusted: calls `BytesEnd::name`. Nothing is claimed of the result.
#[verifier::external_body]
fn end_name(e: &quick_xml::events::BytesEnd) -> String {
    String::from_utf8_lossy(e.name().as_ref()).into_owned()
}

/// One attribute: its key and raw value read as (lossy) UTF-8, or `None`
/// for an error.
///
/// Trusted: reads the fields of a `quick_xml` `Attribute`. Nothing is
/// claimed of the result.
#[verifier::external_body]
fn attribute_entry(a: Result<quick_xml::events::attributes::Attribute, quick_xml::events::attributes::AttrError>) -> XmlAttribute {
    match a {
        Ok(a) => Some((String::from_utf8_lossy(a.key.as_ref()).into_owned(), String::from_utf8_lossy(&a.value).into_owned())),
        Err(_) => None,
    }
}

/// The attributes of a tag, in order, each converted by `attribute_entry`.
///
/// Trusted: walks `BytesStart::attributes` with `with_checks(false)`, as
/// `BytesStart::try_get_attribute` does. Nothing is claimed of the result.
#[verifier::external_body]
fn attributes_of(e: &quick_xml::events::BytesStart) -> Vec<XmlAttribute> {
    e.attributes().with_checks(false).map(attribute_entry).collect()
}

/// Character data decoded; `None` where it cannot be.
///
/// Trusted: calls `BytesText::decode`. Nothing is claimed of the result.
#[verifier::external_body]
fn text_of(e: &quick_xml::events::BytesText) -> Option<String> {
    match e.decode() {
        Ok(t) => Some(t.into_owned()),
        Err(_) => None,
    }
}

/// The next event of a reader; `None` at the end of the document.
///
/// Trusted: calls `Reader::read_event` and tells the event's kinds apart;
/// an error carries the reader's position and message. Nothing is claimed
/// of the result.
#[verifier::external_body]
fn next_xml_event(reader: &mut quick_xml::Reader<&[u8]>) -> Option<XmlEvent> {
    match reader.read_event() {
        Err(e) => Some(XmlEvent::Error { message: format!("Error at position {}: {:?}", reader.error_position(), e) }),
        Ok(Event::Eof) => None,
        Ok(Event::Start(e)) => Some(XmlEvent::Start { name: start_name(&e), attributes: attributes_of(&e) }),
        Ok(Event::End(e)) => Some(XmlEvent::End { name: end_name(&e) }),
        Ok(Event::Empty(e)) => Some(XmlEvent::Empty { name: start_name(&e), attributes: attributes_of(&e) }),
        Ok(Event::Text(e)) => Some(XmlEvent::Text { text: text_of(&e) }),
        Ok(_) => Some(XmlEvent::Other),
    }
}

/// Reads a document into its events.
///
/// Trusted: reads `text` with `quick_xml::Reader::from_str`, set with
/// `trim_text(true)`, taking events until the end of the document or an
/// error, after which nothing is read. The contract claims only that the
/// result is the named event sequence of the text.
#[verifier::external_body]
pub(crate) fn read_xml_events(text: &str) -> (r: Vec<XmlEvent>)
    ensures
        r@ == xml_reader_events(text@),
{
    let mut reader = quick_xml::Reader::from_str(text);
    reader.config_mut().trim_text(true);
    let mut events = Vec::new();
    while let Some(event) = next_xml_event(&mut reader) {
        let failed = matches!(event, XmlEvent::Error { .. });
        events.push(event);
        if failed {
            break;
        }
    }
    events
}

/// The text of the element at the dotted path `key` (such as
/// `ea3.soft.model`) in a configuration document; the empty text where
/// there is none. The document must read without an error before that
/// element's text, and the text must decode.
pub fn xml_config_entry_str(content: &str, key: &str) -> (r: String)
    requires
        entry_scan(xml_reader_events(content@), key@, Seq::empty()) is Ok,
    ensures
        r@ == entry_scan(xml_reader_events(content@), key@, Seq::empty())->Ok_0,
{
    let events = read_xml_events(content);
    match entry_of_events(&events, key) {
        Ok(t) => t,
        Err(_) => String::new(),
    }
}

/// The text of the element at the dotted path `key` in a configuration
/// document, or why the document cannot give it: the reader's error before
/// that element's text, or text that does not decode.
pub fn try_xml_config_entry_str(content: &str, key: &str) -> (r: Result<String, XmlScanError>)
    ensures
        match entry_scan(xml_reader_events(content@), key@, Seq::empty()) {
            Ok(t) => r matches Ok(s) && s@ == t,
            Err(e) => r == Err::<String, XmlScanError>(e),
        },
{
    let events = read_xml_events(content);
    match entry_of_events(&events, key) {
        Ok(_) => Ok(xml_config_entry_str(content, key)),
        Err(e) => Err(e),
    }
}

/// The text of the element at the dotted path `key`, read from a
/// document's events; the empty text where there is none.
pub fn entry_of_events(events: &Vec<XmlEvent>, key: &str) -> (r: Result<String, XmlScanError>)
    ensures
        match entry_scan(events@, key@, Seq::empty()) {
            Ok(t) => r matches Ok(s) && s@ == t,
            Err(e) => r == Err::<String, XmlScanError>(e),
        },
{
    let mut path: Vec<String> = Vec::new();
    let mut i: usize = 0;
    assert(events@.skip(0) =~= events@);
    while i < events.len()
        invariant
            i <= events@.len(),
            entry_scan(events@, key@, Seq::empty()) == entry_scan(events@.skip(i as int), key@, path@),
        decreases events.len() - i,
    {
        let ghost rest = events@.skip(i as int);
        assert(rest[0] == events@[i as int]);
        assert(rest.drop_first() =~= events@.skip(i + 1));
        match &events[i] {
            XmlEvent::Error { message } => {
                return Err(XmlScanError::Malformed { message: message.clone() });
            },
            XmlEvent::Start { name, .. } => {
                path.push(name.clone());
            },
            XmlEvent::End { .. } => {
                if path.len() > 0 {
                    let _ = path.pop();
                }
            },
            XmlEvent::Text { text } => {
                let joined = join_dotted(&path);
                if str_eq(joined.as_str(), key) {
                    return match text {
                        Some(t) => Ok(t.clone()),
                        None => Err(XmlScanError::Undecodable),
                    };
                }
            },
            _ => {},
        }
        i = i + 1;
    }
    Ok(String::new())
}

proof fn lemma_entry_cons(e: XmlEvent, rest: Seq<XmlEvent>, key: Seq<char>, path: Seq<String>)
    ensures
        entry_scan(seq![e] + rest, key, path) == match e {
            XmlEvent::Error { message } => Err(XmlScanError::Malformed { message }),
            XmlEvent::Start { name, .. } => entry_scan(rest, key, path.push(name)),
            XmlEvent::End { .. } => entry_scan(rest, key, if path.len() > 0 { path.drop_last() } else { path }),
            XmlEvent::Text { text } => if join_path(path) == key {
                match text {
                    Some(t) => Ok(t@),
                    None => Err(XmlScanError::Undecodable),
                }
            } else {
                entry_scan(rest, key, path)
            },
            _ => entry_scan(rest, key, path),
        },
{
    let all = seq![e] + rest;
    assert(all[0] == e);
    assert(all.drop_first() =~= rest);
}

/// A self-closing element opens no path: inserting one anywhere among a
/// document's events leaves the entry found for every key as it was.
pub proof fn lemma_entry_ignores_self_closing(
    events: Seq<XmlEvent>,
    k: int,
    e: XmlEvent,
    key: Seq<char>,
    path: Seq<String>,
)
    requires
        0 <= k <= events.len(),
        e is Empty,
    ensures
        entry_scan(events.insert(k, e), key, path) == entry_scan(events, key, path),
    decreases k,
{
    let all = events.insert(k, e);
    if k == 0 {
        assert(all =~= seq![e] + events);
        lemma_entry_cons(e, events, key, path);
    } else {
        let head = events[0];
        let rest = events.drop_first();
        assert(events =~= seq![head] + rest);
        assert(all =~= seq![head] + rest.insert(k - 1, e));
        lemma_entry_cons(head, rest, key, path);
        lemma_entry_cons(head, rest.insert(k - 1, e), key, path);
        match head {
            XmlEvent::Start { name, .. } => {
                lemma_entry_ignores_self_closing(rest, k - 1, e, key, path.push(name));
            },
            XmlEvent::End { .. } => {
                lemma_entry_ignores_self_closing(
                    rest,
                    k - 1,
                    e,
                    key,
                    if path.len() > 0 { path.drop_last() } else { path },
                );
            },
            XmlEvent::Error { .. } => {},
            _ => {
                lemma_entry_ignores_self_closing(rest, k - 1, e, key, path);
            },
        }
    }
}

/// The text that stands directly where the open elements spell the key is
/// the entry (an error where it does not decode).
pub proof fn lemma_entry_text_at_key(e: XmlEvent, rest: Seq<XmlEvent>, key: Seq<char>, path: Seq<String>)
    requires
        join_path(path) == key,
    ensures
        e matches XmlEvent::Text { text } ==> entry_scan(seq![e] + rest, key, path) == match text {
            Some(t) => Ok(t@),
            None => Err(XmlScanError::Undecodable),
        },
{
    lemma_entry_cons(e, rest, key, path);
}

/// An element that opens and closes leaves the path of what follows it as
/// it was.
pub proof fn lemma_entry_closed_element(open: XmlEvent, close: XmlEvent, rest: Seq<XmlEvent>, key: Seq<char>, path: Seq<String>)
    requires
        open is Start,
        close is End,
    ensures
        entry_scan(seq![open, close] + rest, key, path) == entry_scan(rest, key, path),
{
    assert(seq![open, close] + rest =~= seq![open] + (seq![close] + rest));
    lemma_entry_cons(open, seq![close] + rest, key, path);
    let name = match open {
        XmlEvent::Start { name, .. } => name,
        _ => open->Start_name,
    };
    lemma_entry_cons(close, rest, key, path.push(name));
    assert(path.push(name).drop_last() =~= path);
}

/// The text inside an element `b` inside an element `a` is the entry at the
/// key `a.b`.
pub proof fn lemma_entry_nested_key(a: XmlEvent, b: XmlEvent, t: XmlEvent, rest: Seq<XmlEvent>)
    requires
        a is Start,
        b is Start,
        t matches XmlEvent::Text { text } && text is Some,
    ensures
        entry_scan(seq![a, b, t] + rest, a->Start_name@ + seq!['.'] + b->Start_name@, Seq::empty()) == Ok::<
            Seq<char>,
            XmlScanError,
        >(t->text->0@),
{
    let key = a->Start_name@ + seq!['.'] + b->Start_name@;
    let p1 = Seq::<String>::empty().push(a->Start_name);
    let p2 = p1.push(b->Start_name);
    assert(seq![a, b, t] + rest =~= seq![a] + (seq![b] + (seq![t] + rest)));
    assert(seq![b, t] + rest =~= seq![b] + (seq![t] + rest));
    lemma_entry_cons(a, seq![b] + (seq![t] + rest), key, Seq::empty());
    lemma_entry_cons(b, seq![t] + rest, key, p1);
    lemma_entry_cons(t, rest, key, p2);
    assert(p2.drop_last() =~= p1);
    assert(p1.len() == 1 && p1[0] == a->Start_name);
    assert(join_path(p1) == a->Start_name@);
    assert(p2.len() == 2 && p2.last() == b->Start_name);
    assert(join_path(p2) =~= key);
}

} // verus!
