//! Reading a document with quick_xml, one event at a time, and the driver that
//! feeds those events to a scan.

use vstd::prelude::*;
use vstd::string::StrSliceExecFns;
use quick_xml::Reader;
use quick_xml::events::Event;
use crate::path::views;
use crate::extract::{
    apply_event, initial_scan, run_events, Attribute, EventView, ParserRule, Scan, ScanView, XmlEvent,
};

verus! {

/// An attribute as the reader hands it out: raw key and raw value bytes.
pub struct RawAttribute {
    pub key: Vec<u8>,
    pub value: Vec<u8>,
}

/// One step of the reader, before names and values are decoded to text.
pub enum RawStep {
    Open(Vec<u8>),
    Close,
    /// A self-closing tag; an attribute the reader could not read is `None`.
    Empty(Vec<u8>, Vec<Option<RawAttribute>>),
    End,
    Other,
    /// The reader could not make sense of the text.
    Failed,
}

/// Why a document gave no result.
#[derive(Debug, Clone, Copy, PartialEq, Eq, Structural)]
pub enum ExtractError {
    /// The document is not well-formed enough to be read to its end.
    Malformed,
}

#[verifier::external_type_specification]
#[verifier::external_body]
#[verifier::reject_recursive_types(R)]
pub struct ExReader<R>(Reader<R>);

/// The text that a reader reads.
pub uninterp spec fn reader_text(r: Reader<&[u8]>) -> Seq<char>;

/// How many steps a reader has handed out.
pub uninterp spec fn reader_count(r: Reader<&[u8]>) -> nat;

/// The step that quick_xml, trimming whitespace around text, hands out at
/// position `index` (counted from 0) of `text`.
pub uninterp spec fn xml_step(text: Seq<char>, index: nat) -> RawStep;

/// The text that `bytes` encode as UTF-8, if they do.
pub uninterp spec fn utf8_text(bytes: Seq<u8>) -> Option<Seq<char>>;

/// Relies on quick_xml::Reader::from_str and Config::trim_text: a reader over
/// `xml` that has handed out nothing yet and trims the text between tags.
#[verifier::external_body]
fn open_reader<'a>(xml: &'a str) -> (r: Reader<&'a [u8]>)
    ensures
        reader_text(r) == xml@,
        reader_count(r) == 0,
{
    let mut r = Reader::from_str(xml);
    r.config_mut().trim_text(true);
    r
}

/// Relies on quick_xml::Reader::read_event: the next step of the text, its
/// variant and bytes moved over one for one, an error as `Failed`.
#[verifier::external_body]
fn read_step<'a>(reader: &mut Reader<&'a [u8]>) -> (r: RawStep)
    ensures
        reader_text(*final(reader)) == reader_text(*old(reader)),
        reader_count(*final(reader)) == reader_count(*old(reader)) + 1,
        r == xml_step(reader_text(*old(reader)), reader_count(*old(reader))),
{
    match reader.read_event() {
        Ok(Event::Start(e)) => RawStep::Open(e.name().into_inner().to_vec()),
        Ok(Event::End(_)) => RawStep::Close,
        Ok(Event::Empty(e)) => RawStep::Empty(
            e.name().into_inner().to_vec(),
            e.attributes().map(|a| a.ok().map(|a| RawAttribute {
                key: a.key.into_inner().to_vec(),
                value: a.value.into_owned(),
            })).collect(),
        ),
        Ok(Event::Eof) => RawStep::End,
        Ok(_) => RawStep::Other,
        Err(_) => RawStep::Failed,
    }
}

/// Relies on std::str::from_utf8: the text that `bytes` encode, if they are UTF-8.
#[verifier::external_body]
fn decode_utf8(bytes: &Vec<u8>) -> (r: Option<String>)
    ensures
        r is Some <==> utf8_text(bytes@) is Some,
        r is Some ==> utf8_text(bytes@) == Some(r->0@),
{
    std::str::from_utf8(bytes).ok().map(|s| s.to_owned())
}

/// The attributes that decode to text, in order; the others are left out.
pub open spec fn decode_attributes(raw: Seq<Option<RawAttribute>>) -> Seq<(Seq<char>, Seq<char>)>
    decreases raw.len(),
{
    if raw.len() == 0 {
        Seq::empty()
    } else {
        let rest = decode_attributes(raw.drop_last());
        match raw.last() {
            Some(a) => match (utf8_text(a.key@), utf8_text(a.value@)) {
                (Some(k), Some(v)) => rest.push((k, v)),
                _ => rest,
            },
            None => rest,
        }
    }
}

/// The event a step stands for; `None` where the step failed or a tag name
/// is not text.
pub open spec fn decode_step(raw: RawStep) -> Option<EventView> {
    match raw {
        RawStep::Open(n) => match utf8_text(n@) {
            Some(t) => Some(EventView::Open(t)),
            None => None,
        },
        RawStep::Close => Some(EventView::Close),
        RawStep::Empty(n, attrs) => match utf8_text(n@) {
            Some(t) => Some(EventView::Empty(t, decode_attributes(attrs@))),
            None => None,
        },
        RawStep::End => Some(EventView::End),
        RawStep::Other => Some(EventView::Other),
        RawStep::Failed => None,
    }
}

/// The outcome of scanning `text` from step `k` on, with the scan `s` so far:
/// the values found once the end is reached, or an error where a step fails
/// or no end comes by the step numbered as the text is long.
pub open spec fn scan_from(
    text: Seq<char>,
    k: nat,
    s: ScanView,
    path: Seq<Seq<char>>,
    key: Seq<char>,
) -> Result<Seq<Seq<char>>, ExtractError>
    decreases text.len() - k,
{
    match decode_step(xml_step(text, k)) {
        None => Err(ExtractError::Malformed),
        Some(e) => if e is End {
            Ok(s.found)
        } else if k >= text.len() {
            Err(ExtractError::Malformed)
        } else {
            scan_from(text, k + 1, apply_event(s, e, path, key), path, key)
        },
    }
}

/// The outcome of scanning the whole of `text` under `rule`.
pub open spec fn scan_document(text: Seq<char>, rule: ParserRule) -> Result<Seq<Seq<char>>, ExtractError> {
    scan_from(text, 0, initial_scan(), views(rule.path@), rule.property@)
}

/// A document whose reading fails before its end gives an error and no
/// values: if every step from `k` up to `j` reads an event other than the end
/// and step `j` fails, the scan from `k` fails too.
pub proof fn lemma_failure_before_end(
    text: Seq<char>,
    k: nat,
    j: nat,
    s: ScanView,
    path: Seq<Seq<char>>,
    key: Seq<char>,
)
    requires
        k <= j,
        forall|i: nat|
            k <= i < j ==> {
                &&& #[trigger] decode_step(xml_step(text, i)) is Some
                &&& !(decode_step(xml_step(text, i))->0 is End)
            },
        decode_step(xml_step(text, j)) is None,
    ensures
        scan_from(text, k, s, path, key) == Err::<Seq<Seq<char>>, ExtractError>(
            ExtractError::Malformed,
        ),
    decreases j - k,
{
    if k < j {
        assert(decode_step(xml_step(text, k)) is Some);
        if k < text.len() {
            let e = decode_step(xml_step(text, k))->0;
            lemma_failure_before_end(text, k + 1, j, apply_event(s, e, path, key), path, key);
        }
    }
}

/// The events that the first `j` steps of reading `text` decode to.
pub open spec fn decoded_prefix(text: Seq<char>, j: nat) -> Seq<EventView> {
    Seq::new(j, |i: int| decode_step(xml_step(text, i as nat))->0)
}

/// Reading a document event by event gives what the fold over its events
/// gives: where the first `j` steps decode to events other than the end, and
/// step `j` (no later than the text is long) is the end, the scan succeeds
/// with the values of those `j` events.
pub proof fn lemma_scan_is_fold(
    text: Seq<char>,
    k: nat,
    j: nat,
    path: Seq<Seq<char>>,
    key: Seq<char>,
)
    requires
        k <= j <= text.len(),
        forall|i: nat|
            i < j ==> {
                &&& #[trigger] decode_step(xml_step(text, i)) is Some
                &&& !(decode_step(xml_step(text, i))->0 is End)
            },
        decode_step(xml_step(text, j)) == Some(EventView::End),
    ensures
        scan_from(text, k, run_events(decoded_prefix(text, k), path, key), path, key) == Ok::<
            Seq<Seq<char>>,
            ExtractError,
        >(run_events(decoded_prefix(text, j), path, key).found),
        k == 0 ==> scan_from(text, 0, initial_scan(), path, key) == Ok::<
            Seq<Seq<char>>,
            ExtractError,
        >(run_events(decoded_prefix(text, j), path, key).found),
    decreases j - k,
{
    assert(decoded_prefix(text, 0) =~= Seq::<EventView>::empty());
    if k < j {
        assert(decode_step(xml_step(text, k)) is Some);
        assert(decoded_prefix(text, k + 1).drop_last() =~= decoded_prefix(text, k));
        lemma_scan_is_fold(text, k + 1, j, path, key);
    }
}

/// Decodes a step's names and attributes to text, leaving out the attributes
/// that do not decode; `None` where the step failed or a tag name does not decode.
pub fn decode_event(raw: RawStep) -> (r: Option<XmlEvent>)
    ensures
        match r {
            Some(e) => decode_step(raw) == Some(e@),
            None => decode_step(raw) is None,
        },
{
    match raw {
        RawStep::Open(n) => match decode_utf8(&n) {
            Some(t) => Some(XmlEvent::Open(t)),
            None => None,
        },
        RawStep::Close => Some(XmlEvent::Close),
        RawStep::Empty(n, attrs) => match decode_utf8(&n) {
            Some(t) => {
                let decoded = decode_attribute_list(&attrs);
                Some(XmlEvent::Empty(t, decoded))
            },
            None => None,
        },
        RawStep::End => Some(XmlEvent::End),
        RawStep::Other => Some(XmlEvent::Other),
        RawStep::Failed => None,
    }
}

/// The attributes of `raw` whose key and value decode to text, in order.
pub fn decode_attribute_list(raw: &Vec<Option<RawAttribute>>) -> (r: Vec<Attribute>)
    ensures
        crate::extract::attr_views(r@) == decode_attributes(raw@),
{
    let mut r: Vec<Attribute> = Vec::new();
    let mut i: usize = 0;
    while i < raw.len()
        invariant
            i <= raw@.len(),
            crate::extract::attr_views(r@) == decode_attributes(raw@.subrange(0, i as int)),
        decreases raw@.len() - i,
    {
        assert(raw@.subrange(0, i + 1).drop_last() =~= raw@.subrange(0, i as int));
        match &raw[i] {
            Some(a) => {
                let k = decode_utf8(&a.key);
                let v = decode_utf8(&a.value);
                match (k, v) {
                    (Some(k), Some(v)) => {
                        let ghost pair = (k@, v@);
                        r.push(Attribute { key: k, value: v });
                        assert(crate::extract::attr_views(r@) =~= crate::extract::attr_views(
                            r@.drop_last(),
                        ).push(pair));
                    },
                    _ => {},
                }
            },
            None => {},
        }
        i = i + 1;
    }
    assert(raw@.subrange(0, raw@.len() as int) =~= raw@);
    r
}

/// Reads `xml_content` with quick_xml and returns the values that `rule`
/// picks from it, in document order, or `Malformed` where the document cannot
/// be read to its end.
pub fn parse_xml(xml_content: &str, rule: &ParserRule) -> (r: Result<Vec<String>, ExtractError>)
    ensures
        match r {
            Ok(v) => scan_document(xml_content@, *rule) == Ok::<Seq<Seq<char>>, ExtractError>(
                views(v@),
            ),
            Err(e) => scan_document(xml_content@, *rule) == Err::<Seq<Seq<char>>, ExtractError>(e),
        },
{
    let n = xml_content.unicode_len();
    let mut reader = open_reader(xml_content);
    let mut scan = Scan::new();
    let mut k: usize = 0;
    loop
        invariant
            n == xml_content@.len(),
            k <= n,
            reader_text(reader) == xml_content@,
            reader_count(reader) == k,
            !scan@.done,
            scan_from(xml_content@, k as nat, scan@, views(rule.path@), rule.property@)
                == scan_document(xml_content@, *rule),
        decreases n - k,
    {
        let raw = read_step(&mut reader);
        match decode_event(raw) {
            None => {
                return Err(ExtractError::Malformed);
            },
            Some(e) => {
                if let XmlEvent::End = e {
                    return Ok(scan.into_found());
                }
                if k >= n {
                    return Err(ExtractError::Malformed);
                }
                scan.apply(&e, rule);
                k = k + 1;
            },
        }
    }
}

} // verus!
