//! The events of an XML file and their names and attributes as text.
//!
//! The bytes of a file are cut into events by `quick_xml`. What its tokenizer reads
//! out of given bytes has a name here and no definition: that is for the tokenizer to
//! say. What is done with the reads is verified.
use crate::error::ParseError;
use crate::text::{decode_text, find_first, position_of_byte, text_of};
use crate::utils::VecReadWrapper;
use quick_xml::events::attributes::AttrError;
use quick_xml::events::Event;
use quick_xml::reader::Reader;
use vstd::prelude::*;
use vstd::slice::slice_subrange;

verus! {

/// The tokenizer of `quick_xml`, opaque to the proofs.
#[verifier::external_type_specification]
#[verifier::external_body]
#[verifier::reject_recursive_types(R)]
pub struct ExReader<R>(Reader<R>);

/// One event as `quick_xml` hands it out, opaque to the proofs.
#[verifier::external_type_specification]
#[verifier::external_body]
pub struct ExEvent<'a>(Event<'a>);

/// The error with which `quick_xml` gives up on its input.
#[verifier::external_type_specification]
#[verifier::external_body]
pub struct ExXmlError(quick_xml::Error);

/// The error with which `quick_xml` gives up on the attributes of a tag.
#[verifier::external_type_specification]
#[verifier::external_body]
pub struct ExAttrError(AttrError);

/// A tokenizer over the bytes of one file.
pub type XMLReader = Reader<VecReadWrapper>;

/// One attribute as it stands in a tag: the qualified name and the value between
/// the quotes, both as raw bytes.
#[derive(Clone, Debug, PartialEq, Eq)]
pub struct RawAttribute {
    pub key: Vec<u8>,
    pub value: Vec<u8>,
}

/// What a `RawAttribute` holds.
pub struct AttributeBytes {
    pub key: Seq<u8>,
    pub value: Seq<u8>,
}

impl View for RawAttribute {
    type V = AttributeBytes;

    open spec fn view(&self) -> AttributeBytes {
        AttributeBytes { key: self.key@, value: self.value@ }
    }
}

/// What a list of raw attributes holds.
pub open spec fn raw_views(attributes: Seq<RawAttribute>) -> Seq<AttributeBytes> {
    Seq::new(attributes.len(), |i: int| attributes[i]@)
}

/// A tag that can have attributes: its qualified name, prefix and colon included, and
/// its attributes in the order in which they stand.
#[derive(Clone, Debug, PartialEq, Eq)]
pub struct XmlTag {
    pub name: Vec<u8>,
    pub attributes: Vec<RawAttribute>,
}

/// What an `XmlTag` holds.
pub struct TagBytes {
    pub name: Seq<u8>,
    pub attributes: Seq<AttributeBytes>,
}

impl View for XmlTag {
    type V = TagBytes;

    open spec fn view(&self) -> TagBytes {
        TagBytes { name: self.name@, attributes: raw_views(self.attributes@) }
    }
}

/// One structural event of an XML file. Names and values are the raw bytes of the file.
#[derive(Clone, Debug, PartialEq, Eq)]
pub enum XmlEvent {
    /// `<name attributes>`
    StartTag(XmlTag),
    /// `</name>`, with the qualified name.
    EndTag(Vec<u8>),
    /// `<name attributes/>`
    EmptyTag(XmlTag),
    /// Character data between tags.
    Text(Vec<u8>),
    /// `<!-- ... -->`
    Comment,
    /// `<?xml ... ?>`, with what stands between the question marks.
    Declaration(Vec<u8>),
    /// `<? ... ?>`
    ProcessingInstruction,
    /// `<![CDATA[ ... ]]>`
    CData,
    /// `<!DOCTYPE ... >`
    DocType,
    /// The end of the file.
    EndOfStream,
}

/// What an `XmlEvent` holds.
pub enum EventView {
    StartTag(TagBytes),
    EndTag(Seq<u8>),
    EmptyTag(TagBytes),
    Text(Seq<u8>),
    Comment,
    Declaration(Seq<u8>),
    ProcessingInstruction,
    CData,
    DocType,
    EndOfStream,
}

impl View for XmlEvent {
    type V = EventView;

    open spec fn view(&self) -> EventView {
        match self {
            XmlEvent::StartTag(tag) => EventView::StartTag(tag@),
            XmlEvent::EndTag(name) => EventView::EndTag(name@),
            XmlEvent::EmptyTag(tag) => EventView::EmptyTag(tag@),
            XmlEvent::Text(content) => EventView::Text(content@),
            XmlEvent::Comment => EventView::Comment,
            XmlEvent::Declaration(content) => EventView::Declaration(content@),
            XmlEvent::ProcessingInstruction => EventView::ProcessingInstruction,
            XmlEvent::CData => EventView::CData,
            XmlEvent::DocType => EventView::DocType,
            XmlEvent::EndOfStream => EventView::EndOfStream,
        }
    }
}

/// What a list of events holds.
pub open spec fn event_views(events: Seq<XmlEvent>) -> Seq<EventView> {
    Seq::new(events.len(), |i: int| events[i]@)
}

/// What kind of event was read, with its name or content, and without attributes.
#[derive(Debug)]
pub enum EventHead {
    Start(Vec<u8>),
    End(Vec<u8>),
    Empty(Vec<u8>),
    Text(Vec<u8>),
    Declaration(Vec<u8>),
    Comment,
    CData,
    ProcessingInstruction,
    DocType,
    Eof,
}

impl View for EventHead {
    type V = EventView;

    /// The event without the attributes that a tag has.
    open spec fn view(&self) -> EventView {
        match self {
            EventHead::Start(name) => EventView::StartTag(TagBytes { name: name@, attributes: Seq::empty() }),
            EventHead::End(name) => EventView::EndTag(name@),
            EventHead::Empty(name) => EventView::EmptyTag(TagBytes { name: name@, attributes: Seq::empty() }),
            EventHead::Text(content) => EventView::Text(content@),
            EventHead::Declaration(content) => EventView::Declaration(content@),
            EventHead::Comment => EventView::Comment,
            EventHead::CData => EventView::CData,
            EventHead::ProcessingInstruction => EventView::ProcessingInstruction,
            EventHead::DocType => EventView::DocType,
            EventHead::Eof => EventView::EndOfStream,
        }
    }
}

/// What one read of the tokenizer gives.
pub enum ReadView {
    /// The tokenizer reports an error.
    Failed,
    /// An event: the event without attributes, and the attributes that its tag has,
    /// or nothing where the attribute iterator reports an error.
    Event(EventView, Option<Seq<AttributeBytes>>),
}

/// The reads that a tokenizer has to come, in their order, up to and with the first that
/// fails or is the end of the input. A tokenizer over the bytes of a file always has such
/// a first read to come, so the list is never empty.
pub uninterp spec fn reads_to_come(reader: XMLReader) -> Seq<ReadView>;

/// The reads that a tokenizer has to come which was made over a source with the bytes
/// `bytes` left, with every setting as `Reader::from_reader` leaves it but for `trim_text`,
/// which is set to `trim`.
pub uninterp spec fn file_reads(bytes: Seq<u8>, trim: bool) -> Seq<ReadView>;

/// What kind of event an event of the tokenizer is, with the qualified name of a tag,
/// the bytes of character data or what stands in a declaration; a tag stands without
/// its attributes.
pub uninterp spec fn event_shape(event: Event<'static>) -> EventView;

/// The attributes of an event that is a start tag or an empty tag, in the order in which
/// they stand, or nothing where the attribute iterator reports an error; no attributes
/// for another event.
pub uninterp spec fn event_attribute_list(event: Event<'static>) -> Option<Seq<AttributeBytes>>;

/// `Reader::from_reader` and `Reader::trim_text`: a tokenizer that reads from `source`,
/// with the default settings but for `trim_text`, which says whether white space around
/// character data is dropped, and with it character data that is white space only. What
/// such a tokenizer has to come is a matter of the bytes left in `source` and of `trim`
/// alone.
#[verifier::external_body]
pub(crate) fn open_reader(source: VecReadWrapper, trim: bool) -> (r: XMLReader)
    ensures
        reads_to_come(r) == file_reads(source.remaining(), trim),
{
    let mut reader = Reader::from_reader(source);
    reader.trim_text(trim);
    reader
}

/// `Reader::read_event_into` and `Event::into_owned`: the next event of the input, or the
/// error that the tokenizer met. It is the first of the reads that the tokenizer had to
/// come. Where it is an event other than the end of the input, the tokenizer has the
/// rest of them to come; the last of them is an error or the end of the input.
#[verifier::external_body]
fn read_event(reader: &mut XMLReader) -> (r: Result<Event<'static>, quick_xml::Error>)
    ensures
        reads_to_come(*old(reader)).len() > 0,
        match r {
            Ok(event) => {
                &&& reads_to_come(*old(reader))[0] == ReadView::Event(
                    event_shape(event),
                    event_attribute_list(event),
                )
                &&& if event_shape(event) is EndOfStream {
                    reads_to_come(*old(reader)).len() == 1
                } else {
                    reads_to_come(*final(reader)) == reads_to_come(*old(reader)).drop_first()
                }
            },
            Err(_) => reads_to_come(*old(reader)) == seq![ReadView::Failed],
        },
{
    let mut buf = Vec::new();
    match reader.read_event_into(&mut buf) {
        Ok(event) => Ok(event.into_owned()),
        Err(e) => Err(e),
    }
}

/// Tells the variants of `Event` apart and copies out the qualified name of a tag
/// (`BytesStart::name`, `BytesEnd::name`), or the bytes of character data or of a
/// declaration (their `Deref`). What is copied out is what the event holds.
#[verifier::external_body]
fn event_head(event: &Event<'static>) -> (r: EventHead)
    ensures
        r@ == event_shape(*event),
{
    match event {
        Event::Start(t) => EventHead::Start(t.name().0.to_vec()),
        Event::End(t) => EventHead::End(t.name().0.to_vec()),
        Event::Empty(t) => EventHead::Empty(t.name().0.to_vec()),
        Event::Text(t) => EventHead::Text(t.to_vec()),
        Event::Decl(t) => EventHead::Declaration(t.to_vec()),
        Event::Comment(_) => EventHead::Comment,
        Event::CData(_) => EventHead::CData,
        Event::PI(_) => EventHead::ProcessingInstruction,
        Event::DocType(_) => EventHead::DocType,
        Event::Eof => EventHead::Eof,
    }
}

/// What the attributes read for an event hold, where the attribute iterator met no error.
pub open spec fn read_attributes(attributes: Result<Vec<RawAttribute>, AttrError>) -> Option<
    Seq<AttributeBytes>,
> {
    match attributes {
        Ok(attributes) => Some(raw_views(attributes@)),
        Err(_) => None,
    }
}

/// `BytesStart::attributes`: the attributes of a start or empty tag in the order in which
/// they stand, or the first error of the attribute iterator; no attributes for another
/// event. They are the attributes that the event holds.
#[verifier::external_body]
fn event_attributes(event: &Event<'static>) -> (r: Result<Vec<RawAttribute>, AttrError>)
    ensures
        read_attributes(r) == event_attribute_list(*event),
{
    match event {
        Event::Start(t) | Event::Empty(t) => t.attributes().map(
            |a| a.map(|a| RawAttribute { key: a.key.0.to_vec(), value: a.value.into_owned() }),
        ).collect(),
        _ => Ok(Vec::new()),
    }
}

/// Whether `events` is what one file gives: it ends with `EndOfStream`, which
/// stands nowhere else.
pub open spec fn ends_stream(events: Seq<EventView>) -> bool {
    &&& events.len() > 0
    &&& events.last() is EndOfStream
    &&& forall|i: int| 0 <= i < events.len() - 1 ==> !(#[trigger] events[i] is EndOfStream)
}

/// The event that an event without attributes and the attributes read for it make up.
/// A start tag and an empty tag take the attributes, and are `InvalidXml` where there
/// was an error in them; every other event stays as it is, whatever the attributes are.
pub open spec fn made_event(shape: EventView, attributes: Option<Seq<AttributeBytes>>) -> Result<
    EventView,
    ParseError,
> {
    match shape {
        EventView::StartTag(tag) => match attributes {
            Some(attributes) => Ok(EventView::StartTag(TagBytes { name: tag.name, attributes })),
            None => Err(ParseError::InvalidXml),
        },
        EventView::EmptyTag(tag) => match attributes {
            Some(attributes) => Ok(EventView::EmptyTag(TagBytes { name: tag.name, attributes })),
            None => Err(ParseError::InvalidXml),
        },
        _ => Ok(shape),
    }
}

/// The event that one read gives, or `InvalidXml` where the tokenizer or the attribute
/// iterator reports an error.
pub open spec fn read_event_view(read: ReadView) -> Result<EventView, ParseError> {
    match read {
        ReadView::Failed => Err(ParseError::InvalidXml),
        ReadView::Event(shape, attributes) => made_event(shape, attributes),
    }
}

/// The events that a list of reads gives: the events in their order, up to and with the
/// end of the input. There are none where a read before the end of the input gives
/// `InvalidXml`, or where the reads run out before the end of the input.
pub open spec fn events_of_reads(reads: Seq<ReadView>) -> Option<Seq<EventView>>
    decreases reads.len(),
{
    if reads.len() == 0 {
        None
    } else {
        match read_event_view(reads[0]) {
            Err(_) => None,
            Ok(event) => if event is EndOfStream {
                Some(seq![event])
            } else {
                match events_of_reads(reads.drop_first()) {
                    None => None,
                    Some(rest) => Some(seq![event] + rest),
                }
            },
        }
    }
}

/// The events that a tokenizer gives when it is read to the end of its input, if it
/// gets there without an error.
pub open spec fn events_to_come(reader: XMLReader) -> Option<Seq<EventView>> {
    events_of_reads(reads_to_come(reader))
}

/// The events of a file with the bytes `bytes`, with white space around character data
/// dropped: none where the file is not well-formed.
pub open spec fn file_events(bytes: Seq<u8>) -> Option<Seq<EventView>> {
    events_of_reads(file_reads(bytes, true))
}

/// The events that reads give end the stream.
pub proof fn lemma_events_of_reads_end(reads: Seq<ReadView>)
    requires
        events_of_reads(reads) is Some,
    ensures
        ends_stream(events_of_reads(reads)->Some_0),
    decreases reads.len(),
{
    let event = read_event_view(reads[0])->Ok_0;
    if !(event is EndOfStream) {
        lemma_events_of_reads_end(reads.drop_first());
        let rest = events_of_reads(reads.drop_first())->Some_0;
        let all = seq![event] + rest;
        assert(all.last() == rest.last());
        assert forall|i: int| 0 <= i < all.len() - 1 implies !(#[trigger] all[i] is EndOfStream) by {
            if i > 0 {
                assert(all[i] == rest[i - 1]);
            }
        }
    }
}

/// Puts an event together out of its head and the attributes read for it.
pub fn event_of(head: EventHead, attributes: Result<Vec<RawAttribute>, AttrError>) -> (r: Result<
    XmlEvent,
    ParseError,
>)
    ensures
        match (r, made_event(head@, read_attributes(attributes))) {
            (Ok(event), Ok(made)) => event@ == made,
            (Err(e), Err(d)) => e == d,
            _ => false,
        },
{
    match head {
        EventHead::Start(name) => match attributes {
            Ok(attributes) => Ok(XmlEvent::StartTag(XmlTag { name, attributes })),
            Err(_) => Err(ParseError::InvalidXml),
        },
        EventHead::Empty(name) => match attributes {
            Ok(attributes) => Ok(XmlEvent::EmptyTag(XmlTag { name, attributes })),
            Err(_) => Err(ParseError::InvalidXml),
        },
        EventHead::End(name) => Ok(XmlEvent::EndTag(name)),
        EventHead::Text(content) => Ok(XmlEvent::Text(content)),
        EventHead::Declaration(content) => Ok(XmlEvent::Declaration(content)),
        EventHead::Comment => Ok(XmlEvent::Comment),
        EventHead::CData => Ok(XmlEvent::CData),
        EventHead::ProcessingInstruction => Ok(XmlEvent::ProcessingInstruction),
        EventHead::DocType => Ok(XmlEvent::DocType),
        EventHead::Eof => Ok(XmlEvent::EndOfStream),
    }
}

/// Reads one event with its attributes: the first of the reads that the tokenizer had
/// to come. After an event other than the end of the input, the tokenizer has the rest
/// of them to come.
fn next_xml_event(reader: &mut XMLReader) -> (r: Result<XmlEvent, ParseError>)
    ensures
        reads_to_come(*old(reader)).len() > 0,
        match (r, read_event_view(reads_to_come(*old(reader))[0])) {
            (Ok(event), Ok(read)) => {
                &&& event@ == read
                &&& if read is EndOfStream {
                    reads_to_come(*old(reader)).len() == 1
                } else {
                    reads_to_come(*final(reader)) == reads_to_come(*old(reader)).drop_first()
                }
            },
            (Err(e), Err(d)) => e == d,
            _ => false,
        },
{
    let event = match read_event(reader) {
        Ok(event) => event,
        Err(_) => {
            return Err(ParseError::InvalidXml);
        },
    };
    let head = event_head(&event);
    let attributes = event_attributes(&event);
    event_of(head, attributes)
}

/// The events `done` and, behind them, the events `rest`, if there are any.
pub open spec fn events_before(done: Seq<EventView>, rest: Option<Seq<EventView>>) -> Option<
    Seq<EventView>,
> {
    match rest {
        Some(rest) => Some(done + rest),
        None => None,
    }
}

/// Reads the events of a file up to its end, the `EndOfStream` event included. The
/// read is given up with `InvalidXml` where the tokenizer reports an error, in the file
/// or in the attributes of a tag.
pub fn collect_to_vec(reader: XMLReader) -> (r: Result<Vec<XmlEvent>, ParseError>)
    ensures
        match (r, events_to_come(reader)) {
            (Ok(events), Some(to_come)) => event_views(events@) == to_come && ends_stream(to_come),
            (Err(e), None) => e == ParseError::InvalidXml,
            _ => false,
        },
{
    let mut tokenizer = reader;
    let mut result: Vec<XmlEvent> = Vec::new();
    proof {
        let all = events_to_come(reader);
        if all is Some {
            lemma_events_of_reads_end(reads_to_come(reader));
            assert(event_views(result@) + all->Some_0 =~= all->Some_0);
        }
    }
    loop
        invariant
            events_to_come(reader) == events_before(event_views(result@), events_to_come(tokenizer)),
            events_to_come(reader) is Some ==> ends_stream(events_to_come(reader)->Some_0),
        decreases reads_to_come(tokenizer).len(),
    {
        let ghost done = event_views(result@);
        let ghost reads = reads_to_come(tokenizer);
        let event = next_xml_event(&mut tokenizer)?;
        proof {
            let rest = events_of_reads(reads.drop_first());
            if event@ is EndOfStream {
                assert(done + seq![event@] =~= done.push(event@));
            } else if rest is Some {
                assert(done + (seq![event@] + rest->Some_0) =~= done.push(event@) + rest->Some_0);
            }
        }
        let end = match event {
            XmlEvent::EndOfStream => true,
            _ => false,
        };
        result.push(event);
        assert(event_views(result@) =~= done.push(event@));
        if end {
            return Ok(result);
        }
    }
}

/// The byte that parts a prefix from a local name.
pub const COLON: u8 = 0x3a;

/// The part of a qualified name behind its first colon, or all of it where it has none.
pub open spec fn local_part(qname: Seq<u8>) -> Seq<u8> {
    let i = find_first(qname, COLON);
    if 0 <= i < qname.len() {
        qname.skip(i + 1)
    } else {
        qname
    }
}

/// The part of a qualified name before its first colon, where it has one.
pub open spec fn prefix_part(qname: Seq<u8>) -> Option<Seq<u8>> {
    let i = find_first(qname, COLON);
    if 0 <= i < qname.len() {
        Some(qname.take(i))
    } else {
        None
    }
}

/// Cuts a qualified name at its first colon into the local name and the prefix;
/// without a colon all of it is the local name and there is no prefix.
pub fn decompose(qname: &[u8]) -> (r: (&[u8], Option<&[u8]>))
    ensures
        r.0@ == local_part(qname@),
        match r.1 {
            Some(prefix) => prefix_part(qname@) == Some(prefix@),
            None => prefix_part(qname@) is None,
        },
{
    let colon = position_of_byte(qname, COLON);
    if colon < qname.len() {
        let name = slice_subrange(qname, colon + 1, qname.len());
        let prefix = slice_subrange(qname, 0, colon);
        assert(name@ =~= qname@.skip(colon + 1));
        assert(prefix@ =~= qname@.take(colon as int));
        (name, Some(prefix))
    } else {
        (qname, None)
    }
}

/// A name as text: the local name and, where there is one, the prefix.
pub open spec fn decoded_name(qname: Seq<u8>) -> Result<(Seq<char>, Option<Seq<char>>), ParseError> {
    match (text_of(local_part(qname)), prefix_part(qname)) {
        (None, _) => Err(ParseError::InvalidEncoding),
        (Some(name), None) => Ok((name, None)),
        (Some(name), Some(prefix)) => match text_of(prefix) {
            None => Err(ParseError::InvalidEncoding),
            Some(prefix) => Ok((name, Some(prefix))),
        },
    }
}

/// Splits a qualified name into local name and prefix and checks that both are UTF-8.
pub fn extract_name_from_qname(qname: &[u8]) -> (r: Result<(String, Option<String>), ParseError>)
    ensures
        match (r, decoded_name(qname@)) {
            (Ok((name, prefix)), Ok((n, p))) => name@ == n && match (prefix, p) {
                (Some(prefix), Some(p)) => prefix@ == p,
                (None, None) => true,
                _ => false,
            },
            (Err(e), Err(d)) => e == d,
            _ => false,
        },
{
    let (name, prefix) = decompose(qname);
    let name = match decode_text(name) {
        Some(name) => name,
        None => {
            return Err(ParseError::InvalidEncoding);
        },
    };
    match prefix {
        None => Ok((name, None)),
        Some(prefix) => match decode_text(prefix) {
            Some(prefix) => Ok((name, Some(prefix))),
            None => Err(ParseError::InvalidEncoding),
        },
    }
}

/// One attribute as text.
#[derive(Debug, PartialEq, Eq)]
pub struct ParsedAttribute {
    /// The local name and, where there is one, the prefix.
    pub key: (String, Option<String>),
    pub value: String,
}

/// What a `ParsedAttribute` holds.
pub struct AttributeView {
    pub name: Seq<char>,
    pub prefix: Option<Seq<char>>,
    pub value: Seq<char>,
}

impl View for ParsedAttribute {
    type V = AttributeView;

    open spec fn view(&self) -> AttributeView {
        AttributeView {
            name: self.key.0@,
            prefix: match self.key.1 {
                Some(prefix) => Some(prefix@),
                None => None,
            },
            value: self.value@,
        }
    }
}

/// What a list of attributes holds.
pub open spec fn attribute_views(attributes: Seq<ParsedAttribute>) -> Seq<AttributeView> {
    Seq::new(attributes.len(), |i: int| attributes[i]@)
}

/// One attribute as text: the name is split and name, prefix and value are checked to be UTF-8.
pub open spec fn decoded_attribute(key: Seq<u8>, value: Seq<u8>) -> Result<AttributeView, ParseError> {
    match (decoded_name(key), text_of(value)) {
        (Ok((name, prefix)), Some(value)) => Ok(AttributeView { name, prefix, value }),
        _ => Err(ParseError::InvalidEncoding),
    }
}

/// Whether every attribute of `raw` is UTF-8.
pub open spec fn all_decodable(raw: Seq<AttributeBytes>) -> bool {
    forall|i: int| 0 <= i < raw.len() ==> decoded_attribute((#[trigger] raw[i]).key, raw[i].value) is Ok
}

/// The attributes of a tag as text, in their order, provided every one of them is UTF-8.
pub open spec fn decoded_attributes(raw: Seq<AttributeBytes>) -> Result<Seq<AttributeView>, ParseError> {
    if all_decodable(raw) {
        Ok(Seq::new(raw.len(), |i: int| decoded_attribute(raw[i].key, raw[i].value)->Ok_0))
    } else {
        Err(ParseError::InvalidEncoding)
    }
}

impl ParsedAttribute {
    /// Decodes one attribute.
    pub fn parse(attr: &RawAttribute) -> (r: Result<ParsedAttribute, ParseError>)
        ensures
            match (r, decoded_attribute(attr.key@, attr.value@)) {
                (Ok(a), Ok(d)) => a@ == d,
                (Err(e), Err(d)) => e == d,
                _ => false,
            },
    {
        let (name, prefix) = extract_name_from_qname(attr.key.as_slice())?;
        match decode_text(attr.value.as_slice()) {
            Some(value) => Ok(ParsedAttribute { key: (name, prefix), value }),
            None => Err(ParseError::InvalidEncoding),
        }
    }
}

/// What has attributes.
pub trait HasAttribute {
    /// What the attributes hold, in the order in which they stand.
    spec fn raw_attributes(&self) -> Seq<AttributeBytes>;

    /// The attributes in the order in which they stand.
    fn attributes(&self) -> (r: &Vec<RawAttribute>)
        ensures
            raw_views(r@) == self.raw_attributes(),
    ;
}

impl HasAttribute for XmlTag {
    open spec fn raw_attributes(&self) -> Seq<AttributeBytes> {
        raw_views(self.attributes@)
    }

    fn attributes(&self) -> (r: &Vec<RawAttribute>) {
        &self.attributes
    }
}

/// Decodes the attributes of a tag. Which names a tag admits is for the caller to check.
pub fn parse_attributes<T: HasAttribute>(tag: &T) -> (r: Result<Vec<ParsedAttribute>, ParseError>)
    ensures
        match (r, decoded_attributes(tag.raw_attributes())) {
            (Ok(v), Ok(d)) => attribute_views(v@) == d,
            (Err(e), Err(d)) => e == d,
            _ => false,
        },
{
    let attributes = tag.attributes();
    let mut v: Vec<ParsedAttribute> = Vec::new();
    let mut i: usize = 0;
    while i < attributes.len()
        invariant
            i <= attributes@.len(),
            raw_views(attributes@) == tag.raw_attributes(),
            v@.len() == i,
            forall|j: int|
                0 <= j < i ==> decoded_attribute(
                    (#[trigger] attributes@[j]).key@,
                    attributes@[j].value@,
                ) == Ok::<AttributeView, ParseError>(v@[j]@),
        decreases attributes.len() - i,
    {
        assert(raw_views(attributes@)[i as int] == attributes@[i as int]@);
        let attr = ParsedAttribute::parse(&attributes[i])?;
        v.push(attr);
        i += 1;
    }
    assert forall|j: int| 0 <= j < attributes@.len() implies decoded_attribute(
        (#[trigger] raw_views(attributes@)[j]).key,
        raw_views(attributes@)[j].value,
    ) is Ok by {
        assert(decoded_attribute(attributes@[j].key@, attributes@[j].value@) is Ok);
    }
    assert(attribute_views(v@) =~= decoded_attributes(tag.raw_attributes())->Ok_0);
    Ok(v)
}

} // verus!
