//! XML documents as lists of plain events.

use quick_xml::events::{BytesRef, BytesStart, Event};
use quick_xml::XmlVersion;

use vstd::prelude::*;

use crate::text::same_text;

verus! {

/// What stands in a document: tags, texts and references to characters. A
/// document ends with its end or with a fault.
#[derive(Debug, Clone, PartialEq, Eq)]
pub enum XmlEvent {
    Start { name: String, attributes: String },
    End { name: String },
    Text(String),
    Reference(String),
    Other,
    Eof,
    Fault(String),
}

/// An event with the number of bytes that the document has up to its end.
#[derive(Debug, Clone, PartialEq, Eq)]
pub struct XmlStep {
    pub event: XmlEvent,
    pub offset: u64,
}

/// An [`XmlEvent`] as sequences of characters.
pub enum EventView {
    Start { name: Seq<char>, attributes: Seq<char> },
    End { name: Seq<char> },
    Text(Seq<char>),
    Reference(Seq<char>),
    Other,
    Eof,
    Fault(Seq<char>),
}

/// An [`XmlStep`] as sequences of characters.
pub struct StepView {
    pub event: EventView,
    pub offset: u64,
}

impl View for XmlStep {
    type V = StepView;

    open spec fn view(&self) -> StepView {
        StepView {
            event: match self.event {
                XmlEvent::Start { name, attributes } => EventView::Start {
                    name: name@,
                    attributes: attributes@,
                },
                XmlEvent::End { name } => EventView::End { name: name@ },
                XmlEvent::Text(text) => EventView::Text(text@),
                XmlEvent::Reference(name) => EventView::Reference(name@),
                XmlEvent::Other => EventView::Other,
                XmlEvent::Eof => EventView::Eof,
                XmlEvent::Fault(message) => EventView::Fault(message@),
            },
            offset: self.offset,
        }
    }
}

/// What a list of events stands for.
pub open spec fn step_views(steps: Seq<XmlStep>) -> Seq<StepView> {
    steps.map_values(|step: XmlStep| step@)
}

/// Whether nothing stands behind an event.
pub open spec fn is_last(step: StepView) -> bool {
    step.event is Eof || step.event is Fault
}

/// `quick_xml::Reader`: a document that is read event by event.
#[verifier::external_type_specification]
#[verifier::external_body]
#[verifier::reject_recursive_types(R)]
pub struct ExReader<R>(quick_xml::Reader<R>);

/// The events that `quick_xml::Reader` finds in a document, up to the first end
/// or fault. Empty elements are a start and an end, and texts are trimmed if
/// that is wanted.
pub uninterp spec fn document_steps(source: Seq<u8>, trim: bool) -> Seq<StepView>;

/// The events that a reader has not handed out yet, up to the first end or
/// fault.
pub uninterp spec fn steps_left(reader: quick_xml::Reader<&[u8]>) -> Seq<StepView>;

/// The value that `quick_xml` finds for an attribute: what stands behind the
/// name of a tag is searched for the key, and the value is normalized.
pub uninterp spec fn attribute_of(attributes: Seq<char>, key: Seq<char>) -> Result<
    Option<Seq<char>>,
    Seq<char>,
>;

/// The character that `quick_xml` finds for a reference by number; none for a
/// reference by name.
pub uninterp spec fn character_of(reference: Seq<char>) -> Result<Option<char>, Seq<char>>;

/// `quick_xml::Reader::from_reader`: a reader of a document hands out the events
/// of the document, of which there is one at least.
#[verifier::external_body]
fn new_reader<'a>(source: &'a [u8], trim: bool) -> (reader: quick_xml::Reader<&'a [u8]>)
    ensures
        steps_left(reader) == document_steps(source@, trim),
        steps_left(reader).len() > 0,
{
    let mut reader = quick_xml::Reader::from_reader(source);
    reader.config_mut().expand_empty_elements = true;
    reader.config_mut().trim_text(trim);
    reader
}

/// `quick_xml::Reader::read_event`: hands out the next event, with the lines of
/// a text ended by line feeds. An end or a fault is the last event.
#[verifier::external_body]
fn next_step(reader: &mut quick_xml::Reader<&[u8]>) -> (step: XmlStep)
    requires
        steps_left(*old(reader)).len() > 0,
    ensures
        step@ == steps_left(*old(reader))[0],
        steps_left(*final(reader)) == steps_left(*old(reader)).skip(1),
        is_last(step@) == (steps_left(*final(reader)).len() == 0),
{
    let event = match reader.read_event() {
        Err(error) => XmlEvent::Fault(error.to_string()),
        Ok(event) => match event {
            Event::Start(tag) => XmlEvent::Start {
                name: tag.name().0.to_owned(), attributes: tag.attributes_raw().to_owned() },
            Event::End(tag) => XmlEvent::End { name: tag.name().0.to_owned() },
            Event::Text(text) => XmlEvent::Text(text.xml10_content().into_owned()),
            Event::CData(text) => XmlEvent::Text(text.into_inner().into_owned()),
            Event::GeneralRef(name) => XmlEvent::Reference(name.into_inner().into_owned()),
            Event::Eof => XmlEvent::Eof,
            _ => XmlEvent::Other,
        },
    };
    XmlStep { event, offset: reader.buffer_position() }
}

/// What the result of a search for an attribute stands for.
pub open spec fn attribute_view(result: Result<Option<String>, String>) -> Result<
    Option<Seq<char>>,
    Seq<char>,
> {
    match result {
        Ok(Some(value)) => Ok(Some(value@)),
        Ok(None) => Ok(None),
        Err(message) => Err(message@),
    }
}

/// `BytesStart::try_get_attribute` and `Attribute::normalized_value` of
/// `quick_xml`: the value of an attribute of a tag.
#[verifier::external_body]
pub(crate) fn attribute(attributes: &str, key: &str) -> (result: Result<Option<String>, String>)
    ensures
        attribute_view(result) == attribute_of(attributes@, key@),
{
    let tag = BytesStart::from_content(attributes, 0);
    let found = tag.try_get_attribute(key).map_err(|error| error.to_string())?;
    let Some(found) = found else {
        return Ok(None);
    };
    let value = found.normalized_value(XmlVersion::Implicit1_0);
    value.map(|text| Some(text.into_owned())).map_err(|error| error.to_string())
}

/// `BytesRef::resolve_char_ref` of `quick_xml`: the character that a reference
/// means by its number.
#[verifier::external_body]
fn character_reference(reference: &str) -> (result: Result<Option<char>, String>)
    ensures
        match result {
            Ok(character) => character_of(reference@) == Ok::<Option<char>, Seq<char>>(character),
            Err(message) => character_of(reference@) == Err::<Option<char>, Seq<char>>(message@),
        },
{
    BytesRef::new(reference).resolve_char_ref().map_err(|error| error.to_string())
}

/// Returns the events of a document.
pub fn read_document(source: &[u8], trim: bool) -> (steps: Vec<XmlStep>)
    ensures
        step_views(steps@) == document_steps(source@, trim),
{
    let mut reader = new_reader(source, trim);
    let mut steps: Vec<XmlStep> = Vec::new();
    let ghost all = steps_left(reader);
    let mut done = false;
    assert(step_views(steps@) + steps_left(reader) =~= all);
    while !done
        invariant
            step_views(steps@) + steps_left(reader) == all,
            done == (steps_left(reader).len() == 0),
        decreases steps_left(reader).len(),
    {
        let ghost before = steps_left(reader);
        let ghost views = step_views(steps@);
        let step = next_step(&mut reader);
        done = matches!(step.event, XmlEvent::Eof | XmlEvent::Fault(_));
        let ghost view = step@;
        steps.push(step);
        proof {
            assert(step_views(steps@) =~= views.push(view));
            assert(views.push(view) + before.skip(1) =~= views + before);
        }
    }
    assert(step_views(steps@) + steps_left(reader) =~= step_views(steps@));
    steps
}

/// The character that the name of a predefined entity stands for.
pub open spec fn predefined(name: Seq<char>) -> Option<char> {
    if name == "lt"@ {
        Some('<')
    } else if name == "gt"@ {
        Some('>')
    } else if name == "amp"@ {
        Some('&')
    } else if name == "apos"@ {
        Some('\'')
    } else if name == "quot"@ {
        Some('"')
    } else {
        None
    }
}

/// The character that a reference stands for, or why it stands for none.
pub open spec fn resolved(reference: Seq<char>) -> Result<char, Seq<char>> {
    match character_of(reference) {
        Err(message) => Err(message),
        Ok(Some(character)) => Ok(character),
        Ok(None) => match predefined(reference) {
            Some(character) => Ok(character),
            None => Err("unknown entity "@ + reference),
        },
    }
}

/// Returns the character that a reference stands for, or why it stands for
/// none.
pub fn resolve_reference(reference: &str) -> (result: Result<char, String>)
    ensures
        match result {
            Ok(character) => resolved(reference@) == Ok::<char, Seq<char>>(character),
            Err(message) => resolved(reference@) == Err::<char, Seq<char>>(message@),
        },
{
    match character_reference(reference) {
        Err(message) => Err(message),
        Ok(Some(character)) => Ok(character),
        Ok(None) => {
            if same_text(reference, "lt") {
                Ok('<')
            } else if same_text(reference, "gt") {
                Ok('>')
            } else if same_text(reference, "amp") {
                Ok('&')
            } else if same_text(reference, "apos") {
                Ok('\'')
            } else if same_text(reference, "quot") {
                Ok('"')
            } else {
                let mut message = "unknown entity ".to_owned();
                message.append(reference);
                Err(message)
            }
        },
    }
}

} // verus!
