//! Configurations of a project.

use vstd::prelude::*;

use crate::package::{read_from, read_source, ContentsView, FileContents, ReadFile};
use crate::project::{is_config, ProjectManifest};
use crate::text::{debug_quoted, debug_spelling, decimal, digits, same_text};
use crate::xml::{
    attribute, attribute_of, document_steps, read_document, resolve_reference, resolved,
    step_views, EventView, StepView, XmlEvent, XmlStep,
};

verus! {

/// An option or a constant of a configuration.
#[derive(Debug, Clone, PartialEq, Eq)]
pub struct ConfigEntry {
    pub name: String,
    pub value: String,
}

/// A [`ConfigEntry`] as sequences of characters.
pub struct EntryView {
    pub name: Seq<char>,
    pub value: Seq<char>,
}

impl View for ConfigEntry {
    type V = EntryView;

    open spec fn view(&self) -> EntryView {
        EntryView { name: self.name@, value: self.value@ }
    }
}

/// What a list of entries stands for.
pub open spec fn entry_views(entries: Seq<ConfigEntry>) -> Seq<EntryView> {
    entries.map_values(|entry: ConfigEntry| entry@)
}

/// Why a configuration cannot be read.
#[derive(Debug, Clone, PartialEq, Eq)]
pub enum ConfigError {
    Io { path: String, message: String },
    Xml { path: String, offset: u64, message: String },
    InvalidRoot { path: String, actual: String },
    MissingRoot { path: String },
    MissingConstantName { path: String },
    DuplicateOption { path: String, name: String },
    DuplicateConstant { path: String, name: String },
    NotFound { project: String, name: String },
}

/// What is wrong with a configuration, without its path.
pub enum ConfigFault {
    Xml { offset: u64, message: Seq<char> },
    InvalidRoot { actual: Seq<char> },
    MissingRoot,
    MissingConstantName,
    DuplicateOption { name: Seq<char> },
    DuplicateConstant { name: Seq<char> },
}

/// Whether an error says what is wrong with the configuration at a path.
pub open spec fn tells(error: ConfigError, file: Seq<char>, fault: ConfigFault) -> bool {
    match fault {
        ConfigFault::Xml { offset, message } => error matches ConfigError::Xml {
            path,
            offset: actual_offset,
            message: actual_message,
        } && path@ == file && actual_offset == offset && actual_message@ == message,
        ConfigFault::InvalidRoot { actual } => error matches ConfigError::InvalidRoot {
            path,
            actual: found,
        } && path@ == file && found@ == actual,
        ConfigFault::MissingRoot => error matches ConfigError::MissingRoot { path } && path@
            == file,
        ConfigFault::MissingConstantName => error matches ConfigError::MissingConstantName { path }
            && path@ == file,
        ConfigFault::DuplicateOption { name } => error matches ConfigError::DuplicateOption {
            path,
            name: found,
        } && path@ == file && found@ == name,
        ConfigFault::DuplicateConstant { name } => error matches ConfigError::DuplicateConstant {
            path,
            name: found,
        } && path@ == file && found@ == name,
    }
}

/// The message of an error.
pub open spec fn config_error_text(error: ConfigError) -> Seq<char> {
    match error {
        ConfigError::Io { path, message } => "cannot read config "@ + path@ + ": "@ + message@,
        ConfigError::Xml { path, offset, message } => "invalid XML in config "@ + path@
            + " near byte "@ + digits(offset as nat, 10) + ": "@ + message@,
        ConfigError::InvalidRoot { path, actual } => "invalid config root "@ + debug_spelling(
            actual@,
        ) + " in "@ + path@ + "; expected Config"@,
        ConfigError::MissingRoot { path } => path@ + " does not contain a Config root"@,
        ConfigError::MissingConstantName { path } => "configuration constant without a name in "@
            + path@,
        ConfigError::DuplicateOption { path, name } => "duplicate option "@ + debug_spelling(name@)
            + " in config "@ + path@,
        ConfigError::DuplicateConstant { path, name } => "duplicate constant "@ + debug_spelling(
            name@,
        ) + " in config "@ + path@,
        ConfigError::NotFound { project, name } => "configuration "@ + debug_spelling(name@)
            + " does not exist in project "@ + project@,
    }
}

impl ConfigError {
    /// Returns the message of the error.
    pub fn text(&self) -> (text: String)
        ensures
            text@ == config_error_text(*self),
    {
        let mut text = String::new();
        assert(text@ =~= seq![]);
        match self {
            ConfigError::Io { path, message } => {
                text = "cannot read config ".to_owned();
                text.append(path.as_str());
                text.append(": ");
                text.append(message.as_str());
            },
            ConfigError::Xml { path, offset, message } => {
                text = "invalid XML in config ".to_owned();
                text.append(path.as_str());
                text.append(" near byte ");
                let shown = decimal(*offset);
                text.append(shown.as_str());
                text.append(": ");
                text.append(message.as_str());
            },
            ConfigError::InvalidRoot { path, actual } => {
                text = "invalid config root ".to_owned();
                let shown = debug_quoted(actual.as_str());
                text.append(shown.as_str());
                text.append(" in ");
                text.append(path.as_str());
                text.append("; expected Config");
            },
            ConfigError::MissingRoot { path } => {
                text = path.clone();
                text.append(" does not contain a Config root");
            },
            ConfigError::MissingConstantName { path } => {
                text = "configuration constant without a name in ".to_owned();
                text.append(path.as_str());
            },
            ConfigError::DuplicateOption { path, name } => {
                text = "duplicate option ".to_owned();
                let shown = debug_quoted(name.as_str());
                text.append(shown.as_str());
                text.append(" in config ");
                text.append(path.as_str());
            },
            ConfigError::DuplicateConstant { path, name } => {
                text = "duplicate constant ".to_owned();
                let shown = debug_quoted(name.as_str());
                text.append(shown.as_str());
                text.append(" in config ");
                text.append(path.as_str());
            },
            ConfigError::NotFound { project, name } => {
                text = "configuration ".to_owned();
                let shown = debug_quoted(name.as_str());
                text.append(shown.as_str());
                text.append(" does not exist in project ");
                text.append(project.as_str());
            },
        }
        text
    }
}

/// An open element: its name, its text so far, and the name of the constant
/// that it is.
pub struct Element {
    pub name: Seq<char>,
    pub text: Seq<char>,
    pub constant_name: Option<Seq<char>>,
}

/// What is read of a configuration.
pub struct Reading {
    pub stack: Seq<Element>,
    pub root_options: Seq<EntryView>,
    pub nested_options: Seq<EntryView>,
    pub constants: Seq<EntryView>,
    pub root_seen: bool,
}

/// Whether the open elements have some names.
pub open spec fn is_at(stack: Seq<Element>, names: Seq<Seq<char>>) -> bool {
    &&& stack.len() == names.len()
    &&& forall|k: int| 0 <= k < stack.len() ==> (#[trigger] stack[k]).name == names[k]
}

/// The elements around a constant.
pub open spec fn constant_place() -> Seq<Seq<char>> {
    seq!["Config"@, "ConfigConstants"@, "constants"@]
}

/// The open elements with more text: a text belongs to all of them.
pub open spec fn with_text(stack: Seq<Element>, text: Seq<char>) -> Seq<Element> {
    stack.map_values(|element: Element| Element { text: element.text + text, ..element })
}

impl Reading {
    /// With the start of an element.
    pub open spec fn started(
        self,
        name: Seq<char>,
        attributes: Seq<char>,
        offset: u64,
    ) -> Result<Reading, ConfigFault> {
        if self.stack.len() == 0 && (self.root_seen || name != "Config"@) {
            Err(ConfigFault::InvalidRoot { actual: name })
        } else if is_at(self.stack, constant_place()) {
            match attribute_of(attributes, "name"@) {
                Ok(constant_name) => Ok(
                    Reading {
                        stack: self.stack.push(Element { name, text: seq![], constant_name }),
                        ..self
                    },
                ),
                Err(message) => Err(ConfigFault::Xml { offset, message }),
            }
        } else {
            Ok(
                Reading {
                    stack: self.stack.push(Element { name, text: seq![], constant_name: None }),
                    root_seen: true,
                    ..self
                },
            )
        }
    }

    /// With the end of an element.
    pub open spec fn ended(self, name: Seq<char>, offset: u64) -> Result<Reading, ConfigFault> {
        if self.stack.len() == 0 {
            Err(ConfigFault::Xml { offset, message: "closing tag without an opening tag"@ })
        } else if self.stack.last().name != name {
            Err(
                ConfigFault::Xml {
                    offset,
                    message: "closing tag does not match its opening tag"@,
                },
            )
        } else {
            let element = self.stack.last();
            let stack = self.stack.drop_last();
            let entry = EntryView { name, value: element.text };
            if is_at(stack, constant_place()) {
                match element.constant_name {
                    Some(constant_name) => Ok(
                        Reading {
                            stack,
                            constants: self.constants.push(
                                EntryView { name: constant_name, value: element.text },
                            ),
                            ..self
                        },
                    ),
                    None => Err(ConfigFault::MissingConstantName),
                }
            } else if is_at(stack, seq!["Config"@, "Options"@]) {
                Ok(Reading { stack, nested_options: self.nested_options.push(entry), ..self })
            } else if is_at(stack, seq!["Config"@]) {
                Ok(Reading { stack, root_options: self.root_options.push(entry), ..self })
            } else {
                Ok(Reading { stack, ..self })
            }
        }
    }

    /// With an event.
    pub open spec fn stepped(self, step: StepView) -> Result<Reading, ConfigFault> {
        match step.event {
            EventView::Start { name, attributes } => self.started(name, attributes, step.offset),
            EventView::End { name } => self.ended(name, step.offset),
            EventView::Text(text) => Ok(Reading { stack: with_text(self.stack, text), ..self }),
            EventView::Reference(reference) => match resolved(reference) {
                Ok(character) => Ok(
                    Reading { stack: with_text(self.stack, seq![character]), ..self },
                ),
                Err(message) => Err(ConfigFault::Xml { offset: step.offset, message }),
            },
            EventView::Other => Ok(self),
            EventView::Eof => Ok(self),
            EventView::Fault(message) => Err(ConfigFault::Xml { offset: step.offset, message }),
        }
    }
}

/// What is read before the first event.
pub open spec fn nothing_read() -> Reading {
    Reading {
        stack: seq![],
        root_options: seq![],
        nested_options: seq![],
        constants: seq![],
        root_seen: false,
    }
}

/// What is read with the first events.
pub open spec fn read_steps(steps: Seq<StepView>, count: int) -> Result<Reading, ConfigFault>
    decreases count,
{
    if count <= 0 {
        Ok(nothing_read())
    } else {
        match read_steps(steps, count - 1) {
            Ok(reading) => reading.stepped(steps[count - 1]),
            Err(fault) => Err(fault),
        }
    }
}

/// Whether an entry has the name of an entry before it.
pub open spec fn is_repeated(entries: Seq<EntryView>, index: int) -> bool {
    exists|k: int| 0 <= k < index && (#[trigger] entries[k]).name == entries[index].name
}

/// The first name that occurs a second time among entries, from an index on.
pub open spec fn repeated_from(entries: Seq<EntryView>, index: int) -> Option<Seq<char>>
    decreases entries.len() - index,
{
    if index < 0 || index >= entries.len() {
        None
    } else if is_repeated(entries, index) {
        Some(entries[index].name)
    } else {
        repeated_from(entries, index + 1)
    }
}

/// The options and constants of a configuration.
pub struct Contents {
    pub options: Seq<EntryView>,
    pub constants: Seq<EntryView>,
}

/// What the events of a document make a configuration of: options are those of
/// the element of options, or else those of the root.
pub open spec fn contents_of(steps: Seq<StepView>) -> Result<Contents, ConfigFault> {
    match read_steps(steps, steps.len() as int) {
        Err(fault) => Err(fault),
        Ok(reading) => {
            let options = if reading.nested_options.len() == 0 {
                reading.root_options
            } else {
                reading.nested_options
            };
            if !reading.root_seen {
                Err(ConfigFault::MissingRoot)
            } else if reading.stack.len() > 0 {
                Err(
                    ConfigFault::Xml {
                        offset: 0,
                        message: "config XML ended with unclosed elements"@,
                    },
                )
            } else {
                match repeated_from(options, 0) {
                    Some(name) => Err(ConfigFault::DuplicateOption { name }),
                    None => match repeated_from(reading.constants, 0) {
                        Some(name) => Err(ConfigFault::DuplicateConstant { name }),
                        None => Ok(Contents { options, constants: reading.constants }),
                    },
                }
            }
        },
    }
}

struct Node {
    name: String,
    text: String,
    constant_name: Option<String>,
}

impl View for Node {
    type V = Element;

    closed spec fn view(&self) -> Element {
        Element {
            name: self.name@,
            text: self.text@,
            constant_name: crate::path::optional_view(self.constant_name),
        }
    }
}

spec fn element_views(nodes: Seq<Node>) -> Seq<Element> {
    nodes.map_values(|node: Node| node@)
}

struct ConfigReader {
    stack: Vec<Node>,
    root_options: Vec<ConfigEntry>,
    nested_options: Vec<ConfigEntry>,
    constants: Vec<ConfigEntry>,
    root_seen: bool,
}

impl View for ConfigReader {
    type V = Reading;

    closed spec fn view(&self) -> Reading {
        Reading {
            stack: element_views(self.stack@),
            root_options: entry_views(self.root_options@),
            nested_options: entry_views(self.nested_options@),
            constants: entry_views(self.constants@),
            root_seen: self.root_seen,
        }
    }
}

fn push_entry(entries: &mut Vec<ConfigEntry>, entry: ConfigEntry)
    ensures
        entry_views(final(entries)@) == entry_views(old(entries)@).push(entry@),
{
    let ghost before = entry_views(entries@);
    let ghost added = entry@;
    entries.push(entry);
    assert(entry_views(entries@) =~= before.push(added));
}

fn names_are(stack: &Vec<Node>, names: &[&str], Ghost(expected): Ghost<Seq<Seq<char>>>) -> (result: bool)
    requires
        names@.len() == expected.len(),
        forall|k: int| 0 <= k < names@.len() ==> (#[trigger] names@[k])@ == expected[k],
    ensures
        result == is_at(element_views(stack@), expected),
{
    let ghost elements = element_views(stack@);
    if stack.len() != names.len() {
        return false;
    }
    let mut index: usize = 0;
    while index < stack.len()
        invariant
            index <= stack@.len(),
            stack@.len() == names@.len(),
            names@.len() == expected.len(),
            elements == element_views(stack@),
            forall|k: int| 0 <= k < names@.len() ==> (#[trigger] names@[k])@ == expected[k],
            forall|k: int| 0 <= k < index ==> (#[trigger] elements[k]).name == expected[k],
        decreases stack.len() - index,
    {
        assert(elements[index as int].name == stack@[index as int].name@);
        assert(names@[index as int]@ == expected[index as int]);
        if !same_text(stack[index].name.as_str(), names[index]) {
            return false;
        }
        index += 1;
    }
    true
}

fn at_constant(stack: &Vec<Node>) -> (result: bool)
    ensures
        result == is_at(element_views(stack@), constant_place()),
{
    names_are(stack, &["Config", "ConfigConstants", "constants"], Ghost(constant_place()))
}

fn at_option(stack: &Vec<Node>) -> (result: bool)
    ensures
        result == is_at(element_views(stack@), seq!["Config"@, "Options"@]),
{
    let ghost expected = seq!["Config"@, "Options"@];
    names_are(stack, &["Config", "Options"], Ghost(expected))
}

fn at_root(stack: &Vec<Node>) -> (result: bool)
    ensures
        result == is_at(element_views(stack@), seq!["Config"@]),
{
    let ghost expected = seq!["Config"@];
    names_are(stack, &["Config"], Ghost(expected))
}

fn xml_error(path: &str, offset: u64, message: &str) -> (error: ConfigError)
    ensures
        tells(error, path@, ConfigFault::Xml { offset, message: message@ }),
{
    ConfigError::Xml { path: path.to_owned(), offset, message: message.to_owned() }
}

/// What a step of reading leads to.
spec fn leads_to(
    result: Result<(), ConfigError>,
    now: Reading,
    path: Seq<char>,
    expected: Result<Reading, ConfigFault>,
) -> bool {
    match result {
        Ok(()) => expected == Ok::<Reading, ConfigFault>(now),
        Err(error) => expected matches Err(fault) && tells(error, path, fault),
    }
}

impl ConfigReader {
    fn append_text(&mut self, text: &str)
        ensures
            final(self)@ == (Reading {
                stack: with_text(old(self)@.stack, text@),
                ..old(self)@
            }),
    {
        let ghost before = self@.stack;
        let mut index: usize = 0;
        while index < self.stack.len()
            invariant
                index <= self.stack@.len(),
                self.stack@.len() == before.len(),
                self.root_options == old(self).root_options,
                self.nested_options == old(self).nested_options,
                self.constants == old(self).constants,
                self.root_seen == old(self).root_seen,
                forall|k: int|
                    0 <= k < index ==> (#[trigger] self.stack@[k])@ == (Element {
                        text: before[k].text + text@,
                        ..before[k]
                    }),
                forall|k: int|
                    index <= k < before.len() ==> (#[trigger] self.stack@[k])@ == before[k],
            decreases self.stack.len() - index,
        {
            let ghost earlier = self.stack@;
            self.stack[index].text.append(text);
            proof {
                assert forall|k: int| 0 <= k < index + 1 implies (#[trigger] self.stack@[k])@ == (
                Element { text: before[k].text + text@, ..before[k] }) by {
                    if k < index {
                        assert(self.stack@[k] == earlier[k]);
                    } else {
                        assert(earlier[k]@ == before[k]);
                    }
                }
                assert forall|k: int| index + 1 <= k < before.len() implies (
                #[trigger] self.stack@[k])@ == before[k] by {
                    assert(self.stack@[k] == earlier[k]);
                }
            }
            index += 1;
        }
        assert(self@.stack =~= with_text(before, text@));
    }

    fn start(
        &mut self,
        path: &str,
        name: &str,
        attributes: &str,
        offset: u64,
    ) -> (result: Result<(), ConfigError>)
        ensures
            leads_to(
                result,
                final(self)@,
                path@,
                old(self)@.started(name@, attributes@, offset),
            ),
    {
        if self.stack.len() == 0 && (self.root_seen || !same_text(name, "Config")) {
            return Err(
                ConfigError::InvalidRoot { path: path.to_owned(), actual: name.to_owned() },
            );
        }
        let ghost before = self@.stack;
        let constant = at_constant(&self.stack);
        let constant_name = if constant {
            match attribute(attributes, "name") {
                Ok(constant_name) => constant_name,
                Err(message) => {
                    return Err(xml_error(path, offset, message.as_str()));
                },
            }
        } else {
            self.root_seen = true;
            None
        };
        let node = Node { name: name.to_owned(), text: String::new(), constant_name };
        let ghost added = node@;
        assert(added.text =~= seq![]);
        self.stack.push(node);
        assert(self@.stack =~= before.push(added));
        Ok(())
    }

    fn end(&mut self, path: &str, name: &str, offset: u64) -> (result: Result<(), ConfigError>)
        ensures
            leads_to(result, final(self)@, path@, old(self)@.ended(name@, offset)),
    {
        let ghost before = self@.stack;
        let node = match self.stack.pop() {
            Some(node) => node,
            None => {
                return Err(xml_error(path, offset, "closing tag without an opening tag"));
            },
        };
        proof {
            assert(before.last() == node@);
            assert(self@.stack =~= before.drop_last());
        }
        if !same_text(node.name.as_str(), name) {
            return Err(
                xml_error(path, offset, "closing tag does not match its opening tag"),
            );
        }
        if at_constant(&self.stack) {
            match node.constant_name {
                Some(constant_name) => push_entry(
                    &mut self.constants,
                    ConfigEntry { name: constant_name, value: node.text },
                ),
                None => {
                    return Err(ConfigError::MissingConstantName { path: path.to_owned() });
                },
            }
        } else if at_option(&self.stack) {
            push_entry(
                &mut self.nested_options,
                ConfigEntry { name: node.name, value: node.text },
            );
        } else if at_root(&self.stack) {
            push_entry(&mut self.root_options, ConfigEntry { name: node.name, value: node.text });
        }
        Ok(())
    }

    fn step(&mut self, path: &str, step: &XmlStep) -> (result: Result<(), ConfigError>)
        ensures
            leads_to(result, final(self)@, path@, old(self)@.stepped(step@)),
    {
        match &step.event {
            XmlEvent::Start { name, attributes } => self.start(
                path,
                name.as_str(),
                attributes.as_str(),
                step.offset,
            ),
            XmlEvent::End { name } => self.end(path, name.as_str(), step.offset),
            XmlEvent::Text(text) => {
                self.append_text(text.as_str());
                Ok(())
            },
            XmlEvent::Reference(reference) => match resolve_reference(reference.as_str()) {
                Ok(character) => {
                    let mut text = String::new();
                    text.push(character);
                    assert(text@ =~= seq![character]);
                    self.append_text(text.as_str());
                    Ok(())
                },
                Err(message) => Err(xml_error(path, step.offset, message.as_str())),
            },
            XmlEvent::Other => Ok(()),
            XmlEvent::Eof => Ok(()),
            XmlEvent::Fault(message) => Err(xml_error(path, step.offset, message.as_str())),
        }
    }
}

fn find_repeated(entries: &Vec<ConfigEntry>) -> (name: Option<String>)
    ensures
        match name {
            Some(name) => repeated_from(entry_views(entries@), 0) == Some(name@),
            None => repeated_from(entry_views(entries@), 0) is None,
        },
{
    let ghost views = entry_views(entries@);
    let mut index: usize = 0;
    while index < entries.len()
        invariant
            index <= entries@.len(),
            views == entry_views(entries@),
            repeated_from(views, 0) == repeated_from(views, index as int),
        decreases entries.len() - index,
    {
        let name = &entries[index].name;
        let mut other: usize = 0;
        while other < index
            invariant
                other <= index < entries@.len(),
                views == entry_views(entries@),
                name@ == views[index as int].name,
                repeated_from(views, 0) == repeated_from(views, index as int),
                forall|k: int| 0 <= k < other ==> (#[trigger] views[k]).name != name@,
            decreases index - other,
        {
            assert(views[other as int].name == entries@[other as int].name@);
            if same_text(entries[other].name.as_str(), name.as_str()) {
                assert(is_repeated(views, index as int));
                return Some(name.clone());
            }
            other += 1;
        }
        index += 1;
    }
    None
}

/// A configuration: its options and its constants, each with a name of its own.
#[derive(Debug, Clone)]
pub struct Config {
    pub name: String,
    pub source: String,
    options: Vec<ConfigEntry>,
    constants: Vec<ConfigEntry>,
}

/// A [`Config`] as sequences of characters.
pub struct ConfigView {
    pub name: Seq<char>,
    pub source: Seq<char>,
    pub contents: Contents,
}

impl View for Config {
    type V = ConfigView;

    closed spec fn view(&self) -> ConfigView {
        ConfigView {
            name: self.name@,
            source: self.source@,
            contents: Contents {
                options: entry_views(self.options@),
                constants: entry_views(self.constants@),
            },
        }
    }
}

/// The value of the entry with a name, from an index on.
pub open spec fn value_from(entries: Seq<EntryView>, name: Seq<char>, index: int) -> Option<
    Seq<char>,
>
    decreases entries.len() - index,
{
    if index < 0 || index >= entries.len() {
        None
    } else if entries[index].name == name {
        Some(entries[index].value)
    } else {
        value_from(entries, name, index + 1)
    }
}

/// What an optional text stands for.
pub open spec fn text_view(text: Option<&str>) -> Option<Seq<char>> {
    match text {
        Some(text) => Some(text@),
        None => None,
    }
}

fn find_value<'a>(entries: &'a Vec<ConfigEntry>, name: &str) -> (value: Option<&'a str>)
    ensures
        text_view(value) == value_from(entry_views(entries@), name@, 0),
{
    let ghost views = entry_views(entries@);
    let mut index: usize = 0;
    while index < entries.len()
        invariant
            index <= entries@.len(),
            views == entry_views(entries@),
            value_from(views, name@, 0) == value_from(views, name@, index as int),
        decreases entries.len() - index,
    {
        assert(views[index as int] == entries@[index as int]@);
        if same_text(entries[index].name.as_str(), name) {
            return Some(entries[index].value.as_str());
        }
        index += 1;
    }
    None
}

impl Config {
    /// Returns the name of the configuration.
    pub fn name(&self) -> (name: &str)
        ensures
            name@ == self@.name,
    {
        self.name.as_str()
    }

    /// Returns the path of the file that the configuration is from.
    pub fn source(&self) -> (source: &str)
        ensures
            source@ == self@.source,
    {
        self.source.as_str()
    }

    /// Returns the options.
    pub fn options(&self) -> (options: &[ConfigEntry])
        ensures
            entry_views(options@) == self@.contents.options,
    {
        self.options.as_slice()
    }

    /// Returns the constants.
    pub fn constants(&self) -> (constants: &[ConfigEntry])
        ensures
            entry_views(constants@) == self@.contents.constants,
    {
        self.constants.as_slice()
    }

    /// Returns the value of an option.
    pub fn option(&self, name: &str) -> (value: Option<&str>)
        ensures
            text_view(value) == value_from(self@.contents.options, name@, 0),
    {
        find_value(&self.options, name)
    }

    /// Returns the value of a constant.
    pub fn constant(&self, name: &str) -> (value: Option<&str>)
        ensures
            text_view(value) == value_from(self@.contents.constants, name@, 0),
    {
        find_value(&self.constants, name)
    }
}

/// Makes a configuration of the events of its document.
#[verifier::spinoff_prover]
pub fn config_from_steps(name: &str, path: &str, steps: &Vec<XmlStep>) -> (result: Result<
    Config,
    ConfigError,
>)
    ensures
        match result {
            Ok(config) => {
                &&& contents_of(step_views(steps@)) == Ok::<Contents, ConfigFault>(
                    config@.contents,
                )
                &&& config@.name == name@
                &&& config@.source == path@
            },
            Err(error) => contents_of(step_views(steps@)) matches Err(fault) && tells(
                error,
                path@,
                fault,
            ),
        },
{
    let ghost views = step_views(steps@);
    let mut reader = ConfigReader {
        stack: Vec::new(),
        root_options: Vec::new(),
        nested_options: Vec::new(),
        constants: Vec::new(),
        root_seen: false,
    };
    proof {
        assert(reader@.stack =~= seq![]);
        assert(reader@.root_options =~= seq![]);
        assert(reader@.nested_options =~= seq![]);
        assert(reader@.constants =~= seq![]);
    }
    let mut index: usize = 0;
    while index < steps.len()
        invariant
            index <= steps@.len(),
            views == step_views(steps@),
            read_steps(views, index as int) == Ok::<Reading, ConfigFault>(reader@),
        decreases steps.len() - index,
    {
        assert(views[index as int] == steps@[index as int]@);
        if let Err(error) = reader.step(path, &steps[index]) {
            proof {
                assert(read_steps(views, index + 1) is Err);
                lemma_fault_stays(views, index + 1, views.len() as int);
            }
            return Err(error);
        }
        index += 1;
    }
    if !reader.root_seen {
        return Err(ConfigError::MissingRoot { path: path.to_owned() });
    }
    if reader.stack.len() > 0 {
        return Err(xml_error(path, 0, "config XML ended with unclosed elements"));
    }
    let options = if reader.nested_options.len() == 0 {
        reader.root_options
    } else {
        reader.nested_options
    };
    if let Some(repeated) = find_repeated(&options) {
        return Err(ConfigError::DuplicateOption { path: path.to_owned(), name: repeated });
    }
    if let Some(repeated) = find_repeated(&reader.constants) {
        return Err(ConfigError::DuplicateConstant { path: path.to_owned(), name: repeated });
    }
    Ok(
        Config {
            name: name.to_owned(),
            source: path.to_owned(),
            options,
            constants: reader.constants,
        },
    )
}

proof fn lemma_fault_stays(steps: Seq<StepView>, count: int, end: int)
    requires
        0 <= count <= end,
        read_steps(steps, count) is Err,
    ensures
        read_steps(steps, end) == read_steps(steps, count),
    decreases end - count,
{
    if count < end {
        lemma_fault_stays(steps, count, end - 1);
    }
}

/// Reads a configuration from the bytes of its document.
pub fn parse(name: &str, path: &str, source: &[u8]) -> (result: Result<Config, ConfigError>)
    ensures
        match result {
            Ok(config) => {
                &&& contents_of(document_steps(source@, false)) == Ok::<Contents, ConfigFault>(
                    config@.contents,
                )
                &&& config@.name == name@
                &&& config@.source == path@
            },
            Err(error) => contents_of(document_steps(source@, false)) matches Err(fault) && tells(
                error,
                path@,
                fault,
            ),
        },
{
    let steps = read_document(source, false);
    config_from_steps(name, path, &steps)
}

/// Whether a result is the configuration of a file, given what reading it gave.
pub open spec fn is_config_file(
    result: Result<Config, ConfigError>,
    name: Seq<char>,
    path: Seq<char>,
    contents: ContentsView,
) -> bool {
    match contents {
        ContentsView::Missing(text) => result matches Err(ConfigError::Io { path: file, message })
            && file@ == path && message@ == text,
        ContentsView::Failed(text) => result matches Err(ConfigError::Io { path: file, message })
            && file@ == path && message@ == text,
        ContentsView::Data(bytes) => match (result, contents_of(document_steps(bytes, false))) {
            (Ok(config), Ok(contents)) => config@ == (ConfigView {
                name,
                source: path,
                contents,
            }),
            (Err(error), Err(fault)) => tells(error, path, fault),
            _ => false,
        },
    }
}

impl Config {
    /// Returns the configuration of a file, given what reading it gave.
    pub fn load(name: &str, path: &str, contents: &FileContents) -> (result: Result<
        Config,
        ConfigError,
    >)
        ensures
            is_config_file(result, name@, path@, contents@),
    {
        match contents {
            FileContents::Missing(message) => Err(
                ConfigError::Io { path: path.to_owned(), message: message.clone() },
            ),
            FileContents::Failed(message) => Err(
                ConfigError::Io { path: path.to_owned(), message: message.clone() },
            ),
            FileContents::Data(bytes) => parse(name, path, bytes.as_slice()),
        }
    }

    /// Returns the configuration of a project with a name, given the files that
    /// were read.
    pub fn load_from_project(
        project: &ProjectManifest,
        name: &str,
        read: &Vec<ReadFile>,
    ) -> (result: Result<Config, ConfigError>)
        ensures
            (exists|k: int|
                {
                    &&& 0 <= k < project.resources@.len()
                    &&& is_config(#[trigger] project.resources@[k], name@)
                    &&& forall|j: int|
                        0 <= j < k ==> !is_config(#[trigger] project.resources@[j], name@)
                    &&& is_config_file(
                        result,
                        name@,
                        project.resources@[k].source@,
                        read_from(read@, project.resources@[k].source@, 0),
                    )
                }) || ((forall|j: int|
                0 <= j < project.resources@.len() ==> !is_config(
                    #[trigger] project.resources@[j],
                    name@,
                )) && (result matches Err(ConfigError::NotFound { project: file, name: missing })
                && file@ == project.project_file@ && missing@ == name@)),
    {
        match project.find_config(name) {
            Ok(resource) => {
                let contents = read_source(read, resource.source.as_str());
                Config::load(name, resource.source.as_str(), &contents)
            },
            Err(error) => Err(error),
        }
    }
}

proof fn lemma_not_repeated(entries: Seq<EntryView>, start: int, index: int)
    requires
        0 <= start <= index < entries.len(),
        repeated_from(entries, start) is None,
    ensures
        !is_repeated(entries, index),
    decreases index - start,
{
    if start < index {
        lemma_not_repeated(entries, start + 1, index);
    }
}

proof fn lemma_value_from(entries: Seq<EntryView>, start: int, index: int)
    requires
        0 <= start <= index < entries.len(),
        !is_repeated(entries, index),
    ensures
        value_from(entries, entries[index].name, start) == Some(entries[index].value),
    decreases index - start,
{
    if start < index {
        assert(entries[start].name != entries[index].name);
        lemma_value_from(entries, start + 1, index);
    }
}

/// Each option of a configuration that can be read is found by its name.
pub proof fn law_each_option_is_found(steps: Seq<StepView>, index: int)
    ensures
        contents_of(steps) matches Ok(contents) ==> 0 <= index < contents.options.len()
            ==> value_from(contents.options, contents.options[index].name, 0) == Some(
            contents.options[index].value,
        ),
{
    if let Ok(contents) = contents_of(steps) {
        if 0 <= index < contents.options.len() {
            lemma_not_repeated(contents.options, 0, index);
            lemma_value_from(contents.options, 0, index);
        }
    }
}

/// Each constant of a configuration that can be read is found by its name.
pub proof fn law_each_constant_is_found(steps: Seq<StepView>, index: int)
    ensures
        contents_of(steps) matches Ok(contents) ==> 0 <= index < contents.constants.len()
            ==> value_from(contents.constants, contents.constants[index].name, 0) == Some(
            contents.constants[index].value,
        ),
{
    if let Ok(contents) = contents_of(steps) {
        if 0 <= index < contents.constants.len() {
            lemma_not_repeated(contents.constants, 0, index);
            lemma_value_from(contents.constants, 0, index);
        }
    }
}

} // verus!
