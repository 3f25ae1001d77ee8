//! The code of a project: its units, their check and what they share.

use vstd::prelude::*;
use vstd::utf8::*;

use crate::assets::{part_views, parts_of, script_parts, Assets, PartView};
use crate::gml::ast::{lemma_stmt_trees_push, stmt_trees, Span, Stmt, StmtForm, StmtKind, StmtTree};
use crate::gml::dnd::{
    code_of, compiled_code, law_scripts_are_no_more_than_actions, lowered, script_texts,
    DndContext, DndError, Fault, GeneratedScript, ScriptText,
};
use crate::gml::lexer::{
    errors_from, law_tokens_cover_the_source_in_order, lex, tokens_from, Token, TokenKind,
};
use crate::gml::macros::{definitions, macro_expanded, Definition, MacroTable};
use crate::gml::parser::{parse, parsed};
use crate::gml::spans::{in_source, source_text, span_text};
use crate::gml::{reports, Diagnostic, Report};
use crate::path::{file_stem, stem_of_file};
use crate::resources::{
    action_views, Action, ActionView, Extension, ExtensionFile, GameObject, ObjectEvent, Room,
    RoomInstance, Script, Timeline, TimelineEntry,
};
use crate::text::{
    char_width, characters, decimal, decode_lossily, digits, lossy_text, offset_at, replace,
    replaced, same_text, signed_decimal, signed_digits, spell, spelled, width,
};

verus! {

/// What a unit of code belongs to.
#[derive(Debug, Clone, Copy, PartialEq, Eq, Structural)]
pub enum CodeKind {
    Script,
    GeneratedScript { index: usize },
    ObjectEvent,
    Timeline,
    RoomCreation,
    RoomInstance,
    Extension,
    Global,
}

/// The name of a kind of code.
pub open spec fn kind_name(kind: CodeKind) -> Seq<char> {
    match kind {
        CodeKind::Script => "script"@,
        CodeKind::GeneratedScript { index } => "generated script"@,
        CodeKind::ObjectEvent => "object event"@,
        CodeKind::Timeline => "timeline"@,
        CodeKind::RoomCreation => "room creation code"@,
        CodeKind::RoomInstance => "room instance code"@,
        CodeKind::Extension => "extension code"@,
        CodeKind::Global => "global initialization code"@,
    }
}

impl CodeKind {
    /// Returns the name of the kind.
    pub fn text(&self) -> (text: &'static str)
        ensures
            text@ == kind_name(*self),
    {
        match self {
            CodeKind::Script => "script",
            CodeKind::GeneratedScript { .. } => "generated script",
            CodeKind::ObjectEvent => "object event",
            CodeKind::Timeline => "timeline",
            CodeKind::RoomCreation => "room creation code",
            CodeKind::RoomInstance => "room instance code",
            CodeKind::Extension => "extension code",
            CodeKind::Global => "global initialization code",
        }
    }
}

/// A piece of GML that is compiled on its own.
#[derive(Debug, Clone, PartialEq, Eq)]
pub struct CodeUnit {
    pub kind: CodeKind,
    pub name: String,
    pub vm_name: String,
    pub source: String,
    pub code: String,
}

/// A [`CodeUnit`] as sequences of characters.
pub struct UnitText {
    pub kind: CodeKind,
    pub name: Seq<char>,
    pub vm_name: Seq<char>,
    pub source: Seq<char>,
    pub code: Seq<char>,
}

impl View for CodeUnit {
    type V = UnitText;

    open spec fn view(&self) -> UnitText {
        UnitText {
            kind: self.kind,
            name: self.name@,
            vm_name: self.vm_name@,
            source: self.source@,
            code: self.code@,
        }
    }
}

/// What a list of units stands for.
pub open spec fn unit_texts(units: Seq<CodeUnit>) -> Seq<UnitText> {
    units.map_values(|unit: CodeUnit| unit@)
}

/// Why the actions of an event or a timeline cannot be lowered.
#[derive(Debug, Clone, PartialEq, Eq)]
pub struct DndDiagnostic {
    pub kind: CodeKind,
    pub name: String,
    pub source: String,
    pub error: DndError,
}

/// A [`DndDiagnostic`] as sequences of characters.
pub struct DndReport {
    pub kind: CodeKind,
    pub name: Seq<char>,
    pub source: Seq<char>,
    pub error: Fault,
}

impl View for DndDiagnostic {
    type V = DndReport;

    open spec fn view(&self) -> DndReport {
        DndReport {
            kind: self.kind,
            name: self.name@,
            source: self.source@,
            error: self.error@,
        }
    }
}

/// What a list of diagnostics stands for.
pub open spec fn dnd_reports(diagnostics: Seq<DndDiagnostic>) -> Seq<DndReport> {
    diagnostics.map_values(|diagnostic: DndDiagnostic| diagnostic@)
}

impl DndDiagnostic {
    /// Returns the message behind its source, kind and name.
    pub fn text(&self) -> (text: String)
        ensures
            text@ == self.source@ + ": "@ + kind_name(self.kind) + " "@ + self.name@ + ": "@ + (
            "action "@ + digits(self.error.action as nat, 10) + ": "@ + self.error.message@),
    {
        let mut text = self.source.clone();
        text.append(": ");
        text.append(self.kind.text());
        text.append(" ");
        text.append(self.name.as_str());
        text.append(": ");
        let error = self.error.text();
        text.append(error.as_str());
        text
    }
}

/// Units with another one, unless its code is empty.
pub open spec fn with_unit(units: Seq<UnitText>, unit: UnitText) -> Seq<UnitText> {
    if unit.code.len() > 0 {
        units.push(unit)
    } else {
        units
    }
}

/// The name of a type of events.
pub open spec fn event_type_name(event_type: int) -> Seq<char> {
    if event_type == 0 {
        "Create"@
    } else if event_type == 1 {
        "Destroy"@
    } else if event_type == 2 {
        "Alarm"@
    } else if event_type == 3 {
        "Step"@
    } else if event_type == 4 {
        "Collision"@
    } else if event_type == 5 {
        "Keyboard"@
    } else if event_type == 6 {
        "Mouse"@
    } else if event_type == 7 {
        "Other"@
    } else if event_type == 8 {
        "Draw"@
    } else if event_type == 9 {
        "KeyPress"@
    } else if event_type == 10 {
        "KeyRelease"@
    } else if event_type == 11 {
        "Trigger"@
    } else if event_type == 12 {
        "CleanUp"@
    } else if event_type == 13 {
        "Gesture"@
    } else if event_type == 14 {
        "PreCreate"@
    } else {
        "Unknown"@
    }
}

fn event_name(event_type: usize) -> (name: &'static str)
    ensures
        name@ == event_type_name(event_type as int),
{
    match event_type {
        0 => "Create",
        1 => "Destroy",
        2 => "Alarm",
        3 => "Step",
        4 => "Collision",
        5 => "Keyboard",
        6 => "Mouse",
        7 => "Other",
        8 => "Draw",
        9 => "KeyPress",
        10 => "KeyRelease",
        11 => "Trigger",
        12 => "CleanUp",
        13 => "Gesture",
        14 => "PreCreate",
        _ => "Unknown",
    }
}

/// A name with its blanks replaced.
pub open spec fn sanitized(name: Seq<char>) -> Seq<char> {
    replaced(name, " "@, "_"@)
}

fn sanitize_name(name: &str) -> (text: String)
    ensures
        text@ == sanitized(name@),
{
    proof {
        reveal_strlit(" ");
    }
    replace(name, " ", "_")
}

/// The unit of a script.
pub open spec fn script_unit(script: Script) -> UnitText {
    UnitText {
        kind: CodeKind::Script,
        name: script.name@,
        vm_name: "gml_Script_"@ + script.name@,
        source: script.source@,
        code: script.code@,
    }
}

/// The units of the first `count` scripts.
pub open spec fn script_units(scripts: Seq<Script>, count: int) -> Seq<UnitText>
    decreases count,
{
    if count <= 0 {
        seq![]
    } else {
        with_unit(script_units(scripts, count - 1), script_unit(scripts[count - 1]))
    }
}

/// What is collected of objects and timelines: the units, the generated
/// scripts, what is wrong, the number of the next generated script, the index
/// of the next script and the number of units of the current timeline.
pub struct Collected {
    pub generated: Seq<UnitText>,
    pub objects: Seq<UnitText>,
    pub timelines: Seq<UnitText>,
    pub faults: Seq<DndReport>,
    pub next_script: nat,
    pub next_index: nat,
    pub entries: nat,
}

/// What is collected with the first `count` scripts that a list of actions
/// generated.
pub open spec fn with_generated(
    state: Collected,
    scripts: Seq<ScriptText>,
    count: int,
    source: Seq<char>,
) -> Collected
    decreases count,
{
    if count <= 0 {
        state
    } else {
        let before = with_generated(state, scripts, count - 1, source);
        let script = scripts[count - 1];
        Collected {
            generated: with_unit(
                before.generated,
                UnitText {
                    kind: CodeKind::GeneratedScript { index: before.next_index as usize },
                    name: script.name,
                    vm_name: "gml_Script_"@ + script.name,
                    source,
                    code: script.code,
                },
            ),
            next_index: before.next_index + 1,
            ..before
        }
    }
}

/// The name of an event in messages.
pub open spec fn event_title(object: GameObject, event: ObjectEvent) -> Seq<char> {
    object.name@ + "["@ + digits(event.event_type as nat, 10) + ","@ + signed_digits(
        event.subtype as int,
    ) + "]"@
}

/// The name of the code of an event.
pub open spec fn event_code_name(object: GameObject, event: ObjectEvent) -> Seq<char> {
    "gml_Object_"@ + sanitized(object.name@) + "_"@ + event_type_name(event.event_type as int)
        + "_"@ + signed_digits(event.subtype as int)
}

/// What is collected with an event.
pub open spec fn with_event(state: Collected, object: GameObject, event: ObjectEvent) -> Collected {
    let step = lowered(action_views(event.actions@), state.next_script);
    let counted = Collected { next_script: step.state.next_script, ..state };
    match step.next {
        Ok(_) => with_generated(
            Collected {
                objects: with_unit(
                    counted.objects,
                    UnitText {
                        kind: CodeKind::ObjectEvent,
                        name: event_title(object, event),
                        vm_name: event_code_name(object, event),
                        source: object.source@,
                        code: step.state.output,
                    },
                ),
                ..counted
            },
            step.state.scripts,
            step.state.scripts.len() as int,
            object.source@,
        ),
        Err(error) => Collected {
            faults: counted.faults.push(
                DndReport {
                    kind: CodeKind::ObjectEvent,
                    name: event_title(object, event),
                    source: object.source@,
                    error,
                },
            ),
            ..counted
        },
    }
}

/// What is collected with the first `count` events of a group.
pub open spec fn with_events(
    state: Collected,
    object: GameObject,
    events: Seq<ObjectEvent>,
    count: int,
) -> Collected
    decreases count,
{
    if count <= 0 {
        state
    } else {
        with_event(with_events(state, object, events, count - 1), object, events[count - 1])
    }
}

/// What is collected with the first `count` groups of events of an object.
pub open spec fn with_groups(state: Collected, object: GameObject, count: int) -> Collected
    decreases count,
{
    if count <= 0 {
        state
    } else {
        let group = object.events@[count - 1]@;
        with_events(with_groups(state, object, count - 1), object, group, group.len() as int)
    }
}

/// What is collected with the first `count` objects.
pub open spec fn with_objects(state: Collected, objects: Seq<GameObject>, count: int) -> Collected
    decreases count,
{
    if count <= 0 {
        state
    } else {
        let object = objects[count - 1];
        with_groups(
            with_objects(state, objects, count - 1),
            object,
            object.events@.len() as int,
        )
    }
}

/// The name of an entry of a timeline in messages.
pub open spec fn entry_title(timeline: Timeline, entry: TimelineEntry) -> Seq<char> {
    timeline.name@ + "[step="@ + signed_digits(entry.step as int) + "]"@
}

/// What is collected with an entry of a timeline.
pub open spec fn with_entry(
    state: Collected,
    timeline: Timeline,
    entry: TimelineEntry,
) -> Collected {
    let step = lowered(action_views(entry.actions@), state.next_script);
    let counted = Collected { next_script: step.state.next_script, ..state };
    match step.next {
        Ok(_) => with_generated(
            Collected {
                timelines: with_unit(
                    counted.timelines,
                    UnitText {
                        kind: CodeKind::Timeline,
                        name: entry_title(timeline, entry),
                        vm_name: "Timeline_"@ + sanitized(timeline.name@) + "_"@ + digits(
                            counted.entries,
                            10,
                        ),
                        source: timeline.source@,
                        code: step.state.output,
                    },
                ),
                entries: if step.state.output.len() > 0 {
                    counted.entries + 1
                } else {
                    counted.entries
                },
                ..counted
            },
            step.state.scripts,
            step.state.scripts.len() as int,
            timeline.source@,
        ),
        Err(error) => Collected {
            faults: counted.faults.push(
                DndReport {
                    kind: CodeKind::Timeline,
                    name: entry_title(timeline, entry),
                    source: timeline.source@,
                    error,
                },
            ),
            ..counted
        },
    }
}

/// What is collected with the first `count` entries of a timeline.
pub open spec fn with_entries(state: Collected, timeline: Timeline, count: int) -> Collected
    decreases count,
{
    if count <= 0 {
        Collected { entries: 0, ..state }
    } else {
        with_entry(
            with_entries(state, timeline, count - 1),
            timeline,
            timeline.entries@[count - 1],
        )
    }
}

/// What is collected with the first `count` timelines.
pub open spec fn with_timelines(state: Collected, timelines: Seq<Timeline>, count: int) -> Collected
    decreases count,
{
    if count <= 0 {
        state
    } else {
        let timeline = timelines[count - 1];
        with_entries(
            with_timelines(state, timelines, count - 1),
            timeline,
            timeline.entries@.len() as int,
        )
    }
}

/// Units with the code of the first `count` instances of a room. The name of
/// the code of an instance holds the number of units before it.
pub open spec fn with_instances(units: Seq<UnitText>, room: Room, count: int) -> Seq<UnitText>
    decreases count,
{
    if count <= 0 {
        units
    } else {
        let before = with_instances(units, room, count - 1);
        let instance = room.instances@[count - 1];
        with_unit(
            before,
            UnitText {
                kind: CodeKind::RoomInstance,
                name: room.name@ + "."@ + instance.name@,
                vm_name: "gml_RoomCC_"@ + sanitized(room.name@) + "_"@ + digits(before.len(), 10)
                    + "_Create"@,
                source: room.source@,
                code: instance.code@,
            },
        )
    }
}

/// Units with the code of a room.
pub open spec fn with_room(units: Seq<UnitText>, room: Room) -> Seq<UnitText> {
    with_instances(
        with_unit(
            units,
            UnitText {
                kind: CodeKind::RoomCreation,
                name: room.name@,
                vm_name: "gml_Room_"@ + sanitized(room.name@) + "_Create"@,
                source: room.source@,
                code: room.code@,
            },
        ),
        room,
        room.instances@.len() as int,
    )
}

/// Units with the code of the first `count` rooms.
pub open spec fn with_rooms(units: Seq<UnitText>, rooms: Seq<Room>, count: int) -> Seq<UnitText>
    decreases count,
{
    if count <= 0 {
        units
    } else {
        with_room(with_rooms(units, rooms, count - 1), rooms[count - 1])
    }
}

/// Bytes without a byte order mark.
pub open spec fn unmarked(bytes: Seq<u8>) -> Seq<u8> {
    if bytes.len() >= 3 && bytes[0] == 0xef && bytes[1] == 0xbb && bytes[2] == 0xbf {
        bytes.skip(3)
    } else {
        bytes
    }
}

/// Units with the first `count` scripts of an extension file.
pub open spec fn with_parts(
    units: Seq<UnitText>,
    extension: Extension,
    file: ExtensionFile,
    parts: Seq<PartView>,
    count: int,
) -> Seq<UnitText>
    decreases count,
{
    if count <= 0 {
        units
    } else {
        let part = parts[count - 1];
        with_unit(
            with_parts(units, extension, file, parts, count - 1),
            UnitText {
                kind: CodeKind::Extension,
                name: extension.name@ + "/"@ + file.filename@ + "#"@ + part.name,
                vm_name: "gml_Script_"@ + part.name,
                source: file.source@,
                code: part.code,
            },
        )
    }
}

/// The scripts of an extension file with given contents.
pub open spec fn file_parts(file: ExtensionFile, bytes: Seq<u8>) -> Seq<PartView> {
    parts_of(
        match stem_of_file(file.filename@) {
            Some(stem) => stem,
            None => file.filename@,
        },
        lossy_text(unmarked(bytes)),
    )
}

/// Units with the scripts of an extension file, if it is a GML file that is
/// enabled, used and loaded.
pub open spec fn with_file(
    units: Seq<UnitText>,
    assets: Assets,
    extension: Extension,
    file: ExtensionFile,
) -> Seq<UnitText> {
    if file.kind != 2 || !file.used || !file.enabled {
        units
    } else {
        match assets.contents(file.source@) {
            None => units,
            Some(bytes) => {
                let parts = file_parts(file, bytes);
                with_parts(units, extension, file, parts, parts.len() as int)
            },
        }
    }
}

/// Units with the scripts of the first `count` files of an extension.
pub open spec fn with_files(
    units: Seq<UnitText>,
    assets: Assets,
    extension: Extension,
    count: int,
) -> Seq<UnitText>
    decreases count,
{
    if count <= 0 {
        units
    } else {
        with_file(
            with_files(units, assets, extension, count - 1),
            assets,
            extension,
            extension.files@[count - 1],
        )
    }
}

/// Units with the scripts of the first `count` extensions.
pub open spec fn with_extensions(units: Seq<UnitText>, assets: Assets, count: int) -> Seq<UnitText>
    decreases count,
{
    if count <= 0 {
        units
    } else {
        let before = with_extensions(units, assets, count - 1);
        let extension = assets.extensions@[count - 1];
        if extension.enabled {
            with_files(before, assets, extension, extension.files@.len() as int)
        } else {
            before
        }
    }
}

/// A call of `gml_pragma` that holds global code: the bytes that it covers,
/// and the code.
pub struct Pragma {
    pub start: int,
    pub end: int,
    pub code: Seq<char>,
}

/// A text without its first and last character.
pub open spec fn unquoted(text: Seq<char>) -> Option<Seq<char>> {
    if text.len() >= 2 {
        Some(text.subrange(1, text.len() - 1))
    } else {
        None
    }
}

/// Whether the tokens from an index on call `gml_pragma` with the word
/// `global` and a text.
pub open spec fn is_global_pragma(source: Seq<char>, tokens: Seq<Token>, index: int) -> bool {
    &&& index + 5 < tokens.len()
    &&& tokens[index].kind == TokenKind::Identifier
    &&& span_text(source, tokens[index].span) == "gml_pragma"@
    &&& tokens[index + 1].kind == TokenKind::LeftParen
    &&& tokens[index + 2].kind == TokenKind::String
    &&& unquoted(span_text(source, tokens[index + 2].span)) == Some("global"@)
    &&& tokens[index + 3].kind == TokenKind::Comma
    &&& tokens[index + 4].kind == TokenKind::String
    &&& tokens[index + 5].kind == TokenKind::RightParen
}

/// The global pragmas among the tokens from an index on.
pub open spec fn pragmas_from(source: Seq<char>, tokens: Seq<Token>, index: int) -> Seq<Pragma>
    decreases tokens.len() - index,
{
    if index < 0 || index + 5 >= tokens.len() {
        seq![]
    } else if is_global_pragma(source, tokens, index) {
        match unquoted(span_text(source, tokens[index + 4].span)) {
            Some(code) => seq![
                Pragma {
                    start: tokens[index].span.start as int,
                    end: tokens[index + 5].span.end as int,
                    code,
                },
            ] + pragmas_from(source, tokens, index + 6),
            None => pragmas_from(source, tokens, index + 6),
        }
    } else {
        pragmas_from(source, tokens, index + 1)
    }
}

/// The global pragmas of a source; none if it cannot be split into tokens.
pub open spec fn pragmas_of(source: Seq<char>) -> Seq<Pragma> {
    if encode_utf8(source).len() > u32::MAX || errors_from(source, 0).len() > 0 {
        seq![]
    } else {
        pragmas_from(source, tokens_from(source, 0), 0)
    }
}

/// Whether a byte offset lies in a pragma.
pub open spec fn in_pragma(pragmas: Seq<Pragma>, offset: int) -> bool {
    exists|k: int|
        0 <= k < pragmas.len() && (#[trigger] pragmas[k]).start <= offset < pragmas[k].end
}

/// A run of blanks.
pub open spec fn blanks(count: nat) -> Seq<char> {
    Seq::new(count, |k: int| ' ')
}

/// What stands for the character numbered `index` when the pragmas are blanked
/// out: a blank for each byte, but line ends stay.
pub open spec fn blanked_character(
    source: Seq<char>,
    pragmas: Seq<Pragma>,
    index: int,
) -> Seq<char> {
    if in_pragma(pragmas, offset_at(source, index)) && source[index] != '\r' && source[index]
        != '\n' {
        blanks(width(source[index]))
    } else {
        seq![source[index]]
    }
}

/// The first `count` characters of a source with the pragmas blanked out.
pub open spec fn blanked(source: Seq<char>, pragmas: Seq<Pragma>, count: int) -> Seq<char>
    decreases count,
{
    if count <= 0 {
        seq![]
    } else {
        blanked(source, pragmas, count - 1) + blanked_character(source, pragmas, count - 1)
    }
}

/// A source without its global pragmas, if it has any.
pub open spec fn without_pragmas(source: Seq<char>) -> Option<Seq<char>> {
    let pragmas = pragmas_of(source);
    if pragmas.len() == 0 {
        None
    } else {
        Some(blanked(source, pragmas, source.len() as int))
    }
}

/// The code of each pragma.
pub open spec fn pragma_codes(pragmas: Seq<Pragma>) -> Seq<Seq<char>> {
    pragmas.map_values(|pragma: Pragma| pragma.code)
}

/// A unit without its global pragmas.
pub open spec fn stripped_unit(unit: UnitText) -> UnitText {
    match without_pragmas(unit.code) {
        Some(code) => UnitText { code, ..unit },
        None => unit,
    }
}

/// The sources and codes of the global pragmas of the first `count` units.
pub open spec fn globals_of(units: Seq<UnitText>, count: int) -> Seq<(Seq<char>, Seq<char>)>
    decreases count,
{
    if count <= 0 {
        seq![]
    } else {
        let unit = units[count - 1];
        globals_of(units, count - 1) + pragma_codes(pragmas_of(unit.code)).map_values(
            |code: Seq<char>| (unit.source, code),
        )
    }
}

/// The unit of a global pragma.
pub open spec fn global_unit(globals: Seq<(Seq<char>, Seq<char>)>, index: int) -> UnitText {
    UnitText {
        kind: CodeKind::Global,
        name: "global["@ + digits(index as nat, 10) + "]"@,
        vm_name: "gml_GlobalScript_"@ + digits(index as nat, 10),
        source: globals[index].0,
        code: if globals[index].1.len() == 0 {
            " "@
        } else {
            globals[index].1
        },
    }
}

/// What is collected before any object.
pub open spec fn nothing_collected(assets: Assets) -> Collected {
    Collected {
        generated: seq![],
        objects: seq![],
        timelines: seq![],
        faults: seq![],
        next_script: 0,
        next_index: assets.scripts@.len(),
        entries: 0,
    }
}

/// What is collected of the objects and timelines.
pub open spec fn collected_actions(assets: Assets) -> Collected {
    with_timelines(
        with_objects(nothing_collected(assets), assets.objects@, assets.objects@.len() as int),
        assets.timelines@,
        assets.timelines@.len() as int,
    )
}

/// The units of a project with the pragmas still in their code. Generated
/// scripts stand behind the scripts, before object and timeline code.
pub open spec fn plain_units(assets: Assets) -> Seq<UnitText> {
    let actions = collected_actions(assets);
    let units = script_units(assets.scripts@, assets.scripts@.len() as int) + actions.generated
        + actions.objects + actions.timelines;
    with_extensions(
        with_rooms(units, assets.rooms@, assets.rooms@.len() as int),
        assets,
        assets.extensions@.len() as int,
    )
}

/// The units of a project: the plain ones without their global pragmas, and
/// behind them one for each pragma.
pub open spec fn code_units(assets: Assets) -> Seq<UnitText> {
    let plain = plain_units(assets);
    let globals = globals_of(plain, plain.len() as int);
    plain.map_values(|unit: UnitText| stripped_unit(unit)) + Seq::new(
        globals.len(),
        |index: int| global_unit(globals, index),
    )
}

/// The number of actions of the events from an index on.
pub open spec fn actions_in_events(events: Seq<ObjectEvent>, index: int) -> nat
    decreases events.len() - index,
{
    if index < 0 || index >= events.len() {
        0
    } else {
        events[index].actions@.len() + actions_in_events(events, index + 1)
    }
}

/// The number of actions of the groups of events from an index on.
pub open spec fn actions_in_groups(groups: Seq<Vec<ObjectEvent>>, index: int) -> nat
    decreases groups.len() - index,
{
    if index < 0 || index >= groups.len() {
        0
    } else {
        actions_in_events(groups[index]@, 0) + actions_in_groups(groups, index + 1)
    }
}

/// The number of actions of the objects from an index on.
pub open spec fn actions_in_objects(objects: Seq<GameObject>, index: int) -> nat
    decreases objects.len() - index,
{
    if index < 0 || index >= objects.len() {
        0
    } else {
        actions_in_groups(objects[index].events@, 0) + actions_in_objects(objects, index + 1)
    }
}

/// The number of actions of the entries from an index on.
pub open spec fn actions_in_entries(entries: Seq<TimelineEntry>, index: int) -> nat
    decreases entries.len() - index,
{
    if index < 0 || index >= entries.len() {
        0
    } else {
        entries[index].actions@.len() + actions_in_entries(entries, index + 1)
    }
}

/// The number of actions of the timelines from an index on.
pub open spec fn actions_in_timelines(timelines: Seq<Timeline>, index: int) -> nat
    decreases timelines.len() - index,
{
    if index < 0 || index >= timelines.len() {
        0
    } else {
        actions_in_entries(timelines[index].entries@, 0) + actions_in_timelines(
            timelines,
            index + 1,
        )
    }
}

/// Whether the scripts of a project can be counted if each action generates
/// one.
pub open spec fn scripts_fit(assets: Assets) -> bool {
    assets.scripts@.len() + actions_in_objects(assets.objects@, 0) + actions_in_timelines(
        assets.timelines@,
        0,
    ) <= usize::MAX
}

fn push_code(
    units: &mut Vec<CodeUnit>,
    kind: CodeKind,
    name: String,
    vm_name: String,
    source: &str,
    code: String,
) -> (pushed: bool)
    ensures
        unit_texts(final(units)@) == with_unit(
            unit_texts(old(units)@),
            (UnitText { kind, name: name@, vm_name: vm_name@, source: source@, code: code@ }),
        ),
        pushed == (code@.len() > 0),
{
    if code.as_str().is_empty() {
        return false;
    }
    let unit = CodeUnit { kind, name, vm_name, source: source.to_owned(), code };
    let ghost before = units@;
    units.push(unit);
    assert(unit_texts(units@) =~= unit_texts(before).push(unit@));
    true
}

fn joined2(first: &str, second: &str) -> (text: String)
    ensures
        text@ == first@ + second@,
{
    let mut text = first.to_owned();
    text.append(second);
    text
}

struct Collector {
    generated: Vec<CodeUnit>,
    objects: Vec<CodeUnit>,
    timelines: Vec<CodeUnit>,
    errors: Vec<DndDiagnostic>,
    context: DndContext,
    next_index: usize,
    entries: usize,
}

impl View for Collector {
    type V = Collected;

    closed spec fn view(&self) -> Collected {
        Collected {
            generated: unit_texts(self.generated@),
            objects: unit_texts(self.objects@),
            timelines: unit_texts(self.timelines@),
            faults: dnd_reports(self.errors@),
            next_script: self.context.next_script(),
            next_index: self.next_index as nat,
            entries: self.entries as nat,
        }
    }
}

impl Collector {
    spec fn has_room_for(&self, scripts: int, actions: int) -> bool {
        &&& 0 <= scripts
        &&& self.next_index <= scripts + self.context.next_script()
        &&& scripts + self.context.next_script() + actions <= usize::MAX
    }

    fn collect_scripts(&mut self, scripts: Vec<GeneratedScript>, source: &str)
        requires
            old(self).next_index + scripts@.len() <= usize::MAX,
        ensures
            final(self)@ == with_generated(
                old(self)@,
                script_texts(scripts@),
                scripts@.len() as int,
                source@,
            ),
            final(self).next_index == old(self).next_index + scripts@.len(),
            final(self).context == old(self).context,
            final(self).entries == old(self).entries,
    {
        let ghost begin = self@;
        let ghost first = self.next_index;
        let ghost texts = script_texts(scripts@);
        let mut index: usize = 0;
        while index < scripts.len()
            invariant
                index <= scripts.len(),
                texts == script_texts(scripts@),
                begin == old(self)@,
                first == old(self).next_index,
                self.next_index == first + index,
                first + scripts@.len() <= usize::MAX,
                self.context == old(self).context,
                self.entries == old(self).entries,
                self@ == with_generated(begin, texts, index as int, source@),
            decreases scripts.len() - index,
        {
            let script = &scripts[index];
            assert(texts[index as int] == script@);
            let vm_name = joined2("gml_Script_", script.name.as_str());
            push_code(
                &mut self.generated,
                CodeKind::GeneratedScript { index: self.next_index },
                script.name.clone(),
                vm_name,
                source,
                script.code.clone(),
            );
            self.next_index += 1;
            index += 1;
        }
    }

    fn collect_event(&mut self, object: &GameObject, event: &ObjectEvent, scripts: Ghost<int>)
        requires
            old(self).has_room_for(scripts@, event.actions@.len() as int),
        ensures
            final(self)@ == with_event(old(self)@, *object, *event),
            final(self).next_index <= scripts@ + final(self).context.next_script(),
            final(self).context.next_script() <= old(self).context.next_script()
                + event.actions@.len(),
    {
        let mut name = object.name.clone();
        name.append("[");
        let event_type = decimal(event.event_type as u64);
        name.append(event_type.as_str());
        name.append(",");
        let subtype = signed_decimal(event.subtype as i64);
        name.append(subtype.as_str());
        name.append("]");
        assert(name@ == event_title(*object, *event));
        proof {
            law_scripts_are_no_more_than_actions(
                action_views(event.actions@),
                self.context.next_script(),
            );
            crate::gml::dnd::law_lists_are_balanced_and_scripts_numbered(
                action_views(event.actions@),
                self.context.next_script(),
            );
            assert(action_views(event.actions@).len() == event.actions@.len());
        }
        match self.context.lower(event.actions.as_slice()) {
            Ok(lowered_actions) => {
                let mut vm_name = "gml_Object_".to_owned();
                let object_name = sanitize_name(object.name.as_str());
                vm_name.append(object_name.as_str());
                vm_name.append("_");
                vm_name.append(event_name(event.event_type));
                vm_name.append("_");
                vm_name.append(subtype.as_str());
                assert(vm_name@ == event_code_name(*object, *event));
                push_code(
                    &mut self.objects,
                    CodeKind::ObjectEvent,
                    name,
                    vm_name,
                    object.source.as_str(),
                    lowered_actions.code,
                );
                assert(script_texts(lowered_actions.scripts@).len()
                    == lowered_actions.scripts@.len());
                self.collect_scripts(lowered_actions.scripts, object.source.as_str());
            },
            Err(error) => {
                let diagnostic = DndDiagnostic {
                    kind: CodeKind::ObjectEvent,
                    name,
                    source: object.source.clone(),
                    error,
                };
                let ghost before = self.errors@;
                self.errors.push(diagnostic);
                assert(dnd_reports(self.errors@) =~= dnd_reports(before).push(diagnostic@));
            },
        }
    }

    fn collect_object(&mut self, object: &GameObject, scripts: Ghost<int>, more: Ghost<int>)
        requires
            old(self).has_room_for(scripts@, actions_in_groups(object.events@, 0) + more@),
            more@ >= 0,
        ensures
            final(self)@ == with_groups(old(self)@, *object, object.events@.len() as int),
            final(self).has_room_for(scripts@, more@),
    {
        let ghost begin = self@;
        let mut group: usize = 0;
        while group < object.events.len()
            invariant
                group <= object.events.len(),
                more@ >= 0,
                self.has_room_for(
                    scripts@,
                    actions_in_groups(object.events@, group as int) + more@,
                ),
                self@ == with_groups(begin, *object, group as int),
            decreases object.events.len() - group,
        {
            let events = &object.events[group];
            let ghost middle = self@;
            let mut index: usize = 0;
            while index < events.len()
                invariant
                    index <= events.len(),
                    more@ >= 0,
                    self.has_room_for(
                        scripts@,
                        actions_in_events(events@, index as int) + actions_in_groups(
                            object.events@,
                            group + 1,
                        ) + more@,
                    ),
                    self@ == with_events(middle, *object, events@, index as int),
                decreases events.len() - index,
            {
                self.collect_event(object, &events[index], scripts);
                index += 1;
            }
            group += 1;
        }
    }

    fn collect_entry(
        &mut self,
        timeline: &Timeline,
        entry: &TimelineEntry,
        scripts: Ghost<int>,
    )
        requires
            old(self).has_room_for(scripts@, entry.actions@.len() as int),
            old(self).entries < usize::MAX,
        ensures
            final(self)@ == with_entry(old(self)@, *timeline, *entry),
            final(self).next_index <= scripts@ + final(self).context.next_script(),
            final(self).context.next_script() <= old(self).context.next_script()
                + entry.actions@.len(),
            final(self).entries <= old(self).entries + 1,
    {
        let mut name = timeline.name.clone();
        name.append("[step=");
        let step = signed_decimal(entry.step as i64);
        name.append(step.as_str());
        name.append("]");
        assert(name@ == entry_title(*timeline, *entry));
        proof {
            law_scripts_are_no_more_than_actions(
                action_views(entry.actions@),
                self.context.next_script(),
            );
            crate::gml::dnd::law_lists_are_balanced_and_scripts_numbered(
                action_views(entry.actions@),
                self.context.next_script(),
            );
            assert(action_views(entry.actions@).len() == entry.actions@.len());
        }
        match self.context.lower(entry.actions.as_slice()) {
            Ok(lowered_actions) => {
                let mut vm_name = "Timeline_".to_owned();
                let timeline_name = sanitize_name(timeline.name.as_str());
                vm_name.append(timeline_name.as_str());
                vm_name.append("_");
                let number = decimal(self.entries as u64);
                vm_name.append(number.as_str());
                let pushed = push_code(
                    &mut self.timelines,
                    CodeKind::Timeline,
                    name,
                    vm_name,
                    timeline.source.as_str(),
                    lowered_actions.code,
                );
                if pushed {
                    self.entries += 1;
                }
                assert(script_texts(lowered_actions.scripts@).len()
                    == lowered_actions.scripts@.len());
                self.collect_scripts(lowered_actions.scripts, timeline.source.as_str());
            },
            Err(error) => {
                let diagnostic = DndDiagnostic {
                    kind: CodeKind::Timeline,
                    name,
                    source: timeline.source.clone(),
                    error,
                };
                let ghost before = self.errors@;
                self.errors.push(diagnostic);
                assert(dnd_reports(self.errors@) =~= dnd_reports(before).push(diagnostic@));
            },
        }
    }

    fn collect_timeline(&mut self, timeline: &Timeline, scripts: Ghost<int>, more: Ghost<int>)
        requires
            old(self).has_room_for(scripts@, actions_in_entries(timeline.entries@, 0) + more@),
            more@ >= 0,
        ensures
            final(self)@ == with_entries(old(self)@, *timeline, timeline.entries@.len() as int),
            final(self).has_room_for(scripts@, more@),
    {
        let ghost begin = self@;
        self.entries = 0;
        let mut index: usize = 0;
        while index < timeline.entries.len()
            invariant
                index <= timeline.entries.len(),
                more@ >= 0,
                self.entries <= index,
                self.has_room_for(
                    scripts@,
                    actions_in_entries(timeline.entries@, index as int) + more@,
                ),
                self@ == with_entries(begin, *timeline, index as int),
            decreases timeline.entries.len() - index,
        {
            self.collect_entry(timeline, &timeline.entries[index], scripts);
            index += 1;
        }
    }
}

/// The bytes that a pragma covers, and its code.
struct Found {
    start: u32,
    end: u32,
    code: String,
}

impl View for Found {
    type V = Pragma;

    closed spec fn view(&self) -> Pragma {
        Pragma { start: self.start as int, end: self.end as int, code: self.code@ }
    }
}

spec fn pragma_views(found: Seq<Found>) -> Seq<Pragma> {
    found.map_values(|pragma: Found| pragma@)
}

fn string_text(source: &str, span: Span) -> (text: Option<String>)
    requires
        in_source(source@, span),
    ensures
        match text {
            Some(text) => unquoted(span_text(source@, span)) == Some(text@),
            None => unquoted(span_text(source@, span)) is None,
        },
{
    let text = characters(source_text(source, span));
    if text.len() >= 2 {
        Some(spell(vstd::slice::slice_subrange(text.as_slice(), 1, text.len() - 1)))
    } else {
        None
    }
}

fn is_global(source: &str, tokens: &Vec<Token>, index: usize) -> (result: bool)
    requires
        index + 5 < tokens@.len(),
        forall|k: int|
            0 <= k < tokens@.len() ==> in_source(source@, (#[trigger] tokens@[k]).span),
    ensures
        result == is_global_pragma(source@, tokens@, index as int),
{
    if tokens[index].kind != TokenKind::Identifier || !same_text(
        source_text(source, tokens[index].span),
        "gml_pragma",
    ) {
        return false;
    }
    assert(index + 5 < tokens.len());
    if tokens[index + 1].kind != TokenKind::LeftParen || tokens[index + 2].kind
        != TokenKind::String {
        return false;
    }
    match string_text(source, tokens[index + 2].span) {
        Some(text) => if !same_text(text.as_str(), "global") {
            return false;
        },
        None => {
            return false;
        },
    }
    tokens[index + 3].kind == TokenKind::Comma && tokens[index + 4].kind == TokenKind::String
        && tokens[index + 5].kind == TokenKind::RightParen
}

fn find_pragmas(source: &str) -> (found: Vec<Found>)
    ensures
        pragma_views(found@) == pragmas_of(source@),
{
    let mut found: Vec<Found> = Vec::new();
    assert(pragma_views(found@) =~= seq![]);
    let tokens = match lex(source) {
        Ok(tokens) => tokens,
        Err(errors) => {
            assert(reports(errors@).len() == errors@.len());
            return found;
        },
    };
    proof {
        law_tokens_cover_the_source_in_order(source@, 0);
    }
    let ghost all = pragmas_from(source@, tokens@, 0);
    let mut index: usize = 0;
    assert(pragma_views(found@) + all =~= all);
    while index < tokens.len() && tokens.len() - index > 5
        invariant
            index <= tokens.len(),
            forall|k: int|
                0 <= k < tokens@.len() ==> in_source(source@, (#[trigger] tokens@[k]).span),
            pragma_views(found@) + pragmas_from(source@, tokens@, index as int) == all,
        decreases tokens.len() - index,
    {
        if is_global(source, &tokens, index) {
            match string_text(source, tokens[index + 4].span) {
                Some(code) => {
                    let pragma = Found {
                        start: tokens[index].span.start,
                        end: tokens[index + 5].span.end,
                        code,
                    };
                    let ghost before = found@;
                    found.push(pragma);
                    assert(pragma_views(found@) =~= pragma_views(before).push(pragma@));
                    assert(pragma_views(found@) + pragmas_from(source@, tokens@, index + 6)
                        =~= pragma_views(before) + pragmas_from(source@, tokens@, index as int));
                },
                None => {},
            }
            index += 6;
        } else {
            index += 1;
        }
    }
    assert(pragma_views(found@) + seq![] =~= pragma_views(found@));
    found
}

fn is_covered(found: &Vec<Found>, offset: u64) -> (result: bool)
    ensures
        result == in_pragma(pragma_views(found@), offset as int),
{
    let mut index: usize = 0;
    while index < found.len()
        invariant
            index <= found.len(),
            forall|k: int|
                0 <= k < index ==> !((#[trigger] pragma_views(found@)[k]).start <= offset
                    < pragma_views(found@)[k].end),
        decreases found.len() - index,
    {
        assert(pragma_views(found@)[index as int] == found@[index as int]@);
        if found[index].start as u64 <= offset && offset < found[index].end as u64 {
            return true;
        }
        index += 1;
    }
    false
}

fn blank_out(source: &str, found: &Vec<Found>) -> (text: String)
    requires
        encode_utf8(source@).len() <= u32::MAX,
    ensures
        text@ == blanked(source@, pragma_views(found@), source@.len() as int),
{
    let letters = characters(source);
    let ghost pragmas = pragma_views(found@);
    let mut text = String::new();
    let mut offset: u64 = 0;
    let mut index: usize = 0;
    proof {
        crate::text::lemma_offset_bounds(source@, 0, 0);
    }
    while index < letters.len()
        invariant
            index <= letters.len(),
            letters@ == source@,
            pragmas == pragma_views(found@),
            encode_utf8(source@).len() <= u32::MAX,
            offset == offset_at(source@, index as int),
            text@ == blanked(source@, pragmas, index as int),
        decreases letters.len() - index,
    {
        let letter = letters[index];
        let ghost before = text@;
        let count = char_width(letter);
        if is_covered(found, offset) && letter != '\r' && letter != '\n' {
            let mut left: usize = count;
            while left > 0
                invariant
                    left <= count,
                    text@ == before + blanks((count - left) as nat),
                decreases left,
            {
                text.push(' ');
                left -= 1;
                assert(text@ =~= before + blanks((count - left) as nat));
            }
        } else {
            text.push(letter);
            assert(text@ =~= before + seq![letter]);
        }
        proof {
            crate::text::lemma_offset_next(source@, index as int);
            crate::text::lemma_offset_bounds(source@, index as int, index + 1);
        }
        offset += count as u64;
        index += 1;
    }
    text
}

/// Takes the global pragmas out of a source: returns what is left of it, if
/// there are any, and the code of each.
pub fn extract_global_pragmas(source: &str) -> (result: (Option<String>, Vec<String>))
    ensures
        crate::path::optional_view(result.0) == without_pragmas(source@),
        spelled(result.1@) == pragma_codes(pragmas_of(source@)),
{
    let found = find_pragmas(source);
    let mut codes: Vec<String> = Vec::new();
    let mut index: usize = 0;
    while index < found.len()
        invariant
            index <= found.len(),
            codes@.len() == index,
            pragma_views(found@) == pragmas_of(source@),
            forall|k: int|
                0 <= k < index ==> (#[trigger] codes@[k])@ == pragma_views(found@)[k].code,
        decreases found.len() - index,
    {
        assert(pragma_views(found@)[index as int] == found@[index as int]@);
        codes.push(found[index].code.clone());
        index += 1;
    }
    assert(spelled(codes@) =~= pragma_codes(pragmas_of(source@)));
    if found.len() == 0 {
        return (None, codes);
    }
    assert(pragmas_of(source@).len() == found@.len());
    let text = blank_out(source, &found);
    (Some(text), codes)
}

proof fn lemma_blanks(count: nat)
    ensures
        encode_utf8(blanks(count)) == Seq::new(count, |k: int| 0x20u8),
    decreases count,
{
    if count == 0 {
        assert(blanks(0) =~= seq![]);
        assert(encode_utf8(blanks(0)) =~= Seq::new(0, |k: int| 0x20u8));
    } else {
        let rest = blanks((count - 1) as nat);
        lemma_blanks((count - 1) as nat);
        assert(blanks(count) =~= rest.push(' '));
        crate::text::lemma_encode_push(rest, ' ');
        crate::text::lemma_scalar_bytes(' ' as u32);
        assert(encode_utf8(blanks(count)) =~= Seq::new(count, |k: int| 0x20u8));
    }
}

/// Taking the pragmas out moves nothing: of the bytes of the source, those that
/// no pragma covers stay, those that one covers become blanks, and line ends
/// stay everywhere.
pub proof fn law_blanking_keeps_every_position(
    source: Seq<char>,
    pragmas: Seq<Pragma>,
    count: int,
)
    requires
        0 <= count <= source.len(),
    ensures
        ({
            let before = encode_utf8(source.take(count));
            let after = encode_utf8(blanked(source, pragmas, count));
            &&& after.len() == before.len()
            &&& forall|k: int|
                0 <= k < before.len() ==> (#[trigger] after[k]) == before[k] || after[k] == 0x20
            &&& forall|k: int|
                0 <= k < before.len() && (before[k] == 0x0a || before[k] == 0x0d) ==> (
                #[trigger] after[k]) == before[k]
        }),
    decreases count,
{
    if count == 0 {
        assert(source.take(0) =~= seq![]);
    } else {
        law_blanking_keeps_every_position(source, pragmas, count - 1);
        let letter = source[count - 1];
        let start = source.take(count - 1);
        let done = blanked(source, pragmas, count - 1);
        let next = blanked_character(source, pragmas, count - 1);
        assert(source.take(count) =~= start.push(letter));
        crate::text::lemma_encode_push(start, letter);
        crate::text::lemma_encode_concat(done, next);
        let bytes = encode_scalar(letter as u32);
        let before = encode_utf8(start) + bytes;
        let after = encode_utf8(done) + encode_utf8(next);
        if in_pragma(pragmas, offset_at(source, count - 1)) && letter != '\r' && letter != '\n' {
            lemma_blanks(width(letter));
            lemma_no_line_end(letter);
        } else {
            assert(done + next =~= done.push(letter));
            crate::text::lemma_encode_push(done, letter);
            assert(encode_utf8(next) =~= bytes);
        }
        assert forall|k: int| 0 <= k < before.len() implies ((#[trigger] after[k]) == before[k]
            || after[k] == 0x20) && (before[k] == 0x0a || before[k] == 0x0d ==> after[k]
            == before[k]) by {
            if k < encode_utf8(start).len() {
                assert(after[k] == encode_utf8(done)[k]);
            } else {
                assert(after[k] == encode_utf8(next)[k - encode_utf8(start).len()]);
                assert(before[k] == bytes[k - encode_utf8(start).len()]);
            }
        }
    }
}

proof fn lemma_no_line_end(letter: char)
    requires
        letter != '\r',
        letter != '\n',
    ensures
        forall|k: int|
            0 <= k < encode_scalar(letter as u32).len() ==> (#[trigger] encode_scalar(
                letter as u32,
            )[k]) != 0x0a && encode_scalar(letter as u32)[k] != 0x0d,
{
    let scalar = letter as u32;
    crate::text::lemma_scalar_bytes(scalar);
    assert(scalar != 0x0a && scalar != 0x0d);
    if scalar < 0x80 {
        assert(encode_scalar(scalar)[0] == scalar);
    }
}

/// A count as a machine word holds it.
pub open spec fn machine_count(count: nat) -> nat {
    count % (usize::MAX as nat + 1)
}

pub(crate) fn add_counts(first: usize, second: usize) -> (sum: usize)
    ensures
        sum == machine_count(first as nat + second as nat),
{
    let sum = first.wrapping_add(second);
    proof {
        let modulus = usize::MAX as nat + 1;
        if first + second <= usize::MAX {
            vstd::arithmetic::div_mod::lemma_small_mod((first + second) as nat, modulus);
        } else {
            vstd::arithmetic::div_mod::lemma_mod_add_multiples_vanish(
                first + second - modulus,
                modulus as int,
            );
            vstd::arithmetic::div_mod::lemma_small_mod((first + second - modulus) as nat, modulus);
        }
    }
    sum
}

pub(crate) proof fn lemma_counts(first: nat, second: nat)
    ensures
        machine_count(machine_count(first) + machine_count(second)) == machine_count(first + second),
        machine_count(first + machine_count(second)) == machine_count(first + second),
        machine_count(machine_count(first)) == machine_count(first),
        machine_count(0) == 0,
        machine_count(1) == 1,
{
    let modulus = usize::MAX as int + 1;
    vstd::arithmetic::div_mod::lemma_add_mod_noop(first as int, second as int, modulus);
    vstd::arithmetic::div_mod::lemma_add_mod_noop_right(first as int, second as int, modulus);
    vstd::arithmetic::div_mod::lemma_mod_twice(first as int, modulus);
    vstd::arithmetic::div_mod::lemma_small_mod(0, modulus as nat);
    vstd::arithmetic::div_mod::lemma_small_mod(1, modulus as nat);
}

/// The number of statements of a statement, itself included.
pub open spec fn statements_in(statement: StmtTree) -> nat
    decreases statement,
{
    1 + match statement.form {
        StmtForm::Block(statements) => statements_in_all(statements),
        StmtForm::If { then_branch, else_branch, .. } => statements_in(*then_branch) + (
        match else_branch {
            Some(branch) => statements_in(*branch),
            None => 0,
        }),
        StmtForm::While { body, .. } => statements_in(*body),
        StmtForm::DoUntil { body, .. } => statements_in(*body),
        StmtForm::Repeat { body, .. } => statements_in(*body),
        StmtForm::With { body, .. } => statements_in(*body),
        StmtForm::Switch { body, .. } => statements_in(*body),
        StmtForm::For { initializer, body, .. } => (match initializer {
            Some(initializer) => statements_in(*initializer),
            None => 0,
        }) + statements_in(*body),
        _ => 0,
    }
}

/// The number of statements of a list.
pub open spec fn statements_in_all(statements: Seq<StmtTree>) -> nat
    decreases statements,
{
    if statements.len() == 0 {
        0
    } else {
        statements_in_all(statements.drop_last()) + statements_in(statements.last())
    }
}

pub(crate) fn count_statements(statements: &Vec<Stmt>) -> (count: usize)
    ensures
        count == machine_count(statements_in_all(stmt_trees(statements@))),
    decreases statements,
{
    let mut count: usize = 0;
    let mut index: usize = 0;
    proof {
        lemma_counts(0, 0);
    }
    assert(stmt_trees(statements@.take(0)) =~= seq![]);
    while index < statements.len()
        invariant
            index <= statements.len(),
            count == machine_count(statements_in_all(stmt_trees(statements@.take(index as int)))),
        decreases statements.len() - index,
    {
        proof {
            let before = statements@.take(index as int);
            let statement = statements@[index as int];
            assert(statements@.take(index + 1) =~= before.push(statement));
            lemma_stmt_trees_push(before, statement);
            assert(stmt_trees(before).push(statement.tree()).drop_last() =~= stmt_trees(before));
            lemma_counts(
                statements_in_all(stmt_trees(before)),
                statements_in(statement.tree()),
            );
            assert(decreases_to!(statements => statements@[index as int]));
        }
        let more = statement_count(&statements[index]);
        count = add_counts(count, more);
        index += 1;
    }
    assert(statements@.take(index as int) =~= statements@);
    count
}

fn statement_count(statement: &Stmt) -> (count: usize)
    ensures
        count == machine_count(statements_in(statement.tree())),
    decreases statement,
{
    let inner: usize = match &statement.kind {
        StmtKind::Block(statements) => count_statements(statements),
        StmtKind::If { then_branch, else_branch, .. } => {
            let first = statement_count(then_branch);
            match else_branch {
                Some(branch) => {
                    let second = statement_count(branch);
                    proof {
                        lemma_counts(
                            statements_in(then_branch.tree()),
                            statements_in(branch.tree()),
                        );
                    }
                    add_counts(first, second)
                },
                None => first,
            }
        },
        StmtKind::While { body, .. } => statement_count(body),
        StmtKind::DoUntil { body, .. } => statement_count(body),
        StmtKind::Repeat { body, .. } => statement_count(body),
        StmtKind::With { body, .. } => statement_count(body),
        StmtKind::Switch { body, .. } => statement_count(body),
        StmtKind::For { initializer, body, .. } => {
            let second = statement_count(body);
            match initializer {
                Some(initializer) => {
                    let first = statement_count(initializer);
                    proof {
                        lemma_counts(
                            statements_in(initializer.tree()),
                            statements_in(body.tree()),
                        );
                    }
                    add_counts(first, second)
                },
                None => second,
            }
        },
        _ => 0,
    };
    proof {
        lemma_counts(1, (statements_in(statement.tree()) - 1) as nat);
        lemma_counts(0, 0);
    }
    add_counts(1, inner)
}

fn collect_rooms(units: &mut Vec<CodeUnit>, rooms: &Vec<Room>)
    ensures
        unit_texts(final(units)@) == with_rooms(
            unit_texts(old(units)@),
            rooms@,
            rooms@.len() as int,
        ),
{
    let ghost begin = unit_texts(units@);
    let mut index: usize = 0;
    while index < rooms.len()
        invariant
            index <= rooms.len(),
            unit_texts(units@) == with_rooms(begin, rooms@, index as int),
        decreases rooms.len() - index,
    {
        collect_room(units, &rooms[index]);
        index += 1;
    }
}

fn collect_room(units: &mut Vec<CodeUnit>, room: &Room)
    ensures
        unit_texts(final(units)@) == with_room(unit_texts(old(units)@), *room),
{
    let room_name = sanitize_name(room.name.as_str());
    let mut vm_name = "gml_Room_".to_owned();
    vm_name.append(room_name.as_str());
    vm_name.append("_Create");
    push_code(
        units,
        CodeKind::RoomCreation,
        room.name.clone(),
        vm_name,
        room.source.as_str(),
        room.code.clone(),
    );
    let ghost begin = unit_texts(units@);
    let mut index: usize = 0;
    while index < room.instances.len()
        invariant
            index <= room.instances.len(),
            room_name@ == sanitized(room.name@),
            unit_texts(units@) == with_instances(begin, *room, index as int),
        decreases room.instances.len() - index,
    {
        let instance = &room.instances[index];
        let mut name = room.name.clone();
        name.append(".");
        name.append(instance.name.as_str());
        assert(unit_texts(units@).len() == units@.len());
        let number = decimal(units.len() as u64);
        let mut vm_name = "gml_RoomCC_".to_owned();
        vm_name.append(room_name.as_str());
        vm_name.append("_");
        vm_name.append(number.as_str());
        vm_name.append("_Create");
        push_code(
            units,
            CodeKind::RoomInstance,
            name,
            vm_name,
            room.source.as_str(),
            instance.code.clone(),
        );
        index += 1;
    }
}

fn unmark(bytes: &[u8]) -> (result: &[u8])
    ensures
        result@ == unmarked(bytes@),
{
    if bytes.len() >= 3 && bytes[0] == 0xef && bytes[1] == 0xbb && bytes[2] == 0xbf {
        vstd::slice::slice_subrange(bytes, 3, bytes.len())
    } else {
        bytes
    }
}

fn collect_file(
    units: &mut Vec<CodeUnit>,
    assets: &Assets,
    extension: &Extension,
    file: &ExtensionFile,
)
    ensures
        unit_texts(final(units)@) == with_file(
            unit_texts(old(units)@),
            *assets,
            *extension,
            *file,
        ),
{
    if file.kind != 2 || !file.used || !file.enabled {
        return ;
    }
    let bytes = match assets.binary(file.source.as_str()) {
        Some(bytes) => bytes,
        None => {
            return ;
        },
    };
    let code = decode_lossily(unmark(bytes));
    let default_name = match file_stem(file.filename.as_str()) {
        Some(stem) => stem,
        None => file.filename.clone(),
    };
    let parts = script_parts(default_name.as_str(), code.as_str());
    let ghost views = part_views(parts@);
    assert(views == file_parts(*file, bytes@));
    let ghost begin = unit_texts(units@);
    let mut index: usize = 0;
    while index < parts.len()
        invariant
            index <= parts.len(),
            views == part_views(parts@),
            unit_texts(units@) == with_parts(begin, *extension, *file, views, index as int),
        decreases parts.len() - index,
    {
        let part = &parts[index];
        assert(views[index as int] == part@);
        let mut name = extension.name.clone();
        name.append("/");
        name.append(file.filename.as_str());
        name.append("#");
        name.append(part.name.as_str());
        let vm_name = joined2("gml_Script_", part.name.as_str());
        push_code(
            units,
            CodeKind::Extension,
            name,
            vm_name,
            file.source.as_str(),
            part.code.clone(),
        );
        index += 1;
    }
}

fn collect_extensions(units: &mut Vec<CodeUnit>, assets: &Assets)
    ensures
        unit_texts(final(units)@) == with_extensions(
            unit_texts(old(units)@),
            *assets,
            assets.extensions@.len() as int,
        ),
{
    let ghost begin = unit_texts(units@);
    let mut index: usize = 0;
    while index < assets.extensions.len()
        invariant
            index <= assets.extensions.len(),
            unit_texts(units@) == with_extensions(begin, *assets, index as int),
        decreases assets.extensions.len() - index,
    {
        let extension = &assets.extensions[index];
        if extension.enabled {
            let ghost middle = unit_texts(units@);
            let mut file: usize = 0;
            while file < extension.files.len()
                invariant
                    file <= extension.files.len(),
                    unit_texts(units@) == with_files(middle, *assets, *extension, file as int),
                decreases extension.files.len() - file,
            {
                collect_file(units, assets, extension, &extension.files[file]);
                file += 1;
            }
        }
        index += 1;
    }
}

/// The sources and codes of a list of pairs.
pub open spec fn pair_texts(pairs: Seq<(String, String)>) -> Seq<(Seq<char>, Seq<char>)> {
    pairs.map_values(|pair: (String, String)| (pair.0@, pair.1@))
}

fn take_globals(units: &mut Vec<CodeUnit>) -> (globals: Vec<(String, String)>)
    ensures
        unit_texts(final(units)@) == unit_texts(old(units)@).map_values(
            |unit: UnitText| stripped_unit(unit),
        ),
        pair_texts(globals@) == globals_of(unit_texts(old(units)@), old(units)@.len() as int),
{
    let ghost plain = unit_texts(units@);
    let mut globals: Vec<(String, String)> = Vec::new();
    assert(pair_texts(globals@) =~= seq![]);
    let mut index: usize = 0;
    while index < units.len()
        invariant
            index <= units.len(),
            units@.len() == plain.len(),
            forall|k: int|
                index <= k < units@.len() ==> (#[trigger] units@[k])@ == plain[k],
            forall|k: int|
                0 <= k < index ==> (#[trigger] units@[k])@ == stripped_unit(plain[k]),
            pair_texts(globals@) == globals_of(plain, index as int),
        decreases units.len() - index,
    {
        let ghost before = pair_texts(globals@);
        let (stripped, codes) = extract_global_pragmas(units[index].code.as_str());
        let source = units[index].source.clone();
        let ghost unit = plain[index as int];
        let ghost texts = pragma_codes(pragmas_of(unit.code));
        let ghost more = texts.map_values(|code: Seq<char>| (unit.source, code));
        assert(units@[index as int]@ == unit);
        assert(spelled(codes@) == texts);
        let mut at: usize = 0;
        assert(before + more.take(0) =~= before);
        while at < codes.len()
            invariant
                at <= codes.len(),
                source@ == unit.source,
                spelled(codes@) == texts,
                more == texts.map_values(|code: Seq<char>| (unit.source, code)),
                pair_texts(globals@) == before + more.take(at as int),
            decreases codes.len() - at,
        {
            let ghost held = globals@;
            assert(spelled(codes@)[at as int] == codes@[at as int]@);
            let pair = (source.clone(), codes[at].clone());
            globals.push(pair);
            assert(pair_texts(globals@) =~= pair_texts(held).push((pair.0@, pair.1@)));
            assert(before + more.take(at + 1) =~= (before + more.take(at as int)).push(
                more[at as int],
            ));
            at += 1;
        }
        assert(more.take(at as int) =~= more);
        match stripped {
            Some(code) => {
                let unit = CodeUnit {
                    kind: units[index].kind,
                    name: units[index].name.clone(),
                    vm_name: units[index].vm_name.clone(),
                    source,
                    code,
                };
                units.set(index, unit);
            },
            None => {},
        }
        index += 1;
    }
    assert(unit_texts(units@) =~= plain.map_values(|unit: UnitText| stripped_unit(unit)));
    globals
}

/// Collects the code of a project: its units, or what is wrong with its
/// actions.
pub fn collect_code(assets: &Assets) -> (result: Result<Vec<CodeUnit>, Vec<DndDiagnostic>>)
    requires
        scripts_fit(*assets),
    ensures
        match result {
            Ok(units) => {
                &&& collected_actions(*assets).faults.len() == 0
                &&& unit_texts(units@) == code_units(*assets)
            },
            Err(errors) => {
                &&& errors@.len() > 0
                &&& dnd_reports(errors@) == collected_actions(*assets).faults
            },
        },
{
    let mut units: Vec<CodeUnit> = Vec::new();
    assert(unit_texts(units@) =~= seq![]);
    let mut index: usize = 0;
    while index < assets.scripts.len()
        invariant
            index <= assets.scripts.len(),
            unit_texts(units@) == script_units(assets.scripts@, index as int),
        decreases assets.scripts.len() - index,
    {
        let script = &assets.scripts[index];
        let vm_name = joined2("gml_Script_", script.name.as_str());
        push_code(
            &mut units,
            CodeKind::Script,
            script.name.clone(),
            vm_name,
            script.source.as_str(),
            script.code.clone(),
        );
        index += 1;
    }

    let mut collector = Collector {
        generated: Vec::new(),
        objects: Vec::new(),
        timelines: Vec::new(),
        errors: Vec::new(),
        context: DndContext::new(),
        next_index: assets.scripts.len(),
        entries: 0,
    };
    let ghost begin = nothing_collected(*assets);
    assert(unit_texts(collector.generated@) =~= seq![]);
    assert(dnd_reports(collector.errors@) =~= seq![]);
    assert(collector@ == begin);
    let ghost scripts = assets.scripts@.len() as int;
    let ghost later = actions_in_timelines(assets.timelines@, 0) as int;
    let mut index: usize = 0;
    while index < assets.objects.len()
        invariant
            index <= assets.objects.len(),
            later == actions_in_timelines(assets.timelines@, 0),
            collector@ == with_objects(begin, assets.objects@, index as int),
            collector.has_room_for(
                scripts,
                actions_in_objects(assets.objects@, index as int) + later,
            ),
        decreases assets.objects.len() - index,
    {
        let ghost more = actions_in_objects(assets.objects@, index + 1) + later;
        collector.collect_object(&assets.objects[index], Ghost(scripts), Ghost(more));
        index += 1;
    }
    let ghost middle = collector@;
    let mut index: usize = 0;
    while index < assets.timelines.len()
        invariant
            index <= assets.timelines.len(),
            collector@ == with_timelines(middle, assets.timelines@, index as int),
            collector.has_room_for(
                scripts,
                actions_in_timelines(assets.timelines@, index as int) as int,
            ),
        decreases assets.timelines.len() - index,
    {
        let ghost more = actions_in_timelines(assets.timelines@, index + 1) as int;
        collector.collect_timeline(&assets.timelines[index], Ghost(scripts), Ghost(more));
        index += 1;
    }

    let mut generated = collector.generated;
    let mut objects = collector.objects;
    let mut timelines = collector.timelines;
    let ghost first = unit_texts(units@);
    let ghost second = unit_texts(generated@);
    let ghost third = unit_texts(objects@);
    let ghost fourth = unit_texts(timelines@);
    units.append(&mut generated);
    units.append(&mut objects);
    units.append(&mut timelines);
    assert(unit_texts(units@) =~= first + second + third + fourth);
    collect_rooms(&mut units, &assets.rooms);
    collect_extensions(&mut units, assets);
    let ghost plain = unit_texts(units@);
    assert(plain == plain_units(*assets));
    assert(plain.len() == units@.len());

    let globals = take_globals(&mut units);
    let ghost stripped = unit_texts(units@);
    let ghost texts = pair_texts(globals@);
    let mut index: usize = 0;
    assert(stripped + Seq::new(0, |k: int| global_unit(texts, k)) =~= stripped);
    while index < globals.len()
        invariant
            index <= globals.len(),
            texts == pair_texts(globals@),
            unit_texts(units@) == stripped + Seq::new(
                index as nat,
                |k: int| global_unit(texts, k),
            ),
        decreases globals.len() - index,
    {
        let number = decimal(index as u64);
        let mut name = "global[".to_owned();
        name.append(number.as_str());
        name.append("]");
        let vm_name = joined2("gml_GlobalScript_", number.as_str());
        assert(texts[index as int] == (globals@[index as int].0@, globals@[index as int].1@));
        proof {
            reveal_strlit(" ");
        }
        let code = if globals[index].1.as_str().is_empty() {
            " ".to_owned()
        } else {
            globals[index].1.clone()
        };
        let ghost before = unit_texts(units@);
        push_code(
            &mut units,
            CodeKind::Global,
            name,
            vm_name,
            globals[index].0.as_str(),
            code,
        );
        assert(unit_texts(units@) == before.push(global_unit(texts, index as int)));
        assert(unit_texts(units@) =~= stripped + Seq::new(
            (index + 1) as nat,
            |k: int| global_unit(texts, k),
        ));
        index += 1;
    }
    assert(dnd_reports(collector.errors@).len() == collector.errors@.len());
    if collector.errors.len() == 0 {
        Ok(units)
    } else {
        Err(collector.errors)
    }
}

/// The code of an action of one of the two inline forms: an assignment of a
/// variable, or code.
pub open spec fn inline_code(action: ActionView) -> Option<Seq<char>> {
    if action.kind == 6 || action.kind == 7 {
        code_of(action)
    } else {
        None
    }
}

/// Converts the two inline action forms. Other actions need the rest of their
/// list and are lowered with it.
pub fn action_code(action: &Action) -> (code: Option<String>)
    ensures
        crate::path::optional_view(code) == inline_code(action@),
{
    if action.kind == 6 || action.kind == 7 {
        compiled_code(action)
    } else {
        None
    }
}

/// A message about the code of a unit.
#[derive(Debug, Clone, PartialEq, Eq)]
pub struct CodeDiagnostic {
    pub kind: CodeKind,
    pub name: String,
    pub source: String,
    pub diagnostic: Diagnostic,
}

/// A [`CodeDiagnostic`] as sequences of characters.
pub struct CodeReport {
    pub kind: CodeKind,
    pub name: Seq<char>,
    pub source: Seq<char>,
    pub report: Report,
}

impl View for CodeDiagnostic {
    type V = CodeReport;

    open spec fn view(&self) -> CodeReport {
        CodeReport {
            kind: self.kind,
            name: self.name@,
            source: self.source@,
            report: self.diagnostic@,
        }
    }
}

/// What a list of diagnostics stands for.
pub open spec fn code_reports(diagnostics: Seq<CodeDiagnostic>) -> Seq<CodeReport> {
    diagnostics.map_values(|diagnostic: CodeDiagnostic| diagnostic@)
}

impl CodeDiagnostic {
    /// Returns the message behind its place, kind and name.
    pub fn text(&self) -> (text: String)
        ensures
            text@ == self.source@ + ":"@ + digits(self.diagnostic.span.line as nat, 10) + ":"@
                + digits(self.diagnostic.span.column as nat, 10) + ": "@ + kind_name(self.kind)
                + " "@ + self.name@ + ": "@ + self.diagnostic.message@,
    {
        let mut text = self.source.clone();
        text.append(":");
        let line = decimal(self.diagnostic.span.line as u64);
        text.append(line.as_str());
        text.append(":");
        let column = decimal(self.diagnostic.span.column as u64);
        text.append(column.as_str());
        text.append(": ");
        text.append(self.kind.text());
        text.append(" ");
        text.append(self.name.as_str());
        text.append(": ");
        text.append(self.diagnostic.message.as_str());
        text
    }
}

/// How much code a project has.
#[derive(Debug, Clone, Copy, PartialEq, Eq, Structural)]
pub struct CheckSummary {
    pub units: usize,
    pub tokens: usize,
    pub statements: usize,
}

/// What is wrong with a unit, as reports about its code.
pub open spec fn unit_reports(unit: UnitText, faults: Seq<Report>) -> Seq<CodeReport> {
    faults.map_values(
        |report: Report|
            CodeReport { kind: unit.kind, name: unit.name, source: unit.source, report },
    )
}

/// A unit with its macros expanded. One that cannot be expanded stays as it
/// is.
pub open spec fn expanded_unit(table: Seq<Definition>, unit: UnitText) -> UnitText {
    match macro_expanded(table, unit.code) {
        Ok(Some(code)) => UnitText { code, ..unit },
        _ => unit,
    }
}

/// What is wrong with the macros of the first `count` units.
pub open spec fn macro_reports(
    table: Seq<Definition>,
    units: Seq<UnitText>,
    count: int,
) -> Seq<CodeReport>
    decreases count,
{
    if count <= 0 {
        seq![]
    } else {
        let unit = units[count - 1];
        macro_reports(table, units, count - 1) + match macro_expanded(table, unit.code) {
            Ok(_) => seq![],
            Err(faults) => unit_reports(unit, faults),
        }
    }
}

pub(crate) fn report_all(
    errors: &mut Vec<CodeDiagnostic>,
    unit: &CodeUnit,
    diagnostics: Vec<Diagnostic>,
)
    ensures
        code_reports(final(errors)@) == code_reports(old(errors)@) + unit_reports(
            unit@,
            reports(diagnostics@),
        ),
{
    let ghost before = code_reports(errors@);
    let ghost more = unit_reports(unit@, reports(diagnostics@));
    let mut index: usize = 0;
    assert(before + more.take(0) =~= before);
    while index < diagnostics.len()
        invariant
            index <= diagnostics.len(),
            more == unit_reports(unit@, reports(diagnostics@)),
            code_reports(errors@) == before + more.take(index as int),
        decreases diagnostics.len() - index,
    {
        let diagnostic = &diagnostics[index];
        let error = CodeDiagnostic {
            kind: unit.kind,
            name: unit.name.clone(),
            source: unit.source.clone(),
            diagnostic: Diagnostic::new(diagnostic.message.as_str(), diagnostic.span),
        };
        assert(more[index as int] == error@);
        let ghost held = errors@;
        errors.push(error);
        assert(code_reports(errors@) =~= code_reports(held).push(error@));
        assert(before + more.take(index + 1) =~= (before + more.take(index as int)).push(
            more[index as int],
        ));
        index += 1;
    }
    assert(more.take(index as int) =~= more);
}

/// Expands the macros of all units and returns what is wrong with them.
pub fn expand_code_macros(assets: &Assets, units: &mut Vec<CodeUnit>) -> (errors: Vec<
    CodeDiagnostic,
>)
    ensures
        ({
            let table = definitions(assets.constants@);
            let plain = unit_texts(old(units)@);
            &&& unit_texts(final(units)@) == plain.map_values(
                |unit: UnitText| expanded_unit(table, unit),
            )
            &&& code_reports(errors@) == macro_reports(table, plain, plain.len() as int)
        }),
{
    let table = MacroTable::new(assets.constants.as_slice());
    let ghost definitions = definitions(assets.constants@);
    let ghost plain = unit_texts(units@);
    let mut errors: Vec<CodeDiagnostic> = Vec::new();
    assert(code_reports(errors@) =~= seq![]);
    let mut index: usize = 0;
    while index < units.len()
        invariant
            index <= units.len(),
            table.table() == definitions,
            units@.len() == plain.len(),
            forall|k: int|
                index <= k < units@.len() ==> (#[trigger] units@[k])@ == plain[k],
            forall|k: int|
                0 <= k < index ==> (#[trigger] units@[k])@ == expanded_unit(
                    definitions,
                    plain[k],
                ),
            code_reports(errors@) == macro_reports(definitions, plain, index as int),
        decreases units.len() - index,
    {
        assert(units@[index as int]@ == plain[index as int]);
        let ghost before = code_reports(errors@);
        match table.expand(units[index].code.as_str()) {
            Ok(Some(code)) => {
                let unit = CodeUnit {
                    kind: units[index].kind,
                    name: units[index].name.clone(),
                    vm_name: units[index].vm_name.clone(),
                    source: units[index].source.clone(),
                    code,
                };
                units.set(index, unit);
                assert(before + seq![] =~= before);
            },
            Ok(None) => {
                assert(before + seq![] =~= before);
            },
            Err(diagnostics) => {
                report_all(&mut errors, &units[index], diagnostics);
            },
        }
        index += 1;
    }
    assert(unit_texts(units@) =~= plain.map_values(
        |unit: UnitText| expanded_unit(definitions, unit),
    ));
    errors
}

/// The report of a list of actions that cannot be lowered.
pub open spec fn dnd_code_report(report: DndReport) -> CodeReport {
    CodeReport {
        kind: report.kind,
        name: report.name,
        source: report.source,
        report: Report {
            message: "action "@ + digits(report.error.action as nat, 10) + ": "@
                + report.error.message,
            span: Span { start: 0, end: 0, line: 0, column: 0 },
        },
    }
}

/// The number of tokens of the first `count` units.
pub open spec fn tokens_in_units(units: Seq<UnitText>, count: int) -> nat
    decreases count,
{
    if count <= 0 {
        0
    } else {
        tokens_in_units(units, count - 1) + match parsed(units[count - 1].code) {
            Ok(program) => program.token_count,
            Err(_) => 0,
        }
    }
}

/// The number of statements of the first `count` units.
pub open spec fn statements_in_units(units: Seq<UnitText>, count: int) -> nat
    decreases count,
{
    if count <= 0 {
        0
    } else {
        statements_in_units(units, count - 1) + match parsed(units[count - 1].code) {
            Ok(program) => statements_in_all(program.statements),
            Err(_) => 0,
        }
    }
}

/// What is wrong with the syntax of the first `count` units.
pub open spec fn syntax_reports(units: Seq<UnitText>, count: int) -> Seq<CodeReport>
    decreases count,
{
    if count <= 0 {
        seq![]
    } else {
        let unit = units[count - 1];
        syntax_reports(units, count - 1) + match parsed(unit.code) {
            Ok(_) => seq![],
            Err(faults) => unit_reports(unit, faults),
        }
    }
}

/// The code of a project: how much of it there is, or what is wrong with its
/// actions, with its macros or with its syntax.
pub open spec fn checked(assets: Assets) -> Result<(nat, nat, nat), Seq<CodeReport>> {
    let faults = collected_actions(assets).faults;
    let table = definitions(assets.constants@);
    let plain = code_units(assets);
    let units = plain.map_values(|unit: UnitText| expanded_unit(table, unit));
    let wrong_macros = macro_reports(table, plain, plain.len() as int);
    let wrong_syntax = syntax_reports(units, units.len() as int);
    if faults.len() > 0 {
        Err(faults.map_values(|report: DndReport| dnd_code_report(report)))
    } else if wrong_macros.len() > 0 {
        Err(wrong_macros)
    } else if wrong_syntax.len() > 0 {
        Err(wrong_syntax)
    } else {
        Ok(
            (
                units.len(),
                tokens_in_units(units, units.len() as int),
                statements_in_units(units, units.len() as int),
            ),
        )
    }
}

/// Checks the code of a project: counts its units, tokens and statements, or
/// returns what is wrong with it.
pub fn check_assets(assets: &Assets) -> (result: Result<CheckSummary, Vec<CodeDiagnostic>>)
    requires
        scripts_fit(*assets),
    ensures
        match result {
            Ok(summary) => checked(*assets) matches Ok((units, tokens, statements))
                && summary.units == units && summary.tokens == machine_count(tokens)
                && summary.statements == machine_count(statements),
            Err(errors) => checked(*assets) == Err::<(nat, nat, nat), Seq<CodeReport>>(
                code_reports(errors@),
            ),
        },
{
    let mut units = match collect_code(assets) {
        Ok(units) => units,
        Err(faults) => {
            return Err(report_actions(faults));
        },
    };
    let ghost table = definitions(assets.constants@);
    let ghost plain = unit_texts(units@);
    let errors = expand_code_macros(assets, &mut units);
    assert(code_reports(errors@).len() == errors@.len());
    if errors.len() > 0 {
        return Err(errors);
    }
    let ghost texts = unit_texts(units@);
    assert(texts == plain.map_values(|unit: UnitText| expanded_unit(table, unit)));
    let mut errors: Vec<CodeDiagnostic> = Vec::new();
    let mut tokens: usize = 0;
    let mut statements: usize = 0;
    let mut index: usize = 0;
    assert(code_reports(errors@) =~= seq![]);
    proof {
        lemma_counts(0, 0);
    }
    while index < units.len()
        invariant
            index <= units.len(),
            texts == unit_texts(units@),
            tokens == machine_count(tokens_in_units(texts, index as int)),
            statements == machine_count(statements_in_units(texts, index as int)),
            code_reports(errors@) == syntax_reports(texts, index as int),
        decreases units.len() - index,
    {
        assert(texts[index as int] == units@[index as int]@);
        let ghost before = code_reports(errors@);
        match parse(units[index].code.as_str()) {
            Ok(program) => {
                let more = count_statements(&program.statements);
                proof {
                    let words = tokens_in_units(texts, index as int);
                    let inner = statements_in_units(texts, index as int);
                    lemma_counts(words, program.token_count as nat);
                    lemma_counts(inner, statements_in_all(program.tree().statements));
                    vstd::arithmetic::div_mod::lemma_small_mod(
                        program.token_count as nat,
                        usize::MAX as nat + 1,
                    );
                    assert(before + seq![] =~= before);
                }
                tokens = add_counts(tokens, program.token_count);
                statements = add_counts(statements, more);
            },
            Err(diagnostics) => {
                report_all(&mut errors, &units[index], diagnostics);
            },
        }
        index += 1;
    }
    assert(code_reports(errors@).len() == errors@.len());
    if errors.len() > 0 {
        return Err(errors);
    }
    Ok(CheckSummary { units: units.len(), tokens, statements })
}

fn report_actions(faults: Vec<DndDiagnostic>) -> (errors: Vec<CodeDiagnostic>)
    ensures
        code_reports(errors@) == dnd_reports(faults@).map_values(
            |report: DndReport| dnd_code_report(report),
        ),
{
    let mut errors: Vec<CodeDiagnostic> = Vec::new();
    let mut index: usize = 0;
    while index < faults.len()
        invariant
            index <= faults.len(),
            errors@.len() == index,
            forall|k: int|
                0 <= k < index ==> (#[trigger] errors@[k])@ == dnd_code_report(faults@[k]@),
        decreases faults.len() - index,
    {
        let fault = &faults[index];
        let message = fault.error.text();
        errors.push(
            CodeDiagnostic {
                kind: fault.kind,
                name: fault.name.clone(),
                source: fault.source.clone(),
                diagnostic: Diagnostic::new(message.as_str(), Span::default()),
            },
        );
        index += 1;
    }
    assert(code_reports(errors@) =~= dnd_reports(faults@).map_values(
        |report: DndReport| dnd_code_report(report),
    ));
    errors
}

} // verus!
