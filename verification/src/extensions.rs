//! The extensions of a project: the numbers of their functions and products, and
//! which of their files the project uses.

use vstd::prelude::*;
use vstd::utf8::*;

use crate::assets::{decode_text, file_text, AssetError, AssetFault};
use crate::digest::{md5, md5_digest};
use crate::identifiers::{
    actions_names, collect_actions, collect_gml_identifiers, names_from,
};
use crate::names::NameSet;
use crate::package::{read_from, read_source, ContentsView, FileContents, ReadFile};
use crate::resources::{
    Extension, ExtensionFile, ExtensionFunction, GameObject, ObjectEvent, Room, RoomInstance,
    Script, Timeline, TimelineEntry, EXTENSION_FUNCTION_ID_START,
};
use crate::text::{decimal, digits, is_blank, unicode_whitespace};

verus! {

/// The digit of a value below 16, in upper case.
pub open spec fn capital_digit(value: int) -> char {
    if value < 10 {
        (value + 0x30) as char
    } else {
        (value + 0x37) as char
    }
}

/// Two digits for each of the first bytes, in upper case.
pub open spec fn capital_digits(bytes: Seq<u8>, count: int) -> Seq<char>
    decreases count,
{
    if count <= 0 {
        seq![]
    } else {
        capital_digits(bytes, count - 1).push(capital_digit(bytes[count - 1] as int / 16)).push(
            capital_digit(bytes[count - 1] as int % 16),
        )
    }
}

/// The product number of the extension at a position that has none.
pub open spec fn default_product(position: int) -> Seq<char> {
    let digest = md5_digest(
        encode_utf8(
            "flynncom.yoyogames.LOCAL"@ + digits(position as nat, 10) + "lives\r\n"@,
        ),
    );
    capital_digits(digest, digest.len() as int)
}

fn capital(value: u8) -> (digit: char)
    requires
        value < 16,
    ensures
        digit == capital_digit(value as int),
{
    if value < 10 {
        (value + 0x30) as char
    } else {
        (value + 0x37) as char
    }
}

/// Returns two digits for each byte, in upper case.
pub fn capital_hex(bytes: &[u8]) -> (text: String)
    ensures
        text@ == capital_digits(bytes@, bytes@.len() as int),
{
    let mut text = String::new();
    let mut index: usize = 0;
    assert(text@ =~= seq![]);
    while index < bytes.len()
        invariant
            index <= bytes@.len(),
            text@ == capital_digits(bytes@, index as int),
        decreases bytes.len() - index,
    {
        text.push(capital(bytes[index] / 16));
        text.push(capital(bytes[index] % 16));
        index += 1;
    }
    text
}

/// Returns the product number of the extension at a position that has none.
pub fn default_extension_product_id(extension_position: usize) -> (product: String)
    ensures
        product@ == default_product(extension_position as int),
{
    let mut source = "flynncom.yoyogames.LOCAL".to_owned();
    let position = decimal(extension_position as u64);
    source.append(position.as_str());
    source.append("lives\r\n");
    let digest = md5(source.as_str().as_bytes());
    capital_hex(&digest)
}

/// The number of the function behind some others.
pub open spec fn id_after(first: i32, count: nat) -> i32
    decreases count,
{
    if count == 0 {
        first
    } else {
        id_after(first, (count - 1) as nat).wrapping_add(1)
    }
}

pub(crate) proof fn lemma_id_after(first: i32, one: nat, two: nat)
    ensures
        id_after(id_after(first, one), two) == id_after(first, one + two),
    decreases two,
{
    if two > 0 {
        lemma_id_after(first, one, (two - 1) as nat);
    }
}

/// The number of functions in the first files.
pub open spec fn functions_in(files: Seq<ExtensionFile>, count: int) -> nat
    decreases count,
{
    if count <= 0 {
        0
    } else {
        functions_in(files, count - 1) + files[count - 1].functions@.len()
    }
}

/// The number of functions in the first extensions.
pub open spec fn functions_before(extensions: Seq<Extension>, count: int) -> nat
    decreases count,
{
    if count <= 0 {
        0
    } else {
        functions_before(extensions, count - 1) + functions_in(
            extensions[count - 1].files@,
            extensions[count - 1].files@.len() as int,
        )
    }
}

/// Whether functions have been numbered.
pub open spec fn are_numbered(
    before: Seq<ExtensionFunction>,
    after: Seq<ExtensionFunction>,
    first: i32,
) -> bool {
    &&& after.len() == before.len()
    &&& forall|k: int|
        0 <= k < after.len() ==> (#[trigger] after[k]) == (ExtensionFunction {
            id: id_after(first, k as nat),
            ..before[k]
        })
}

/// Whether the functions of files have been numbered.
pub open spec fn are_files_numbered(
    before: Seq<ExtensionFile>,
    after: Seq<ExtensionFile>,
    first: i32,
) -> bool {
    &&& after.len() == before.len()
    &&& forall|k: int|
        0 <= k < after.len() ==> {
            &&& (#[trigger] after[k]) == (ExtensionFile {
                functions: after[k].functions,
                ..before[k]
            })
            &&& are_numbered(
                before[k].functions@,
                after[k].functions@,
                id_after(first, functions_in(before, k)),
            )
        }
}

/// Whether a text is white space throughout.
pub open spec fn is_white(text: Seq<char>) -> bool {
    forall|k: int| 0 <= k < text.len() ==> unicode_whitespace(#[trigger] text[k])
}

/// Whether an extension has its product number, and its functions theirs.
pub open spec fn is_finalized(
    before: Extension,
    after: Extension,
    position: int,
    first: i32,
) -> bool {
    &&& after == (Extension { product_id: after.product_id, files: after.files, ..before })
    &&& after.product_id@ == (if is_white(before.product_id@) {
        default_product(position)
    } else {
        before.product_id@
    })
    &&& are_files_numbered(before.files@, after.files@, first)
}

fn number_functions(functions: &mut Vec<ExtensionFunction>, first: i32) -> (next: i32)
    ensures
        are_numbered(old(functions)@, final(functions)@, first),
        next == id_after(first, old(functions)@.len()),
{
    let ghost before = functions@;
    let mut next = first;
    let mut index: usize = 0;
    while index < functions.len()
        invariant
            index <= functions@.len(),
            functions@.len() == before.len(),
            next == id_after(first, index as nat),
            forall|k: int|
                0 <= k < index ==> (#[trigger] functions@[k]) == (ExtensionFunction {
                    id: id_after(first, k as nat),
                    ..before[k]
                }),
            forall|k: int| index <= k < before.len() ==> (#[trigger] functions@[k]) == before[k],
        decreases functions.len() - index,
    {
        functions[index].id = next;
        next = next.wrapping_add(1);
        index += 1;
    }
    next
}

fn number_files(files: &mut Vec<ExtensionFile>, first: i32) -> (next: i32)
    ensures
        are_files_numbered(old(files)@, final(files)@, first),
        next == id_after(first, functions_in(old(files)@, old(files)@.len() as int)),
{
    let ghost before = files@;
    let mut next = first;
    let mut index: usize = 0;
    while index < files.len()
        invariant
            index <= files@.len(),
            files@.len() == before.len(),
            next == id_after(first, functions_in(before, index as int)),
            forall|k: int|
                0 <= k < index ==> {
                    &&& (#[trigger] files@[k]) == (ExtensionFile {
                        functions: files@[k].functions,
                        ..before[k]
                    })
                    &&& are_numbered(
                        before[k].functions@,
                        files@[k].functions@,
                        id_after(first, functions_in(before, k)),
                    )
                },
            forall|k: int| index <= k < before.len() ==> (#[trigger] files@[k]) == before[k],
        decreases files.len() - index,
    {
        proof {
            lemma_id_after(
                first,
                functions_in(before, index as int),
                before[index as int].functions@.len(),
            );
        }
        next = number_functions(&mut files[index].functions, next);
        index += 1;
    }
    next
}

fn finalize_extension(extension: &mut Extension, position: usize, first: i32) -> (next: i32)
    ensures
        is_finalized(*old(extension), *final(extension), position as int, first),
        next == id_after(
            first,
            functions_in(old(extension).files@, old(extension).files@.len() as int),
        ),
{
    if is_blank(extension.product_id.as_str()) {
        extension.product_id = default_extension_product_id(position);
    }
    number_files(&mut extension.files, first)
}

/// Gives the extensions that have no product number one, numbers all functions,
/// and returns the next number.
pub fn finalize_extensions(extensions: &mut Vec<Extension>) -> (next: i32)
    ensures
        final(extensions)@.len() == old(extensions)@.len(),
        forall|k: int|
            0 <= k < old(extensions)@.len() ==> is_finalized(
                old(extensions)@[k],
                #[trigger] final(extensions)@[k],
                k,
                id_after(
                    EXTENSION_FUNCTION_ID_START,
                    functions_before(old(extensions)@, k),
                ),
            ),
        next == id_after(
            EXTENSION_FUNCTION_ID_START,
            functions_before(old(extensions)@, old(extensions)@.len() as int),
        ),
{
    let ghost before = extensions@;
    let mut next = EXTENSION_FUNCTION_ID_START;
    let mut index: usize = 0;
    while index < extensions.len()
        invariant
            index <= extensions@.len(),
            extensions@.len() == before.len(),
            next == id_after(EXTENSION_FUNCTION_ID_START, functions_before(before, index as int)),
            forall|k: int|
                0 <= k < index ==> is_finalized(
                    before[k],
                    #[trigger] extensions@[k],
                    k,
                    id_after(EXTENSION_FUNCTION_ID_START, functions_before(before, k)),
                ),
            forall|k: int| index <= k < before.len() ==> (#[trigger] extensions@[k]) == before[k],
        decreases extensions.len() - index,
    {
        proof {
            lemma_id_after(
                EXTENSION_FUNCTION_ID_START,
                functions_before(before, index as int),
                functions_in(
                    before[index as int].files@,
                    before[index as int].files@.len() as int,
                ),
            );
        }
        next = finalize_extension(&mut extensions[index], index, next);
        index += 1;
    }
    next
}

/// As long as the numbers do not run out, functions have consecutive numbers.
pub proof fn law_functions_are_numbered_in_order(first: i32, count: nat)
    requires
        first + count <= i32::MAX,
    ensures
        id_after(first, count) == first + count,
    decreases count,
{
    if count > 0 {
        law_functions_are_numbered_in_order(first, (count - 1) as nat);
    }
}

/// Names with those in the first scripts.
pub open spec fn script_names(scripts: Seq<Script>, names: Set<Seq<char>>, count: int) -> Set<
    Seq<char>,
>
    decreases count,
{
    if count <= 0 {
        names
    } else {
        names_from(scripts[count - 1].code@, 0, script_names(scripts, names, count - 1))
    }
}

/// Names with those in the first steps of a timeline.
pub open spec fn entry_names(entries: Seq<TimelineEntry>, names: Set<Seq<char>>, count: int) -> Set<
    Seq<char>,
>
    decreases count,
{
    if count <= 0 {
        names
    } else {
        let actions = entries[count - 1].actions@;
        actions_names(actions, entry_names(entries, names, count - 1), actions.len() as int)
    }
}

/// Names with those in the first timelines.
pub open spec fn timeline_names(timelines: Seq<Timeline>, names: Set<Seq<char>>, count: int) -> Set<
    Seq<char>,
>
    decreases count,
{
    if count <= 0 {
        names
    } else {
        let entries = timelines[count - 1].entries@;
        entry_names(entries, timeline_names(timelines, names, count - 1), entries.len() as int)
    }
}

/// Names with those in the first events of a type.
pub open spec fn event_names(events: Seq<ObjectEvent>, names: Set<Seq<char>>, count: int) -> Set<
    Seq<char>,
>
    decreases count,
{
    if count <= 0 {
        names
    } else {
        let actions = events[count - 1].actions@;
        actions_names(actions, event_names(events, names, count - 1), actions.len() as int)
    }
}

/// Names with those in the first types of events.
pub open spec fn group_names(
    groups: Seq<Vec<ObjectEvent>>,
    names: Set<Seq<char>>,
    count: int,
) -> Set<Seq<char>>
    decreases count,
{
    if count <= 0 {
        names
    } else {
        let events = groups[count - 1]@;
        event_names(events, group_names(groups, names, count - 1), events.len() as int)
    }
}

/// Names with those in the first objects.
pub open spec fn object_names(objects: Seq<GameObject>, names: Set<Seq<char>>, count: int) -> Set<
    Seq<char>,
>
    decreases count,
{
    if count <= 0 {
        names
    } else {
        let groups = objects[count - 1].events@;
        group_names(groups, object_names(objects, names, count - 1), groups.len() as int)
    }
}

/// Names with those in the code of the first instances.
pub open spec fn instance_names(
    instances: Seq<RoomInstance>,
    names: Set<Seq<char>>,
    count: int,
) -> Set<Seq<char>>
    decreases count,
{
    if count <= 0 {
        names
    } else {
        names_from(instances[count - 1].code@, 0, instance_names(instances, names, count - 1))
    }
}

/// Names with those in the first rooms.
pub open spec fn room_names(rooms: Seq<Room>, names: Set<Seq<char>>, count: int) -> Set<Seq<char>>
    decreases count,
{
    if count <= 0 {
        names
    } else {
        let room = rooms[count - 1];
        instance_names(
            room.instances@,
            names_from(room.code@, 0, room_names(rooms, names, count - 1)),
            room.instances@.len() as int,
        )
    }
}

/// Names with a name, unless it is empty.
pub open spec fn with_name(names: Set<Seq<char>>, name: Seq<char>) -> Set<Seq<char>> {
    if name.len() == 0 {
        names
    } else {
        names.insert(name)
    }
}

/// Names with the functions that the first files call at the start and the end.
pub open spec fn hook_names(files: Seq<ExtensionFile>, names: Set<Seq<char>>, count: int) -> Set<
    Seq<char>,
>
    decreases count,
{
    if count <= 0 {
        names
    } else {
        let before = hook_names(files, names, count - 1);
        let file = files[count - 1];
        if file.enabled {
            with_name(with_name(before, file.init@), file.finalizer@)
        } else {
            before
        }
    }
}

/// Names with the functions that the first extensions call at the start and the
/// end.
pub open spec fn extension_names(
    extensions: Seq<Extension>,
    names: Set<Seq<char>>,
    count: int,
) -> Set<Seq<char>>
    decreases count,
{
    if count <= 0 {
        names
    } else {
        let before = extension_names(extensions, names, count - 1);
        let extension = extensions[count - 1];
        if extension.enabled {
            hook_names(extension.files@, before, extension.files@.len() as int)
        } else {
            before
        }
    }
}

/// The names that a project mentions, and the functions that its extensions call
/// at the start and the end.
pub open spec fn mentioned(
    extensions: Seq<Extension>,
    scripts: Seq<Script>,
    timelines: Seq<Timeline>,
    objects: Seq<GameObject>,
    rooms: Seq<Room>,
) -> Set<Seq<char>> {
    let coded = script_names(scripts, Set::empty(), scripts.len() as int);
    let timed = timeline_names(timelines, coded, timelines.len() as int);
    let placed = object_names(objects, timed, objects.len() as int);
    extension_names(
        extensions,
        room_names(rooms, placed, rooms.len() as int),
        extensions.len() as int,
    )
}

fn collect_objects(objects: &Vec<GameObject>, names: &mut NameSet)
    requires
        old(names).valid(),
    ensures
        final(names).valid(),
        final(names)@ == object_names(objects@, old(names)@, objects@.len() as int),
{
    let ghost start = names@;
    let mut index: usize = 0;
    while index < objects.len()
        invariant
            index <= objects@.len(),
            names.valid(),
            names@ == object_names(objects@, start, index as int),
        decreases objects.len() - index,
    {
        let groups = &objects[index].events;
        let ghost before = names@;
        let mut group: usize = 0;
        while group < groups.len()
            invariant
                group <= groups@.len(),
                names.valid(),
                names@ == group_names(groups@, before, group as int),
            decreases groups.len() - group,
        {
            let events = &groups[group];
            let ghost grouped = names@;
            let mut event: usize = 0;
            while event < events.len()
                invariant
                    event <= events@.len(),
                    names.valid(),
                    names@ == event_names(events@, grouped, event as int),
                decreases events.len() - event,
            {
                collect_actions(&events[event].actions, names);
                event += 1;
            }
            group += 1;
        }
        index += 1;
    }
}

fn collect_timelines(timelines: &Vec<Timeline>, names: &mut NameSet)
    requires
        old(names).valid(),
    ensures
        final(names).valid(),
        final(names)@ == timeline_names(timelines@, old(names)@, timelines@.len() as int),
{
    let ghost start = names@;
    let mut index: usize = 0;
    while index < timelines.len()
        invariant
            index <= timelines@.len(),
            names.valid(),
            names@ == timeline_names(timelines@, start, index as int),
        decreases timelines.len() - index,
    {
        let entries = &timelines[index].entries;
        let ghost before = names@;
        let mut entry: usize = 0;
        while entry < entries.len()
            invariant
                entry <= entries@.len(),
                names.valid(),
                names@ == entry_names(entries@, before, entry as int),
            decreases entries.len() - entry,
        {
            collect_actions(&entries[entry].actions, names);
            entry += 1;
        }
        index += 1;
    }
}

fn collect_rooms(rooms: &Vec<Room>, names: &mut NameSet)
    requires
        old(names).valid(),
    ensures
        final(names).valid(),
        final(names)@ == room_names(rooms@, old(names)@, rooms@.len() as int),
{
    let ghost start = names@;
    let mut index: usize = 0;
    while index < rooms.len()
        invariant
            index <= rooms@.len(),
            names.valid(),
            names@ == room_names(rooms@, start, index as int),
        decreases rooms.len() - index,
    {
        let room = &rooms[index];
        collect_gml_identifiers(room.code.as_str(), names);
        let ghost before = names@;
        let mut instance: usize = 0;
        while instance < room.instances.len()
            invariant
                instance <= room.instances@.len(),
                names.valid(),
                names@ == instance_names(room.instances@, before, instance as int),
            decreases room.instances.len() - instance,
        {
            collect_gml_identifiers(room.instances[instance].code.as_str(), names);
            instance += 1;
        }
        index += 1;
    }
}

fn insert_name(names: &mut NameSet, name: &str)
    requires
        old(names).valid(),
    ensures
        final(names).valid(),
        final(names)@ == with_name(old(names)@, name@),
{
    if !name.is_empty() {
        names.insert(name);
    }
}

fn collect_hooks(extensions: &Vec<Extension>, names: &mut NameSet)
    requires
        old(names).valid(),
    ensures
        final(names).valid(),
        final(names)@ == extension_names(extensions@, old(names)@, extensions@.len() as int),
{
    let ghost start = names@;
    let mut index: usize = 0;
    while index < extensions.len()
        invariant
            index <= extensions@.len(),
            names.valid(),
            names@ == extension_names(extensions@, start, index as int),
        decreases extensions.len() - index,
    {
        let extension = &extensions[index];
        if extension.enabled {
            let files = &extension.files;
            let ghost before = names@;
            let mut file: usize = 0;
            while file < files.len()
                invariant
                    file <= files@.len(),
                    names.valid(),
                    names@ == hook_names(files@, before, file as int),
                decreases files.len() - file,
            {
                if files[file].enabled {
                    insert_name(names, files[file].init.as_str());
                    insert_name(names, files[file].finalizer.as_str());
                }
                file += 1;
            }
        }
        index += 1;
    }
}

/// Returns the names that a project mentions, and the functions that its
/// extensions call at the start and the end.
pub fn mentioned_names(
    extensions: &Vec<Extension>,
    scripts: &Vec<Script>,
    timelines: &Vec<Timeline>,
    objects: &Vec<GameObject>,
    rooms: &Vec<Room>,
) -> (names: NameSet)
    ensures
        names.valid(),
        names@ == mentioned(extensions@, scripts@, timelines@, objects@, rooms@),
{
    let mut names = NameSet::new();
    let mut index: usize = 0;
    while index < scripts.len()
        invariant
            index <= scripts@.len(),
            names.valid(),
            names@ == script_names(scripts@, Set::empty(), index as int),
        decreases scripts.len() - index,
    {
        collect_gml_identifiers(scripts[index].code.as_str(), &mut names);
        index += 1;
    }
    collect_timelines(timelines, &mut names);
    collect_objects(objects, &mut names);
    collect_rooms(rooms, &mut names);
    collect_hooks(extensions, &mut names);
    names
}

/// A file of an extension by its place.
#[derive(Debug, Clone, Copy, PartialEq, Eq, Structural)]
pub struct FilePlace {
    pub extension: usize,
    pub file: usize,
}

/// The first files of an extension.
pub open spec fn places_in(extension: int, count: int) -> Seq<FilePlace>
    decreases count,
{
    if count <= 0 {
        seq![]
    } else {
        places_in(extension, count - 1).push(
            FilePlace { extension: extension as usize, file: (count - 1) as usize },
        )
    }
}

/// The files of the first extensions.
pub open spec fn all_places(extensions: Seq<Extension>, count: int) -> Seq<FilePlace>
    decreases count,
{
    if count <= 0 {
        seq![]
    } else {
        all_places(extensions, count - 1) + places_in(
            count - 1,
            extensions[count - 1].files@.len() as int,
        )
    }
}

/// Whether places are those of files.
pub open spec fn are_places(places: Seq<FilePlace>, extensions: Seq<Extension>) -> bool {
    forall|k: int|
        0 <= k < places.len() ==> (#[trigger] places[k]).extension < extensions.len()
            && places[k].file < extensions[places[k].extension as int].files@.len()
}

fn list_places(extensions: &Vec<Extension>) -> (places: Vec<FilePlace>)
    ensures
        places@ == all_places(extensions@, extensions@.len() as int),
        are_places(places@, extensions@),
{
    let mut places: Vec<FilePlace> = Vec::new();
    let mut index: usize = 0;
    assert(places@ =~= seq![]);
    while index < extensions.len()
        invariant
            index <= extensions@.len(),
            places@ == all_places(extensions@, index as int),
            are_places(places@, extensions@),
        decreases extensions.len() - index,
    {
        let ghost before = places@;
        let mut file: usize = 0;
        assert(places@ =~= before + places_in(index as int, 0));
        while file < extensions[index].files.len()
            invariant
                index < extensions@.len(),
                file <= extensions@[index as int].files@.len(),
                places@ == before + places_in(index as int, file as int),
                are_places(places@, extensions@),
            decreases extensions@[index as int].files@.len() - file,
        {
            places.push(FilePlace { extension: index, file });
            assert(places@ =~= before + places_in(index as int, file + 1));
            file += 1;
        }
        index += 1;
    }
    places
}

/// Which files are used, and the names that are mentioned.
pub struct Marking {
    pub used: Seq<bool>,
    pub names: Set<Seq<char>>,
}

/// Whether a file has a function that is mentioned.
pub open spec fn is_called(functions: Seq<ExtensionFunction>, names: Set<Seq<char>>) -> bool {
    exists|k: int| 0 <= k < functions.len() && names.contains((#[trigger] functions[k]).name@)
}

/// The names in a file of code.
pub open spec fn file_names(
    file: ExtensionFile,
    names: Set<Seq<char>>,
    sources: Seq<ReadFile>,
) -> Result<Set<Seq<char>>, AssetFault> {
    if file.kind == 2 {
        match read_from(sources, file.source@, 0) {
            ContentsView::Missing(message) => Err(
                AssetFault::Io { path: file.source@, message },
            ),
            ContentsView::Failed(message) => Err(AssetFault::Io { path: file.source@, message }),
            ContentsView::Data(bytes) => match file_text(file.source@, bytes) {
                Err(fault) => Err(fault),
                Ok(text) => Ok(names_from(text, 0, names)),
            },
        }
    } else {
        Ok(names)
    }
}

/// The marking with a file, which is used if one of its functions is mentioned.
/// The code of such a file mentions more names.
pub open spec fn with_place(
    extensions: Seq<Extension>,
    place: FilePlace,
    index: int,
    marking: Marking,
    sources: Seq<ReadFile>,
) -> Result<Marking, AssetFault> {
    let extension = extensions[place.extension as int];
    let file = extension.files@[place.file as int];
    if extension.enabled && file.enabled && is_called(file.functions@, marking.names)
        && !marking.used[index] {
        match file_names(file, marking.names, sources) {
            Err(fault) => Err(fault),
            Ok(names) => Ok(Marking { used: marking.used.update(index, true), names }),
        }
    } else {
        Ok(marking)
    }
}

/// The marking after a pass through the first files.
pub open spec fn passed(
    extensions: Seq<Extension>,
    places: Seq<FilePlace>,
    marking: Marking,
    sources: Seq<ReadFile>,
    count: int,
) -> Result<Marking, AssetFault>
    decreases count,
{
    if count <= 0 {
        Ok(marking)
    } else {
        match passed(extensions, places, marking, sources, count - 1) {
            Err(fault) => Err(fault),
            Ok(before) => with_place(extensions, places[count - 1], count - 1, before, sources),
        }
    }
}

/// The marks after a pass through the first files. A file whose code cannot be read
/// is marked, and none behind it.
pub open spec fn pass_marks(
    extensions: Seq<Extension>,
    places: Seq<FilePlace>,
    marking: Marking,
    sources: Seq<ReadFile>,
    count: int,
) -> Seq<bool>
    decreases count,
{
    if count <= 0 {
        marking.used
    } else {
        match passed(extensions, places, marking, sources, count - 1) {
            Err(_) => pass_marks(extensions, places, marking, sources, count - 1),
            Ok(before) => {
                let place = places[count - 1];
                let extension = extensions[place.extension as int];
                let file = extension.files@[place.file as int];
                if extension.enabled && file.enabled && is_called(file.functions@, before.names) {
                    before.used.update(count - 1, true)
                } else {
                    before.used
                }
            },
        }
    }
}

/// The number of files that are not used.
pub open spec fn unused(used: Seq<bool>) -> nat
    decreases used.len(),
{
    if used.len() == 0 {
        0
    } else {
        unused(used.drop_last()) + (if used.last() {
            0nat
        } else {
            1nat
        })
    }
}

/// Whether all files that are used in one marking are used in another.
pub open spec fn grows(before: Seq<bool>, after: Seq<bool>) -> bool {
    &&& before.len() == after.len()
    &&& forall|k: int| 0 <= k < before.len() && before[k] ==> #[trigger] after[k]
}

proof fn lemma_unused(before: Seq<bool>, after: Seq<bool>)
    requires
        grows(before, after),
    ensures
        unused(after) <= unused(before),
        before != after ==> unused(after) < unused(before),
    decreases before.len(),
{
    if before.len() > 0 {
        lemma_unused(before.drop_last(), after.drop_last());
        if before.drop_last() == after.drop_last() && before.last() == after.last() {
            assert(before =~= before.drop_last().push(before.last()));
            assert(after =~= after.drop_last().push(after.last()));
        }
    } else {
        assert(before =~= after);
    }
}

proof fn lemma_passed_grows(
    extensions: Seq<Extension>,
    places: Seq<FilePlace>,
    marking: Marking,
    sources: Seq<ReadFile>,
    count: int,
)
    requires
        count <= marking.used.len(),
    ensures
        passed(extensions, places, marking, sources, count) matches Ok(after) ==> grows(
            marking.used,
            after.used,
        ),
    decreases count,
{
    if count > 0 {
        lemma_passed_grows(extensions, places, marking, sources, count - 1);
    }
}

/// The marking after passes until no file is added.
pub open spec fn settled(
    extensions: Seq<Extension>,
    places: Seq<FilePlace>,
    marking: Marking,
    sources: Seq<ReadFile>,
) -> Result<Marking, AssetFault>
    decreases unused(marking.used),
    when marking.used.len() == places.len()
    via settled_decreases
{
    match passed(extensions, places, marking, sources, places.len() as int) {
        Err(fault) => Err(fault),
        Ok(after) => if after.used == marking.used {
            Ok(after)
        } else {
            settled(extensions, places, after, sources)
        },
    }
}

#[via_fn]
proof fn settled_decreases(
    extensions: Seq<Extension>,
    places: Seq<FilePlace>,
    marking: Marking,
    sources: Seq<ReadFile>,
) {
    lemma_passed_grows(extensions, places, marking, sources, places.len() as int);
    match passed(extensions, places, marking, sources, places.len() as int) {
        Err(fault) => {},
        Ok(after) => {
            lemma_unused(marking.used, after.used);
        },
    }
}

/// The marks after passes until no file is added, or until the code of a file
/// cannot be read.
pub open spec fn settled_marks(
    extensions: Seq<Extension>,
    places: Seq<FilePlace>,
    marking: Marking,
    sources: Seq<ReadFile>,
) -> Seq<bool>
    decreases unused(marking.used),
    when marking.used.len() == places.len()
    via settled_marks_decreases
{
    match passed(extensions, places, marking, sources, places.len() as int) {
        Err(_) => pass_marks(extensions, places, marking, sources, places.len() as int),
        Ok(after) => if after.used == marking.used {
            after.used
        } else {
            settled_marks(extensions, places, after, sources)
        },
    }
}

#[via_fn]
proof fn settled_marks_decreases(
    extensions: Seq<Extension>,
    places: Seq<FilePlace>,
    marking: Marking,
    sources: Seq<ReadFile>,
) {
    lemma_passed_grows(extensions, places, marking, sources, places.len() as int);
    if let Ok(after) = passed(extensions, places, marking, sources, places.len() as int) {
        lemma_unused(marking.used, after.used);
    }
}

/// Where nothing goes wrong, the marks are those of the files that are used.
pub proof fn lemma_settled_marks(
    extensions: Seq<Extension>,
    places: Seq<FilePlace>,
    marking: Marking,
    sources: Seq<ReadFile>,
)
    requires
        marking.used.len() == places.len(),
    ensures
        settled(extensions, places, marking, sources) matches Ok(after) ==> settled_marks(
            extensions,
            places,
            marking,
            sources,
        ) == after.used,
    decreases unused(marking.used),
{
    if let Ok(after) = passed(extensions, places, marking, sources, places.len() as int) {
        lemma_passed_grows(extensions, places, marking, sources, places.len() as int);
        lemma_unused(marking.used, after.used);
        if after.used != marking.used {
            lemma_settled_marks(extensions, places, after, sources);
        }
    }
}

fn calls(functions: &Vec<ExtensionFunction>, names: &NameSet) -> (result: bool)
    ensures
        result == is_called(functions@, names@),
{
    let mut index: usize = 0;
    while index < functions.len()
        invariant
            index <= functions@.len(),
            forall|k: int|
                0 <= k < index ==> !names@.contains((#[trigger] functions@[k]).name@),
        decreases functions.len() - index,
    {
        if names.contains(functions[index].name.as_str()) {
            return true;
        }
        index += 1;
    }
    false
}

fn collect_file(file: &ExtensionFile, names: &mut NameSet, sources: &Vec<ReadFile>) -> (result:
    Result<(), AssetError>)
    requires
        old(names).valid(),
    ensures
        final(names).valid(),
        match result {
            Ok(()) => file_names(*file, old(names)@, sources@) == Ok::<
                Set<Seq<char>>,
                AssetFault,
            >(final(names)@),
            Err(error) => file_names(*file, old(names)@, sources@) == Err::<
                Set<Seq<char>>,
                AssetFault,
            >(error@),
        },
{
    if file.kind != 2 {
        return Ok(());
    }
    match read_source(sources, file.source.as_str()) {
        FileContents::Missing(message) => Err(
            AssetError::Io { path: file.source.clone(), message },
        ),
        FileContents::Failed(message) => Err(
            AssetError::Io { path: file.source.clone(), message },
        ),
        FileContents::Data(bytes) => match decode_text(
            file.source.as_str(),
            bytes.as_slice(),
        ) {
            Err(error) => Err(error),
            Ok(text) => {
                collect_gml_identifiers(text.as_str(), names);
                Ok(())
            },
        },
    }
}

proof fn lemma_pass_fault_stays(
    extensions: Seq<Extension>,
    places: Seq<FilePlace>,
    marking: Marking,
    sources: Seq<ReadFile>,
    count: int,
    end: int,
)
    requires
        0 <= count <= end,
        passed(extensions, places, marking, sources, count) is Err,
    ensures
        passed(extensions, places, marking, sources, end) == passed(
            extensions,
            places,
            marking,
            sources,
            count,
        ),
        pass_marks(extensions, places, marking, sources, end) == pass_marks(
            extensions,
            places,
            marking,
            sources,
            count,
        ),
    decreases end - count,
{
    if count < end {
        lemma_pass_fault_stays(extensions, places, marking, sources, count, end - 1);
    }
}

#[verifier::spinoff_prover]
fn pass_files(
    extensions: &Vec<Extension>,
    places: &Vec<FilePlace>,
    used: &mut Vec<bool>,
    names: &mut NameSet,
    sources: &Vec<ReadFile>,
) -> (result: Result<bool, AssetError>)
    requires
        are_places(places@, extensions@),
        old(used)@.len() == places@.len(),
        old(names).valid(),
    ensures
        final(names).valid(),
        final(used)@.len() == places@.len(),
        ({
            let expected = passed(
                extensions@,
                places@,
                Marking { used: old(used)@, names: old(names)@ },
                sources@,
                places@.len() as int,
            );
            match result {
                Ok(changed) => expected == Ok::<Marking, AssetFault>(
                    Marking { used: final(used)@, names: final(names)@ },
                ) && changed == (final(used)@ != old(used)@),
                Err(error) => expected == Err::<Marking, AssetFault>(error@) && final(used)@
                    == pass_marks(
                    extensions@,
                    places@,
                    Marking { used: old(used)@, names: old(names)@ },
                    sources@,
                    places@.len() as int,
                ),
            }
        }),
{
    let ghost start = Marking { used: used@, names: names@ };
    let mut changed = false;
    let mut index: usize = 0;
    while index < places.len()
        invariant
            index <= places@.len(),
            are_places(places@, extensions@),
            used@.len() == places@.len(),
            start == (Marking { used: old(used)@, names: old(names)@ }),
            start.used.len() == places@.len(),
            names.valid(),
            passed(extensions@, places@, start, sources@, index as int) == Ok::<
                Marking,
                AssetFault,
            >(Marking { used: used@, names: names@ }),
            grows(start.used, used@),
            changed == (used@ != start.used),
        decreases places.len() - index,
    {
        let place = places[index];
        let extension = &extensions[place.extension];
        let file = &extension.files[place.file];
        if extension.enabled && file.enabled && calls(&file.functions, names) && !used[index] {
            used.set(index, true);
            if let Err(error) = collect_file(file, names, sources) {
                proof {
                    lemma_pass_fault_stays(
                        extensions@,
                        places@,
                        start,
                        sources@,
                        index + 1,
                        places@.len() as int,
                    );
                }
                return Err(error);
            }
            assert(!start.used[index as int]);
            assert(used@[index as int] != start.used[index as int]);
            changed = true;
        }
        index += 1;
    }
    Ok(changed)
}

/// The files that are marked as used already.
pub open spec fn marked_files(extensions: Seq<Extension>, places: Seq<FilePlace>) -> Seq<bool> {
    places.map_values(
        |place: FilePlace| extensions[place.extension as int].files@[place.file as int].used,
    )
}

fn settle(
    extensions: &Vec<Extension>,
    places: &Vec<FilePlace>,
    mentioned: NameSet,
    sources: &Vec<ReadFile>,
) -> (outcome: (Vec<bool>, Result<(), AssetError>))
    requires
        are_places(places@, extensions@),
        mentioned.valid(),
    ensures
        outcome.0@.len() == places@.len(),
        ({
            let marking = Marking { used: marked_files(extensions@, places@), names: mentioned@ };
            &&& outcome.0@ == settled_marks(extensions@, places@, marking, sources@)
            &&& match (
                outcome.1,
                settled(extensions@, places@, marking, sources@),
            ) {
                (Ok(()), Ok(_)) => true,
                (Err(error), Err(fault)) => error@ == fault,
                _ => false,
            }
        }),
{
    let ghost start = Marking { used: marked_files(extensions@, places@), names: mentioned@ };
    let mut used: Vec<bool> = Vec::new();
    let mut index: usize = 0;
    while index < places.len()
        invariant
            index <= places@.len(),
            are_places(places@, extensions@),
            used@.len() == index,
            forall|k: int|
                0 <= k < index ==> (#[trigger] used@[k]) == marked_files(
                    extensions@,
                    places@,
                )[k],
        decreases places.len() - index,
    {
        let place = places[index];
        used.push(extensions[place.extension].files[place.file].used);
        index += 1;
    }
    assert(used@ =~= start.used);
    let mut names = mentioned;
    let mut changed = true;
    while changed
        invariant
            start == (Marking { used: marked_files(extensions@, places@), names: mentioned@ }),
            are_places(places@, extensions@),
            used@.len() == places@.len(),
            names.valid(),
            changed ==> settled(extensions@, places@, start, sources@) == settled(
                extensions@,
                places@,
                Marking { used: used@, names: names@ },
                sources@,
            ),
            changed ==> settled_marks(extensions@, places@, start, sources@) == settled_marks(
                extensions@,
                places@,
                Marking { used: used@, names: names@ },
                sources@,
            ),
            !changed ==> settled(extensions@, places@, start, sources@) == Ok::<
                Marking,
                AssetFault,
            >(Marking { used: used@, names: names@ }),
            !changed ==> settled_marks(extensions@, places@, start, sources@) == used@,
        decreases unused(used@), changed as int,
    {
        let ghost before = Marking { used: used@, names: names@ };
        match pass_files(extensions, places, &mut used, &mut names, sources) {
            Err(error) => {
                return (used, Err(error));
            },
            Ok(more) => {
                proof {
                    lemma_passed_grows(
                        extensions@,
                        places@,
                        before,
                        sources@,
                        places@.len() as int,
                    );
                    lemma_unused(before.used, used@);
                }
                changed = more;
            },
        }
    }
    (used, Ok(()))
}

/// The files that a project uses: those with a function that is mentioned in the
/// project, or in the code of a file that is used.
pub open spec fn used_places(
    extensions: Seq<Extension>,
    names: Set<Seq<char>>,
    sources: Seq<ReadFile>,
) -> Result<Marking, AssetFault> {
    let places = all_places(extensions, extensions.len() as int);
    settled(
        extensions,
        places,
        Marking { used: marked_files(extensions, places), names },
        sources,
    )
}

/// The marks of the files of extensions: those of the files that a project uses, or
/// those up to a file whose code cannot be read.
pub open spec fn marked_places(
    extensions: Seq<Extension>,
    names: Set<Seq<char>>,
    sources: Seq<ReadFile>,
) -> Seq<bool> {
    let places = all_places(extensions, extensions.len() as int);
    settled_marks(
        extensions,
        places,
        Marking { used: marked_files(extensions, places), names },
        sources,
    )
}

/// Whether a place names a file of an extension that was not used and now is.
pub open spec fn newly_used(
    before: Seq<Extension>,
    place: FilePlace,
    used: bool,
    extension: int,
) -> bool {
    place.extension == extension && used && !before[extension].files@[place.file as int].used
}

/// Whether extensions differ only in which files are used: those that one of
/// the first places with a mark names. An extension with a file that was not used
/// before is used too.
pub open spec fn are_marked(
    before: Seq<Extension>,
    after: Seq<Extension>,
    places: Seq<FilePlace>,
    used: Seq<bool>,
    count: int,
) -> bool {
    &&& after.len() == before.len()
    &&& forall|e: int|
        0 <= e < before.len() ==> {
            &&& (#[trigger] after[e]) == (Extension {
                used: after[e].used,
                files: after[e].files,
                ..before[e]
            })
            &&& after[e].files@.len() == before[e].files@.len()
            &&& after[e].used == (before[e].used || exists|k: int|
                0 <= k < count && newly_used(before, #[trigger] places[k], used[k], e))
            &&& forall|f: int|
                0 <= f < before[e].files@.len() ==> (#[trigger] after[e].files@[f]) == (
                ExtensionFile {
                    used: before[e].files@[f].used || exists|k: int|
                        0 <= k < count && (#[trigger] places[k]).extension == e && places[k].file
                            == f && used[k],
                    ..before[e].files@[f]
                })
        }
}

fn mark_file(extension: &mut Extension, file: usize)
    requires
        file < old(extension).files@.len(),
    ensures
        *final(extension) == (Extension {
            used: old(extension).used || !old(extension).files@[file as int].used,
            files: final(extension).files,
            ..*old(extension)
        }),
        final(extension).files@ == old(extension).files@.update(
            file as int,
            ExtensionFile { used: true, ..old(extension).files@[file as int] },
        ),
{
    if !extension.files[file].used {
        extension.used = true;
        extension.files[file].used = true;
    }
    assert(extension.files@ =~= old(extension).files@.update(
        file as int,
        ExtensionFile { used: true, ..old(extension).files@[file as int] },
    ));
}

/// Marks the files of extensions that a project uses, and the extensions of those
/// that were not marked yet.
#[verifier::spinoff_prover]
pub fn mark_used_extensions(
    extensions: &mut Vec<Extension>,
    scripts: &Vec<Script>,
    timelines: &Vec<Timeline>,
    objects: &Vec<GameObject>,
    rooms: &Vec<Room>,
    sources: &Vec<ReadFile>,
) -> (result: Result<(), AssetError>)
    ensures
        ({
            let before = old(extensions)@;
            let places = all_places(before, before.len() as int);
            let names = mentioned(before, scripts@, timelines@, objects@, rooms@);
            &&& are_marked(
                before,
                final(extensions)@,
                places,
                marked_places(before, names, sources@),
                places.len() as int,
            )
            &&& match (result, used_places(before, names, sources@)) {
                (Ok(()), Ok(marking)) => marking.used == marked_places(before, names, sources@),
                (Err(error), Err(fault)) => error@ == fault,
                _ => false,
            }
        }),
{
    let ghost before = extensions@;
    let names = mentioned_names(extensions, scripts, timelines, objects, rooms);
    let places = list_places(extensions);
    proof {
        lemma_settled_marks(
            before,
            places@,
            Marking { used: marked_files(before, places@), names: names@ },
            sources@,
        );
    }
    let (used, result) = settle(extensions, &places, names, sources);
    let mut index: usize = 0;
    while index < places.len()
        invariant
            index <= places@.len(),
            are_places(places@, before),
            used@.len() == places@.len(),
            extensions@.len() == before.len(),
            are_marked(before, extensions@, places@, used@, index as int),
        decreases places.len() - index,
    {
        let ghost earlier = extensions@;
        let place = places[index];
        if used[index] {
            mark_file(&mut extensions[place.extension], place.file);
        }
        proof {
            lemma_marked_step(before, earlier, extensions@, places@, used@, index as int);
        }
        index += 1;
    }
    result
}

proof fn lemma_marked_step(
    before: Seq<Extension>,
    earlier: Seq<Extension>,
    after: Seq<Extension>,
    places: Seq<FilePlace>,
    used: Seq<bool>,
    index: int,
)
    requires
        0 <= index < places.len(),
        used.len() == places.len(),
        are_places(places, before),
        are_marked(before, earlier, places, used, index),
        after.len() == before.len(),
        ({
            let e = places[index].extension as int;
            let f = places[index].file as int;
            if used[index] {
                &&& after == earlier.update(e, after[e])
                &&& after[e] == (Extension {
                    used: earlier[e].used || !earlier[e].files@[f].used,
                    files: after[e].files,
                    ..earlier[e]
                })
                &&& after[e].files@ == earlier[e].files@.update(
                    f,
                    ExtensionFile { used: true, ..earlier[e].files@[f] },
                )
            } else {
                after == earlier
            }
        }),
    ensures
        are_marked(before, after, places, used, index + 1),
{
    let at = places[index];
    assert forall|e: int| 0 <= e < before.len() implies {
        &&& (#[trigger] after[e]) == (Extension {
            used: after[e].used,
            files: after[e].files,
            ..before[e]
        })
        &&& after[e].files@.len() == before[e].files@.len()
        &&& after[e].used == (before[e].used || exists|k: int|
            0 <= k < index + 1 && newly_used(before, #[trigger] places[k], used[k], e))
        &&& forall|f: int|
            0 <= f < before[e].files@.len() ==> (#[trigger] after[e].files@[f]) == (ExtensionFile {
                used: before[e].files@[f].used || exists|k: int|
                    0 <= k < index + 1 && (#[trigger] places[k]).extension == e && places[k].file
                        == f && used[k],
                ..before[e].files@[f]
            })
    } by {
        let one = earlier[e];
        let old_mark = exists|k: int|
            0 <= k < index && newly_used(before, #[trigger] places[k], used[k], e);
        let new_mark = exists|k: int|
            0 <= k < index + 1 && newly_used(before, #[trigger] places[k], used[k], e);
        assert(new_mark == (old_mark || newly_used(before, at, used[index], e))) by {
            if old_mark {
                let k = choose|k: int|
                    0 <= k < index && newly_used(before, #[trigger] places[k], used[k], e);
                assert(newly_used(before, places[k], used[k], e));
            }
            if newly_used(before, at, used[index], e) {
                assert(newly_used(before, places[index], used[index], e));
            }
        }
        if at.extension == e && used[index] {
            let file = at.file as int;
            assert(one.files@[file] == (ExtensionFile {
                used: one.files@[file].used,
                ..before[e].files@[file]
            }));
            if one.files@[file].used && !before[e].files@[file].used {
                let k = choose|k: int|
                    0 <= k < index && (#[trigger] places[k]).extension == e && places[k].file
                        == file && used[k];
                assert(newly_used(before, places[k], used[k], e));
            }
        }
        assert forall|f: int| 0 <= f < before[e].files@.len() implies (
        #[trigger] after[e].files@[f]) == (ExtensionFile {
            used: before[e].files@[f].used || exists|k: int|
                0 <= k < index + 1 && (#[trigger] places[k]).extension == e && places[k].file == f
                    && used[k],
            ..before[e].files@[f]
        }) by {
            let file = one.files@[f];
            let was = exists|k: int|
                0 <= k < index && (#[trigger] places[k]).extension == e && places[k].file == f
                    && used[k];
            let is = exists|k: int|
                0 <= k < index + 1 && (#[trigger] places[k]).extension == e && places[k].file == f
                    && used[k];
            assert(is == (was || (at.extension == e && at.file == f && used[index]))) by {
                if was {
                    let k = choose|k: int|
                        0 <= k < index && (#[trigger] places[k]).extension == e && places[k].file
                            == f && used[k];
                    assert(places[k].extension == e);
                }
                if at.extension == e && at.file == f && used[index] {
                    assert(places[index].extension == e);
                }
            }
        }
    }
}

proof fn lemma_unchanged(
    extensions: Seq<Extension>,
    places: Seq<FilePlace>,
    marking: Marking,
    sources: Seq<ReadFile>,
    count: int,
)
    requires
        0 <= count <= marking.used.len(),
        passed(extensions, places, marking, sources, count) is Ok,
        passed(extensions, places, marking, sources, count)->Ok_0.used == marking.used,
    ensures
        passed(extensions, places, marking, sources, count)->Ok_0 == marking,
        forall|k: int|
            0 <= k < count ==> is_settled(extensions, #[trigger] places[k], k, marking),
    decreases count,
{
    if count > 0 {
        let before = passed(extensions, places, marking, sources, count - 1)->Ok_0;
        let after = passed(extensions, places, marking, sources, count)->Ok_0;
        lemma_passed_grows(extensions, places, marking, sources, count - 1);
        assert(grows(before.used, after.used));
        assert(before.used =~= marking.used);
        lemma_unchanged(extensions, places, marking, sources, count - 1);
        assert(after.used[count - 1] == before.used[count - 1]);
    }
}

/// Whether a file is used if it is enabled and one of its functions is mentioned.
pub open spec fn is_settled(
    extensions: Seq<Extension>,
    place: FilePlace,
    index: int,
    marking: Marking,
) -> bool {
    let extension = extensions[place.extension as int];
    let file = extension.files@[place.file as int];
    extension.enabled && file.enabled && is_called(file.functions@, marking.names)
        ==> marking.used[index]
}

/// Of the files of extensions, all that are called from what is used are used in
/// the end: another pass would add nothing.
pub proof fn law_all_called_files_are_used(
    extensions: Seq<Extension>,
    places: Seq<FilePlace>,
    marking: Marking,
    sources: Seq<ReadFile>,
)
    requires
        marking.used.len() == places.len(),
        settled(extensions, places, marking, sources) is Ok,
    ensures
        ({
            let result = settled(extensions, places, marking, sources)->Ok_0;
            &&& grows(marking.used, result.used)
            &&& forall|k: int|
                0 <= k < places.len() ==> is_settled(extensions, #[trigger] places[k], k, result)
        }),
    decreases unused(marking.used),
{
    let after = passed(extensions, places, marking, sources, places.len() as int)->Ok_0;
    lemma_passed_grows(extensions, places, marking, sources, places.len() as int);
    lemma_unused(marking.used, after.used);
    if after.used == marking.used {
        lemma_unchanged(extensions, places, marking, sources, places.len() as int);
    } else {
        law_all_called_files_are_used(extensions, places, after, sources);
    }
}

} // verus!
