//! References by name: the index of named resources, and the resources that
//! objects, timelines and rooms refer to.

use vstd::prelude::*;

use crate::assets::{AssetError, AssetFault, Shader};
use crate::extensions::{id_after, lemma_id_after};
use crate::resources::{
    Action, Background, Extension, Font, GameObject, GamePath, ObjectEvent, Physics,
    PhysicsShapePoint, Room, RoomBackground, RoomInstance, RoomTile, RoomView, Script, Sound,
    Sprite, Timeline, TimelineEntry, OBJECT_UNDEFINED, ROOM_INSTANCE_ID_START, ROOM_TILE_ID_START,
};
use crate::text::same_text;

verus! {

/// A resource with a name and the file that it is from.
pub trait Named {
    /// The name.
    spec fn named(&self) -> Seq<char>;

    /// The path of the file.
    spec fn origin(&self) -> Seq<char>;

    /// Returns the name.
    fn name(&self) -> (name: &str)
        ensures
            name@ == self.named(),
    ;

    /// Returns the path of the file.
    fn source(&self) -> (source: &str)
        ensures
            source@ == self.origin(),
    ;
}

impl Named for Sound {
    open spec fn named(&self) -> Seq<char> {
        self.name@
    }

    open spec fn origin(&self) -> Seq<char> {
        self.source@
    }

    fn name(&self) -> (name: &str) {
        self.name.as_str()
    }

    fn source(&self) -> (source: &str) {
        self.source.as_str()
    }
}

impl Named for Sprite {
    open spec fn named(&self) -> Seq<char> {
        self.name@
    }

    open spec fn origin(&self) -> Seq<char> {
        self.source@
    }

    fn name(&self) -> (name: &str) {
        self.name.as_str()
    }

    fn source(&self) -> (source: &str) {
        self.source.as_str()
    }
}

impl Named for Background {
    open spec fn named(&self) -> Seq<char> {
        self.name@
    }

    open spec fn origin(&self) -> Seq<char> {
        self.source@
    }

    fn name(&self) -> (name: &str) {
        self.name.as_str()
    }

    fn source(&self) -> (source: &str) {
        self.source.as_str()
    }
}

impl Named for GamePath {
    open spec fn named(&self) -> Seq<char> {
        self.name@
    }

    open spec fn origin(&self) -> Seq<char> {
        self.source@
    }

    fn name(&self) -> (name: &str) {
        self.name.as_str()
    }

    fn source(&self) -> (source: &str) {
        self.source.as_str()
    }
}

impl Named for Script {
    open spec fn named(&self) -> Seq<char> {
        self.name@
    }

    open spec fn origin(&self) -> Seq<char> {
        self.source@
    }

    fn name(&self) -> (name: &str) {
        self.name.as_str()
    }

    fn source(&self) -> (source: &str) {
        self.source.as_str()
    }
}

impl Named for Shader {
    open spec fn named(&self) -> Seq<char> {
        self.name@
    }

    open spec fn origin(&self) -> Seq<char> {
        self.source@
    }

    fn name(&self) -> (name: &str) {
        self.name.as_str()
    }

    fn source(&self) -> (source: &str) {
        self.source.as_str()
    }
}

impl Named for Font {
    open spec fn named(&self) -> Seq<char> {
        self.name@
    }

    open spec fn origin(&self) -> Seq<char> {
        self.source@
    }

    fn name(&self) -> (name: &str) {
        self.name.as_str()
    }

    fn source(&self) -> (source: &str) {
        self.source.as_str()
    }
}

impl Named for Timeline {
    open spec fn named(&self) -> Seq<char> {
        self.name@
    }

    open spec fn origin(&self) -> Seq<char> {
        self.source@
    }

    fn name(&self) -> (name: &str) {
        self.name.as_str()
    }

    fn source(&self) -> (source: &str) {
        self.source.as_str()
    }
}

impl Named for GameObject {
    open spec fn named(&self) -> Seq<char> {
        self.name@
    }

    open spec fn origin(&self) -> Seq<char> {
        self.source@
    }

    fn name(&self) -> (name: &str) {
        self.name.as_str()
    }

    fn source(&self) -> (source: &str) {
        self.source.as_str()
    }
}

impl Named for Room {
    open spec fn named(&self) -> Seq<char> {
        self.name@
    }

    open spec fn origin(&self) -> Seq<char> {
        self.source@
    }

    fn name(&self) -> (name: &str) {
        self.name.as_str()
    }

    fn source(&self) -> (source: &str) {
        self.source.as_str()
    }
}

impl Named for Extension {
    open spec fn named(&self) -> Seq<char> {
        self.name@
    }

    open spec fn origin(&self) -> Seq<char> {
        self.source@
    }

    fn name(&self) -> (name: &str) {
        self.name.as_str()
    }

    fn source(&self) -> (source: &str) {
        self.source.as_str()
    }
}

/// The first resource with a name, from an index on.
pub open spec fn named_from<T: Named>(items: Seq<T>, name: Seq<char>, index: int) -> Option<T>
    decreases items.len() - index,
{
    if index < 0 || index >= items.len() {
        None
    } else if items[index].named() == name {
        Some(items[index])
    } else {
        named_from(items, name, index + 1)
    }
}

/// Returns the first resource with a name.
pub fn find_named<'a, T: Named>(items: &'a Vec<T>, name: &str) -> (found: Option<&'a T>)
    ensures
        match found {
            Some(found) => named_from(items@, name@, 0) == Some(*found),
            None => named_from(items@, name@, 0) is None,
        },
{
    let mut index: usize = 0;
    while index < items.len()
        invariant
            index <= items@.len(),
            named_from(items@, name@, 0) == named_from(items@, name@, index as int),
        decreases items.len() - index,
    {
        if same_text(items[index].name(), name) {
            return Some(&items[index]);
        }
        index += 1;
    }
    None
}

/// A name and the position that it stands for.
#[derive(Debug, Clone, PartialEq, Eq)]
pub struct NameEntry {
    pub name: String,
    pub index: usize,
}

/// The positions that names stand for.
#[derive(Debug)]
pub struct NameIndex {
    entries: Vec<NameEntry>,
}

/// What the first entries say. Later entries replace earlier ones.
pub open spec fn entries_map(entries: Seq<NameEntry>, count: int) -> Map<Seq<char>, usize>
    decreases count,
{
    if count <= 0 {
        Map::empty()
    } else {
        entries_map(entries, count - 1).insert(entries[count - 1].name@, entries[count - 1].index)
    }
}

proof fn lemma_entries(one: Seq<NameEntry>, two: Seq<NameEntry>, count: int)
    requires
        count <= one.len(),
        count <= two.len(),
        forall|k: int| 0 <= k < count ==> one[k] == two[k],
    ensures
        entries_map(one, count) == entries_map(two, count),
    decreases count,
{
    if count > 0 {
        lemma_entries(one, two, count - 1);
    }
}

impl View for NameIndex {
    type V = Map<Seq<char>, usize>;

    closed spec fn view(&self) -> Map<Seq<char>, usize> {
        entries_map(self.entries@, self.entries@.len() as int)
    }
}

/// What a map says of a name.
pub open spec fn indexed(index: Map<Seq<char>, usize>, name: Seq<char>) -> Option<usize> {
    if index.contains_key(name) {
        Some(index[name])
    } else {
        None
    }
}

impl NameIndex {
    /// Returns an index without names.
    pub fn new() -> (index: Self)
        ensures
            index@ == Map::<Seq<char>, usize>::empty(),
    {
        NameIndex { entries: Vec::new() }
    }

    /// Returns the position that a name stands for.
    pub fn get(&self, name: &str) -> (found: Option<usize>)
        ensures
            found == indexed(self@, name@),
    {
        let mut count: usize = self.entries.len();
        while count > 0
            invariant
                count <= self.entries@.len(),
                indexed(self@, name@) == indexed(
                    entries_map(self.entries@, count as int),
                    name@,
                ),
            decreases count,
        {
            if same_text(self.entries[count - 1].name.as_str(), name) {
                return Some(self.entries[count - 1].index);
            }
            count -= 1;
        }
        None
    }

    /// Lets a name stand for a position, and returns the one that it stood for.
    pub fn insert(&mut self, name: &str, index: usize) -> (previous: Option<usize>)
        ensures
            previous == indexed(old(self)@, name@),
            final(self)@ == old(self)@.insert(name@, index),
    {
        let previous = self.get(name);
        let ghost before = self.entries@;
        self.entries.push(NameEntry { name: name.to_owned(), index });
        proof {
            lemma_entries(before, self.entries@, before.len() as int);
        }
        previous
    }
}

/// The positions of the first resources by their names, or the fault of two with
/// one name.
pub open spec fn index_of<T: Named>(resources: Seq<T>, kind: Seq<char>, count: int) -> Result<
    Map<Seq<char>, usize>,
    AssetFault,
>
    decreases count,
{
    if count <= 0 {
        Ok(Map::empty())
    } else {
        match index_of(resources, kind, count - 1) {
            Err(fault) => Err(fault),
            Ok(before) => {
                let name = resources[count - 1].named();
                if before.contains_key(name) {
                    Err(
                        AssetFault::DuplicateName {
                            kind,
                            name,
                            first: resources[before[name] as int].origin(),
                            second: resources[count - 1].origin(),
                        },
                    )
                } else {
                    Ok(before.insert(name, (count - 1) as usize))
                }
            },
        }
    }
}

proof fn lemma_index_fault_stays<T: Named>(
    resources: Seq<T>,
    kind: Seq<char>,
    count: int,
    end: int,
)
    requires
        0 <= count <= end,
        index_of(resources, kind, count) is Err,
    ensures
        index_of(resources, kind, end) == index_of(resources, kind, count),
    decreases end - count,
{
    if count < end {
        lemma_index_fault_stays(resources, kind, count, end - 1);
    }
}

/// Whether an index gives positions below a limit.
pub open spec fn is_index(index: Map<Seq<char>, usize>, limit: nat) -> bool {
    forall|name: Seq<char>| index.contains_key(name) ==> (#[trigger] index[name]) < limit
}

/// An index of resources gives each name the position of the resource that has
/// it, and each resource has a name of its own.
pub proof fn law_index_finds_each_resource<T: Named>(resources: Seq<T>, kind: Seq<char>, count: int)
    requires
        0 <= count <= resources.len() <= usize::MAX,
        index_of(resources, kind, count) is Ok,
    ensures
        ({
            let index = index_of(resources, kind, count)->Ok_0;
            &&& forall|name: Seq<char>| #[trigger]
                index.contains_key(name) ==> index[name] < count
                    && resources[index[name] as int].named() == name
            &&& forall|k: int|
                0 <= k < count ==> index.contains_key((#[trigger] resources[k]).named())
                    && index[resources[k].named()] == k
        }),
    decreases count,
{
    if count > 0 {
        law_index_finds_each_resource(resources, kind, count - 1);
    }
}

/// Returns the positions of resources by their names, which must differ.
pub fn make_index<T: Named>(resources: &Vec<T>, kind: &str) -> (result: Result<
    NameIndex,
    AssetError,
>)
    ensures
        match (result, index_of(resources@, kind@, resources@.len() as int)) {
            (Ok(index), Ok(expected)) => index@ == expected && is_index(
                index@,
                resources@.len(),
            ),
            (Err(error), Err(fault)) => error@ == fault,
            _ => false,
        },
{
    let mut index = NameIndex::new();
    let mut position: usize = 0;
    while position < resources.len()
        invariant
            position <= resources@.len(),
            index_of(resources@, kind@, position as int) == Ok::<
                Map<Seq<char>, usize>,
                AssetFault,
            >(index@),
            is_index(index@, position as nat),
        decreases resources.len() - position,
    {
        let resource = &resources[position];
        let ghost before = index@;
        if let Some(previous) = index.insert(resource.name(), position) {
            proof {
                assert(before.contains_key(resource.named()));
                assert(before[resource.named()] < position);
                lemma_index_fault_stays(
                    resources@,
                    kind@,
                    position + 1,
                    resources@.len() as int,
                );
            }
            return Err(
                AssetError::DuplicateName {
                    kind: kind.to_owned(),
                    name: resource.name().to_owned(),
                    first: resources[previous].source().to_owned(),
                    second: resource.source().to_owned(),
                },
            );
        }
        position += 1;
    }
    Ok(index)
}

/// What a reference stands for that may name nothing.
pub open spec fn index_reference(
    owner_kind: Seq<char>,
    owner: Seq<char>,
    field: Seq<char>,
    target: Seq<char>,
    index: Map<Seq<char>, usize>,
) -> Result<i32, AssetFault> {
    if target.len() == 0 || target == "<undefined>"@ {
        Ok(-1i32)
    } else if index.contains_key(target) {
        Ok(index[target] as i32)
    } else {
        Err(AssetFault::UnknownReference { owner_kind, owner, field, target })
    }
}

fn unknown(owner_kind: &str, owner: &str, field: &str, target: &str) -> (error: AssetError)
    ensures
        error@ == (AssetFault::UnknownReference {
            owner_kind: owner_kind@,
            owner: owner@,
            field: field@,
            target: target@,
        }),
{
    AssetError::UnknownReference {
        owner_kind: owner_kind.to_owned(),
        owner: owner.to_owned(),
        field: field.to_owned(),
        target: target.to_owned(),
    }
}

/// Whether a result is what is expected.
pub open spec fn is_reference(
    result: Result<i32, AssetError>,
    expected: Result<i32, AssetFault>,
) -> bool {
    match (result, expected) {
        (Ok(value), Ok(number)) => value == number,
        (Err(error), Err(fault)) => error@ == fault,
        _ => false,
    }
}

/// Returns what a reference stands for, which is -1 if it names nothing.
pub fn resolve_optional_index_reference(
    owner_kind: &str,
    owner: &str,
    field: &str,
    target: &str,
    index: &NameIndex,
) -> (result: Result<i32, AssetError>)
    ensures
        is_reference(result, index_reference(owner_kind@, owner@, field@, target@, index@)),
{
    if target.is_empty() || same_text(target, "<undefined>") {
        return Ok(-1);
    }
    match index.get(target) {
        Some(value) => Ok(value as i32),
        None => Err(unknown(owner_kind, owner, field, target)),
    }
}

/// Returns the sprite that a reference stands for, which is -1 if it names none.
pub fn resolve_sprite_reference(
    owner_kind: &str,
    owner: &str,
    field: &str,
    target: &str,
    index: &NameIndex,
) -> (result: Result<i32, AssetError>)
    ensures
        is_reference(result, index_reference(owner_kind@, owner@, field@, target@, index@)),
{
    resolve_optional_index_reference(owner_kind, owner, field, target, index)
}

/// The number of a name that stands for no object of its own.
pub open spec fn special_object(name: Seq<char>) -> Option<i32> {
    if name == "self"@ {
        Some(-1i32)
    } else if name == "other"@ {
        Some(-2i32)
    } else if name == "all"@ {
        Some(-3i32)
    } else if name == "noone"@ {
        Some(-4i32)
    } else if name == "global"@ {
        Some(-5i32)
    } else if name == "<undefined>"@ {
        Some(OBJECT_UNDEFINED)
    } else {
        None
    }
}

/// Returns the number of a name that stands for no object of its own.
pub fn object_reference_index(name: &str) -> (number: Option<i32>)
    ensures
        number == special_object(name@),
{
    if same_text(name, "self") {
        Some(-1)
    } else if same_text(name, "other") {
        Some(-2)
    } else if same_text(name, "all") {
        Some(-3)
    } else if same_text(name, "noone") {
        Some(-4)
    } else if same_text(name, "global") {
        Some(-5)
    } else if same_text(name, "<undefined>") {
        Some(OBJECT_UNDEFINED)
    } else {
        None
    }
}

/// The object that a reference stands for.
pub open spec fn object_reference(
    owner_kind: Seq<char>,
    owner: Seq<char>,
    field: Seq<char>,
    target: Seq<char>,
    index: Map<Seq<char>, usize>,
) -> Result<i32, AssetFault> {
    if target.len() == 0 {
        Ok(OBJECT_UNDEFINED)
    } else if special_object(target) is Some {
        Ok(special_object(target)->0)
    } else if index.contains_key(target) {
        Ok(index[target] as i32)
    } else {
        Err(AssetFault::UnknownReference { owner_kind, owner, field, target })
    }
}

/// Returns the object that a reference stands for.
pub fn resolve_object_reference(
    owner_kind: &str,
    owner: &str,
    field: &str,
    target: &str,
    index: &NameIndex,
) -> (result: Result<i32, AssetError>)
    ensures
        is_reference(result, object_reference(owner_kind@, owner@, field@, target@, index@)),
{
    if target.is_empty() {
        return Ok(OBJECT_UNDEFINED);
    }
    if let Some(value) = object_reference_index(target) {
        return Ok(value);
    }
    match index.get(target) {
        Some(value) => Ok(value as i32),
        None => Err(unknown(owner_kind, owner, field, target)),
    }
}

/// What is wrong with a reference.
pub open spec fn fault_of(reference: Result<i32, AssetFault>) -> Option<AssetFault> {
    match reference {
        Ok(value) => None,
        Err(fault) => Some(fault),
    }
}

/// The first fault of some.
pub open spec fn first_of(faults: Seq<Option<AssetFault>>) -> Option<AssetFault>
    decreases faults.len(),
{
    if faults.len() == 0 {
        None
    } else {
        match first_of(faults.drop_last()) {
            Some(fault) => Some(fault),
            None => faults.last(),
        }
    }
}

proof fn lemma_no_fault(faults: Seq<Option<AssetFault>>)
    requires
        forall|k: int| 0 <= k < faults.len() ==> (#[trigger] faults[k]) is None,
    ensures
        first_of(faults) is None,
    decreases faults.len(),
{
    if faults.len() > 0 {
        lemma_no_fault(faults.drop_last());
    }
}

proof fn lemma_first_fault(faults: Seq<Option<AssetFault>>, index: int)
    requires
        0 <= index < faults.len(),
        forall|k: int| 0 <= k < index ==> (#[trigger] faults[k]) is None,
        faults[index] is Some,
    ensures
        first_of(faults) == faults[index],
    decreases faults.len(),
{
    if index == faults.len() - 1 {
        lemma_no_fault(faults.drop_last());
    } else {
        lemma_first_fault(faults.drop_last(), index);
    }
}

/// Whether a result is an error exactly if there is a fault.
pub open spec fn is_outcome(result: Result<(), AssetError>, fault: Option<AssetFault>) -> bool {
    match (result, fault) {
        (Ok(()), None) => true,
        (Err(error), Some(fault)) => error@ == fault,
        _ => false,
    }
}

/// What an action is applied to.
pub open spec fn action_target(
    owner_kind: Seq<char>,
    owner: Seq<char>,
    action: Action,
    objects: Map<Seq<char>, usize>,
) -> Result<i32, AssetFault> {
    object_reference(owner_kind, owner, "action target object"@, action.who_name@, objects)
}

/// What is wrong with the targets of actions.
pub open spec fn actions_fault(
    owner_kind: Seq<char>,
    owner: Seq<char>,
    actions: Seq<Action>,
    objects: Map<Seq<char>, usize>,
) -> Option<AssetFault> {
    first_of(
        actions.map_values(
            |action: Action| fault_of(action_target(owner_kind, owner, action, objects)),
        ),
    )
}

/// Whether actions are others with their targets.
pub open spec fn are_targeted(
    owner_kind: Seq<char>,
    owner: Seq<char>,
    before: Seq<Action>,
    after: Seq<Action>,
    objects: Map<Seq<char>, usize>,
) -> bool {
    &&& after.len() == before.len()
    &&& forall|k: int|
        0 <= k < before.len() ==> (#[trigger] after[k]) == (Action {
            who: action_target(owner_kind, owner, before[k], objects)->Ok_0,
            ..before[k]
        })
}

/// Gives actions their targets.
pub fn resolve_actions(
    owner_kind: &str,
    owner: &str,
    actions: &mut Vec<Action>,
    objects: &NameIndex,
) -> (result: Result<(), AssetError>)
    ensures
        is_outcome(result, actions_fault(owner_kind@, owner@, old(actions)@, objects@)),
        result is Ok ==> are_targeted(
            owner_kind@,
            owner@,
            old(actions)@,
            final(actions)@,
            objects@,
        ),
{
    let ghost before = actions@;
    let ghost faults = before.map_values(
        |action: Action| fault_of(action_target(owner_kind@, owner@, action, objects@)),
    );
    let mut index: usize = 0;
    while index < actions.len()
        invariant
            index <= actions@.len(),
            actions@.len() == before.len(),
            before == old(actions)@,
            faults == before.map_values(
                |action: Action| fault_of(action_target(owner_kind@, owner@, action, objects@)),
            ),
            forall|k: int| 0 <= k < index ==> (#[trigger] faults[k]) is None,
            forall|k: int|
                0 <= k < index ==> (#[trigger] actions@[k]) == (Action {
                    who: action_target(owner_kind@, owner@, before[k], objects@)->Ok_0,
                    ..before[k]
                }),
            forall|k: int| index <= k < before.len() ==> (#[trigger] actions@[k]) == before[k],
        decreases before.len() - index,
    {
        match resolve_object_reference(
            owner_kind,
            owner,
            "action target object",
            actions[index].who_name.as_str(),
            objects,
        ) {
            Ok(who) => {
                assert(faults[index as int] is None);
                actions[index].who = who;
            },
            Err(error) => {
                proof {
                    assert(faults[index as int] == Some(error@));
                    lemma_first_fault(faults, index as int);
                }
                return Err(error);
            },
        }
        index += 1;
    }
    proof {
        lemma_no_fault(faults);
    }
    Ok(())
}

/// What an event is about.
pub open spec fn event_subject(
    owner: Seq<char>,
    event: ObjectEvent,
    objects: Map<Seq<char>, usize>,
) -> Result<i32, AssetFault> {
    match event.subtype_name {
        Some(name) => object_reference(
            "object"@,
            owner,
            "collision event object"@,
            name@,
            objects,
        ),
        None => Ok(event.subtype),
    }
}

/// What is wrong with the references of an event.
pub open spec fn event_fault(
    owner: Seq<char>,
    event: ObjectEvent,
    objects: Map<Seq<char>, usize>,
) -> Option<AssetFault> {
    match event_subject(owner, event, objects) {
        Err(fault) => Some(fault),
        Ok(subject) => actions_fault("object"@, owner, event.actions@, objects),
    }
}

/// Whether an event is another one with what its references stand for.
pub open spec fn is_resolved_event(
    owner: Seq<char>,
    before: ObjectEvent,
    after: ObjectEvent,
    objects: Map<Seq<char>, usize>,
) -> bool {
    &&& after == (ObjectEvent {
        subtype: event_subject(owner, before, objects)->Ok_0,
        actions: after.actions,
        ..before
    })
    &&& are_targeted("object"@, owner, before.actions@, after.actions@, objects)
}

fn resolve_event(owner: &str, event: &mut ObjectEvent, objects: &NameIndex) -> (result: Result<
    (),
    AssetError,
>)
    ensures
        is_outcome(result, event_fault(owner@, *old(event), objects@)),
        result is Ok ==> is_resolved_event(owner@, *old(event), *final(event), objects@),
{
    let subtype = match &event.subtype_name {
        Some(name) => match resolve_object_reference(
            "object",
            owner,
            "collision event object",
            name.as_str(),
            objects,
        ) {
            Ok(subtype) => subtype,
            Err(error) => {
                return Err(error);
            },
        },
        None => event.subtype,
    };
    event.subtype = subtype;
    resolve_actions("object", owner, &mut event.actions, objects)
}

/// What is wrong with the references of events of a type.
pub open spec fn events_fault(
    owner: Seq<char>,
    events: Seq<ObjectEvent>,
    objects: Map<Seq<char>, usize>,
) -> Option<AssetFault> {
    first_of(events.map_values(|event: ObjectEvent| event_fault(owner, event, objects)))
}

/// Whether events are others with what their references stand for.
pub open spec fn are_resolved_events(
    owner: Seq<char>,
    before: Seq<ObjectEvent>,
    after: Seq<ObjectEvent>,
    objects: Map<Seq<char>, usize>,
) -> bool {
    &&& after.len() == before.len()
    &&& forall|k: int|
        0 <= k < before.len() ==> is_resolved_event(
            owner,
            before[k],
            #[trigger] after[k],
            objects,
        )
}

fn resolve_events(owner: &str, events: &mut Vec<ObjectEvent>, objects: &NameIndex) -> (result:
    Result<(), AssetError>)
    ensures
        is_outcome(result, events_fault(owner@, old(events)@, objects@)),
        result is Ok ==> are_resolved_events(owner@, old(events)@, final(events)@, objects@),
{
    let ghost before = events@;
    let ghost faults = before.map_values(
        |event: ObjectEvent| event_fault(owner@, event, objects@),
    );
    let mut index: usize = 0;
    while index < events.len()
        invariant
            index <= events@.len(),
            events@.len() == before.len(),
            before == old(events)@,
            faults == before.map_values(
                |event: ObjectEvent| event_fault(owner@, event, objects@),
            ),
            forall|k: int| 0 <= k < index ==> (#[trigger] faults[k]) is None,
            forall|k: int|
                0 <= k < index ==> is_resolved_event(
                    owner@,
                    before[k],
                    #[trigger] events@[k],
                    objects@,
                ),
            forall|k: int| index <= k < before.len() ==> (#[trigger] events@[k]) == before[k],
        decreases before.len() - index,
    {
        if let Err(error) = resolve_event(owner, &mut events[index], objects) {
            proof {
                assert(faults[index as int] == Some(error@));
                lemma_first_fault(faults, index as int);
            }
            return Err(error);
        }
        assert(faults[index as int] is None);
        index += 1;
    }
    proof {
        lemma_no_fault(faults);
    }
    Ok(())
}

/// What is wrong with the references of the events of an object.
pub open spec fn groups_fault(
    owner: Seq<char>,
    groups: Seq<Vec<ObjectEvent>>,
    objects: Map<Seq<char>, usize>,
) -> Option<AssetFault> {
    first_of(groups.map_values(|events: Vec<ObjectEvent>| events_fault(owner, events@, objects)))
}

/// Whether events by types are others with what their references stand for.
pub open spec fn are_resolved_groups(
    owner: Seq<char>,
    before: Seq<Vec<ObjectEvent>>,
    after: Seq<Vec<ObjectEvent>>,
    objects: Map<Seq<char>, usize>,
) -> bool {
    &&& after.len() == before.len()
    &&& forall|k: int|
        0 <= k < before.len() ==> are_resolved_events(
            owner,
            before[k]@,
            (#[trigger] after[k])@,
            objects,
        )
}

fn resolve_groups(owner: &str, groups: &mut Vec<Vec<ObjectEvent>>, objects: &NameIndex) -> (result:
    Result<(), AssetError>)
    ensures
        is_outcome(result, groups_fault(owner@, old(groups)@, objects@)),
        result is Ok ==> are_resolved_groups(owner@, old(groups)@, final(groups)@, objects@),
{
    let ghost before = groups@;
    let ghost faults = before.map_values(
        |events: Vec<ObjectEvent>| events_fault(owner@, events@, objects@),
    );
    let mut index: usize = 0;
    while index < groups.len()
        invariant
            index <= groups@.len(),
            groups@.len() == before.len(),
            before == old(groups)@,
            faults == before.map_values(
                |events: Vec<ObjectEvent>| events_fault(owner@, events@, objects@),
            ),
            forall|k: int| 0 <= k < index ==> (#[trigger] faults[k]) is None,
            forall|k: int|
                0 <= k < index ==> are_resolved_events(
                    owner@,
                    before[k]@,
                    (#[trigger] groups@[k])@,
                    objects@,
                ),
            forall|k: int| index <= k < before.len() ==> (#[trigger] groups@[k]) == before[k],
        decreases before.len() - index,
    {
        if let Err(error) = resolve_events(owner, &mut groups[index], objects) {
            proof {
                assert(faults[index as int] == Some(error@));
                lemma_first_fault(faults, index as int);
            }
            return Err(error);
        }
        assert(faults[index as int] is None);
        index += 1;
    }
    proof {
        lemma_no_fault(faults);
    }
    Ok(())
}

/// The function that moves a coordinate to an origin, as a spec function. The
/// coordinate and its place are the bits of single precision numbers.
pub open spec fn moved_by<F: Fn(u32, i32) -> u32>(shift: F) -> spec_fn(u32, i32) -> u32 {
    |bits: u32, origin: i32| choose|result: u32| call_ensures(shift, (bits, origin), result)
}

/// Whether a function moves coordinates to an origin.
pub open spec fn is_shift<F: Fn(u32, i32) -> u32>(shift: F) -> bool {
    &&& forall|bits: u32, origin: i32| #[trigger] call_requires(shift, (bits, origin))
    &&& forall|bits: u32, origin: i32, result: u32| #[trigger]
        call_ensures(shift, (bits, origin), result) ==> result == moved_by(shift)(bits, origin)
}

/// A corner as it is seen from the origin of a sprite.
pub open spec fn moved_point(
    point: PhysicsShapePoint,
    sprite: Sprite,
    shift: spec_fn(u32, i32) -> u32,
) -> PhysicsShapePoint {
    PhysicsShapePoint {
        x: shift(point.x, sprite.x_origin),
        y: shift(point.y, sprite.y_origin),
    }
}

/// The corners of a shape as they are seen from the origin of a sprite. Of a
/// circle, only the centre is moved.
pub open spec fn moved_points(
    points: Seq<PhysicsShapePoint>,
    shape: i32,
    sprite: Sprite,
    shift: spec_fn(u32, i32) -> u32,
) -> Seq<PhysicsShapePoint> {
    Seq::new(
        points.len(),
        |k: int|
            if shape > 0 || k == 0 {
                moved_point(points[k], sprite, shift)
            } else {
                points[k]
            },
    )
}

fn move_points<F: Fn(u32, i32) -> u32>(physics: &mut Physics, sprite: &Sprite, shift: &F)
    requires
        is_shift(*shift),
    ensures
        *final(physics) == (Physics { shape_points: final(physics).shape_points, ..*old(physics) }),
        final(physics).shape_points@ == moved_points(
            old(physics).shape_points@,
            old(physics).shape,
            *sprite,
            moved_by(*shift),
        ),
{
    let ghost before = physics.shape_points@;
    let ghost given = *physics;
    let count = if physics.shape > 0 {
        physics.shape_points.len()
    } else if physics.shape_points.len() > 0 {
        1usize
    } else {
        0usize
    };
    let mut index: usize = 0;
    while index < count
        invariant
            is_shift(*shift),
            index <= count <= before.len(),
            *physics == (Physics { shape_points: physics.shape_points, ..given }),
            physics.shape_points@.len() == before.len(),
            forall|k: int|
                0 <= k < index ==> (#[trigger] physics.shape_points@[k]) == moved_point(
                    before[k],
                    *sprite,
                    moved_by(*shift),
                ),
            forall|k: int|
                index <= k < before.len() ==> (#[trigger] physics.shape_points@[k]) == before[k],
        decreases count - index,
    {
        let point = physics.shape_points[index];
        let x = shift(point.x, sprite.x_origin);
        let y = shift(point.y, sprite.y_origin);
        physics.shape_points.set(index, PhysicsShapePoint { x, y });
        index += 1;
    }
    assert(physics.shape_points@ =~= moved_points(
        before,
        given.shape,
        *sprite,
        moved_by(*shift),
    ));
}

/// The sprite of an object.
pub open spec fn object_sprite(object: GameObject, sprites: Map<Seq<char>, usize>) -> Result<
    i32,
    AssetFault,
> {
    index_reference("object"@, object.name@, "sprite"@, object.sprite_name@, sprites)
}

/// The sprite that is the mask of an object.
pub open spec fn object_mask(object: GameObject, sprites: Map<Seq<char>, usize>) -> Result<
    i32,
    AssetFault,
> {
    index_reference("object"@, object.name@, "mask sprite"@, object.mask_name@, sprites)
}

/// The parent of an object.
pub open spec fn object_parent(object: GameObject, objects: Map<Seq<char>, usize>) -> Result<
    i32,
    AssetFault,
> {
    object_reference("object"@, object.name@, "parent object"@, object.parent_name@, objects)
}

/// What is wrong with the references of an object.
pub open spec fn object_fault(
    object: GameObject,
    sprites: Map<Seq<char>, usize>,
    objects: Map<Seq<char>, usize>,
) -> Option<AssetFault> {
    match object_sprite(object, sprites) {
        Err(fault) => Some(fault),
        Ok(sprite) => match object_mask(object, sprites) {
            Err(fault) => Some(fault),
            Ok(mask) => match object_parent(object, objects) {
                Err(fault) => Some(fault),
                Ok(parent) => groups_fault(object.name@, object.events@, objects),
            },
        },
    }
}

/// Whether an object is another one with what its references stand for, and with
/// its shape as it is seen from the origin of its sprite.
pub open spec fn is_resolved_object(
    before: GameObject,
    after: GameObject,
    sprites: Seq<Sprite>,
    sprite_index: Map<Seq<char>, usize>,
    objects: Map<Seq<char>, usize>,
    shift: spec_fn(u32, i32) -> u32,
) -> bool {
    let sprite = object_sprite(before, sprite_index)->Ok_0;
    &&& after == (GameObject {
        sprite_index: sprite,
        mask_index: object_mask(before, sprite_index)->Ok_0,
        parent_index: object_parent(before, objects)->Ok_0,
        physics: after.physics,
        events: after.events,
        ..before
    })
    &&& after.physics == (Physics { shape_points: after.physics.shape_points, ..before.physics })
    &&& after.physics.shape_points@ == (if sprite >= 0 {
        moved_points(
            before.physics.shape_points@,
            before.physics.shape,
            sprites[sprite as int],
            shift,
        )
    } else {
        before.physics.shape_points@
    })
    &&& are_resolved_groups(before.name@, before.events@, after.events@, objects)
}

#[verifier::spinoff_prover]
fn resolve_object<F: Fn(u32, i32) -> u32>(
    object: &mut GameObject,
    sprites: &Vec<Sprite>,
    sprite_index: &NameIndex,
    objects: &NameIndex,
    shift: &F,
) -> (result: Result<(), AssetError>)
    requires
        is_index(sprite_index@, sprites@.len()),
        sprites@.len() <= i32::MAX,
        is_shift(*shift),
    ensures
        is_outcome(result, object_fault(*old(object), sprite_index@, objects@)),
        result is Ok ==> is_resolved_object(
            *old(object),
            *final(object),
            sprites@,
            sprite_index@,
            objects@,
            moved_by(*shift),
        ),
{
    let owner = object.name.clone();
    let sprite = match resolve_sprite_reference(
        "object",
        owner.as_str(),
        "sprite",
        object.sprite_name.as_str(),
        sprite_index,
    ) {
        Ok(sprite) => sprite,
        Err(error) => {
            return Err(error);
        },
    };
    assert(sprite >= 0 ==> sprite < sprites@.len()) by {
        if sprite_index@.contains_key(object.sprite_name@) {
            assert(sprite_index@[object.sprite_name@] < sprites@.len());
        }
    }
    object.sprite_index = sprite;
    match resolve_sprite_reference(
        "object",
        owner.as_str(),
        "mask sprite",
        object.mask_name.as_str(),
        sprite_index,
    ) {
        Ok(mask) => {
            object.mask_index = mask;
        },
        Err(error) => {
            return Err(error);
        },
    }
    match resolve_object_reference(
        "object",
        owner.as_str(),
        "parent object",
        object.parent_name.as_str(),
        objects,
    ) {
        Ok(parent) => {
            object.parent_index = parent;
        },
        Err(error) => {
            return Err(error);
        },
    }
    if let Err(error) = resolve_groups(owner.as_str(), &mut object.events, objects) {
        return Err(error);
    }
    if sprite >= 0 {
        move_points(&mut object.physics, &sprites[sprite as usize], shift);
    }
    Ok(())
}

/// What is wrong with the references of objects.
pub open spec fn objects_fault(
    list: Seq<GameObject>,
    sprites: Map<Seq<char>, usize>,
    objects: Map<Seq<char>, usize>,
) -> Option<AssetFault> {
    first_of(list.map_values(|object: GameObject| object_fault(object, sprites, objects)))
}

/// Whether objects are others with what their references stand for.
pub open spec fn are_resolved_objects(
    before: Seq<GameObject>,
    after: Seq<GameObject>,
    sprites: Seq<Sprite>,
    sprite_index: Map<Seq<char>, usize>,
    objects: Map<Seq<char>, usize>,
    shift: spec_fn(u32, i32) -> u32,
) -> bool {
    &&& after.len() == before.len()
    &&& forall|k: int|
        0 <= k < before.len() ==> is_resolved_object(
            before[k],
            #[trigger] after[k],
            sprites,
            sprite_index,
            objects,
            shift,
        )
}

/// What is wrong with the targets of the actions of steps.
pub open spec fn entries_fault(
    owner: Seq<char>,
    entries: Seq<TimelineEntry>,
    objects: Map<Seq<char>, usize>,
) -> Option<AssetFault> {
    first_of(
        entries.map_values(
            |entry: TimelineEntry| actions_fault("timeline"@, owner, entry.actions@, objects),
        ),
    )
}

/// Whether steps are others with the targets of their actions.
pub open spec fn are_resolved_entries(
    owner: Seq<char>,
    before: Seq<TimelineEntry>,
    after: Seq<TimelineEntry>,
    objects: Map<Seq<char>, usize>,
) -> bool {
    &&& after.len() == before.len()
    &&& forall|k: int|
        0 <= k < before.len() ==> {
            &&& (#[trigger] after[k]) == (TimelineEntry { actions: after[k].actions, ..before[k] })
            &&& are_targeted("timeline"@, owner, before[k].actions@, after[k].actions@, objects)
        }
}

fn resolve_entry(owner: &str, entry: &mut TimelineEntry, objects: &NameIndex) -> (result: Result<
    (),
    AssetError,
>)
    ensures
        is_outcome(result, actions_fault("timeline"@, owner@, old(entry).actions@, objects@)),
        *final(entry) == (TimelineEntry { actions: final(entry).actions, ..*old(entry) }),
        result is Ok ==> are_targeted(
            "timeline"@,
            owner@,
            old(entry).actions@,
            final(entry).actions@,
            objects@,
        ),
{
    resolve_actions("timeline", owner, &mut entry.actions, objects)
}

fn resolve_timeline(timeline: &mut Timeline, objects: &NameIndex) -> (result: Result<
    (),
    AssetError,
>)
    ensures
        is_outcome(result, entries_fault(old(timeline).name@, old(timeline).entries@, objects@)),
        *final(timeline) == (Timeline { entries: final(timeline).entries, ..*old(timeline) }),
        result is Ok ==> are_resolved_entries(
            old(timeline).name@,
            old(timeline).entries@,
            final(timeline).entries@,
            objects@,
        ),
{
    let owner = timeline.name.clone();
    let ghost given = *timeline;
    let ghost before = timeline.entries@;
    let ghost faults = before.map_values(
        |entry: TimelineEntry| actions_fault("timeline"@, owner@, entry.actions@, objects@),
    );
    let mut index: usize = 0;
    while index < timeline.entries.len()
        invariant
            index <= timeline.entries@.len(),
            timeline.entries@.len() == before.len(),
            given == *old(timeline),
            before == given.entries@,
            owner@ == given.name@,
            *timeline == (Timeline { entries: timeline.entries, ..given }),
            faults == before.map_values(
                |entry: TimelineEntry| actions_fault("timeline"@, owner@, entry.actions@, objects@),
            ),
            forall|k: int| 0 <= k < index ==> (#[trigger] faults[k]) is None,
            forall|k: int|
                0 <= k < index ==> {
                    &&& (#[trigger] timeline.entries@[k]) == (TimelineEntry {
                        actions: timeline.entries@[k].actions,
                        ..before[k]
                    })
                    &&& are_targeted(
                        "timeline"@,
                        owner@,
                        before[k].actions@,
                        timeline.entries@[k].actions@,
                        objects@,
                    )
                },
            forall|k: int|
                index <= k < before.len() ==> (#[trigger] timeline.entries@[k]) == before[k],
        decreases before.len() - index,
    {
        if let Err(error) = resolve_entry(owner.as_str(), &mut timeline.entries[index], objects) {
            proof {
                assert(faults[index as int] == Some(error@));
                lemma_first_fault(faults, index as int);
            }
            return Err(error);
        }
        assert(faults[index as int] is None);
        index += 1;
    }
    proof {
        lemma_no_fault(faults);
    }
    Ok(())
}

/// What is wrong with the targets of the actions of timelines.
pub open spec fn timelines_fault(
    timelines: Seq<Timeline>,
    objects: Map<Seq<char>, usize>,
) -> Option<AssetFault> {
    first_of(
        timelines.map_values(
            |timeline: Timeline| entries_fault(timeline.name@, timeline.entries@, objects),
        ),
    )
}

/// Whether timelines are others with the targets of their actions.
pub open spec fn are_resolved_timelines(
    before: Seq<Timeline>,
    after: Seq<Timeline>,
    objects: Map<Seq<char>, usize>,
) -> bool {
    &&& after.len() == before.len()
    &&& forall|k: int|
        0 <= k < before.len() ==> {
            &&& (#[trigger] after[k]) == (Timeline { entries: after[k].entries, ..before[k] })
            &&& are_resolved_entries(
                before[k].name@,
                before[k].entries@,
                after[k].entries@,
                objects,
            )
        }
}

/// What is wrong with the references of objects and timelines.
pub open spec fn references_fault(
    list: Seq<GameObject>,
    timelines: Seq<Timeline>,
    sprites: Map<Seq<char>, usize>,
    objects: Map<Seq<char>, usize>,
) -> Option<AssetFault> {
    match objects_fault(list, sprites, objects) {
        Some(fault) => Some(fault),
        None => timelines_fault(timelines, objects),
    }
}

/// Gives objects and timelines what their references stand for. The shapes of
/// objects are moved to the origins of their sprites by a function.
#[verifier::spinoff_prover]
pub fn resolve_object_references<F: Fn(u32, i32) -> u32>(
    list: Vec<GameObject>,
    timelines: Vec<Timeline>,
    sprites: &Vec<Sprite>,
    sprite_index: &NameIndex,
    objects: &NameIndex,
    shift: &F,
) -> (result: Result<(Vec<GameObject>, Vec<Timeline>), AssetError>)
    requires
        is_index(sprite_index@, sprites@.len()),
        sprites@.len() <= i32::MAX,
        is_shift(*shift),
    ensures
        match (result, references_fault(list@, timelines@, sprite_index@, objects@)) {
            (Ok(resolved), None) => are_resolved_objects(
                list@,
                resolved.0@,
                sprites@,
                sprite_index@,
                objects@,
                moved_by(*shift),
            ) && are_resolved_timelines(timelines@, resolved.1@, objects@),
            (Err(error), Some(fault)) => error@ == fault,
            _ => false,
        },
{
    let ghost before = list@;
    let ghost faults = before.map_values(
        |object: GameObject| object_fault(object, sprite_index@, objects@),
    );
    let mut resolved = list;
    let mut index: usize = 0;
    while index < resolved.len()
        invariant
            is_index(sprite_index@, sprites@.len()),
            sprites@.len() <= i32::MAX,
            is_shift(*shift),
            index <= resolved@.len(),
            resolved@.len() == before.len(),
            before == list@,
            faults == before.map_values(
                |object: GameObject| object_fault(object, sprite_index@, objects@),
            ),
            forall|k: int| 0 <= k < index ==> (#[trigger] faults[k]) is None,
            forall|k: int|
                0 <= k < index ==> is_resolved_object(
                    before[k],
                    #[trigger] resolved@[k],
                    sprites@,
                    sprite_index@,
                    objects@,
                    moved_by(*shift),
                ),
            forall|k: int| index <= k < before.len() ==> (#[trigger] resolved@[k]) == before[k],
        decreases before.len() - index,
    {
        if let Err(error) = resolve_object(
            &mut resolved[index],
            sprites,
            sprite_index,
            objects,
            shift,
        ) {
            proof {
                assert(faults[index as int] == Some(error@));
                lemma_first_fault(faults, index as int);
            }
            return Err(error);
        }
        assert(faults[index as int] is None);
        index += 1;
    }
    proof {
        lemma_no_fault(faults);
    }
    let resolved_timelines = match resolve_timelines(timelines, objects) {
        Ok(timelines) => timelines,
        Err(error) => {
            return Err(error);
        },
    };
    Ok((resolved, resolved_timelines))
}

fn resolve_timelines(timelines: Vec<Timeline>, objects: &NameIndex) -> (result: Result<
    Vec<Timeline>,
    AssetError,
>)
    ensures
        match (result, timelines_fault(timelines@, objects@)) {
            (Ok(resolved), None) => are_resolved_timelines(timelines@, resolved@, objects@),
            (Err(error), Some(fault)) => error@ == fault,
            _ => false,
        },
{
    let ghost before = timelines@;
    let ghost faults = before.map_values(
        |timeline: Timeline| entries_fault(timeline.name@, timeline.entries@, objects@),
    );
    let mut resolved = timelines;
    let mut index: usize = 0;
    while index < resolved.len()
        invariant
            index <= resolved@.len(),
            resolved@.len() == before.len(),
            before == timelines@,
            faults == before.map_values(
                |timeline: Timeline| entries_fault(timeline.name@, timeline.entries@, objects@),
            ),
            forall|k: int| 0 <= k < index ==> (#[trigger] faults[k]) is None,
            forall|k: int|
                0 <= k < index ==> {
                    &&& (#[trigger] resolved@[k]) == (Timeline {
                        entries: resolved@[k].entries,
                        ..before[k]
                    })
                    &&& are_resolved_entries(
                        before[k].name@,
                        before[k].entries@,
                        resolved@[k].entries@,
                        objects@,
                    )
                },
            forall|k: int| index <= k < before.len() ==> (#[trigger] resolved@[k]) == before[k],
        decreases before.len() - index,
    {
        if let Err(error) = resolve_timeline(&mut resolved[index], objects) {
            proof {
                assert(faults[index as int] == Some(error@));
                lemma_first_fault(faults, index as int);
            }
            return Err(error);
        }
        assert(faults[index as int] is None);
        index += 1;
    }
    proof {
        lemma_no_fault(faults);
    }
    Ok(resolved)
}

/// What one of the backgrounds of a room refers to.
pub open spec fn background_reference(
    owner: Seq<char>,
    background: RoomBackground,
    index: Map<Seq<char>, usize>,
) -> Result<i32, AssetFault> {
    index_reference("room"@, owner, "background"@, background.background_name@, index)
}

/// What is wrong with the references of the backgrounds of a room.
pub open spec fn backgrounds_fault(
    owner: Seq<char>,
    backgrounds: Seq<RoomBackground>,
    index: Map<Seq<char>, usize>,
) -> Option<AssetFault> {
    first_of(backgrounds.map_values(|background: RoomBackground| fault_of(background_reference(owner, background, index))))
}

/// Whether backgrounds are others with what they refer to.
pub open spec fn are_resolved_backgrounds(
    owner: Seq<char>,
    before: Seq<RoomBackground>,
    after: Seq<RoomBackground>,
    index: Map<Seq<char>, usize>,
) -> bool {
    &&& after.len() == before.len()
    &&& forall|k: int|
        0 <= k < before.len() ==> (#[trigger] after[k]) == (RoomBackground {
            background_index: background_reference(owner, before[k], index)->Ok_0,
            ..before[k]
        })
}

fn resolve_backgrounds(
    owner: &str,
    backgrounds: &mut Vec<RoomBackground>,
    index: &NameIndex,
) -> (result: Result<(), AssetError>)
    ensures
        match (result, backgrounds_fault(owner@, old(backgrounds)@, index@)) {
            (Ok(()), None) => are_resolved_backgrounds(
                owner@,
                old(backgrounds)@,
                final(backgrounds)@,
                index@,
            ),
            (Err(error), Some(fault)) => error@ == fault,
            _ => false,
        },
{
    let ghost before = backgrounds@;
    let ghost faults = before.map_values(
        |background: RoomBackground| fault_of(background_reference(owner@, background, index@)),
    );
    let mut position: usize = 0;
    while position < backgrounds.len()
        invariant
            position <= backgrounds@.len(),
            backgrounds@.len() == before.len(),
            before == old(backgrounds)@,
            faults == before.map_values(
                |background: RoomBackground| fault_of(background_reference(owner@, background, index@)),
            ),
            forall|k: int| 0 <= k < position ==> (#[trigger] faults[k]) is None,
            forall|k: int|
                0 <= k < position ==> (#[trigger] backgrounds@[k]) == (RoomBackground {
                    background_index: background_reference(owner@, before[k], index@)->Ok_0,
                    ..before[k]
                }),
            forall|k: int| position <= k < before.len() ==> (#[trigger] backgrounds@[k]) == before[k],
        decreases before.len() - position,
    {
        match resolve_optional_index_reference(
            "room",
            owner,
            "background",
            backgrounds[position].background_name.as_str(),
            index,
        ) {
            Ok(found) => {
                assert(faults[position as int] is None);
                backgrounds[position].background_index = found;
            },
            Err(error) => {
                proof {
                    assert(faults[position as int] == Some(error@));
                    lemma_first_fault(faults, position as int);
                }
                return Err(error);
            },
        }
        position += 1;
    }
    proof {
        lemma_no_fault(faults);
    }
    Ok(())
}

/// What one of the views of a room refers to.
pub open spec fn view_reference(
    owner: Seq<char>,
    view: RoomView,
    index: Map<Seq<char>, usize>,
) -> Result<i32, AssetFault> {
    index_reference("room"@, owner, "view object"@, view.object_name@, index)
}

/// What is wrong with the references of the views of a room.
pub open spec fn views_fault(
    owner: Seq<char>,
    views: Seq<RoomView>,
    index: Map<Seq<char>, usize>,
) -> Option<AssetFault> {
    first_of(views.map_values(|view: RoomView| fault_of(view_reference(owner, view, index))))
}

/// Whether views are others with what they refer to.
pub open spec fn are_resolved_views(
    owner: Seq<char>,
    before: Seq<RoomView>,
    after: Seq<RoomView>,
    index: Map<Seq<char>, usize>,
) -> bool {
    &&& after.len() == before.len()
    &&& forall|k: int|
        0 <= k < before.len() ==> (#[trigger] after[k]) == (RoomView {
            object_index: view_reference(owner, before[k], index)->Ok_0,
            ..before[k]
        })
}

fn resolve_views(
    owner: &str,
    views: &mut Vec<RoomView>,
    index: &NameIndex,
) -> (result: Result<(), AssetError>)
    ensures
        match (result, views_fault(owner@, old(views)@, index@)) {
            (Ok(()), None) => are_resolved_views(
                owner@,
                old(views)@,
                final(views)@,
                index@,
            ),
            (Err(error), Some(fault)) => error@ == fault,
            _ => false,
        },
{
    let ghost before = views@;
    let ghost faults = before.map_values(
        |view: RoomView| fault_of(view_reference(owner@, view, index@)),
    );
    let mut position: usize = 0;
    while position < views.len()
        invariant
            position <= views@.len(),
            views@.len() == before.len(),
            before == old(views)@,
            faults == before.map_values(
                |view: RoomView| fault_of(view_reference(owner@, view, index@)),
            ),
            forall|k: int| 0 <= k < position ==> (#[trigger] faults[k]) is None,
            forall|k: int|
                0 <= k < position ==> (#[trigger] views@[k]) == (RoomView {
                    object_index: view_reference(owner@, before[k], index@)->Ok_0,
                    ..before[k]
                }),
            forall|k: int| position <= k < before.len() ==> (#[trigger] views@[k]) == before[k],
        decreases before.len() - position,
    {
        match resolve_optional_index_reference(
            "room",
            owner,
            "view object",
            views[position].object_name.as_str(),
            index,
        ) {
            Ok(found) => {
                assert(faults[position as int] is None);
                views[position].object_index = found;
            },
            Err(error) => {
                proof {
                    assert(faults[position as int] == Some(error@));
                    lemma_first_fault(faults, position as int);
                }
                return Err(error);
            },
        }
        position += 1;
    }
    proof {
        lemma_no_fault(faults);
    }
    Ok(())
}

/// What one of the instances of a room refers to.
pub open spec fn instance_reference(
    owner: Seq<char>,
    instance: RoomInstance,
    index: Map<Seq<char>, usize>,
) -> Result<i32, AssetFault> {
    index_reference("room"@, owner, "instance object"@, instance.object_name@, index)
}

/// What is wrong with the references of the instances of a room.
pub open spec fn instances_fault(
    owner: Seq<char>,
    instances: Seq<RoomInstance>,
    index: Map<Seq<char>, usize>,
) -> Option<AssetFault> {
    first_of(instances.map_values(|instance: RoomInstance| fault_of(instance_reference(owner, instance, index))))
}

/// Whether instances are others with what they refer to, numbered from a first one.
pub open spec fn are_resolved_instances(
    owner: Seq<char>,
    before: Seq<RoomInstance>,
    after: Seq<RoomInstance>,
    index: Map<Seq<char>, usize>,
    first: i32,
) -> bool {
    &&& after.len() == before.len()
    &&& forall|k: int|
        0 <= k < before.len() ==> (#[trigger] after[k]) == (RoomInstance {
            object_index: instance_reference(owner, before[k], index)->Ok_0,
            id: id_after(first, k as nat),
            ..before[k]
        })
}

fn resolve_instances(
    owner: &str,
    instances: &mut Vec<RoomInstance>,
    index: &NameIndex,
    first: i32,
) -> (result: Result<i32, AssetError>)
    ensures
        match (result, instances_fault(owner@, old(instances)@, index@)) {
            (Ok(next), None) => are_resolved_instances(
                owner@,
                old(instances)@,
                final(instances)@,
                index@,
                first,
            ) && next == id_after(first, old(instances)@.len()),
            (Err(error), Some(fault)) => error@ == fault,
            _ => false,
        },
{
    let ghost before = instances@;
    let ghost faults = before.map_values(
        |instance: RoomInstance| fault_of(instance_reference(owner@, instance, index@)),
    );
    let mut next = first;
    let mut position: usize = 0;
    while position < instances.len()
        invariant
            position <= instances@.len(),
            instances@.len() == before.len(),
            before == old(instances)@,
            next == id_after(first, position as nat),
            faults == before.map_values(
                |instance: RoomInstance| fault_of(instance_reference(owner@, instance, index@)),
            ),
            forall|k: int| 0 <= k < position ==> (#[trigger] faults[k]) is None,
            forall|k: int|
                0 <= k < position ==> (#[trigger] instances@[k]) == (RoomInstance {
                    object_index: instance_reference(owner@, before[k], index@)->Ok_0,
                    id: id_after(first, k as nat),
                    ..before[k]
                }),
            forall|k: int| position <= k < before.len() ==> (#[trigger] instances@[k]) == before[k],
        decreases before.len() - position,
    {
        match resolve_optional_index_reference(
            "room",
            owner,
            "instance object",
            instances[position].object_name.as_str(),
            index,
        ) {
            Ok(found) => {
                assert(faults[position as int] is None);
                instances[position].object_index = found;
                instances[position].id = next;
                next = next.wrapping_add(1);
            },
            Err(error) => {
                proof {
                    assert(faults[position as int] == Some(error@));
                    lemma_first_fault(faults, position as int);
                }
                return Err(error);
            },
        }
        position += 1;
    }
    proof {
        lemma_no_fault(faults);
    }
    Ok(next)
}

/// What one of the tiles of a room refers to.
pub open spec fn tile_reference(
    owner: Seq<char>,
    tile: RoomTile,
    index: Map<Seq<char>, usize>,
) -> Result<i32, AssetFault> {
    index_reference("room"@, owner, "tile background"@, tile.background_name@, index)
}

/// What is wrong with the references of the tiles of a room.
pub open spec fn tiles_fault(
    owner: Seq<char>,
    tiles: Seq<RoomTile>,
    index: Map<Seq<char>, usize>,
) -> Option<AssetFault> {
    first_of(tiles.map_values(|tile: RoomTile| fault_of(tile_reference(owner, tile, index))))
}

/// Whether tiles are others with what they refer to, numbered from a first one.
pub open spec fn are_resolved_tiles(
    owner: Seq<char>,
    before: Seq<RoomTile>,
    after: Seq<RoomTile>,
    index: Map<Seq<char>, usize>,
    first: i32,
) -> bool {
    &&& after.len() == before.len()
    &&& forall|k: int|
        0 <= k < before.len() ==> (#[trigger] after[k]) == (RoomTile {
            background_index: tile_reference(owner, before[k], index)->Ok_0,
            id: id_after(first, k as nat),
            ..before[k]
        })
}

fn resolve_tiles(
    owner: &str,
    tiles: &mut Vec<RoomTile>,
    index: &NameIndex,
    first: i32,
) -> (result: Result<i32, AssetError>)
    ensures
        match (result, tiles_fault(owner@, old(tiles)@, index@)) {
            (Ok(next), None) => are_resolved_tiles(
                owner@,
                old(tiles)@,
                final(tiles)@,
                index@,
                first,
            ) && next == id_after(first, old(tiles)@.len()),
            (Err(error), Some(fault)) => error@ == fault,
            _ => false,
        },
{
    let ghost before = tiles@;
    let ghost faults = before.map_values(
        |tile: RoomTile| fault_of(tile_reference(owner@, tile, index@)),
    );
    let mut next = first;
    let mut position: usize = 0;
    while position < tiles.len()
        invariant
            position <= tiles@.len(),
            tiles@.len() == before.len(),
            before == old(tiles)@,
            next == id_after(first, position as nat),
            faults == before.map_values(
                |tile: RoomTile| fault_of(tile_reference(owner@, tile, index@)),
            ),
            forall|k: int| 0 <= k < position ==> (#[trigger] faults[k]) is None,
            forall|k: int|
                0 <= k < position ==> (#[trigger] tiles@[k]) == (RoomTile {
                    background_index: tile_reference(owner@, before[k], index@)->Ok_0,
                    id: id_after(first, k as nat),
                    ..before[k]
                }),
            forall|k: int| position <= k < before.len() ==> (#[trigger] tiles@[k]) == before[k],
        decreases before.len() - position,
    {
        match resolve_optional_index_reference(
            "room",
            owner,
            "tile background",
            tiles[position].background_name.as_str(),
            index,
        ) {
            Ok(found) => {
                assert(faults[position as int] is None);
                tiles[position].background_index = found;
                tiles[position].id = next;
                next = next.wrapping_add(1);
            },
            Err(error) => {
                proof {
                    assert(faults[position as int] == Some(error@));
                    lemma_first_fault(faults, position as int);
                }
                return Err(error);
            },
        }
        position += 1;
    }
    proof {
        lemma_no_fault(faults);
    }
    Ok(next)
}

/// What is wrong with the references of a room.
pub open spec fn room_fault(
    room: Room,
    backgrounds: Map<Seq<char>, usize>,
    objects: Map<Seq<char>, usize>,
) -> Option<AssetFault> {
    match backgrounds_fault(room.name@, room.backgrounds@, backgrounds) {
        Some(fault) => Some(fault),
        None => match views_fault(room.name@, room.views@, objects) {
            Some(fault) => Some(fault),
            None => match instances_fault(room.name@, room.instances@, objects) {
                Some(fault) => Some(fault),
                None => tiles_fault(room.name@, room.tiles@, backgrounds),
            },
        },
    }
}

/// Whether a room is another one with what its references stand for, with its
/// instances and tiles numbered from first ones.
pub open spec fn is_resolved_room(
    before: Room,
    after: Room,
    backgrounds: Map<Seq<char>, usize>,
    objects: Map<Seq<char>, usize>,
    first_instance: i32,
    first_tile: i32,
) -> bool {
    &&& after == (Room {
        backgrounds: after.backgrounds,
        views: after.views,
        instances: after.instances,
        tiles: after.tiles,
        ..before
    })
    &&& are_resolved_backgrounds(
        before.name@,
        before.backgrounds@,
        after.backgrounds@,
        backgrounds,
    )
    &&& are_resolved_views(before.name@, before.views@, after.views@, objects)
    &&& are_resolved_instances(
        before.name@,
        before.instances@,
        after.instances@,
        objects,
        first_instance,
    )
    &&& are_resolved_tiles(before.name@, before.tiles@, after.tiles@, backgrounds, first_tile)
}

#[verifier::spinoff_prover]
fn resolve_room(
    room: &mut Room,
    backgrounds: &NameIndex,
    objects: &NameIndex,
    first_instance: i32,
    first_tile: i32,
) -> (result: Result<(i32, i32), AssetError>)
    ensures
        match (result, room_fault(*old(room), backgrounds@, objects@)) {
            (Ok(next), None) => is_resolved_room(
                *old(room),
                *final(room),
                backgrounds@,
                objects@,
                first_instance,
                first_tile,
            ) && next.0 == id_after(first_instance, old(room).instances@.len()) && next.1
                == id_after(first_tile, old(room).tiles@.len()),
            (Err(error), Some(fault)) => error@ == fault,
            _ => false,
        },
{
    let owner = room.name.clone();
    if let Err(error) = resolve_backgrounds(
        owner.as_str(),
        &mut room.backgrounds,
        backgrounds,
    ) {
        return Err(error);
    }
    if let Err(error) = resolve_views(owner.as_str(), &mut room.views, objects) {
        return Err(error);
    }
    let next_instance = match resolve_instances(
        owner.as_str(),
        &mut room.instances,
        objects,
        first_instance,
    ) {
        Ok(next) => next,
        Err(error) => {
            return Err(error);
        },
    };
    let next_tile = match resolve_tiles(
        owner.as_str(),
        &mut room.tiles,
        backgrounds,
        first_tile,
    ) {
        Ok(next) => next,
        Err(error) => {
            return Err(error);
        },
    };
    Ok((next_instance, next_tile))
}

/// The number of instances in the first rooms.
pub open spec fn instances_before(rooms: Seq<Room>, count: int) -> nat
    decreases count,
{
    if count <= 0 {
        0
    } else {
        instances_before(rooms, count - 1) + rooms[count - 1].instances@.len()
    }
}

/// The number of tiles in the first rooms.
pub open spec fn tiles_before(rooms: Seq<Room>, count: int) -> nat
    decreases count,
{
    if count <= 0 {
        0
    } else {
        tiles_before(rooms, count - 1) + rooms[count - 1].tiles@.len()
    }
}

/// What is wrong with the references of rooms.
pub open spec fn rooms_fault(
    rooms: Seq<Room>,
    backgrounds: Map<Seq<char>, usize>,
    objects: Map<Seq<char>, usize>,
) -> Option<AssetFault> {
    first_of(rooms.map_values(|room: Room| room_fault(room, backgrounds, objects)))
}

/// Whether rooms are others with what their references stand for. All instances
/// are numbered one after the other, and so are all tiles.
pub open spec fn are_resolved_rooms(
    before: Seq<Room>,
    after: Seq<Room>,
    backgrounds: Map<Seq<char>, usize>,
    objects: Map<Seq<char>, usize>,
) -> bool {
    &&& after.len() == before.len()
    &&& forall|k: int|
        0 <= k < before.len() ==> is_resolved_room(
            before[k],
            #[trigger] after[k],
            backgrounds,
            objects,
            id_after(ROOM_INSTANCE_ID_START, instances_before(before, k)),
            id_after(ROOM_TILE_ID_START, tiles_before(before, k)),
        )
}

/// Rooms with what their references stand for, and the next numbers of instances
/// and tiles.
#[derive(Debug)]
pub struct ResolvedRooms {
    pub rooms: Vec<Room>,
    pub next_instance_id: i32,
    pub next_tile_id: i32,
}

/// Gives rooms what their references stand for, and numbers their instances and
/// tiles.
#[verifier::spinoff_prover]
pub fn resolve_room_references(
    rooms: Vec<Room>,
    backgrounds: &NameIndex,
    objects: &NameIndex,
) -> (result: Result<ResolvedRooms, AssetError>)
    ensures
        match (result, rooms_fault(rooms@, backgrounds@, objects@)) {
            (Ok(resolved), None) => are_resolved_rooms(
                rooms@,
                resolved.rooms@,
                backgrounds@,
                objects@,
            ) && resolved.next_instance_id == id_after(
                ROOM_INSTANCE_ID_START,
                instances_before(rooms@, rooms@.len() as int),
            ) && resolved.next_tile_id == id_after(
                ROOM_TILE_ID_START,
                tiles_before(rooms@, rooms@.len() as int),
            ),
            (Err(error), Some(fault)) => error@ == fault,
            _ => false,
        },
{
    let ghost before = rooms@;
    let ghost faults = before.map_values(
        |room: Room| room_fault(room, backgrounds@, objects@),
    );
    let mut resolved = rooms;
    let mut next_instance_id = ROOM_INSTANCE_ID_START;
    let mut next_tile_id = ROOM_TILE_ID_START;
    let mut index: usize = 0;
    while index < resolved.len()
        invariant
            index <= resolved@.len(),
            resolved@.len() == before.len(),
            before == rooms@,
            next_instance_id == id_after(
                ROOM_INSTANCE_ID_START,
                instances_before(before, index as int),
            ),
            next_tile_id == id_after(ROOM_TILE_ID_START, tiles_before(before, index as int)),
            faults == before.map_values(
                |room: Room| room_fault(room, backgrounds@, objects@),
            ),
            forall|k: int| 0 <= k < index ==> (#[trigger] faults[k]) is None,
            forall|k: int|
                0 <= k < index ==> is_resolved_room(
                    before[k],
                    #[trigger] resolved@[k],
                    backgrounds@,
                    objects@,
                    id_after(ROOM_INSTANCE_ID_START, instances_before(before, k)),
                    id_after(ROOM_TILE_ID_START, tiles_before(before, k)),
                ),
            forall|k: int| index <= k < before.len() ==> (#[trigger] resolved@[k]) == before[k],
        decreases before.len() - index,
    {
        match resolve_room(
            &mut resolved[index],
            backgrounds,
            objects,
            next_instance_id,
            next_tile_id,
        ) {
            Err(error) => {
                proof {
                    assert(faults[index as int] == Some(error@));
                    lemma_first_fault(faults, index as int);
                }
                return Err(error);
            },
            Ok(next) => {
                proof {
                    assert(faults[index as int] is None);
                    lemma_id_after(
                        ROOM_INSTANCE_ID_START,
                        instances_before(before, index as int),
                        before[index as int].instances@.len(),
                    );
                    lemma_id_after(
                        ROOM_TILE_ID_START,
                        tiles_before(before, index as int),
                        before[index as int].tiles@.len(),
                    );
                }
                next_instance_id = next.0;
                next_tile_id = next.1;
            },
        }
        index += 1;
    }
    proof {
        lemma_no_fault(faults);
    }
    Ok(ResolvedRooms { rooms: resolved, next_instance_id, next_tile_id })
}

} // verus!
