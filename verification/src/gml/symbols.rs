//! The names of a project and what they stand for.

use vstd::prelude::*;

use crate::assets::{Assets, Shader};
use crate::gml::numbers::NumberText;
use crate::resources::{
    AudioGroup, Background, Extension, ExtensionFile, ExtensionFunction, Font, GameObject,
    GamePath, Room, RoomInstance, Script, Sound, Sprite, Timeline,
};
use crate::settings::{CompileConstant, ConstantSource};
use crate::text::{same_text, spelled};

verus! {

/// The number of a name.
#[derive(Debug, Clone, Copy, PartialEq, Eq, Hash, Structural)]
pub struct SymbolId(pub usize);

/// The kinds of resources that a name can stand for.
#[derive(Debug, Clone, Copy, PartialEq, Eq, Hash, Structural)]
pub enum ResourceType {
    Object,
    Sprite,
    Sound,
    Background,
    Path,
    Font,
    Timeline,
    Shader,
    Room,
    AudioGroup,
}

/// What a name stands for as a value.
#[derive(Debug, Clone, Copy, PartialEq, Eq, Structural)]
pub enum ValueSymbol {
    BuiltinConstant,
    ConfiguredConstant { index: usize, source: ConstantSource },
    Resource { kind: ResourceType, index: usize },
    RoomInstance { id: i32 },
    Script { index: usize },
    Enum { index: usize },
}

/// What a name stands for in a call.
#[derive(Debug, Clone, Copy, PartialEq, Eq, Structural)]
pub enum CallableSymbol {
    BuiltinFunction,
    ExtensionFunction { id: i32 },
    Script { index: usize },
}

/// What is known of a name. A value yields to one of the same or a higher
/// priority.
#[derive(Debug, Clone, Copy, PartialEq, Eq, Structural)]
pub struct SymbolInfo {
    pub value: Option<ValueSymbol>,
    pub callable: Option<CallableSymbol>,
    pub builtin_variable: bool,
    pub value_priority: u8,
}

/// A name of which nothing is known.
pub open spec fn unknown_symbol() -> SymbolInfo {
    SymbolInfo { value: None, callable: None, builtin_variable: false, value_priority: 0 }
}

/// An enumeration and the names of its members in order.
#[derive(Debug, Clone)]
pub struct EnumInfo {
    pub index: usize,
    pub members: Vec<SymbolId>,
}

/// An [`EnumInfo`] with its members as a sequence.
pub struct EnumView {
    pub index: int,
    pub members: Seq<SymbolId>,
}

impl View for EnumInfo {
    type V = EnumView;

    open spec fn view(&self) -> EnumView {
        EnumView { index: self.index as int, members: self.members@ }
    }
}

/// The last place of an item among the first `count`.
pub open spec fn last_place(items: Seq<SymbolId>, item: SymbolId, count: int) -> Option<int>
    decreases count,
{
    if count <= 0 {
        None
    } else if items[count - 1] == item {
        Some(count - 1)
    } else {
        last_place(items, item, count - 1)
    }
}

impl EnumView {
    /// The index of a member. Of members with the same name the last one
    /// counts.
    pub open spec fn member(self, name: SymbolId) -> Option<int> {
        last_place(self.members, name, self.members.len() as int)
    }
}

impl EnumInfo {
    /// Returns the index of a member.
    pub fn member(&self, name: SymbolId) -> (index: Option<usize>)
        ensures
            match index {
                Some(index) => self@.member(name) == Some(index as int) && index
                    < self.members@.len(),
                None => self@.member(name) is None,
            },
    {
        let mut count: usize = self.members.len();
        while count > 0
            invariant
                count <= self.members.len(),
                self@.member(name) == last_place(self.members@, name, count as int),
            decreases count,
        {
            if self.members[count - 1] == name {
                return Some(count - 1);
            }
            count -= 1;
        }
        None
    }
}

/// The first place of a text among texts, from an index on.
pub open spec fn place_from(names: Seq<Seq<char>>, name: Seq<char>, index: int) -> Option<int>
    decreases names.len() - index,
{
    if index < 0 || index >= names.len() {
        None
    } else if names[index] == name {
        Some(index)
    } else {
        place_from(names, name, index + 1)
    }
}

pub proof fn lemma_place_from(names: Seq<Seq<char>>, name: Seq<char>, index: int)
    requires
        0 <= index,
    ensures
        match place_from(names, name, index) {
            Some(place) => index <= place < names.len() && names[place] == name,
            None => forall|k: int| index <= k < names.len() ==> names[k] != name,
        },
    decreases names.len() - index,
{
    if index < names.len() && names[index] != name {
        lemma_place_from(names, name, index + 1);
    }
}

/// The names of a project, numbered, with what is known of each and the
/// enumerations by their names.
pub struct SymbolTable {
    pub names: Seq<Seq<char>>,
    pub info: Seq<SymbolInfo>,
    pub enums: Seq<(SymbolId, EnumView)>,
}

/// The place of an enumeration, from an index on.
pub open spec fn enum_from(
    enums: Seq<(SymbolId, EnumView)>,
    name: SymbolId,
    index: int,
) -> Option<int>
    decreases enums.len() - index,
{
    if index < 0 || index >= enums.len() {
        None
    } else if enums[index].0 == name {
        Some(index)
    } else {
        enum_from(enums, name, index + 1)
    }
}

pub proof fn lemma_enum_from(enums: Seq<(SymbolId, EnumView)>, name: SymbolId, index: int)
    requires
        0 <= index,
    ensures
        enum_from(enums, name, index) matches Some(place) ==> index <= place < enums.len()
            && enums[place].0 == name,
    decreases enums.len() - index,
{
    if index < enums.len() && enums[index].0 != name {
        lemma_enum_from(enums, name, index + 1);
    }
}

impl SymbolTable {
    /// Whether each name is there once and has its information.
    pub open spec fn valid(self) -> bool {
        &&& self.names.no_duplicates()
        &&& self.names.len() == self.info.len()
        &&& self.names.len() <= usize::MAX
    }

    /// The number of a name.
    pub open spec fn id(self, name: Seq<char>) -> Option<SymbolId> {
        match place_from(self.names, name, 0) {
            Some(place) => Some(SymbolId(place as usize)),
            None => None,
        }
    }

    /// Whether a name is numbered.
    pub open spec fn knows(self, name: Seq<char>) -> bool {
        place_from(self.names, name, 0) is Some
    }

    /// The number of a name that is numbered.
    pub open spec fn number(self, name: Seq<char>) -> SymbolId {
        self.id(name).unwrap()
    }

    /// What is known of a number.
    pub open spec fn known(self, id: SymbolId) -> SymbolInfo {
        self.info[id.0 as int]
    }

    /// The enumeration of a name.
    pub open spec fn enumeration(self, id: SymbolId) -> Option<EnumView> {
        match enum_from(self.enums, id, 0) {
            Some(place) => Some(self.enums[place].1),
            None => None,
        }
    }

    /// The table with a name numbered.
    pub open spec fn interned(self, name: Seq<char>) -> SymbolTable {
        if self.knows(name) {
            self
        } else {
            SymbolTable {
                names: self.names.push(name),
                info: self.info.push(unknown_symbol()),
                ..self
            }
        }
    }

    /// The table with another information on a number.
    pub open spec fn with_info(self, id: SymbolId, info: SymbolInfo) -> SymbolTable {
        SymbolTable { info: self.info.update(id.0 as int, info), ..self }
    }

    /// The table with a value for a number, unless it has one of a higher
    /// priority.
    pub open spec fn with_value(
        self,
        id: SymbolId,
        value: ValueSymbol,
        priority: u8,
    ) -> SymbolTable {
        let info = self.known(id);
        if priority >= info.value_priority {
            self.with_info(
                id,
                SymbolInfo { value: Some(value), value_priority: priority, ..info },
            )
        } else {
            self
        }
    }

    /// The table with a callable for a number.
    pub open spec fn with_callable(self, id: SymbolId, callable: CallableSymbol) -> SymbolTable {
        self.with_info(id, SymbolInfo { callable: Some(callable), ..self.known(id) })
    }

    /// The table with a number that is a variable of the runner.
    pub open spec fn with_variable(self, id: SymbolId) -> SymbolTable {
        self.with_info(id, SymbolInfo { builtin_variable: true, ..self.known(id) })
    }

    /// The table with an enumeration in the place of one of the same name.
    pub open spec fn with_enum(self, name: SymbolId, members: Seq<SymbolId>) -> SymbolTable {
        let index = self.enums.len() as int;
        let entry = (name, EnumView { index, members });
        SymbolTable {
            enums: match enum_from(self.enums, name, 0) {
                Some(place) => self.enums.update(place, entry),
                None => self.enums.push(entry),
            },
            ..self
        }.with_value(name, ValueSymbol::Enum { index: index as usize }, 35)
    }
}

/// Numbering a name keeps a table valid and the numbers of all others.
pub proof fn law_interning_keeps_numbers(table: SymbolTable, name: Seq<char>, other: Seq<char>)
    requires
        table.valid(),
    ensures
        table.interned(name).knows(name),
        table.knows(other) ==> table.interned(name).knows(other) && table.interned(name).number(
            other,
        ) == table.number(other) && table.interned(name).known(table.number(other))
            == table.known(table.number(other)),
        table.interned(name).names.no_duplicates(),
        table.interned(name).interned(name) == table.interned(name),
        table.knows(other) ==> table.names[table.number(other).0 as int] == other,
{
    let after = table.interned(name);
    lemma_place_from(table.names, name, 0);
    lemma_place_from(table.names, other, 0);
    lemma_place_from(after.names, name, 0);
    lemma_place_from(after.names, other, 0);
    if !table.knows(name) {
        assert(after.names[table.names.len() as int] == name);
        assert forall|i: int, j: int|
            0 <= i < after.names.len() && 0 <= j < after.names.len() && i != j implies
            after.names[i] != after.names[j] by {
            if i == table.names.len() {
                assert(table.names[j] != name);
            } else if j == table.names.len() {
                assert(table.names[i] != name);
            }
        }
        if table.knows(other) {
            let place = place_from(table.names, other, 0).unwrap();
            assert(after.names[place] == other);
        }
    }
}

/// The names of a project and what they stand for.
#[derive(Debug)]
pub struct Symbols {
    names: Vec<String>,
    info: Vec<SymbolInfo>,
    enums: Vec<(SymbolId, EnumInfo)>,
}

impl View for Symbols {
    type V = SymbolTable;

    closed spec fn view(&self) -> SymbolTable {
        SymbolTable {
            names: spelled(self.names@),
            info: self.info@,
            enums: self.enums@.map_values(|entry: (SymbolId, EnumInfo)| (entry.0, entry.1@)),
        }
    }
}

/// A table without names.
pub open spec fn empty_table() -> SymbolTable {
    SymbolTable { names: seq![], info: seq![], enums: seq![] }
}

impl Symbols {
    /// Makes a table without names.
    pub fn new() -> (symbols: Self)
        ensures
            symbols@ == empty_table(),
            symbols@.valid(),
    {
        let symbols = Symbols { names: Vec::new(), info: Vec::new(), enums: Vec::new() };
        assert(symbols@.names =~= seq![]);
        assert(symbols@.enums =~= seq![]);
        symbols
    }

    /// Returns the number of names.
    pub fn len(&self) -> (count: usize)
        ensures
            count == self@.names.len(),
    {
        self.names.len()
    }

    /// Returns whether there are no names.
    pub fn is_empty(&self) -> (empty: bool)
        ensures
            empty == (self@.names.len() == 0),
    {
        self.names.len() == 0
    }

    /// Returns the number of a name.
    pub fn id(&self, name: &str) -> (id: Option<SymbolId>)
        ensures
            id == self@.id(name@),
            id matches Some(id) ==> id.0 < self@.names.len() && self@.names[id.0 as int] == name@,
    {
        let ghost names = self@.names;
        let mut index: usize = 0;
        while index < self.names.len()
            invariant
                index <= self.names.len(),
                names == self@.names,
                place_from(names, name@, 0) == place_from(names, name@, index as int),
            decreases self.names.len() - index,
        {
            assert(names[index as int] == self.names@[index as int]@);
            if same_text(self.names[index].as_str(), name) {
                return Some(SymbolId(index));
            }
            index += 1;
        }
        None
    }

    /// Returns the name with a number.
    pub fn name(&self, id: SymbolId) -> (name: &str)
        requires
            id.0 < self@.names.len(),
        ensures
            name@ == self@.names[id.0 as int],
    {
        self.names[id.0].as_str()
    }

    /// Returns what is known of a number.
    pub fn info(&self, id: SymbolId) -> (info: SymbolInfo)
        requires
            self@.valid(),
            id.0 < self@.names.len(),
        ensures
            info == self@.known(id),
    {
        self.info[id.0]
    }

    fn enum_place(&self, name: SymbolId) -> (place: Option<usize>)
        ensures
            match place {
                Some(place) => enum_from(self@.enums, name, 0) == Some(place as int) && place
                    < self.enums@.len(),
                None => enum_from(self@.enums, name, 0) is None,
            },
    {
        let ghost enums = self@.enums;
        let mut index: usize = 0;
        while index < self.enums.len()
            invariant
                index <= self.enums.len(),
                enums == self@.enums,
                enum_from(enums, name, 0) == enum_from(enums, name, index as int),
            decreases self.enums.len() - index,
        {
            assert(enums[index as int].0 == self.enums@[index as int].0);
            if self.enums[index].0 == name {
                return Some(index);
            }
            index += 1;
        }
        None
    }

    /// Returns the enumeration with a name.
    pub fn enum_info(&self, id: SymbolId) -> (info: Option<&EnumInfo>)
        ensures
            match info {
                Some(info) => self@.enumeration(id) == Some(info@),
                None => self@.enumeration(id) is None,
            },
    {
        match self.enum_place(id) {
            Some(place) => {
                assert(self@.enums[place as int].1 == self.enums@[place as int].1@);
                Some(&self.enums[place].1)
            },
            None => None,
        }
    }

    /// Numbers a name, unless it is, and returns its number.
    pub fn intern(&mut self, name: &str) -> (id: SymbolId)
        requires
            old(self)@.valid(),
        ensures
            final(self)@ == old(self)@.interned(name@),
            final(self)@.valid(),
            final(self)@.id(name@) == Some(id),
            id.0 < final(self)@.names.len(),
            final(self)@.names[id.0 as int] == name@,
    {
        if let Some(id) = self.id(name) {
            return id;
        }
        proof {
            law_interning_keeps_numbers(self@, name@, name@);
        }
        let ghost before = self@;
        let id = SymbolId(self.names.len());
        self.names.push(name.to_owned());
        self.info.push(
            SymbolInfo { value: None, callable: None, builtin_variable: false, value_priority: 0 },
        );
        assert(self@.names =~= before.names.push(name@));
        assert(self@ == before.interned(name@));
        proof {
            lemma_place_from(self@.names, name@, 0);
            assert(self.names.len() <= usize::MAX);
            assert(self@.names[id.0 as int] == name@);
        }
        id
    }

    /// Gives a number a value, unless it has one of a higher priority.
    pub fn set_value(&mut self, id: SymbolId, value: ValueSymbol, priority: u8)
        requires
            old(self)@.valid(),
            id.0 < old(self)@.names.len(),
        ensures
            final(self)@ == old(self)@.with_value(id, value, priority),
            final(self)@.valid(),
            final(self)@.names == old(self)@.names,
    {
        let info = self.info[id.0];
        if priority >= info.value_priority {
            self.info.set(
                id.0,
                SymbolInfo {
                    value: Some(value),
                    callable: info.callable,
                    builtin_variable: info.builtin_variable,
                    value_priority: priority,
                },
            );
        }
    }

    /// Gives a number a callable.
    pub fn set_callable(&mut self, id: SymbolId, callable: CallableSymbol)
        requires
            old(self)@.valid(),
            id.0 < old(self)@.names.len(),
        ensures
            final(self)@ == old(self)@.with_callable(id, callable),
            final(self)@.valid(),
            final(self)@.names == old(self)@.names,
    {
        let info = self.info[id.0];
        self.info.set(
            id.0,
            SymbolInfo {
                value: info.value,
                callable: Some(callable),
                builtin_variable: info.builtin_variable,
                value_priority: info.value_priority,
            },
        );
    }

    /// Makes a number a variable of the runner.
    pub fn set_builtin_variable(&mut self, id: SymbolId)
        requires
            old(self)@.valid(),
            id.0 < old(self)@.names.len(),
        ensures
            final(self)@ == old(self)@.with_variable(id),
            final(self)@.valid(),
            final(self)@.names == old(self)@.names,
    {
        let info = self.info[id.0];
        self.info.set(
            id.0,
            SymbolInfo {
                value: info.value,
                callable: info.callable,
                builtin_variable: true,
                value_priority: info.value_priority,
            },
        );
    }

    /// Defines an enumeration.
    pub fn define_enum(&mut self, name: SymbolId, members: Vec<SymbolId>)
        requires
            old(self)@.valid(),
            name.0 < old(self)@.names.len(),
        ensures
            final(self)@ == old(self)@.with_enum(name, members@),
            final(self)@.valid(),
            final(self)@.names == old(self)@.names,
    {
        let ghost before = self@;
        let index = self.enums.len();
        let entry = (name, EnumInfo { index, members });
        assert(before.enums.len() == index);
        match self.enum_place(name) {
            Some(place) => {
                self.enums.set(place, entry);
                assert(self@.enums =~= before.enums.update(place as int, (entry.0, entry.1@)));
            },
            None => {
                self.enums.push(entry);
                assert(self@.enums =~= before.enums.push((entry.0, entry.1@)));
            },
        }
        self.set_value(name, ValueSymbol::Enum { index }, 35);
    }
}

/// The classes of functions that a function belongs to, as bits.
#[derive(Debug, Clone, PartialEq, Eq)]
pub struct FunctionClass {
    pub name: String,
    pub flags: u64,
}

/// What the runner defines: its functions, constants and variables, the values
/// of constants, which variables belong to instances and which are arrays, and
/// the classes of functions.
#[derive(Debug, Clone)]
pub struct Builtins {
    pub functions: Vec<String>,
    pub constants: Vec<String>,
    pub variables: Vec<String>,
    pub constant_values: Vec<NumberText>,
    pub instance_variables: Vec<String>,
    pub array_variables: Vec<String>,
    pub function_classes: Vec<FunctionClass>,
    pub baseline: u64,
}

/// A name that a project defines, with what it stands for.
pub enum Entry {
    Function { name: Seq<char> },
    Constant { name: Seq<char> },
    Variable { name: Seq<char> },
    ExtensionFunction { name: Seq<char>, id: i32 },
    Script { name: Seq<char>, index: usize },
    Value { name: Seq<char>, value: ValueSymbol, priority: u8 },
}

/// The table with an entry. An extension function does not hide a script.
pub open spec fn with_entry(table: SymbolTable, entry: Entry) -> SymbolTable {
    match entry {
        Entry::Function { name } => {
            let table = table.interned(name);
            table.with_callable(table.number(name), CallableSymbol::BuiltinFunction)
        },
        Entry::Constant { name } => {
            let table = table.interned(name);
            table.with_value(table.number(name), ValueSymbol::BuiltinConstant, 10)
        },
        Entry::Variable { name } => {
            let table = table.interned(name);
            table.with_variable(table.number(name))
        },
        Entry::ExtensionFunction { name, id } => {
            let table = table.interned(name);
            let number = table.number(name);
            if table.known(number).callable is Some && table.known(number).callable.unwrap() is Script {
                table
            } else {
                table.with_callable(number, CallableSymbol::ExtensionFunction { id })
            }
        },
        Entry::Script { name, index } => {
            let table = table.interned(name);
            let number = table.number(name);
            table.with_callable(number, CallableSymbol::Script { index }).with_value(
                number,
                ValueSymbol::Script { index },
                5,
            )
        },
        Entry::Value { name, value, priority } => {
            let table = table.interned(name);
            table.with_value(table.number(name), value, priority)
        },
    }
}

/// The table with a list of entries.
pub open spec fn with_entries(table: SymbolTable, entries: Seq<Entry>) -> SymbolTable
    decreases entries.len(),
{
    if entries.len() == 0 {
        table
    } else {
        with_entry(with_entries(table, entries.drop_last()), entries.last())
    }
}

/// Entries that stand one behind the other are entered one behind the other.
pub proof fn lemma_with_entries(table: SymbolTable, first: Seq<Entry>, second: Seq<Entry>)
    ensures
        with_entries(table, first + second) == with_entries(with_entries(table, first), second),
    decreases second.len(),
{
    if second.len() == 0 {
        assert(first + second =~= first);
    } else {
        assert((first + second).drop_last() =~= first + second.drop_last());
        assert((first + second).last() == second.last());
        lemma_with_entries(table, first, second.drop_last());
    }
}

proof fn lemma_next_entry(table: SymbolTable, entries: Seq<Entry>, index: int)
    requires
        0 <= index < entries.len(),
    ensures
        with_entries(table, entries.take(index + 1)) == with_entry(
            with_entries(table, entries.take(index)),
            entries[index],
        ),
{
    assert(entries.take(index + 1).drop_last() =~= entries.take(index));
}

/// The entries of a list of items.
pub open spec fn entries_of<T>(items: Seq<T>, entry: spec_fn(int, T) -> Entry) -> Seq<Entry> {
    Seq::new(items.len(), |index: int| entry(index, items[index]))
}

/// The entry of a resource.
pub open spec fn resource_entry(name: Seq<char>, kind: ResourceType, index: usize) -> Entry {
    Entry::Value { name, value: ValueSymbol::Resource { kind, index }, priority: 40 }
}

/// The entries of the functions of the first `count` files of an extension
/// that are enabled.
pub open spec fn file_entries(files: Seq<ExtensionFile>, count: int) -> Seq<Entry>
    decreases count,
{
    if count <= 0 {
        seq![]
    } else {
        let before = file_entries(files, count - 1);
        let file = files[count - 1];
        if file.enabled {
            before + entries_of(
                file.functions@,
                |index: int, function: ExtensionFunction|
                    Entry::ExtensionFunction { name: function.name@, id: function.id },
            )
        } else {
            before
        }
    }
}

/// The entries of the functions of the first `count` extensions that are
/// enabled.
pub open spec fn extension_entries(extensions: Seq<Extension>, count: int) -> Seq<Entry>
    decreases count,
{
    if count <= 0 {
        seq![]
    } else {
        let before = extension_entries(extensions, count - 1);
        let extension = extensions[count - 1];
        if extension.enabled {
            before + file_entries(extension.files@, extension.files@.len() as int)
        } else {
            before
        }
    }
}

/// The entries of the first `count` rooms and their instances.
pub open spec fn room_entries(rooms: Seq<Room>, count: int) -> Seq<Entry>
    decreases count,
{
    if count <= 0 {
        seq![]
    } else {
        let room = rooms[count - 1];
        room_entries(rooms, count - 1) + seq![
            resource_entry(room.name@, ResourceType::Room, room.index),
        ] + instance_entries(room.instances@)
    }
}

/// The entries of the instances of a room.
pub open spec fn instance_entries(instances: Seq<RoomInstance>) -> Seq<Entry> {
    entries_of(
        instances,
        |index: int, instance: RoomInstance|
            Entry::Value {
                name: instance.name@,
                value: ValueSymbol::RoomInstance { id: instance.id },
                priority: 40,
            },
    )
}

impl Symbols {
    fn add_value(&mut self, name: &str, value: ValueSymbol, priority: u8)
        requires
            old(self)@.valid(),
        ensures
            final(self)@ == with_entry(
                old(self)@,
                (Entry::Value { name: name@, value, priority }),
            ),
            final(self)@.valid(),
    {
        let id = self.intern(name);
        self.set_value(id, value, priority);
    }

    fn add_resource(&mut self, name: &str, kind: ResourceType, index: usize)
        requires
            old(self)@.valid(),
        ensures
            final(self)@ == with_entry(old(self)@, resource_entry(name@, kind, index)),
            final(self)@.valid(),
    {
        self.add_value(name, ValueSymbol::Resource { kind, index }, 40);
    }

    /// Adds a script under its name.
    pub fn add_script(&mut self, name: &str, index: usize)
        requires
            old(self)@.valid(),
        ensures
            final(self)@ == with_entry(old(self)@, (Entry::Script { name: name@, index })),
            final(self)@.valid(),
    {
        let id = self.intern(name);
        self.set_callable(id, CallableSymbol::Script { index });
        self.set_value(id, ValueSymbol::Script { index }, 5);
    }

    fn add_extension_function(&mut self, name: &str, number: i32)
        requires
            old(self)@.valid(),
        ensures
            final(self)@ == with_entry(
                old(self)@,
                (Entry::ExtensionFunction { name: name@, id: number }),
            ),
            final(self)@.valid(),
    {
        let id = self.intern(name);
        match self.info(id).callable {
            Some(CallableSymbol::Script { .. }) => {},
            _ => {
                self.set_callable(id, CallableSymbol::ExtensionFunction { id: number });
            },
        }
    }
}

/// The entries of what the runner defines.
pub open spec fn builtin_entries(builtins: Builtins) -> Seq<Entry> {
    entries_of(
        builtins.functions@,
        |index: int, name: String| Entry::Function { name: name@ },
    ) + entries_of(builtins.constants@, |index: int, name: String| Entry::Constant { name: name@ })
        + entries_of(builtins.variables@, |index: int, name: String| Entry::Variable { name: name@ })
}

/// The entries of the configured constants.
pub open spec fn constant_entries(constants: Seq<CompileConstant>) -> Seq<Entry> {
    entries_of(
        constants,
        |index: int, constant: CompileConstant|
            Entry::Value {
                name: constant.name@,
                value: ValueSymbol::ConfiguredConstant {
                    index: index as usize,
                    source: constant.source,
                },
                priority: 30,
            },
    )
}

/// The entries of the scripts.
pub open spec fn script_entries(scripts: Seq<Script>) -> Seq<Entry> {
    entries_of(
        scripts,
        |index: int, script: Script| Entry::Script { name: script.name@, index: script.index },
    )
}

/// The entries of the objects.
pub open spec fn object_entries(objects: Seq<GameObject>) -> Seq<Entry> {
    entries_of(
        objects,
        |index: int, object: GameObject|
            resource_entry(object.name@, ResourceType::Object, object.index),
    )
}

/// The entries of the sprites.
pub open spec fn sprite_entries(sprites: Seq<Sprite>) -> Seq<Entry> {
    entries_of(
        sprites,
        |index: int, sprite: Sprite|
            resource_entry(sprite.name@, ResourceType::Sprite, sprite.index),
    )
}

/// The entries of the sounds.
pub open spec fn sound_entries(sounds: Seq<Sound>) -> Seq<Entry> {
    entries_of(
        sounds,
        |index: int, sound: Sound|
            resource_entry(sound.name@, ResourceType::Sound, sound.index),
    )
}

/// The entries of the backgrounds.
pub open spec fn background_entries(backgrounds: Seq<Background>) -> Seq<Entry> {
    entries_of(
        backgrounds,
        |index: int, background: Background|
            resource_entry(background.name@, ResourceType::Background, background.index),
    )
}

/// The entries of the paths.
pub open spec fn path_entries(paths: Seq<GamePath>) -> Seq<Entry> {
    entries_of(
        paths,
        |index: int, path: GamePath|
            resource_entry(path.name@, ResourceType::Path, path.index),
    )
}

/// The entries of the fonts.
pub open spec fn font_entries(fonts: Seq<Font>) -> Seq<Entry> {
    entries_of(
        fonts,
        |index: int, font: Font|
            resource_entry(font.name@, ResourceType::Font, font.index),
    )
}

/// The entries of the timelines.
pub open spec fn timeline_entries(timelines: Seq<Timeline>) -> Seq<Entry> {
    entries_of(
        timelines,
        |index: int, timeline: Timeline|
            resource_entry(timeline.name@, ResourceType::Timeline, timeline.index),
    )
}

/// The entries of the shaders.
pub open spec fn shader_entries(shaders: Seq<Shader>) -> Seq<Entry> {
    entries_of(
        shaders,
        |index: int, shader: Shader|
            resource_entry(shader.name@, ResourceType::Shader, shader.index),
    )
}

/// The entries of the audio groups.
pub open spec fn group_entries(audio_groups: Seq<AudioGroup>) -> Seq<Entry> {
    entries_of(
        audio_groups,
        |index: int, group: AudioGroup|
            resource_entry(group.name@, ResourceType::AudioGroup, group.index),
    )
}

/// The names that a project defines, in the order in which they are entered.
pub open spec fn project_entries(assets: Assets, builtins: Builtins) -> Seq<Entry> {
    builtin_entries(builtins) + constant_entries(assets.constants@) + extension_entries(
        assets.extensions@,
        assets.extensions@.len() as int,
    ) + script_entries(assets.scripts@) + object_entries(assets.objects@) + sprite_entries(
        assets.sprites@,
    ) + sound_entries(assets.sounds@) + background_entries(assets.backgrounds@) + path_entries(
        assets.paths@,
    ) + font_entries(assets.fonts@) + timeline_entries(assets.timelines@) + shader_entries(
        assets.shaders@,
    ) + room_entries(assets.rooms@, assets.rooms@.len() as int) + group_entries(
        assets.audio_groups@,
    )
}

impl Symbols {
    fn add_functions(&mut self, names: &Vec<String>)
        requires
            old(self)@.valid(),
        ensures
            final(self)@ == with_entries(old(self)@, entries_of(
                names@,
                |index: int, name: String| Entry::Function { name: name@ },
            )),
            final(self)@.valid(),
    {
        let ghost begin = self@;
        let ghost entries = entries_of(
                names@,
                |index: int, name: String| Entry::Function { name: name@ },
            );
        let mut index: usize = 0;
        assert(entries.take(0) =~= seq![]);
        while index < names.len()
            invariant
                index <= names.len(),
                entries == entries_of(
                names@,
                |index: int, name: String| Entry::Function { name: name@ },
            ),
                self@.valid(),
                self@ == with_entries(begin, entries.take(index as int)),
            decreases names.len() - index,
        {
            proof {
                lemma_next_entry(begin, entries, index as int);
            }
            let id = self.intern(names[index].as_str());
            self.set_callable(id, CallableSymbol::BuiltinFunction);
            index += 1;
        }
        assert(entries.take(index as int) =~= entries);
    }

    fn add_constants(&mut self, names: &Vec<String>)
        requires
            old(self)@.valid(),
        ensures
            final(self)@ == with_entries(old(self)@, entries_of(
                names@,
                |index: int, name: String| Entry::Constant { name: name@ },
            )),
            final(self)@.valid(),
    {
        let ghost begin = self@;
        let ghost entries = entries_of(
                names@,
                |index: int, name: String| Entry::Constant { name: name@ },
            );
        let mut index: usize = 0;
        assert(entries.take(0) =~= seq![]);
        while index < names.len()
            invariant
                index <= names.len(),
                entries == entries_of(
                names@,
                |index: int, name: String| Entry::Constant { name: name@ },
            ),
                self@.valid(),
                self@ == with_entries(begin, entries.take(index as int)),
            decreases names.len() - index,
        {
            proof {
                lemma_next_entry(begin, entries, index as int);
            }
            let id = self.intern(names[index].as_str());
            self.set_value(id, ValueSymbol::BuiltinConstant, 10);
            index += 1;
        }
        assert(entries.take(index as int) =~= entries);
    }

    fn add_variables(&mut self, names: &Vec<String>)
        requires
            old(self)@.valid(),
        ensures
            final(self)@ == with_entries(old(self)@, entries_of(
                names@,
                |index: int, name: String| Entry::Variable { name: name@ },
            )),
            final(self)@.valid(),
    {
        let ghost begin = self@;
        let ghost entries = entries_of(
                names@,
                |index: int, name: String| Entry::Variable { name: name@ },
            );
        let mut index: usize = 0;
        assert(entries.take(0) =~= seq![]);
        while index < names.len()
            invariant
                index <= names.len(),
                entries == entries_of(
                names@,
                |index: int, name: String| Entry::Variable { name: name@ },
            ),
                self@.valid(),
                self@ == with_entries(begin, entries.take(index as int)),
            decreases names.len() - index,
        {
            proof {
                lemma_next_entry(begin, entries, index as int);
            }
            let id = self.intern(names[index].as_str());
            self.set_builtin_variable(id);
            index += 1;
        }
        assert(entries.take(index as int) =~= entries);
    }

    fn add_configured(&mut self, constants: &Vec<CompileConstant>)
        requires
            old(self)@.valid(),
        ensures
            final(self)@ == with_entries(old(self)@, constant_entries(constants@)),
            final(self)@.valid(),
    {
        let ghost begin = self@;
        let ghost entries = constant_entries(constants@);
        let mut index: usize = 0;
        assert(entries.take(0) =~= seq![]);
        while index < constants.len()
            invariant
                index <= constants.len(),
                entries == constant_entries(constants@),
                self@.valid(),
                self@ == with_entries(begin, entries.take(index as int)),
            decreases constants.len() - index,
        {
            proof {
                lemma_next_entry(begin, entries, index as int);
            }
            let source = constants[index].source;
            self.add_value(
                constants[index].name.as_str(),
                ValueSymbol::ConfiguredConstant { index, source },
                30,
            );
            index += 1;
        }
        assert(entries.take(index as int) =~= entries);
    }

    fn add_extension_functions(&mut self, functions: &Vec<ExtensionFunction>)
        requires
            old(self)@.valid(),
        ensures
            final(self)@ == with_entries(old(self)@, entries_of(
                functions@,
                |index: int, function: ExtensionFunction|
                    Entry::ExtensionFunction { name: function.name@, id: function.id },
            )),
            final(self)@.valid(),
    {
        let ghost begin = self@;
        let ghost entries = entries_of(
                functions@,
                |index: int, function: ExtensionFunction|
                    Entry::ExtensionFunction { name: function.name@, id: function.id },
            );
        let mut index: usize = 0;
        assert(entries.take(0) =~= seq![]);
        while index < functions.len()
            invariant
                index <= functions.len(),
                entries == entries_of(
                functions@,
                |index: int, function: ExtensionFunction|
                    Entry::ExtensionFunction { name: function.name@, id: function.id },
            ),
                self@.valid(),
                self@ == with_entries(begin, entries.take(index as int)),
            decreases functions.len() - index,
        {
            proof {
                lemma_next_entry(begin, entries, index as int);
            }
            self.add_extension_function(functions[index].name.as_str(), functions[index].id);
            index += 1;
        }
        assert(entries.take(index as int) =~= entries);
    }

    fn add_scripts(&mut self, scripts: &Vec<Script>)
        requires
            old(self)@.valid(),
        ensures
            final(self)@ == with_entries(old(self)@, script_entries(scripts@)),
            final(self)@.valid(),
    {
        let ghost begin = self@;
        let ghost entries = script_entries(scripts@);
        let mut index: usize = 0;
        assert(entries.take(0) =~= seq![]);
        while index < scripts.len()
            invariant
                index <= scripts.len(),
                entries == script_entries(scripts@),
                self@.valid(),
                self@ == with_entries(begin, entries.take(index as int)),
            decreases scripts.len() - index,
        {
            proof {
                lemma_next_entry(begin, entries, index as int);
            }
            self.add_script(scripts[index].name.as_str(), scripts[index].index);
            index += 1;
        }
        assert(entries.take(index as int) =~= entries);
    }

    fn add_objects(&mut self, objects: &Vec<GameObject>)
        requires
            old(self)@.valid(),
        ensures
            final(self)@ == with_entries(old(self)@, object_entries(objects@)),
            final(self)@.valid(),
    {
        let ghost begin = self@;
        let ghost entries = object_entries(objects@);
        let mut index: usize = 0;
        assert(entries.take(0) =~= seq![]);
        while index < objects.len()
            invariant
                index <= objects.len(),
                entries == object_entries(objects@),
                self@.valid(),
                self@ == with_entries(begin, entries.take(index as int)),
            decreases objects.len() - index,
        {
            proof {
                lemma_next_entry(begin, entries, index as int);
            }
            self.add_resource(
                objects[index].name.as_str(),
                ResourceType::Object,
                objects[index].index,
            );
            index += 1;
        }
        assert(entries.take(index as int) =~= entries);
    }

    fn add_sprites(&mut self, sprites: &Vec<Sprite>)
        requires
            old(self)@.valid(),
        ensures
            final(self)@ == with_entries(old(self)@, sprite_entries(sprites@)),
            final(self)@.valid(),
    {
        let ghost begin = self@;
        let ghost entries = sprite_entries(sprites@);
        let mut index: usize = 0;
        assert(entries.take(0) =~= seq![]);
        while index < sprites.len()
            invariant
                index <= sprites.len(),
                entries == sprite_entries(sprites@),
                self@.valid(),
                self@ == with_entries(begin, entries.take(index as int)),
            decreases sprites.len() - index,
        {
            proof {
                lemma_next_entry(begin, entries, index as int);
            }
            self.add_resource(
                sprites[index].name.as_str(),
                ResourceType::Sprite,
                sprites[index].index,
            );
            index += 1;
        }
        assert(entries.take(index as int) =~= entries);
    }

    fn add_sounds(&mut self, sounds: &Vec<Sound>)
        requires
            old(self)@.valid(),
        ensures
            final(self)@ == with_entries(old(self)@, sound_entries(sounds@)),
            final(self)@.valid(),
    {
        let ghost begin = self@;
        let ghost entries = sound_entries(sounds@);
        let mut index: usize = 0;
        assert(entries.take(0) =~= seq![]);
        while index < sounds.len()
            invariant
                index <= sounds.len(),
                entries == sound_entries(sounds@),
                self@.valid(),
                self@ == with_entries(begin, entries.take(index as int)),
            decreases sounds.len() - index,
        {
            proof {
                lemma_next_entry(begin, entries, index as int);
            }
            self.add_resource(
                sounds[index].name.as_str(),
                ResourceType::Sound,
                sounds[index].index,
            );
            index += 1;
        }
        assert(entries.take(index as int) =~= entries);
    }

    fn add_backgrounds(&mut self, backgrounds: &Vec<Background>)
        requires
            old(self)@.valid(),
        ensures
            final(self)@ == with_entries(old(self)@, background_entries(backgrounds@)),
            final(self)@.valid(),
    {
        let ghost begin = self@;
        let ghost entries = background_entries(backgrounds@);
        let mut index: usize = 0;
        assert(entries.take(0) =~= seq![]);
        while index < backgrounds.len()
            invariant
                index <= backgrounds.len(),
                entries == background_entries(backgrounds@),
                self@.valid(),
                self@ == with_entries(begin, entries.take(index as int)),
            decreases backgrounds.len() - index,
        {
            proof {
                lemma_next_entry(begin, entries, index as int);
            }
            self.add_resource(
                backgrounds[index].name.as_str(),
                ResourceType::Background,
                backgrounds[index].index,
            );
            index += 1;
        }
        assert(entries.take(index as int) =~= entries);
    }

    fn add_paths(&mut self, paths: &Vec<GamePath>)
        requires
            old(self)@.valid(),
        ensures
            final(self)@ == with_entries(old(self)@, path_entries(paths@)),
            final(self)@.valid(),
    {
        let ghost begin = self@;
        let ghost entries = path_entries(paths@);
        let mut index: usize = 0;
        assert(entries.take(0) =~= seq![]);
        while index < paths.len()
            invariant
                index <= paths.len(),
                entries == path_entries(paths@),
                self@.valid(),
                self@ == with_entries(begin, entries.take(index as int)),
            decreases paths.len() - index,
        {
            proof {
                lemma_next_entry(begin, entries, index as int);
            }
            self.add_resource(
                paths[index].name.as_str(),
                ResourceType::Path,
                paths[index].index,
            );
            index += 1;
        }
        assert(entries.take(index as int) =~= entries);
    }

    fn add_fonts(&mut self, fonts: &Vec<Font>)
        requires
            old(self)@.valid(),
        ensures
            final(self)@ == with_entries(old(self)@, font_entries(fonts@)),
            final(self)@.valid(),
    {
        let ghost begin = self@;
        let ghost entries = font_entries(fonts@);
        let mut index: usize = 0;
        assert(entries.take(0) =~= seq![]);
        while index < fonts.len()
            invariant
                index <= fonts.len(),
                entries == font_entries(fonts@),
                self@.valid(),
                self@ == with_entries(begin, entries.take(index as int)),
            decreases fonts.len() - index,
        {
            proof {
                lemma_next_entry(begin, entries, index as int);
            }
            self.add_resource(
                fonts[index].name.as_str(),
                ResourceType::Font,
                fonts[index].index,
            );
            index += 1;
        }
        assert(entries.take(index as int) =~= entries);
    }

    fn add_timelines(&mut self, timelines: &Vec<Timeline>)
        requires
            old(self)@.valid(),
        ensures
            final(self)@ == with_entries(old(self)@, timeline_entries(timelines@)),
            final(self)@.valid(),
    {
        let ghost begin = self@;
        let ghost entries = timeline_entries(timelines@);
        let mut index: usize = 0;
        assert(entries.take(0) =~= seq![]);
        while index < timelines.len()
            invariant
                index <= timelines.len(),
                entries == timeline_entries(timelines@),
                self@.valid(),
                self@ == with_entries(begin, entries.take(index as int)),
            decreases timelines.len() - index,
        {
            proof {
                lemma_next_entry(begin, entries, index as int);
            }
            self.add_resource(
                timelines[index].name.as_str(),
                ResourceType::Timeline,
                timelines[index].index,
            );
            index += 1;
        }
        assert(entries.take(index as int) =~= entries);
    }

    fn add_shaders(&mut self, shaders: &Vec<Shader>)
        requires
            old(self)@.valid(),
        ensures
            final(self)@ == with_entries(old(self)@, shader_entries(shaders@)),
            final(self)@.valid(),
    {
        let ghost begin = self@;
        let ghost entries = shader_entries(shaders@);
        let mut index: usize = 0;
        assert(entries.take(0) =~= seq![]);
        while index < shaders.len()
            invariant
                index <= shaders.len(),
                entries == shader_entries(shaders@),
                self@.valid(),
                self@ == with_entries(begin, entries.take(index as int)),
            decreases shaders.len() - index,
        {
            proof {
                lemma_next_entry(begin, entries, index as int);
            }
            self.add_resource(
                shaders[index].name.as_str(),
                ResourceType::Shader,
                shaders[index].index,
            );
            index += 1;
        }
        assert(entries.take(index as int) =~= entries);
    }

    fn add_audio_groups(&mut self, audio_groups: &Vec<AudioGroup>)
        requires
            old(self)@.valid(),
        ensures
            final(self)@ == with_entries(old(self)@, group_entries(audio_groups@)),
            final(self)@.valid(),
    {
        let ghost begin = self@;
        let ghost entries = group_entries(audio_groups@);
        let mut index: usize = 0;
        assert(entries.take(0) =~= seq![]);
        while index < audio_groups.len()
            invariant
                index <= audio_groups.len(),
                entries == group_entries(audio_groups@),
                self@.valid(),
                self@ == with_entries(begin, entries.take(index as int)),
            decreases audio_groups.len() - index,
        {
            proof {
                lemma_next_entry(begin, entries, index as int);
            }
            self.add_resource(
                audio_groups[index].name.as_str(),
                ResourceType::AudioGroup,
                audio_groups[index].index,
            );
            index += 1;
        }
        assert(entries.take(index as int) =~= entries);
    }

    fn add_instances(&mut self, instances: &Vec<RoomInstance>)
        requires
            old(self)@.valid(),
        ensures
            final(self)@ == with_entries(old(self)@, instance_entries(instances@)),
            final(self)@.valid(),
    {
        let ghost begin = self@;
        let ghost entries = instance_entries(instances@);
        let mut index: usize = 0;
        assert(entries.take(0) =~= seq![]);
        while index < instances.len()
            invariant
                index <= instances.len(),
                entries == instance_entries(instances@),
                self@.valid(),
                self@ == with_entries(begin, entries.take(index as int)),
            decreases instances.len() - index,
        {
            proof {
                lemma_next_entry(begin, entries, index as int);
            }
            self.add_value(
                instances[index].name.as_str(),
                ValueSymbol::RoomInstance { id: instances[index].id },
                40,
            );
            index += 1;
        }
        assert(entries.take(index as int) =~= entries);
    }

    fn add_extensions(&mut self, extensions: &Vec<Extension>)
        requires
            old(self)@.valid(),
        ensures
            final(self)@ == with_entries(
                old(self)@,
                extension_entries(extensions@, extensions@.len() as int),
            ),
            final(self)@.valid(),
    {
        let ghost begin = self@;
        let mut index: usize = 0;
        while index < extensions.len()
            invariant
                index <= extensions.len(),
                self@.valid(),
                self@ == with_entries(begin, extension_entries(extensions@, index as int)),
            decreases extensions.len() - index,
        {
            let files = &extensions[index].files;
            if extensions[index].enabled {
                let ghost middle = self@;
                let mut file: usize = 0;
                while file < files.len()
                    invariant
                        file <= files.len(),
                        self@.valid(),
                        self@ == with_entries(middle, file_entries(files@, file as int)),
                    decreases files.len() - file,
                {
                    if files[file].enabled {
                        self.add_extension_functions(&files[file].functions);
                        proof {
                            lemma_with_entries(
                                middle,
                                file_entries(files@, file as int),
                                entries_of(
                                    files@[file as int].functions@,
                                    |index: int, function: ExtensionFunction|
                                        Entry::ExtensionFunction {
                                            name: function.name@,
                                            id: function.id,
                                        },
                                ),
                            );
                        }
                    }
                    file += 1;
                }
                proof {
                    lemma_with_entries(
                        begin,
                        extension_entries(extensions@, index as int),
                        file_entries(files@, files@.len() as int),
                    );
                }
            }
            index += 1;
        }
    }

    fn add_rooms(&mut self, rooms: &Vec<Room>)
        requires
            old(self)@.valid(),
        ensures
            final(self)@ == with_entries(old(self)@, room_entries(rooms@, rooms@.len() as int)),
            final(self)@.valid(),
    {
        let ghost begin = self@;
        let mut index: usize = 0;
        while index < rooms.len()
            invariant
                index <= rooms.len(),
                self@.valid(),
                self@ == with_entries(begin, room_entries(rooms@, index as int)),
            decreases rooms.len() - index,
        {
            let room = &rooms[index];
            self.add_resource(room.name.as_str(), ResourceType::Room, room.index);
            self.add_instances(&room.instances);
            proof {
                let before = room_entries(rooms@, index as int);
                let entry = resource_entry(room.name@, ResourceType::Room, room.index);
                assert((before + seq![entry]).drop_last() =~= before);
                assert(with_entries(begin, before + seq![entry]) == with_entry(
                    with_entries(begin, before),
                    entry,
                ));
                lemma_with_entries(
                    begin,
                    before + seq![entry],
                    instance_entries(room.instances@),
                );
            }
            index += 1;
        }
    }

    /// Makes the table of the names that a project and the runner define.
    pub fn from_assets(assets: &Assets, builtins: &Builtins) -> (symbols: Self)
        ensures
            symbols@ == with_entries(empty_table(), project_entries(*assets, *builtins)),
            symbols@.valid(),
    {
        let mut symbols = Symbols::new();
        symbols.add_functions(&builtins.functions);
        symbols.add_constants(&builtins.constants);
        symbols.add_variables(&builtins.variables);
        symbols.add_configured(&assets.constants);
        symbols.add_extensions(&assets.extensions);
        symbols.add_scripts(&assets.scripts);
        symbols.add_objects(&assets.objects);
        symbols.add_sprites(&assets.sprites);
        symbols.add_sounds(&assets.sounds);
        symbols.add_backgrounds(&assets.backgrounds);
        symbols.add_paths(&assets.paths);
        symbols.add_fonts(&assets.fonts);
        symbols.add_timelines(&assets.timelines);
        symbols.add_shaders(&assets.shaders);
        symbols.add_rooms(&assets.rooms);
        symbols.add_audio_groups(&assets.audio_groups);
        proof {
            let table = empty_table();
            let functions = entries_of(
                builtins.functions@,
                |index: int, name: String| Entry::Function { name: name@ },
            );
            let constants = entries_of(
                builtins.constants@,
                |index: int, name: String| Entry::Constant { name: name@ },
            );
            let variables = entries_of(
                builtins.variables@,
                |index: int, name: String| Entry::Variable { name: name@ },
            );
            lemma_with_entries(table, functions, constants);
            lemma_with_entries(table, functions + constants, variables);
            let entries = builtin_entries(*builtins);
            assert(entries == functions + constants + variables);
            let next = constant_entries(assets.constants@);
            lemma_with_entries(table, entries, next);
            let entries = entries + next;
            let next = extension_entries(
                assets.extensions@,
                assets.extensions@.len() as int,
            );
            lemma_with_entries(table, entries, next);
            let entries = entries + next;
            let next = script_entries(assets.scripts@);
            lemma_with_entries(table, entries, next);
            let entries = entries + next;
            let next = object_entries(assets.objects@);
            lemma_with_entries(table, entries, next);
            let entries = entries + next;
            let next = sprite_entries(assets.sprites@);
            lemma_with_entries(table, entries, next);
            let entries = entries + next;
            let next = sound_entries(assets.sounds@);
            lemma_with_entries(table, entries, next);
            let entries = entries + next;
            let next = background_entries(assets.backgrounds@);
            lemma_with_entries(table, entries, next);
            let entries = entries + next;
            let next = path_entries(assets.paths@);
            lemma_with_entries(table, entries, next);
            let entries = entries + next;
            let next = font_entries(assets.fonts@);
            lemma_with_entries(table, entries, next);
            let entries = entries + next;
            let next = timeline_entries(assets.timelines@);
            lemma_with_entries(table, entries, next);
            let entries = entries + next;
            let next = shader_entries(assets.shaders@);
            lemma_with_entries(table, entries, next);
            let entries = entries + next;
            let next = room_entries(assets.rooms@, assets.rooms@.len() as int);
            lemma_with_entries(table, entries, next);
            let entries = entries + next;
            let next = group_entries(assets.audio_groups@);
            lemma_with_entries(table, entries, next);
            let entries = entries + next;
        }
        symbols
    }
}

} // verus!
