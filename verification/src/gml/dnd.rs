//! Drag-and-drop actions, lowered to GML.

use vstd::prelude::*;

use crate::resources::{action_views, Action, ActionArgument, ActionView, ArgumentView};
use crate::text::{
    begins_with, decimal, digits, ends_with, lemma_digits_tell_numbers_apart, replace, replaced,
    same_text, signed_decimal, signed_digits, trim, trimmed,
};

verus! {

/// Why a list of actions cannot be lowered.
#[derive(Debug, Clone, PartialEq, Eq)]
pub struct DndError {
    pub action: usize,
    pub message: String,
}

/// A [`DndError`] with its message as a sequence of characters.
pub struct Fault {
    pub action: int,
    pub message: Seq<char>,
}

impl View for DndError {
    type V = Fault;

    open spec fn view(&self) -> Fault {
        Fault { action: self.action as int, message: self.message@ }
    }
}

impl DndError {
    /// Returns the message behind the number of its action.
    pub fn text(&self) -> (text: String)
        ensures
            text@ == "action "@ + digits(self.action as nat, 10) + ": "@ + self.message@,
    {
        let mut text = "action ".to_owned();
        let number = decimal(self.action as u64);
        text.append(number.as_str());
        text.append(": ");
        text.append(self.message.as_str());
        text
    }
}

/// A script that stands for the code of a question.
#[derive(Debug, Clone, PartialEq, Eq)]
pub struct GeneratedScript {
    pub name: String,
    pub code: String,
}

/// A [`GeneratedScript`] as sequences of characters.
pub struct ScriptText {
    pub name: Seq<char>,
    pub code: Seq<char>,
}

impl View for GeneratedScript {
    type V = ScriptText;

    open spec fn view(&self) -> ScriptText {
        ScriptText { name: self.name@, code: self.code@ }
    }
}

/// What a list of generated scripts stands for.
pub open spec fn script_texts(scripts: Seq<GeneratedScript>) -> Seq<ScriptText> {
    scripts.map_values(|script: GeneratedScript| script@)
}

/// The GML of a list of actions.
#[derive(Debug, Clone, PartialEq, Eq)]
pub struct LoweredActions {
    pub code: String,
    pub scripts: Vec<GeneratedScript>,
}

/// What is lowered so far: the text, the generated scripts, the stack of
/// relative states, whether the condition variable is declared, and the number
/// of the next generated script.
pub struct Lowering {
    pub output: Seq<char>,
    pub scripts: Seq<ScriptText>,
    pub relative: Seq<bool>,
    pub condition_variable: bool,
    pub next_script: nat,
}

impl Lowering {
    /// The state with more text.
    pub open spec fn with(self, text: Seq<char>) -> Lowering {
        Lowering { output: self.output + text, ..self }
    }

    /// The state with more text if a condition holds.
    pub open spec fn with_if(self, condition: bool, text: Seq<char>) -> Lowering {
        if condition {
            self.with(text)
        } else {
            self
        }
    }
}

/// A step of the lowering: the state that it leads to and the index of the
/// action behind it, or what is wrong.
pub struct Step {
    pub state: Lowering,
    pub next: Result<int, Fault>,
}

/// A step to an action.
pub open spec fn step_to(state: Lowering, next: int) -> Step {
    Step { state, next: Ok(next) }
}

/// A step that fails at an action.
pub open spec fn step_fails(state: Lowering, action: int, message: Seq<char>) -> Step {
    Step { state, next: Err(Fault { action, message }) }
}

/// The index behind an action.
pub open spec fn behind(index: int, next: int) -> int {
    if next > index {
        next
    } else {
        index + 1
    }
}

/// The number of actions from an index on.
pub open spec fn remaining(actions: Seq<ActionView>, index: int) -> int {
    if index < actions.len() {
        actions.len() - index
    } else {
        0
    }
}

/// A flag as a digit.
pub open spec fn flag(value: bool) -> Seq<char> {
    if value {
        "1"@
    } else {
        "0"@
    }
}

/// The statement that sets the relative state.
pub open spec fn relative_text(value: bool) -> Seq<char> {
    "action_set_relative( "@ + flag(value) + " );\n"@
}

/// The negation of a condition.
pub open spec fn negation(action: ActionView) -> Seq<char> {
    if action.is_not {
        "!"@
    } else {
        ""@
    }
}

/// The prefix that applies an action to other instances: its text, whether it
/// needs a block, and whether a question must break out of it.
pub open spec fn apply_text(action: ActionView) -> Seq<char> {
    if !action.use_apply_to || action.who == -1 {
        seq![]
    } else if action.who == -2 {
        "with( other )\n"@
    } else {
        "with( "@ + signed_digits(action.who as int) + " )\n"@
    }
}

/// Whether an action applies to instances other than its own.
pub open spec fn applies_elsewhere(action: ActionView) -> bool {
    action.use_apply_to && action.who != -1
}

/// Whether an action applies to instances that are named by number.
pub open spec fn applies_by_number(action: ActionView) -> bool {
    action.use_apply_to && action.who != -1 && action.who != -2
}

/// Whether an action wants another relative state than the current one.
pub open spec fn relative_differs(state: Lowering, action: ActionView) -> bool {
    action.use_relative && state.relative.len() > 0 && state.relative.last() != action.relative
}

/// An argument of a function call: strings are put in quotes.
pub open spec fn function_argument_text(argument: ArgumentView) -> Seq<char> {
    let value = argument.value;
    if (argument.kind == 1 || argument.kind == 2) && !(value.len() > 0 && value[0] == '\'') && !(
    value.len() > 0 && value[0] == '"') {
        seq!['"'] + value + seq!['"']
    } else {
        value
    }
}

/// An argument that replaces its name in code: strings are put in quotes.
pub open spec fn code_argument_text(argument: ArgumentView) -> Seq<char> {
    let value = argument.value;
    if argument.kind == 1 && (!(value.len() > 0 && value[0] == '"') || !(value.len() > 0
        && value.last() == '"')) {
        seq!['"'] + value + seq!['"']
    } else {
        value
    }
}

/// The first `count` arguments of a function call.
pub open spec fn arguments_text(arguments: Seq<ArgumentView>, count: int) -> Seq<char>
    decreases count,
{
    if count <= 0 {
        seq![]
    } else if count == 1 {
        function_argument_text(arguments[0])
    } else {
        arguments_text(arguments, count - 1) + ", "@ + function_argument_text(
            arguments[count - 1],
        )
    }
}

/// The code that an action holds, if any: an assignment of a variable, the
/// code of an execute-code action, or its own code.
pub open spec fn code_of(action: ActionView) -> Option<Seq<char>> {
    if action.kind == 6 {
        if action.arguments.len() < 2 || trimmed(action.arguments[0].value).len() == 0 || trimmed(
            action.arguments[1].value,
        ).len() == 0 {
            None
        } else {
            Some(
                action.code + trimmed(action.arguments[0].value) + " "@ + (if action.relative {
                    "+="@
                } else {
                    "="@
                }) + " "@ + trimmed(action.arguments[1].value) + ";"@,
            )
        }
    } else if action.kind == 7 && action.arguments.len() > 0 {
        Some(action.arguments[0].value)
    } else if action.code.len() > 0 {
        Some(action.code)
    } else {
        None
    }
}

/// Code with the first `count` argument names replaced by the arguments.
pub open spec fn with_arguments(
    code: Seq<char>,
    arguments: Seq<ArgumentView>,
    count: int,
) -> Seq<char>
    decreases count,
{
    if count <= 0 {
        code
    } else {
        replaced(
            with_arguments(code, arguments, count - 1),
            "argument"@ + digits((count - 1) as nat, 10),
            code_argument_text(arguments[count - 1]),
        )
    }
}

/// The arguments of a script call: those that are not blank, each behind a
/// comma unless it is the first.
pub open spec fn script_arguments(arguments: Seq<ArgumentView>, count: int) -> Seq<char>
    decreases count,
{
    if count <= 1 {
        seq![]
    } else {
        let value = trimmed(arguments[count - 1].value);
        script_arguments(arguments, count - 1) + (if value.len() == 0 {
            seq![]
        } else if count - 1 >= 2 {
            seq![','] + value
        } else {
            value
        })
    }
}

/// The call of an execute-script action, or nothing where it names no script.
pub open spec fn script_call(action: ActionView) -> Option<Seq<char>> {
    if action.arguments.len() != 6 && action.arguments.len() != 8 {
        None
    } else {
        let script = trimmed(action.arguments[0].value);
        if script.len() == 0 {
            Some(seq![])
        } else {
            Some(
                apply_text(action) + script + "("@ + script_arguments(action.arguments, 6)
                    + ");\n"@,
            )
        }
    }
}

/// The name of a generated script.
pub open spec fn script_name_text(number: nat) -> Seq<char> {
    "__script"@ + digits(number, 10) + "__"@
}

/// The call of an action's function.
pub open spec fn call_text(name: Seq<char>, arguments: Seq<char>) -> Seq<char> {
    name + "( "@ + arguments + " );\n"@
}

/// What is wrong with an execute-script action that has the wrong number of
/// arguments.
pub open spec fn script_call_fault() -> Seq<char> {
    "action_execute_script requires six or eight arguments"@
}

/// The statement that computes a question's answer.
pub open spec fn question_step(actions: Seq<ActionView>, index: int, state: Lowering) -> Step {
    let action = actions[index];
    if action.execution_type == 1 && action.function_name == "action_execute_script"@ {
        match script_call(action) {
            None => step_fails(state.with("__b__ = "@), index, script_call_fault()),
            Some(text) => step_to(state.with("__b__ = "@).with(text), index),
        }
    } else if action.execution_type == 1 {
        step_to(
            state.with(
                "__b__ = "@ + call_text(
                    action.function_name,
                    arguments_text(action.arguments, action.arguments.len() as int),
                ),
            ),
            index,
        )
    } else if action.execution_type == 2 {
        match code_of(action) {
            None => step_fails(
                state,
                index,
                "code action does not contain executable code"@,
            ),
            Some(code) => {
                let name = script_name_text(state.next_script);
                let named = Lowering {
                    scripts: state.scripts.push(ScriptText { name, code }),
                    next_script: state.next_script + 1,
                    ..state
                };
                step_to(
                    named.with(
                        "__b__ = "@ + call_text(
                            name,
                            if action.kind == 6 || action.kind == 7 {
                                seq![]
                            } else {
                                arguments_text(action.arguments, action.arguments.len() as int)
                            },
                        ),
                    ),
                    index,
                )
            },
        }
    } else {
        step_fails(state, index, "question action has no executable function or code"@)
    }
}

/// The statement of an ordinary action.
pub open spec fn normal_expression_step(
    actions: Seq<ActionView>,
    index: int,
    state: Lowering,
) -> Step {
    let action = actions[index];
    if action.execution_type == 1 && action.function_name == "action_execute_script"@ {
        match script_call(action) {
            None => step_fails(state, index, script_call_fault()),
            Some(text) => step_to(state.with(text), index),
        }
    } else if action.execution_type == 1 {
        step_to(
            state.with(
                call_text(
                    action.function_name,
                    arguments_text(action.arguments, action.arguments.len() as int),
                ),
            ),
            index,
        )
    } else if action.execution_type == 2 {
        match code_of(action) {
            None => step_fails(state, index, "code action does not contain code"@),
            Some(code) => step_to(
                state.with(
                    (if action.kind == 6 || action.kind == 7 {
                        code
                    } else {
                        with_arguments(code, action.arguments, action.arguments.len() as int)
                    }) + "\n"@ + "/* */\n"@,
                ),
                index,
            ),
        }
    } else if action.execution_type == 0 {
        step_to(state, index)
    } else {
        step_fails(state, index, "unknown action execution type"@)
    }
}

/// The state with the relative state that an action wants.
pub open spec fn relative_pushed(state: Lowering, action: ActionView) -> Lowering {
    if relative_differs(state, action) {
        Lowering {
            relative: state.relative.push(action.relative),
            ..state.with(relative_text(action.relative))
        }
    } else {
        state
    }
}

/// The state with the relative state from before an action.
pub open spec fn relative_popped(state: Lowering) -> Lowering {
    let rest = Lowering { relative: state.relative.drop_last(), ..state };
    if state.relative.last() != rest.relative.last() {
        rest.with(relative_text(rest.relative.last()))
    } else {
        rest
    }
}

/// An ordinary action.
pub open spec fn normal_step(actions: Seq<ActionView>, index: int, state: Lowering) -> Step {
    let action = actions[index];
    if action.execution_type == 0 && action.kind != 6 && action.kind != 7 {
        step_to(state, index + 1)
    } else {
        let differs = relative_differs(state, action);
        let wrapped = applies_elsewhere(action) || differs;
        let opened = state.with(apply_text(action)).with_if(wrapped, "{\n"@);
        let inner = normal_expression_step(actions, index, relative_pushed(opened, action));
        match inner.next {
            Err(fault) => inner,
            Ok(_) => {
                let restored = if differs {
                    relative_popped(inner.state)
                } else {
                    inner.state
                };
                step_to(restored.with_if(wrapped, "}\n"@), index + 1)
            },
        }
    }
}

/// The answer of a question, up to the block that depends on it.
pub open spec fn answer_step(actions: Seq<ActionView>, index: int, state: Lowering) -> Step {
    let action = actions[index];
    let differs = relative_differs(state, action);
    let wrapped = applies_elsewhere(action) || differs;
    let opened = state.with(apply_text(action)).with_if(wrapped, "{\n"@);
    let declared = Lowering {
        condition_variable: true,
        ..opened.with_if(!opened.condition_variable, "var __b__;\n"@)
    };
    let inner = question_step(actions, index, relative_pushed(declared, action));
    match inner.next {
        Err(fault) => inner,
        Ok(_) => {
            let left = inner.state.with_if(
                applies_by_number(action),
                "if "@ + negation(action) + "__b__ break;\n"@,
            );
            let restored = if differs {
                relative_popped(left)
            } else {
                left
            };
            step_to(
                restored.with_if(wrapped, "}\n"@).with(
                    "if "@ + negation(action) + "__b__\n"@ + "{\n"@,
                ),
                index,
            )
        },
    }
}

/// A question with the actions that depend on its answer.
pub open spec fn condition_step(actions: Seq<ActionView>, index: int, state: Lowering) -> Step
    decreases remaining(actions, index), 1nat,
{
    let asked = answer_step(actions, index, state);
    if asked.next is Err {
        asked
    } else if index + 1 >= actions.len() {
        step_fails(asked.state, index, "question action has no following action"@)
    } else {
        let then = action_step(actions, index + 1, asked.state);
        match then.next {
            Err(fault) => then,
            Ok(next) => {
                let next = behind(index + 1, next);
                let closed = then.state.with("}\n"@);
                if next < actions.len() && actions[next].kind == 3 {
                    let opened = closed.with("else\n{\n"@);
                    if next + 1 >= actions.len() {
                        step_fails(opened, next, "else action has no following action"@)
                    } else {
                        let other = action_step(actions, next + 1, opened);
                        match other.next {
                            Err(fault) => other,
                            Ok(last) => step_to(
                                other.state.with("}\n"@),
                                behind(next + 1, last),
                            ),
                        }
                    }
                } else {
                    step_to(closed, next)
                }
            },
        }
    }
}

/// The actions of a block up to its end.
pub open spec fn block_step(
    actions: Seq<ActionView>,
    start: int,
    index: int,
    state: Lowering,
) -> Step
    decreases remaining(actions, index), 3nat,
{
    if index < 0 || index >= actions.len() {
        step_fails(state, start, "begin action has no matching end"@)
    } else if actions[index].kind == 2 {
        step_to(state.with("}\n"@), index + 1)
    } else {
        let inner = action_step(actions, index, state);
        match inner.next {
            Err(fault) => inner,
            Ok(next) => block_step(actions, start, behind(index, next), inner.state),
        }
    }
}

/// A repeat action with its body.
pub open spec fn repeat_step(actions: Seq<ActionView>, index: int, state: Lowering) -> Step
    decreases remaining(actions, index), 1nat,
{
    let action = actions[index];
    if action.arguments.len() == 0 {
        step_fails(state, index, "repeat action requires a count"@)
    } else {
        let opened = state.with("repeat( "@ + action.arguments[0].value + " )\n"@);
        if index + 1 >= actions.len() {
            step_fails(opened, index, "repeat action has no body"@)
        } else {
            action_step(actions, index + 1, opened)
        }
    }
}

/// One action with what belongs to it.
pub open spec fn action_step(actions: Seq<ActionView>, index: int, state: Lowering) -> Step
    decreases remaining(actions, index), 2nat,
{
    let action = actions[index];
    if index < 0 || index >= actions.len() {
        step_to(state, index + 1)
    } else if action.kind == 1 {
        block_step(actions, index, index + 1, state.with("{\n"@))
    } else if action.kind == 2 {
        step_fails(state, index, "end action has no matching begin"@)
    } else if action.kind == 3 {
        step_fails(state, index, "else action has no matching question"@)
    } else if action.kind == 4 {
        step_to(
            state.with_if(state.relative.len() > 0, "action_set_relative( 0 );\n"@).with(
                "exit;\n"@,
            ),
            index + 1,
        )
    } else if action.kind == 5 {
        repeat_step(actions, index, state)
    } else if action.is_question {
        condition_step(actions, index, state)
    } else {
        normal_step(actions, index, state)
    }
}

/// All actions from an index on. An execute-script action is called as it is.
pub open spec fn actions_step(actions: Seq<ActionView>, index: int, state: Lowering) -> Step
    decreases remaining(actions, index),
{
    if index < 0 || index >= actions.len() {
        step_to(state, index)
    } else if actions[index].function_name == "action_execute_script"@ {
        match script_call(actions[index]) {
            None => step_fails(state, index, script_call_fault()),
            Some(text) => actions_step(actions, index + 1, state.with(text)),
        }
    } else {
        let step = action_step(actions, index, state);
        match step.next {
            Err(fault) => step,
            Ok(next) => actions_step(actions, behind(index, next), step.state),
        }
    }
}

/// Whether the relative state changes within the first `count` actions, which
/// start from the given state.
pub open spec fn relative_changes(actions: Seq<ActionView>, count: int) -> bool
    decreases count,
{
    if count <= 0 {
        false
    } else {
        let action = actions[count - 1];
        relative_changes(actions, count - 1) || (action.use_relative && relative_after(
            actions,
            count - 1,
        ) != action.relative)
    }
}

/// The relative state after the first `count` actions.
pub open spec fn relative_after(actions: Seq<ActionView>, count: int) -> bool
    decreases count,
{
    if count <= 0 {
        false
    } else if actions[count - 1].use_relative {
        actions[count - 1].relative
    } else {
        relative_after(actions, count - 1)
    }
}

/// The relative state of the first action that uses one.
pub open spec fn first_relative(actions: Seq<ActionView>, index: int) -> Option<bool>
    decreases remaining(actions, index),
{
    if index < 0 || index >= actions.len() {
        None
    } else if actions[index].use_relative {
        Some(actions[index].relative)
    } else {
        first_relative(actions, index + 1)
    }
}

/// The state in which the lowering of a list of actions starts.
pub open spec fn initial_lowering(actions: Seq<ActionView>, next_script: nat) -> Lowering {
    let relative = if relative_changes(actions, actions.len() as int) {
        match first_relative(actions, 0) {
            None => seq![],
            Some(relative) => seq![relative],
        }
    } else {
        seq![]
    };
    Lowering {
        output: "{\n"@ + (if relative.len() > 0 {
            relative_text(relative[0])
        } else {
            seq![]
        }),
        scripts: seq![],
        relative,
        condition_variable: false,
        next_script,
    }
}

/// A list of actions lowered to GML: the text and the generated scripts, or
/// what is wrong.
pub open spec fn lowered(actions: Seq<ActionView>, next_script: nat) -> Step {
    let step = actions_step(actions, 0, initial_lowering(actions, next_script));
    match step.next {
        Err(fault) => step,
        Ok(next) => {
            let used = step.state.relative.len() > 0;
            let closed = Lowering {
                relative: if used {
                    step.state.relative.drop_last()
                } else {
                    step.state.relative
                },
                ..step.state.with_if(used, "action_set_relative( 0 );\n"@)
            };
            if closed.relative.len() > 0 {
                step_fails(
                    closed,
                    if next > 0 {
                        next - 1
                    } else {
                        0
                    },
                    "unbalanced relative state"@,
                )
            } else {
                step_to(closed.with("/*  */ }\n"@), next)
            }
        },
    }
}

/// What lowering several lists of actions shares: the number of the next
/// generated script.
#[derive(Debug)]
pub struct DndContext {
    next_script: usize,
}

impl DndContext {
    /// The number of the next generated script.
    pub closed spec fn next_script(&self) -> nat {
        self.next_script as nat
    }

    /// Makes a context without generated scripts.
    pub fn new() -> (context: Self)
        ensures
            context.next_script() == 0,
    {
        DndContext { next_script: 0 }
    }

    /// Lowers a list of actions. Generated scripts are numbered on from those
    /// of earlier lists.
    pub fn lower(&mut self, actions: &[Action]) -> (result: Result<LoweredActions, DndError>)
        requires
            old(self).next_script() + actions@.len() <= usize::MAX,
        ensures
            ({
                let step = lowered(action_views(actions@), old(self).next_script());
                &&& final(self).next_script() == step.state.next_script
                &&& final(self).next_script() >= old(self).next_script()
                &&& match result {
                    Ok(lowered) => {
                        &&& step.next is Ok
                        &&& lowered.code@ == step.state.output
                        &&& script_texts(lowered.scripts@) == step.state.scripts
                        &&& final(self).next_script() == old(self).next_script()
                            + lowered.scripts@.len()
                        &&& forall|k: int|
                            0 <= k < lowered.scripts@.len() ==> (
                            #[trigger] lowered.scripts@[k]).name@ == script_name_text(
                                (old(self).next_script() + k) as nat,
                            )
                    },
                    Err(error) => step.next == Err::<int, Fault>(error@),
                }
            }),
    {
        proof {
            law_lists_are_balanced_and_scripts_numbered(
                action_views(actions@),
                self.next_script(),
            );
        }
        let mut lowerer = Lowerer {
            actions,
            output: String::new(),
            scripts: Vec::new(),
            relative: Vec::new(),
            condition_variable: false,
            next_script: self.next_script,
        };
        assert(script_texts(lowerer.scripts@) =~= seq![]);
        let result = lowerer.run();
        self.next_script = lowerer.next_script;
        match result {
            Ok(_) => {
                proof {
                    let texts = script_texts(lowerer.scripts@);
                    assert forall|k: int| 0 <= k < lowerer.scripts@.len() implies (
                    #[trigger] lowerer.scripts@[k]).name@ == script_name_text(
                        (old(self).next_script() + k) as nat,
                    ) by {
                        assert(texts[k].name == lowerer.scripts@[k].name@);
                    }
                }
                Ok(LoweredActions { code: lowerer.output, scripts: lowerer.scripts })
            },
            Err(error) => Err(error),
        }
    }
}

/// Lowers one standalone GMS 1.4 DnD action list. Project compilation should
/// reuse a [`DndContext`] so generated question-script names remain unique.
pub fn lower_actions(actions: &[Action]) -> (result: Result<LoweredActions, DndError>)
    ensures
        ({
            let step = lowered(action_views(actions@), 0);
            match result {
                Ok(lowered) => {
                    &&& step.next is Ok
                    &&& lowered.code@ == step.state.output
                    &&& script_texts(lowered.scripts@) == step.state.scripts
                },
                Err(error) => step.next == Err::<int, Fault>(error@),
            }
        }),
{
    let mut context = DndContext::new();
    assert(actions@.len() == actions.len());
    context.lower(actions)
}

struct Lowerer<'a> {
    actions: &'a [Action],
    output: String,
    scripts: Vec<GeneratedScript>,
    relative: Vec<bool>,
    condition_variable: bool,
    next_script: usize,
}

spec fn dnd_result(result: Result<usize, DndError>) -> Result<int, Fault> {
    match result {
        Ok(next) => Ok(next as int),
        Err(error) => Err(error@),
    }
}

impl<'a> Lowerer<'a> {
    spec fn state(&self) -> Lowering {
        Lowering {
            output: self.output@,
            scripts: script_texts(self.scripts@),
            relative: self.relative@,
            condition_variable: self.condition_variable,
            next_script: self.next_script as nat,
        }
    }

    spec fn list(&self) -> Seq<ActionView> {
        action_views(self.actions@)
    }

    /// Whether the scripts of the actions from an index on can be numbered.
    spec fn room(&self, index: int) -> bool {
        &&& 0 <= index
        &&& self.next_script + remaining(self.list(), index) <= usize::MAX
    }

    /// Whether this lowerer went on from another as a step says, to an action
    /// behind the given one.
    spec fn stepped(
        &self,
        from: &Lowerer,
        index: int,
        step: Step,
        result: Result<usize, DndError>,
    ) -> bool {
        &&& self.actions == from.actions
        &&& self.state() == step.state
        &&& dnd_result(result) == step.next
        &&& result matches Ok(next) ==> index < next && self.room(next as int)
    }

    fn run(&mut self) -> (result: Result<usize, DndError>)
        requires
            old(self).room(0),
            old(self).state() == (Lowering {
                output: seq![],
                scripts: seq![],
                relative: seq![],
                condition_variable: false,
                next_script: old(self).next_script as nat,
            }),
        ensures
            final(self).actions == old(self).actions,
            final(self).state() == lowered(
                old(self).list(),
                old(self).next_script as nat,
            ).state,
            dnd_result(result) == lowered(old(self).list(), old(self).next_script as nat).next,
    {
        let ghost list = self.list();
        let ghost number = self.next_script as nat;
        if self.changes_relative() {
            let mut index: usize = 0;
            while index < self.actions.len()
                invariant_except_break
                    index <= self.actions.len(),
                    *self == *old(self),
                    list == self.list(),
                    first_relative(list, 0) == first_relative(list, index as int),
                    self.relative@.len() == 0,
                ensures
                    self.relative@ == match first_relative(list, 0) {
                        None => seq![],
                        Some(relative) => seq![relative],
                    },
                    self.actions == old(self).actions,
                    self.output == old(self).output,
                    self.scripts == old(self).scripts,
                    self.condition_variable == old(self).condition_variable,
                    self.next_script == old(self).next_script,
                decreases self.actions.len() - index,
            {
                assert(list[index as int] == self.actions@[index as int]@);
                if self.actions[index].use_relative {
                    self.relative.push(self.actions[index].relative);
                    assert(self.relative@ =~= seq![self.actions@[index as int].relative]);
                    break ;
                }
                index += 1;
            }
        }
        self.output.append("{\n");
        if self.relative.len() > 0 {
            let relative = self.relative[self.relative.len() - 1];
            self.set_relative(relative);
        }
        let ghost initial = initial_lowering(list, number);
        assert(self.state().output =~= initial.output);
        assert(self.state() == initial);
        let mut index: usize = 0;
        while index < self.actions.len()
            invariant
                self.room(index as int),
                self.actions == old(self).actions,
                list == self.list(),
                list == old(self).list(),
                number == old(self).next_script as nat,
                initial == initial_lowering(list, number),
                actions_step(list, 0, initial) == actions_step(list, index as int, self.state()),
            decreases remaining(list, index as int),
        {
            assert(list[index as int] == self.actions@[index as int]@);
            if same_text(
                self.actions[index].function_name.as_str(),
                "action_execute_script",
            ) {
                match self.execute_script_call(index) {
                    Ok(_) => {},
                    Err(error) => {
                        return Err(error);
                    },
                }
                index += 1;
            } else {
                match self.action(index) {
                    Ok(next) => {
                        index = next;
                    },
                    Err(error) => {
                        return Err(error);
                    },
                }
            }
        }
        if self.relative.len() > 0 {
            self.output.append("action_set_relative( 0 );\n");
            self.relative.pop();
        }
        if self.relative.len() > 0 {
            return Err(
                self.error(
                    if index > 0 {
                        index - 1
                    } else {
                        0
                    },
                    "unbalanced relative state",
                ),
            );
        }
        self.output.append("/*  */ }\n");
        Ok(index)
    }

    fn changes_relative(&self) -> (result: bool)
        ensures
            result == relative_changes(self.list(), self.list().len() as int),
    {
        let mut current = false;
        let mut changes = false;
        let mut index: usize = 0;
        while index < self.actions.len()
            invariant
                index <= self.actions.len(),
                changes == relative_changes(self.list(), index as int),
                current == relative_after(self.list(), index as int),
            decreases self.actions.len() - index,
        {
            assert(self.list()[index as int] == self.actions@[index as int]@);
            let action = &self.actions[index];
            if action.use_relative {
                if current != action.relative {
                    changes = true;
                }
                current = action.relative;
            }
            index += 1;
        }
        changes
    }

    fn action(&mut self, index: usize) -> (result: Result<usize, DndError>)
        requires
            index < old(self).actions@.len(),
            old(self).room(index as int),
        ensures
            final(self).stepped(
                old(self),
                index as int,
                action_step(old(self).list(), index as int, old(self).state()),
                result,
            ),
        decreases remaining(old(self).list(), index as int), 2nat,
    {
        let action = &self.actions[index];
        assert(self.list()[index as int] == action@);
        let kind: i32 = action.kind;
        if kind == 1 {
            self.block(index)
        } else if kind == 2 {
            Err(self.error(index, "end action has no matching begin"))
        } else if kind == 3 {
            Err(self.error(index, "else action has no matching question"))
        } else if kind == 4 {
            if self.relative.len() > 0 {
                self.output.append("action_set_relative( 0 );\n");
            }
            self.output.append("exit;\n");
            Ok(index + 1)
        } else if kind == 5 {
            self.repeat(index)
        } else if action.is_question {
            self.condition(index)
        } else {
            self.normal(index)
        }
    }

    fn block(&mut self, index: usize) -> (result: Result<usize, DndError>)
        requires
            index < old(self).actions@.len(),
            old(self).room(index as int),
        ensures
            final(self).stepped(
                old(self),
                index as int,
                block_step(
                    old(self).list(),
                    index as int,
                    index + 1,
                    old(self).state().with("{\n"@),
                ),
                result,
            ),
        decreases remaining(old(self).list(), index as int), 1nat,
    {
        let ghost list = self.list();
        let ghost start = self.state().with("{\n"@);
        self.output.append("{\n");
        assert(index < self.actions.len());
        let mut next: usize = index + 1;
        while next < self.actions.len()
            invariant
                index < next,
                index < list.len(),
                self.actions == old(self).actions,
                list == self.list(),
                list == old(self).list(),
                start == old(self).state().with("{\n"@),
                self.room(next as int),
                block_step(list, index as int, index + 1, start) == block_step(
                    list,
                    index as int,
                    next as int,
                    self.state(),
                ),
            decreases remaining(list, next as int),
        {
            assert(list[next as int] == self.actions@[next as int]@);
            if self.actions[next].kind == 2 {
                self.output.append("}\n");
                return Ok(next + 1);
            }
            match self.action(next) {
                Ok(behind) => {
                    next = behind;
                },
                Err(error) => {
                    return Err(error);
                },
            }
        }
        Err(self.error(index, "begin action has no matching end"))
    }

    fn repeat(&mut self, index: usize) -> (result: Result<usize, DndError>)
        requires
            index < old(self).actions@.len(),
            old(self).room(index as int),
        ensures
            final(self).stepped(
                old(self),
                index as int,
                repeat_step(old(self).list(), index as int, old(self).state()),
                result,
            ),
        decreases remaining(old(self).list(), index as int), 1nat,
    {
        let action = &self.actions[index];
        assert(self.list()[index as int] == action@);
        if action.arguments.len() == 0 {
            return Err(self.error(index, "repeat action requires a count"));
        }
        let ghost before = self.output@;
        self.output.append("repeat( ");
        self.output.append(action.arguments[0].value.as_str());
        self.output.append(" )\n");
        assert(self.output@ =~= before + ("repeat( "@ + action@.arguments[0].value + " )\n"@));
        if index + 1 >= self.actions.len() {
            return Err(self.error(index, "repeat action has no body"));
        }
        self.action(index + 1)
    }

    fn condition(&mut self, index: usize) -> (result: Result<usize, DndError>)
        requires
            index < old(self).actions@.len(),
            old(self).room(index as int),
        ensures
            final(self).stepped(
                old(self),
                index as int,
                condition_step(old(self).list(), index as int, old(self).state()),
                result,
            ),
        decreases remaining(old(self).list(), index as int), 1nat,
    {
        match self.answer(index) {
            Ok(()) => {},
            Err(error) => {
                return Err(error);
            },
        }
        if self.actions.len() - index <= 1 {
            return Err(self.error(index, "question action has no following action"));
        }
        let next: usize = match self.action(index + 1) {
            Ok(next) => next,
            Err(error) => {
                return Err(error);
            },
        };
        self.output.append("}\n");
        if next < self.actions.len() {
            assert(self.list()[next as int] == self.actions@[next as int]@);
            if self.actions[next].kind == 3 {
                self.output.append("else\n{\n");
                if next + 1 >= self.actions.len() {
                    return Err(self.error(next, "else action has no following action"));
                }
                let last: usize = match self.action(next + 1) {
                    Ok(last) => last,
                    Err(error) => {
                        return Err(error);
                    },
                };
                self.output.append("}\n");
                return Ok(last);
            }
        }
        Ok(next)
    }

    #[verifier::rlimit(40)]
    fn answer(&mut self, index: usize) -> (result: Result<(), DndError>)
        requires
            index < old(self).actions@.len(),
            old(self).room(index as int),
        ensures
            final(self).actions == old(self).actions,
            ({
                let step = answer_step(old(self).list(), index as int, old(self).state());
                &&& final(self).state() == step.state
                &&& match result {
                    Ok(()) => step.next is Ok && final(self).room(index + 1),
                    Err(error) => step.next == Err::<int, Fault>(error@),
                }
            }),
    {
        let action = &self.actions[index];
        assert(self.list()[index as int] == action@);
        let differs = self.relative_differs(action);
        let elsewhere = self.apply_to(action);
        let wrapped = elsewhere || differs;
        if wrapped {
            self.output.append("{\n");
        }
        if !self.condition_variable {
            self.output.append("var __b__;\n");
            self.condition_variable = true;
        }
        self.push_relative(action);
        let ghost pushed = self.state();
        match self.condition_expression(index) {
            Ok(()) => {},
            Err(error) => {
                return Err(error);
            },
        }
        assert(self.relative@ == pushed.relative);
        if action.use_apply_to && action.who != -1 && action.who != -2 {
            self.test_answer(action, "__b__ break;\n");
        }
        if differs {
            self.pop_relative();
        }
        if wrapped {
            self.output.append("}\n");
        }
        let ghost before = self.output@;
        self.test_answer(action, "__b__\n");
        self.output.append("{\n");
        assert(self.output@ =~= before + ("if "@ + negation(action@) + "__b__\n"@ + "{\n"@));
        Ok(())
    }

    fn test_answer(&mut self, action: &Action, text: &str)
        ensures
            final(self).actions == old(self).actions,
            final(self).state() == old(self).state().with("if "@ + negation(action@) + text@),
    {
        let ghost before = self.output@;
        self.output.append("if ");
        self.output.append(
            if action.is_not {
                "!"
            } else {
                ""
            },
        );
        self.output.append(text);
        assert(self.output@ =~= before + ("if "@ + negation(action@) + text@));
    }

    fn normal(&mut self, index: usize) -> (result: Result<usize, DndError>)
        requires
            index < old(self).actions@.len(),
            old(self).room(index as int),
        ensures
            final(self).stepped(
                old(self),
                index as int,
                normal_step(old(self).list(), index as int, old(self).state()),
                result,
            ),
    {
        let action = &self.actions[index];
        assert(self.list()[index as int] == action@);
        if action.execution_type == 0 && action.kind != 6 && action.kind != 7 {
            return Ok(index + 1);
        }
        let differs = self.relative_differs(action);
        let elsewhere = self.apply_to(action);
        let wrapped = elsewhere || differs;
        if wrapped {
            self.output.append("{\n");
        }
        self.push_relative(action);
        let ghost pushed = self.state();
        match self.normal_expression(index) {
            Ok(()) => {},
            Err(error) => {
                return Err(error);
            },
        }
        assert(self.relative@ == pushed.relative);
        if differs {
            self.pop_relative();
        }
        if wrapped {
            self.output.append("}\n");
        }
        Ok(index + 1)
    }

    fn condition_expression(&mut self, index: usize) -> (result: Result<(), DndError>)
        requires
            index < old(self).actions@.len(),
            old(self).room(index as int),
        ensures
            final(self).actions == old(self).actions,
            ({
                let step = question_step(old(self).list(), index as int, old(self).state());
                &&& final(self).state() == step.state
                &&& match result {
                    Ok(()) => step.next is Ok && final(self).room(index + 1),
                    Err(error) => step.next == Err::<int, Fault>(error@),
                }
            }),
    {
        let action = &self.actions[index];
        assert(self.list()[index as int] == action@);
        if action.execution_type == 1 {
            if same_text(action.function_name.as_str(), "action_execute_script") {
                self.output.append("__b__ = ");
                return self.execute_script_call(index);
            }
            let ghost before = self.output@;
            self.output.append("__b__ = ");
            self.output.append(action.function_name.as_str());
            self.output.append("( ");
            self.function_arguments(action);
            self.output.append(" );\n");
            assert(self.output@ =~= before + ("__b__ = "@ + call_text(
                action@.function_name,
                arguments_text(action@.arguments, action@.arguments.len() as int),
            )));
            Ok(())
        } else if action.execution_type == 2 {
            let code = match compiled_code(action) {
                Some(code) => code,
                None => {
                    return Err(
                        self.error(index, "code action does not contain executable code"),
                    );
                },
            };
            let name = script_name(self.next_script);
            let ghost scripts = self.scripts@;
            let ghost before = self.output@;
            self.next_script += 1;
            self.output.append("__b__ = ");
            self.output.append(name.as_str());
            self.output.append("( ");
            if action.kind != 6 && action.kind != 7 {
                self.function_arguments(action);
            }
            self.output.append(" );\n");
            let ghost script = ScriptText { name: name@, code: code@ };
            self.scripts.push(GeneratedScript { name, code });
            assert(script_texts(self.scripts@) =~= script_texts(scripts).push(script));
            assert(self.output@ =~= before + ("__b__ = "@ + call_text(
                script.name,
                if action@.kind == 6 || action@.kind == 7 {
                    seq![]
                } else {
                    arguments_text(action@.arguments, action@.arguments.len() as int)
                },
            )));
            Ok(())
        } else {
            Err(self.error(index, "question action has no executable function or code"))
        }
    }

    fn normal_expression(&mut self, index: usize) -> (result: Result<(), DndError>)
        requires
            index < old(self).actions@.len(),
            old(self).room(index as int),
        ensures
            final(self).actions == old(self).actions,
            ({
                let step = normal_expression_step(
                    old(self).list(),
                    index as int,
                    old(self).state(),
                );
                &&& final(self).state() == step.state
                &&& match result {
                    Ok(()) => step.next is Ok && final(self).room(index + 1),
                    Err(error) => step.next == Err::<int, Fault>(error@),
                }
            }),
    {
        let action = &self.actions[index];
        assert(self.list()[index as int] == action@);
        if action.execution_type == 1 {
            if same_text(action.function_name.as_str(), "action_execute_script") {
                return self.execute_script_call(index);
            }
            let ghost before = self.output@;
            self.output.append(action.function_name.as_str());
            self.output.append("( ");
            self.function_arguments(action);
            self.output.append(" );\n");
            assert(self.output@ =~= before + call_text(
                action@.function_name,
                arguments_text(action@.arguments, action@.arguments.len() as int),
            ));
            Ok(())
        } else if action.execution_type == 2 {
            let code = match compiled_code(action) {
                Some(code) => code,
                None => {
                    return Err(self.error(index, "code action does not contain code"));
                },
            };
            let text = if action.kind != 6 && action.kind != 7 {
                replace_arguments(code, action)
            } else {
                code
            };
            let ghost before = self.output@;
            self.output.append(text.as_str());
            self.output.append("\n");
            self.output.append("/* */\n");
            assert(self.output@ =~= before + (text@ + "\n"@ + "/* */\n"@));
            Ok(())
        } else if action.execution_type == 0 {
            Ok(())
        } else {
            Err(self.error(index, "unknown action execution type"))
        }
    }

    fn function_arguments(&mut self, action: &Action)
        ensures
            final(self).actions == old(self).actions,
            final(self).state() == old(self).state().with(
                arguments_text(action@.arguments, action@.arguments.len() as int),
            ),
    {
        let ghost before = self.output@;
        let mut index: usize = 0;
        assert(before + arguments_text(action@.arguments, 0) =~= before);
        while index < action.arguments.len()
            invariant
                index <= action.arguments.len(),
                self.actions == old(self).actions,
                self.scripts == old(self).scripts,
                self.relative == old(self).relative,
                self.condition_variable == old(self).condition_variable,
                self.next_script == old(self).next_script,
                self.output@ == before + arguments_text(action@.arguments, index as int),
            decreases action.arguments.len() - index,
        {
            if index != 0 {
                self.output.append(", ");
            }
            let text = function_argument(&action.arguments[index]);
            self.output.append(text.as_str());
            assert(action@.arguments[index as int] == action.arguments@[index as int]@);
            assert(self.output@ =~= before + arguments_text(action@.arguments, index + 1));
            index += 1;
        }
    }

    fn execute_script_call(&mut self, index: usize) -> (result: Result<(), DndError>)
        requires
            index < old(self).actions@.len(),
            old(self).room(index as int),
        ensures
            final(self).actions == old(self).actions,
            match script_call(old(self).list()[index as int]) {
                None => {
                    &&& final(self).state() == old(self).state()
                    &&& result matches Err(error) && error@ == (Fault {
                        action: index as int,
                        message: script_call_fault(),
                    })
                },
                Some(text) => {
                    &&& final(self).state() == old(self).state().with(text)
                    &&& result is Ok
                    &&& final(self).room(index + 1)
                },
            },
    {
        let action = &self.actions[index];
        assert(self.list()[index as int] == action@);
        let count: usize = action.arguments.len();
        if count != 6 && count != 8 {
            return Err(
                self.error(index, "action_execute_script requires six or eight arguments"),
            );
        }
        let ghost before = self.output@;
        let script = trim(action.arguments[0].value.as_str());
        assert(action@.arguments[0] == action.arguments@[0]@);
        if script.as_str().is_empty() {
            assert(self.output@ =~= before + seq![]);
            return Ok(());
        }
        self.apply_to(action);
        self.output.append(script.as_str());
        self.output.append("(");
        let ghost opened = self.output@;
        let ghost middle = self.state();
        let mut position: usize = 1;
        assert(opened + script_arguments(action@.arguments, 1) =~= opened);
        while position < 6
            invariant
                1 <= position <= 6,
                action@.arguments.len() >= 6,
                self.actions == old(self).actions,
                self.state() == (Lowering { output: self.output@, ..middle }),
                self.output@ == opened + script_arguments(action@.arguments, position as int),
            decreases 6 - position,
        {
            let argument = trim(action.arguments[position].value.as_str());
            assert(action@.arguments[position as int] == action.arguments@[position as int]@);
            if !argument.as_str().is_empty() {
                if position >= 2 {
                    self.output.push(',');
                }
                self.output.append(argument.as_str());
            }
            assert(self.output@ =~= opened + script_arguments(action@.arguments, position + 1));
            position += 1;
        }
        self.output.append(");\n");
        assert(self.output@ =~= before + (apply_text(action@) + script@ + "("@ + script_arguments(
            action@.arguments,
            6,
        ) + ");\n"@));
        Ok(())
    }

    /// Writes an apply-to prefix and returns whether there is one.
    fn apply_to(&mut self, action: &Action) -> (elsewhere: bool)
        ensures
            final(self).actions == old(self).actions,
            final(self).state() == old(self).state().with(apply_text(action@)),
            elsewhere == applies_elsewhere(action@),
    {
        let ghost before = self.output@;
        if !action.use_apply_to || action.who == -1 {
            assert(self.output@ =~= before + seq![]);
            return false;
        }
        if action.who == -2 {
            self.output.append("with( other )\n");
        } else {
            self.output.append("with( ");
            let number = signed_decimal(action.who as i64);
            self.output.append(number.as_str());
            self.output.append(" )\n");
        }
        assert(self.output@ =~= before + apply_text(action@));
        true
    }

    fn relative_differs(&self, action: &Action) -> (result: bool)
        ensures
            result == relative_differs(self.state(), action@),
    {
        action.use_relative && self.relative.len() > 0 && self.relative[self.relative.len() - 1]
            != action.relative
    }

    fn set_relative(&mut self, relative: bool)
        ensures
            final(self).actions == old(self).actions,
            final(self).state() == old(self).state().with(relative_text(relative)),
    {
        let ghost before = self.output@;
        self.output.append("action_set_relative( ");
        if relative {
            self.output.append("1");
        } else {
            self.output.append("0");
        }
        self.output.append(" );\n");
        assert(self.output@ =~= before + relative_text(relative));
    }

    fn push_relative(&mut self, action: &Action)
        ensures
            final(self).actions == old(self).actions,
            final(self).state() == relative_pushed(old(self).state(), action@),
    {
        if self.relative_differs(action) {
            self.set_relative(action.relative);
            self.relative.push(action.relative);
        }
    }

    fn pop_relative(&mut self)
        requires
            old(self).relative@.len() >= 2,
        ensures
            final(self).actions == old(self).actions,
            final(self).state() == relative_popped(old(self).state()),
    {
        let previous = self.relative[self.relative.len() - 1];
        self.relative.pop();
        let restored = self.relative[self.relative.len() - 1];
        if previous != restored {
            self.set_relative(restored);
        }
    }

    fn error(&self, action: usize, message: &str) -> (error: DndError)
        ensures
            error@ == (Fault { action: action as int, message: message@ }),
    {
        DndError { action, message: message.to_owned() }
    }
}

fn script_name(number: usize) -> (name: String)
    ensures
        name@ == script_name_text(number as nat),
{
    let mut name = "__script".to_owned();
    let digits = decimal(number as u64);
    name.append(digits.as_str());
    name.append("__");
    name
}

/// Returns the code that an action holds, if any.
pub fn compiled_code(action: &Action) -> (code: Option<String>)
    ensures
        match code {
            None => code_of(action@) is None,
            Some(code) => code_of(action@) == Some(code@),
        },
{
    if action.kind == 6 {
        if action.arguments.len() < 2 {
            return None;
        }
        assert(action@.arguments[0] == action.arguments@[0]@);
        assert(action@.arguments[1] == action.arguments@[1]@);
        let variable = trim(action.arguments[0].value.as_str());
        let value = trim(action.arguments[1].value.as_str());
        if variable.as_str().is_empty() || value.as_str().is_empty() {
            return None;
        }
        let mut code = action.code.clone();
        code.append(variable.as_str());
        code.append(" ");
        code.append(
            if action.relative {
                "+="
            } else {
                "="
            },
        );
        code.append(" ");
        code.append(value.as_str());
        code.append(";");
        Some(code)
    } else if action.kind == 7 && action.arguments.len() > 0 {
        assert(action@.arguments[0] == action.arguments@[0]@);
        Some(action.arguments[0].value.clone())
    } else if !action.code.as_str().is_empty() {
        Some(action.code.clone())
    } else {
        None
    }
}

fn replace_arguments(code: String, action: &Action) -> (result: String)
    ensures
        result@ == with_arguments(code@, action@.arguments, action@.arguments.len() as int),
{
    let ghost start = code@;
    let mut result = code;
    let mut index: usize = 0;
    while index < action.arguments.len()
        invariant
            index <= action.arguments.len(),
            result@ == with_arguments(start, action@.arguments, index as int),
        decreases action.arguments.len() - index,
    {
        assert(action@.arguments[index as int] == action.arguments@[index as int]@);
        let value = code_argument(&action.arguments[index]);
        let mut name = "argument".to_owned();
        let number = decimal(index as u64);
        name.append(number.as_str());
        proof {
            reveal_strlit("argument");
        }
        result = replace(result.as_str(), name.as_str(), value.as_str());
        index += 1;
    }
    result
}

fn quoted(text: &str) -> (result: String)
    ensures
        result@ == seq!['"'] + text@ + seq!['"'],
{
    let mut result = String::new();
    result.push('"');
    result.append(text);
    result.push('"');
    assert(result@ =~= seq!['"'] + text@ + seq!['"']);
    result
}

fn function_argument(argument: &ActionArgument) -> (text: String)
    ensures
        text@ == function_argument_text(argument@),
{
    let value = argument.value.as_str();
    if (argument.kind == 1 || argument.kind == 2) && !begins_with(value, '\'') && !begins_with(
        value,
        '"',
    ) {
        quoted(value)
    } else {
        argument.value.clone()
    }
}

fn code_argument(argument: &ActionArgument) -> (text: String)
    ensures
        text@ == code_argument_text(argument@),
{
    let value = argument.value.as_str();
    if argument.kind == 1 && (!begins_with(value, '"') || !ends_with(value, '"')) {
        quoted(value)
    } else {
        argument.value.clone()
    }
}

/// What an action leaves as it was, and how it numbers scripts: the relative
/// states, and a script for each number that it takes.
pub open spec fn keeps(before: Lowering, after: Lowering) -> bool {
    &&& before.scripts.len() <= after.scripts.len()
    &&& after.scripts.take(before.scripts.len() as int) == before.scripts
    &&& after.next_script - before.next_script == after.scripts.len() - before.scripts.len()
    &&& forall|k: int|
        before.scripts.len() <= k < after.scripts.len() ==> (#[trigger] after.scripts[k]).name
            == script_name_text((before.next_script + k - before.scripts.len()) as nat)
    &&& before.output.len() <= after.output.len()
    &&& after.output.take(before.output.len() as int) == before.output
}

proof fn lemma_keeps(first: Lowering, second: Lowering, third: Lowering)
    requires
        keeps(first, second),
        keeps(second, third),
    ensures
        keeps(first, third),
{
    assert(third.scripts.take(first.scripts.len() as int) =~= first.scripts) by {
        assert(second.scripts.take(first.scripts.len() as int) =~= third.scripts.take(
            second.scripts.len() as int,
        ).take(first.scripts.len() as int));
    }
    assert(third.output.take(first.output.len() as int) =~= first.output) by {
        assert(second.output.take(first.output.len() as int) =~= third.output.take(
            second.output.len() as int,
        ).take(first.output.len() as int));
    }
    assert forall|k: int| first.scripts.len() <= k < third.scripts.len() implies (
    #[trigger] third.scripts[k]).name == script_name_text(
        (first.next_script + k - first.scripts.len()) as nat,
    ) by {
        if k < second.scripts.len() {
            assert(third.scripts[k] == third.scripts.take(second.scripts.len() as int)[k]);
            assert(second.scripts[k].name == script_name_text(
                (first.next_script + k - first.scripts.len()) as nat,
            ));
        }
    }
}

proof fn lemma_keeps_text(state: Lowering, text: Seq<char>)
    ensures
        keeps(state, state.with(text)),
{
    assert(state.with(text).scripts.take(state.scripts.len() as int) =~= state.scripts);
    assert(state.with(text).output.take(state.output.len() as int) =~= state.output);
}

proof fn lemma_keeps_same(before: Lowering, after: Lowering)
    requires
        before.scripts == after.scripts,
        before.next_script == after.next_script,
        before.output == after.output,
    ensures
        keeps(before, after),
{
    assert(after.scripts.take(before.scripts.len() as int) =~= before.scripts);
    assert(after.output.take(before.output.len() as int) =~= before.output);
}

proof fn lemma_opening(state: Lowering, action: ActionView)
    ensures
        ({
            let wrapped = applies_elsewhere(action) || relative_differs(state, action);
            let opened = state.with(apply_text(action)).with_if(wrapped, "{\n"@);
            &&& keeps(state, opened)
            &&& keeps(state, relative_pushed(opened, action))
            &&& opened.relative == state.relative
            &&& relative_differs(opened, action) == relative_differs(state, action)
            &&& relative_differs(state, action) ==> relative_pushed(opened, action).relative
                == state.relative.push(action.relative)
            &&& !relative_differs(state, action) ==> relative_pushed(opened, action).relative
                == state.relative
        }),
{
    let wrapped = applies_elsewhere(action) || relative_differs(state, action);
    let prefixed = state.with(apply_text(action));
    let opened = prefixed.with_if(wrapped, "{\n"@);
    lemma_keeps_text(state, apply_text(action));
    lemma_keeps_text(prefixed, "{\n"@);
    lemma_keeps_same(prefixed, prefixed);
    lemma_keeps(state, prefixed, opened);
    let told = opened.with(relative_text(action.relative));
    lemma_keeps_text(opened, relative_text(action.relative));
    lemma_keeps_same(opened, opened);
    if relative_differs(opened, action) {
        lemma_keeps_same(told, relative_pushed(opened, action));
        lemma_keeps(opened, told, relative_pushed(opened, action));
    }
    lemma_keeps(state, opened, relative_pushed(opened, action));
}

proof fn lemma_popping(state: Lowering)
    requires
        state.relative.len() >= 2,
    ensures
        keeps(state, relative_popped(state)),
        relative_popped(state).relative == state.relative.drop_last(),
{
    let rest = Lowering { relative: state.relative.drop_last(), ..state };
    lemma_keeps_same(state, rest);
    lemma_keeps_text(rest, relative_text(rest.relative.last()));
    lemma_keeps_same(rest, rest);
    lemma_keeps(state, rest, relative_popped(state));
}

proof fn lemma_question_keeps(actions: Seq<ActionView>, index: int, state: Lowering)
    ensures
        keeps(state, question_step(actions, index, state).state),
        question_step(actions, index, state).state.relative == state.relative,
{
    let action = actions[index];
    let asked = state.with("__b__ = "@);
    lemma_keeps_text(state, "__b__ = "@);
    lemma_keeps_same(state, state);
    if action.execution_type == 1 && action.function_name == "action_execute_script"@ {
        if let Some(text) = script_call(action) {
            lemma_keeps_text(asked, text);
            lemma_keeps(state, asked, asked.with(text));
        }
    } else if action.execution_type == 1 {
        lemma_keeps_text(
            state,
            "__b__ = "@ + call_text(
                action.function_name,
                arguments_text(action.arguments, action.arguments.len() as int),
            ),
        );
    } else if action.execution_type == 2 {
        if let Some(code) = code_of(action) {
            let name = script_name_text(state.next_script);
            let named = Lowering {
                scripts: state.scripts.push(ScriptText { name, code }),
                next_script: state.next_script + 1,
                ..state
            };
            assert(named.scripts.take(state.scripts.len() as int) =~= state.scripts);
            assert(named.output.take(state.output.len() as int) =~= state.output);
            assert(keeps(state, named));
            let text = "__b__ = "@ + call_text(
                name,
                if action.kind == 6 || action.kind == 7 {
                    seq![]
                } else {
                    arguments_text(action.arguments, action.arguments.len() as int)
                },
            );
            lemma_keeps_text(named, text);
            lemma_keeps(state, named, named.with(text));
        }
    }
}

proof fn lemma_normal_expression_keeps(actions: Seq<ActionView>, index: int, state: Lowering)
    ensures
        keeps(state, normal_expression_step(actions, index, state).state),
        normal_expression_step(actions, index, state).state.relative == state.relative,
{
    let after = normal_expression_step(actions, index, state).state;
    lemma_keeps_same(state, state);
    if after != state {
        let text = after.output.skip(state.output.len() as int);
        assert(after.output =~= state.output + text);
        lemma_keeps_text(state, text);
        assert(after == state.with(text));
    }
}

proof fn lemma_normal_keeps(actions: Seq<ActionView>, index: int, state: Lowering)
    ensures
        keeps(state, normal_step(actions, index, state).state),
        normal_step(actions, index, state).next is Ok ==> normal_step(
            actions,
            index,
            state,
        ).state.relative == state.relative,
{
    let action = actions[index];
    lemma_keeps_same(state, state);
    if !(action.execution_type == 0 && action.kind != 6 && action.kind != 7) {
        let differs = relative_differs(state, action);
        let wrapped = applies_elsewhere(action) || differs;
        let opened = state.with(apply_text(action)).with_if(wrapped, "{\n"@);
        let pushed = relative_pushed(opened, action);
        lemma_opening(state, action);
        let inner = normal_expression_step(actions, index, pushed);
        lemma_normal_expression_keeps(actions, index, pushed);
        lemma_keeps(state, pushed, inner.state);
        if inner.next is Ok {
            let restored = if differs {
                relative_popped(inner.state)
            } else {
                inner.state
            };
            if differs {
                lemma_popping(inner.state);
                assert(pushed.relative.drop_last() =~= state.relative);
                lemma_keeps(state, inner.state, restored);
            }
            lemma_keeps_text(restored, "}\n"@);
            if wrapped {
                lemma_keeps(state, restored, restored.with("}\n"@));
            }
        }
    }
}

proof fn lemma_answer_keeps(actions: Seq<ActionView>, index: int, state: Lowering)
    ensures
        keeps(state, answer_step(actions, index, state).state),
        answer_step(actions, index, state).next is Ok ==> answer_step(
            actions,
            index,
            state,
        ).state.relative == state.relative,
{
    let action = actions[index];
    let differs = relative_differs(state, action);
    let wrapped = applies_elsewhere(action) || differs;
    let opened = state.with(apply_text(action)).with_if(wrapped, "{\n"@);
    lemma_opening(state, action);
    let spoken = opened.with_if(!opened.condition_variable, "var __b__;\n"@);
    let declared = Lowering { condition_variable: true, ..spoken };
    lemma_keeps_text(opened, "var __b__;\n"@);
    lemma_keeps_same(opened, opened);
    lemma_keeps_same(spoken, declared);
    lemma_keeps(opened, spoken, declared);
    lemma_keeps(state, opened, declared);
    let pushed = relative_pushed(declared, action);
    let told = declared.with(relative_text(action.relative));
    lemma_keeps_text(declared, relative_text(action.relative));
    lemma_keeps_same(declared, declared);
    if differs {
        lemma_keeps_same(told, pushed);
        lemma_keeps(declared, told, pushed);
    }
    lemma_keeps(state, declared, pushed);
    let inner = question_step(actions, index, pushed);
    lemma_question_keeps(actions, index, pushed);
    lemma_keeps(state, pushed, inner.state);
    if inner.next is Ok {
        let leave = "if "@ + negation(action) + "__b__ break;\n"@;
        let left = inner.state.with_if(applies_by_number(action), leave);
        lemma_keeps_text(inner.state, leave);
        lemma_keeps_same(inner.state, inner.state);
        lemma_keeps(state, inner.state, left);
        let restored = if differs {
            relative_popped(left)
        } else {
            left
        };
        if differs {
            lemma_popping(left);
            assert(pushed.relative.drop_last() =~= state.relative);
            lemma_keeps(state, left, restored);
        }
        let closed = restored.with_if(wrapped, "}\n"@);
        lemma_keeps_text(restored, "}\n"@);
        lemma_keeps_same(restored, restored);
        lemma_keeps(state, restored, closed);
        let test = "if "@ + negation(action) + "__b__\n"@ + "{\n"@;
        lemma_keeps_text(closed, test);
        lemma_keeps(state, closed, closed.with(test));
    }
}

/// Whatever an action is, what was lowered before stays as it was, the scripts
/// that it adds are numbered on from there, and if it is lowered, the relative
/// states are those from before it.
pub proof fn law_actions_keep_what_was_lowered(
    actions: Seq<ActionView>,
    index: int,
    state: Lowering,
)
    ensures
        keeps(state, action_step(actions, index, state).state),
        action_step(actions, index, state).next is Ok ==> action_step(
            actions,
            index,
            state,
        ).state.relative == state.relative,
    decreases remaining(actions, index), 2nat,
{
    lemma_keeps_same(state, state);
    if 0 <= index < actions.len() {
        let action = actions[index];
        if action.kind == 1 {
            let opened = state.with("{\n"@);
            lemma_keeps_text(state, "{\n"@);
            lemma_block_keeps(actions, index, index + 1, opened);
            lemma_keeps(
                state,
                opened,
                block_step(actions, index, index + 1, opened).state,
            );
        } else if action.kind == 2 || action.kind == 3 {
        } else if action.kind == 4 {
            let reset = state.with_if(state.relative.len() > 0, "action_set_relative( 0 );\n"@);
            lemma_keeps_text(state, "action_set_relative( 0 );\n"@);
            lemma_keeps_text(reset, "exit;\n"@);
            lemma_keeps(state, reset, reset.with("exit;\n"@));
        } else if action.kind == 5 {
            if action.arguments.len() > 0 {
                let text = "repeat( "@ + action.arguments[0].value + " )\n"@;
                let opened = state.with(text);
                lemma_keeps_text(state, text);
                if index + 1 < actions.len() {
                    law_actions_keep_what_was_lowered(actions, index + 1, opened);
                    lemma_keeps(
                        state,
                        opened,
                        action_step(actions, index + 1, opened).state,
                    );
                }
            }
        } else if action.is_question {
            lemma_condition_keeps(actions, index, state);
        } else {
            lemma_normal_keeps(actions, index, state);
        }
    }
}

proof fn lemma_block_keeps(actions: Seq<ActionView>, start: int, index: int, state: Lowering)
    ensures
        keeps(state, block_step(actions, start, index, state).state),
        block_step(actions, start, index, state).next is Ok ==> block_step(
            actions,
            start,
            index,
            state,
        ).state.relative == state.relative,
    decreases remaining(actions, index), 3nat,
{
    lemma_keeps_same(state, state);
    if 0 <= index < actions.len() {
        if actions[index].kind == 2 {
            lemma_keeps_text(state, "}\n"@);
        } else {
            let inner = action_step(actions, index, state);
            law_actions_keep_what_was_lowered(actions, index, state);
            if let Ok(next) = inner.next {
                let next = behind(index, next);
                lemma_block_keeps(actions, start, next, inner.state);
                lemma_keeps(
                    state,
                    inner.state,
                    block_step(actions, start, next, inner.state).state,
                );
            }
        }
    }
}

proof fn lemma_condition_keeps(actions: Seq<ActionView>, index: int, state: Lowering)
    requires
        0 <= index < actions.len(),
    ensures
        keeps(state, condition_step(actions, index, state).state),
        condition_step(actions, index, state).next is Ok ==> condition_step(
            actions,
            index,
            state,
        ).state.relative == state.relative,
    decreases remaining(actions, index), 1nat,
{
    let asked = answer_step(actions, index, state);
    lemma_answer_keeps(actions, index, state);
    if asked.next is Ok && index + 1 < actions.len() {
        let positive = action_step(actions, index + 1, asked.state);
        law_actions_keep_what_was_lowered(actions, index + 1, asked.state);
        lemma_keeps(state, asked.state, positive.state);
        if let Ok(next) = positive.next {
            let next = behind(index + 1, next);
            let closed = positive.state.with("}\n"@);
            lemma_keeps_text(positive.state, "}\n"@);
            lemma_keeps(state, positive.state, closed);
            if next < actions.len() && actions[next].kind == 3 {
                let opened = closed.with("else\n{\n"@);
                lemma_keeps_text(closed, "else\n{\n"@);
                lemma_keeps(state, closed, opened);
                if next + 1 < actions.len() {
                    let other = action_step(actions, next + 1, opened);
                    law_actions_keep_what_was_lowered(actions, next + 1, opened);
                    lemma_keeps(state, opened, other.state);
                    lemma_keeps_text(other.state, "}\n"@);
                    lemma_keeps(state, other.state, other.state.with("}\n"@));
                }
            }
        }
    }
}

proof fn lemma_actions_keep(actions: Seq<ActionView>, index: int, state: Lowering)
    ensures
        keeps(state, actions_step(actions, index, state).state),
        actions_step(actions, index, state).next is Ok ==> actions_step(
            actions,
            index,
            state,
        ).state.relative == state.relative,
    decreases remaining(actions, index),
{
    lemma_keeps_same(state, state);
    if 0 <= index < actions.len() {
        if actions[index].function_name == "action_execute_script"@ {
            if let Some(text) = script_call(actions[index]) {
                lemma_keeps_text(state, text);
                lemma_actions_keep(actions, index + 1, state.with(text));
                lemma_keeps(
                    state,
                    state.with(text),
                    actions_step(actions, index + 1, state.with(text)).state,
                );
            }
        } else {
            let step = action_step(actions, index, state);
            law_actions_keep_what_was_lowered(actions, index, state);
            if let Ok(next) = step.next {
                let next = behind(index, next);
                lemma_actions_keep(actions, next, step.state);
                lemma_keeps(state, step.state, actions_step(actions, next, step.state).state);
            }
        }
    }
}

/// No list of actions leaves the relative states unbalanced, and the generated
/// scripts of a list are numbered one after the other, from the first free
/// number on.
pub proof fn law_lists_are_balanced_and_scripts_numbered(
    actions: Seq<ActionView>,
    next_script: nat,
)
    ensures
        ({
            let step = lowered(actions, next_script);
            &&& step.next is Ok <==> actions_step(
                actions,
                0,
                initial_lowering(actions, next_script),
            ).next is Ok
            &&& step.next is Ok ==> step.state.relative.len() == 0
            &&& step.state.next_script == next_script + step.state.scripts.len()
            &&& forall|k: int|
                0 <= k < step.state.scripts.len() ==> (#[trigger] step.state.scripts[k]).name
                    == script_name_text((next_script + k) as nat)
        }),
{
    lemma_actions_keep(actions, 0, initial_lowering(actions, next_script));
}

/// Generated scripts with different numbers have different names.
pub proof fn law_script_names_differ(first: nat, second: nat)
    ensures
        script_name_text(first) == script_name_text(second) ==> first == second,
{
    let one = script_name_text(first);
    let two = script_name_text(second);
    if one == two {
        reveal_strlit("__script");
        reveal_strlit("__");
        let head = "__script"@.len() as int;
        assert(one.subrange(head, one.len() - 2) =~= digits(first, 10));
        assert(two.subrange(head, two.len() - 2) =~= digits(second, 10));
        lemma_digits_tell_numbers_apart(first, second);
    }
}

/// The names of the scripts of two lists, one behind the other.
pub open spec fn names_of_both(first: Seq<ScriptText>, second: Seq<ScriptText>) -> Seq<Seq<char>> {
    (first + second).map_values(|script: ScriptText| script.name)
}

/// Of two lists that are lowered one after the other with the same numbering, the
/// scripts of the second have greater numbers than those of the first, and no two
/// of all these scripts have the same name.
pub proof fn law_scripts_of_later_lists_differ(
    first: Seq<ActionView>,
    second: Seq<ActionView>,
    start: nat,
    later: nat,
)
    requires
        lowered(first, start).state.next_script <= later,
    ensures
        ({
            let one = lowered(first, start).state.scripts;
            let two = lowered(second, later).state.scripts;
            &&& start + one.len() <= later
            &&& forall|k: int|
                0 <= k < one.len() ==> (#[trigger] one[k]).name == script_name_text(
                    (start + k) as nat,
                )
            &&& forall|k: int|
                0 <= k < two.len() ==> (#[trigger] two[k]).name == script_name_text(
                    (later + k) as nat,
                )
            &&& names_of_both(one, two).no_duplicates()
        }),
{
    law_lists_are_balanced_and_scripts_numbered(first, start);
    law_lists_are_balanced_and_scripts_numbered(second, later);
    let one = lowered(first, start).state.scripts;
    let two = lowered(second, later).state.scripts;
    let names = names_of_both(one, two);
    assert forall|i: int, j: int|
        0 <= i < names.len() && 0 <= j < names.len() && i != j implies names[i] != names[j] by {
        let left = if i < one.len() {
            start + i
        } else {
            later + i - one.len()
        };
        let right = if j < one.len() {
            start + j
        } else {
            later + j - one.len()
        };
        assert(names[i] == script_name_text(left as nat)) by {
            if i < one.len() {
                assert(one[i].name == script_name_text((start + i) as nat));
            } else {
                assert(two[i - one.len()].name == script_name_text(left as nat));
            }
        }
        assert(names[j] == script_name_text(right as nat)) by {
            if j < one.len() {
                assert(one[j].name == script_name_text((start + j) as nat));
            } else {
                assert(two[j - one.len()].name == script_name_text(right as nat));
            }
        }
        law_script_names_differ(left as nat, right as nat);
    }
}

/// Whether a step numbers at most one script for each action that it passes.
pub open spec fn frugal(
    actions: Seq<ActionView>,
    index: int,
    state: Lowering,
    step: Step,
) -> bool {
    let left = match step.next {
        Ok(next) => remaining(actions, behind(index, next)),
        Err(_) => 0,
    };
    step.state.next_script - state.next_script + left <= remaining(actions, index)
}

proof fn lemma_action_is_frugal(actions: Seq<ActionView>, index: int, state: Lowering)
    requires
        0 <= index < actions.len(),
    ensures
        frugal(actions, index, state, action_step(actions, index, state)),
    decreases remaining(actions, index), 2nat,
{
    let action = actions[index];
    if action.kind == 1 {
        lemma_block_is_frugal(actions, index, index + 1, state.with("{\n"@));
    } else if action.kind == 5 {
        if action.arguments.len() > 0 && index + 1 < actions.len() {
            let opened = state.with("repeat( "@ + action.arguments[0].value + " )\n"@);
            lemma_action_is_frugal(actions, index + 1, opened);
        }
    } else if action.kind != 2 && action.kind != 3 && action.kind != 4 && action.is_question {
        let asked = answer_step(actions, index, state);
        if asked.next is Ok && index + 1 < actions.len() {
            let positive = action_step(actions, index + 1, asked.state);
            lemma_action_is_frugal(actions, index + 1, asked.state);
            if let Ok(next) = positive.next {
                let next = behind(index + 1, next);
                if next + 1 < actions.len() && actions[next].kind == 3 {
                    let opened = positive.state.with("}\n"@).with("else\n{\n"@);
                    lemma_action_is_frugal(actions, next + 1, opened);
                }
            }
        }
    }
}

proof fn lemma_block_is_frugal(actions: Seq<ActionView>, start: int, index: int, state: Lowering)
    requires
        0 <= index,
    ensures
        frugal(actions, index, state, block_step(actions, start, index, state)),
        block_step(actions, start, index, state).next matches Ok(next) ==> index < next,
    decreases remaining(actions, index), 3nat,
{
    if index < actions.len() && actions[index].kind != 2 {
        let inner = action_step(actions, index, state);
        lemma_action_is_frugal(actions, index, state);
        if let Ok(next) = inner.next {
            lemma_block_is_frugal(actions, start, behind(index, next), inner.state);
        }
    }
}

proof fn lemma_actions_are_frugal(actions: Seq<ActionView>, index: int, state: Lowering)
    requires
        0 <= index,
    ensures
        actions_step(actions, index, state).state.next_script - state.next_script <= remaining(
            actions,
            index,
        ),
    decreases remaining(actions, index),
{
    if index < actions.len() {
        if actions[index].function_name == "action_execute_script"@ {
            if let Some(text) = script_call(actions[index]) {
                lemma_actions_are_frugal(actions, index + 1, state.with(text));
            }
        } else {
            let step = action_step(actions, index, state);
            lemma_action_is_frugal(actions, index, state);
            if let Ok(next) = step.next {
                lemma_actions_are_frugal(actions, behind(index, next), step.state);
            }
        }
    }
}

/// A list of actions generates at most one script for each action.
pub proof fn law_scripts_are_no_more_than_actions(actions: Seq<ActionView>, next_script: nat)
    ensures
        next_script <= lowered(actions, next_script).state.next_script <= next_script
            + actions.len(),
        lowered(actions, next_script).state.scripts.len() <= actions.len(),
{
    lemma_actions_are_frugal(actions, 0, initial_lowering(actions, next_script));
    lemma_actions_keep(actions, 0, initial_lowering(actions, next_script));
}

} // verus!
