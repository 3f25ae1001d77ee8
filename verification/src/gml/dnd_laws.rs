//! What the texts of lowered actions say, whatever the actions hold.

use vstd::prelude::*;

use crate::gml::dnd::{
    action_step, actions_step, answer_step, arguments_text, block_step, code_of, condition_step,
    function_argument_text, initial_lowering, lowered, normal_expression_step, normal_step,
    question_step, relative_popped, relative_pushed, Lowering,
};
use crate::resources::{ActionView, ArgumentView};
use crate::text::{signed_digits, trimmed};

verus! {

/// The statement that makes actions relative or absolute.
pub open spec fn relative_statement(relative: bool) -> Seq<char> {
    if relative {
        "action_set_relative( 1 );\n"@
    } else {
        "action_set_relative( 0 );\n"@
    }
}

/// The statement that runs what follows for other instances.
pub open spec fn with_statement(action: ActionView) -> Seq<char> {
    if !action.use_apply_to || action.who == -1 {
        ""@
    } else if action.who == -2 {
        "with( other )\n"@
    } else {
        "with( "@ + signed_digits(action.who as int) + " )\n"@
    }
}

/// Whether an action has to change the relative state around it.
pub open spec fn changes_state(state: Lowering, action: ActionView) -> bool {
    state.relative.len() > 0 && action.use_relative && action.relative != state.relative.last()
}

/// Whether an action needs a block of its own.
pub open spec fn is_wrapped(state: Lowering, action: ActionView) -> bool {
    with_statement(action).len() > 0 || changes_state(state, action)
}

/// A text if a condition holds.
pub open spec fn text_if(condition: bool, text: Seq<char>) -> Seq<char> {
    if condition {
        text
    } else {
        ""@
    }
}

proof fn lemma_statements(action: ActionView)
    ensures
        crate::gml::dnd::relative_text(true) == relative_statement(true),
        crate::gml::dnd::relative_text(false) == relative_statement(false),
        crate::gml::dnd::apply_text(action) == with_statement(action),
        crate::gml::dnd::applies_elsewhere(action) == (with_statement(action).len() > 0),
        "".view() == Seq::<char>::empty(),
{
    reveal_strlit("");
    reveal_strlit("1");
    reveal_strlit("0");
    reveal_strlit("action_set_relative( ");
    reveal_strlit(" );\n");
    reveal_strlit("action_set_relative( 1 );\n");
    reveal_strlit("action_set_relative( 0 );\n");
    reveal_strlit("with( other )\n");
    reveal_strlit("with( ");
    assert(""@ =~= Seq::<char>::empty());
    assert(crate::gml::dnd::relative_text(true) =~= relative_statement(true));
    assert(crate::gml::dnd::relative_text(false) =~= relative_statement(false));
    assert(crate::gml::dnd::apply_text(action) =~= with_statement(action));
}

/// What stands before the statement of an action that is run by itself.
pub open spec fn before_statement(state: Lowering, action: ActionView) -> Seq<char> {
    with_statement(action) + text_if(is_wrapped(state, action), "{\n"@)
}

/// What makes an action relative or absolute, right before its statement.
pub open spec fn state_set(state: Lowering, action: ActionView) -> Seq<char> {
    text_if(changes_state(state, action), relative_statement(action.relative))
}

/// What stands behind the statement of an action: the state from before it is
/// restored, which is the other one, and the block is closed.
pub open spec fn behind_statement(state: Lowering, action: ActionView) -> Seq<char> {
    text_if(changes_state(state, action), relative_statement(!action.relative)) + text_if(
        is_wrapped(state, action),
        "}\n"@,
    )
}

/// An action that calls a function is lowered to the call, with its arguments in
/// order, run for the instances that it applies to, and in the relative state
/// that it asks for.
#[verifier::spinoff_prover]
pub proof fn law_actions_call_their_functions(
    actions: Seq<ActionView>,
    index: int,
    state: Lowering,
)
    requires
        0 <= index < actions.len(),
        actions[index].kind == 0 || actions[index].kind > 7,
        !actions[index].is_question,
        actions[index].execution_type == 1,
        actions[index].function_name != "action_execute_script"@,
    ensures
        ({
            let action = actions[index];
            let step = action_step(actions, index, state);
            &&& step.next == Ok::<int, crate::gml::dnd::Fault>(index + 1)
            &&& step.state.relative == state.relative
            &&& step.state.output == state.output + before_statement(state, action) + state_set(
                state,
                action,
            ) + action.function_name + "( "@ + arguments_text(
                action.arguments,
                action.arguments.len() as int,
            ) + " );\n"@ + behind_statement(state, action)
        }),
{
    let action = actions[index];
    lemma_statements(action);
    let step = action_step(actions, index, state);
    assert(step == normal_step(actions, index, state));
    let opened = lemma_opened(state, action);
    let arguments = arguments_text(action.arguments, action.arguments.len() as int);
    let call = action.function_name + "( "@ + arguments + " );\n"@;
    let called = relative_pushed(opened, action).with(call);
    assert(normal_expression_step(actions, index, relative_pushed(opened, action)).state == called);
    lemma_closed(state, action, called);
    let start = state.output + before_statement(state, action) + state_set(state, action);
    lemma_joined(start, action.function_name + "( "@ + arguments, " );\n"@);
    lemma_joined(start, action.function_name + "( "@, arguments);
    lemma_joined(start, action.function_name, "( "@);
}

proof fn lemma_joined(first: Seq<char>, second: Seq<char>, third: Seq<char>)
    ensures
        first + (second + third) == first + second + third,
{
    assert(first + (second + third) =~= first + second + third);
}

/// The state in which the statement of an action begins.
proof fn lemma_opened(state: Lowering, action: ActionView) -> (opened: Lowering)
    ensures
        opened == state.with(crate::gml::dnd::apply_text(action)).with_if(
            crate::gml::dnd::applies_elsewhere(action) || crate::gml::dnd::relative_differs(
                state,
                action,
            ),
            "{\n"@,
        ),
        opened.relative == state.relative,
        opened.condition_variable == state.condition_variable,
        opened.output == state.output + before_statement(state, action),
        relative_pushed(opened, action).output == state.output + before_statement(state, action)
            + state_set(state, action),
        relative_pushed(opened, action).condition_variable == state.condition_variable,
        relative_pushed(opened, action).relative == if changes_state(state, action) {
            state.relative.push(action.relative)
        } else {
            state.relative
        },
{
    lemma_statements(action);
    let opened = state.with(crate::gml::dnd::apply_text(action)).with_if(
        crate::gml::dnd::applies_elsewhere(action) || crate::gml::dnd::relative_differs(
            state,
            action,
        ),
        "{\n"@,
    );
    assert(opened.output =~= state.output + before_statement(state, action));
    assert(relative_pushed(opened, action).output =~= opened.output + state_set(state, action));
    opened
}

/// The state behind an action, from that behind its statement.
proof fn lemma_closed(state: Lowering, action: ActionView, inner: Lowering)
    requires
        inner.relative == if changes_state(state, action) {
            state.relative.push(action.relative)
        } else {
            state.relative
        },
    ensures
        ({
            let differs = crate::gml::dnd::relative_differs(state, action);
            let restored = if differs {
                relative_popped(inner)
            } else {
                inner
            };
            let closed = restored.with_if(
                crate::gml::dnd::applies_elsewhere(action) || differs,
                "}\n"@,
            );
            &&& closed.output == inner.output + behind_statement(state, action)
            &&& closed.relative == state.relative
            &&& closed.condition_variable == inner.condition_variable
            &&& restored.relative == state.relative
        }),
{
    lemma_statements(action);
    let differs = crate::gml::dnd::relative_differs(state, action);
    assert(differs == changes_state(state, action));
    if differs {
        assert(inner.relative.drop_last() =~= state.relative);
    }
    let restored = if differs {
        relative_popped(inner)
    } else {
        inner
    };
    assert(restored.output =~= inner.output + text_if(
        differs,
        relative_statement(!action.relative),
    ));
    let closed = restored.with_if(crate::gml::dnd::applies_elsewhere(action) || differs, "}\n"@);
    assert(closed.output =~= inner.output + behind_statement(state, action));
}

/// An action that runs code is lowered to its code.
#[verifier::spinoff_prover]
pub proof fn law_actions_run_their_code(actions: Seq<ActionView>, index: int, state: Lowering)
    requires
        0 <= index < actions.len(),
        actions[index].kind == 6 || actions[index].kind == 7,
        !actions[index].is_question,
        actions[index].execution_type == 2,
        code_of(actions[index]) is Some,
    ensures
        ({
            let action = actions[index];
            let step = action_step(actions, index, state);
            &&& step.next == Ok::<int, crate::gml::dnd::Fault>(index + 1)
            &&& step.state.relative == state.relative
            &&& step.state.output == state.output + before_statement(state, action) + state_set(
                state,
                action,
            ) + code_of(action)->0 + "\n/* */\n"@ + behind_statement(state, action)
        }),
{
    let action = actions[index];
    lemma_statements(action);
    reveal_strlit("\n/* */\n");
    reveal_strlit("\n");
    reveal_strlit("/* */\n");
    assert("\n/* */\n"@ =~= "\n"@ + "/* */\n"@);
    let step = action_step(actions, index, state);
    assert(step == normal_step(actions, index, state));
    let opened = lemma_opened(state, action);
    let code = code_of(action)->0;
    let called = relative_pushed(opened, action).with(code + "\n"@ + "/* */\n"@);
    assert(normal_expression_step(actions, index, relative_pushed(opened, action)).state == called);
    lemma_closed(state, action, called);
    let start = state.output + before_statement(state, action) + state_set(state, action);
    lemma_joined(code, "\n"@, "/* */\n"@);
    lemma_joined(start, code, "\n/* */\n"@);
}

/// An action that sets a variable assigns it, or adds to it if it is relative.
pub proof fn law_relative_assignments_add(action: ActionView)
    requires
        action.kind == 6,
        action.arguments.len() >= 2,
        action.code.len() == 0,
        trimmed(action.arguments[0].value).len() > 0,
        trimmed(action.arguments[1].value).len() > 0,
    ensures
        code_of(action) == Some(
            trimmed(action.arguments[0].value) + (if action.relative {
                " += "@
            } else {
                " = "@
            }) + trimmed(action.arguments[1].value) + ";"@,
        ),
{
    reveal_strlit(" += ");
    reveal_strlit(" = ");
    reveal_strlit("+=");
    reveal_strlit("=");
    reveal_strlit(" ");
    assert(code_of(action)->0 =~= trimmed(action.arguments[0].value) + (if action.relative {
        " += "@
    } else {
        " = "@
    }) + trimmed(action.arguments[1].value) + ";"@);
}

/// The test of the answer of a question: yes, or no if the question is marked so.
pub open spec fn answer_test(action: ActionView) -> Seq<char> {
    if action.is_not {
        "if !__b__\n{\n"@
    } else {
        "if __b__\n{\n"@
    }
}

/// The jump out of the instances that a question is asked for, once one of them
/// gives the answer that is waited for.
pub open spec fn answer_jump(action: ActionView) -> Seq<char> {
    if action.is_not {
        "if !__b__ break;\n"@
    } else {
        "if __b__ break;\n"@
    }
}

proof fn lemma_tests(action: ActionView)
    ensures
        "if "@ + crate::gml::dnd::negation(action) + "__b__\n"@ + "{\n"@ == answer_test(action),
        "if "@ + crate::gml::dnd::negation(action) + "__b__ break;\n"@ == answer_jump(action),
{
    reveal_strlit("");
    reveal_strlit("!");
    reveal_strlit("if ");
    reveal_strlit("__b__\n");
    reveal_strlit("{\n");
    reveal_strlit("__b__ break;\n");
    reveal_strlit("if !__b__\n{\n");
    reveal_strlit("if __b__\n{\n");
    reveal_strlit("if !__b__ break;\n");
    reveal_strlit("if __b__ break;\n");
    assert("if "@ + crate::gml::dnd::negation(action) + "__b__\n"@ + "{\n"@ =~= answer_test(
        action,
    ));
    assert("if "@ + crate::gml::dnd::negation(action) + "__b__ break;\n"@ =~= answer_jump(action));
}

/// What stands before the test of a question that calls a function: the variable
/// is declared once, and set to what the function returns, for the instances and
/// in the relative state that the question asks for.
pub open spec fn question_text(state: Lowering, action: ActionView) -> Seq<char> {
    before_statement(state, action) + text_if(!state.condition_variable, "var __b__;\n"@)
        + state_set(state, action) + "__b__ = "@ + action.function_name + "( "@ + arguments_text(
        action.arguments,
        action.arguments.len() as int,
    ) + " );\n"@ + text_if(
        action.use_apply_to && action.who != -1 && action.who != -2,
        answer_jump(action),
    ) + behind_statement(state, action)
}

/// The action behind a question is run if the question is answered with yes, or
/// with no if it is marked so; the action behind the `else` of the question is
/// run otherwise.
#[verifier::spinoff_prover]
#[verifier::rlimit(40)]
pub proof fn law_questions_guard_the_next_action(
    actions: Seq<ActionView>,
    index: int,
    state: Lowering,
)
    requires
        0 <= index,
        index + 1 < actions.len(),
        actions[index].kind == 0 || actions[index].kind > 5,
        actions[index].is_question,
        actions[index].execution_type == 1,
        actions[index].function_name != "action_execute_script"@,
        action_step(actions, index, state).next is Ok,
    ensures
        ({
            let action = actions[index];
            let step = action_step(actions, index, state);
            exists|asked: Lowering|
                {
                    &&& asked.output == state.output + question_text(state, action) + (
                    if action.is_not {
                        "if !__b__\n{\n"@
                    } else {
                        "if __b__\n{\n"@
                    })
                    &&& asked.relative == state.relative
                    &&& asked.condition_variable
                    &&& (#[trigger] action_step(actions, index + 1, asked)).next is Ok
                    &&& is_guarded(actions, index + 1, asked, step.state, step.next->Ok_0)
                }
        }),
{
    let action = actions[index];
    lemma_statements(action);
    lemma_tests(action);
    let step = action_step(actions, index, state);
    assert(step == condition_step(actions, index, state));
    let answer = answer_step(actions, index, state);
    assert(answer.next is Ok);
    let asked = answer.state;
    lemma_asked(actions, index, state);
    let then = action_step(actions, index + 1, asked);
    assert(then.next is Ok);
    reveal_strlit("}\n");
    reveal_strlit("else\n{\n");
    reveal_strlit("}\nelse\n{\n");
    assert("}\n"@ + "else\n{\n"@ =~= "}\nelse\n{\n"@);
    let next = crate::gml::dnd::behind(index + 1, then.next->Ok_0);
    if next < actions.len() && actions[next].kind == 3 {
        let opened = then.state.with("}\n"@).with("else\n{\n"@);
        assert(opened.output =~= then.state.output + "}\nelse\n{\n"@);
        assert(opened == then.state.with("}\nelse\n{\n"@));
    }
    assert(is_guarded(actions, index + 1, asked, step.state, step.next->Ok_0));
}

/// Whatever computes the answer of a question, the last thing before the action
/// behind it is the test of the answer. Code that computes an answer becomes a
/// script of its own.
#[verifier::spinoff_prover]
pub proof fn law_every_answer_is_tested(actions: Seq<ActionView>, index: int, state: Lowering)
    requires
        0 <= index < actions.len(),
        answer_step(actions, index, state).next is Ok,
    ensures
        ({
            let action = actions[index];
            let asked = answer_step(actions, index, state).state;
            &&& asked.condition_variable
            &&& exists|before: Seq<char>|
                #![trigger before.len()] asked.output == before + (if action.is_not {
                    "if !__b__\n{\n"@
                } else {
                    "if __b__\n{\n"@
                })
            &&& action.execution_type == 2 ==> {
                &&& asked.scripts.len() == state.scripts.len() + 1
                &&& asked.scripts.drop_last() == state.scripts
                &&& Some(asked.scripts.last().code) == code_of(action)
                &&& asked.next_script == state.next_script + 1
            }
            &&& action.execution_type == 1 ==> asked.scripts == state.scripts
        }),
{
    let action = actions[index];
    lemma_tests(action);
    let differs = crate::gml::dnd::relative_differs(state, action);
    let wrapped = crate::gml::dnd::applies_elsewhere(action) || differs;
    let opened = state.with(crate::gml::dnd::apply_text(action)).with_if(wrapped, "{\n"@);
    let declared = Lowering {
        condition_variable: true,
        ..opened.with_if(!opened.condition_variable, "var __b__;\n"@)
    };
    let inner = question_step(actions, index, relative_pushed(declared, action));
    let left = inner.state.with_if(
        crate::gml::dnd::applies_by_number(action),
        "if "@ + crate::gml::dnd::negation(action) + "__b__ break;\n"@,
    );
    let restored = if differs {
        relative_popped(left)
    } else {
        left
    };
    let before = restored.with_if(wrapped, "}\n"@).output;
    let asked = answer_step(actions, index, state).state;
    assert(asked.output == before + answer_test(action));
    if action.execution_type == 2 {
        assert(asked.scripts.drop_last() =~= state.scripts);
    }
}

#[verifier::spinoff_prover]
#[verifier::rlimit(40)]
proof fn lemma_asked(actions: Seq<ActionView>, index: int, state: Lowering)
    requires
        0 <= index < actions.len(),
        actions[index].execution_type == 1,
        actions[index].function_name != "action_execute_script"@,
    ensures
        ({
            let action = actions[index];
            let asked = answer_step(actions, index, state).state;
            &&& asked.output == state.output + question_text(state, action) + answer_test(action)
            &&& asked.relative == state.relative
            &&& asked.condition_variable
        }),
{
    let action = actions[index];
    lemma_statements(action);
    lemma_tests(action);
    let opened = lemma_opened(state, action);
    let declaration = text_if(!state.condition_variable, "var __b__;\n"@);
    let declared = Lowering {
        condition_variable: true,
        ..opened.with_if(!opened.condition_variable, "var __b__;\n"@)
    };
    assert(declared.output =~= opened.output + declaration);
    let pushed = relative_pushed(declared, action);
    assert(pushed.output =~= declared.output + state_set(state, action));
    let arguments = arguments_text(action.arguments, action.arguments.len() as int);
    let call = crate::gml::dnd::call_text(action.function_name, arguments);
    let computed = question_step(actions, index, pushed).state;
    assert(computed == pushed.with("__b__ = "@ + call));
    let by_number = action.use_apply_to && action.who != -1 && action.who != -2;
    let left = computed.with_if(by_number, answer_jump(action));
    assert(left.output =~= computed.output + text_if(by_number, answer_jump(action)));
    lemma_closed(state, action, left);
    let before = before_statement(state, action);
    let set = state_set(state, action);
    let behind = behind_statement(state, action);
    let jump = text_if(by_number, answer_jump(action));
    let name = action.function_name;
    let start = state.output + before + declaration + set;
    lemma_joined(start, "__b__ = "@, name + "( "@ + arguments + " );\n"@);
    let start = start + "__b__ = "@;
    lemma_joined(start, name + "( "@ + arguments, " );\n"@);
    lemma_joined(start, name + "( "@, arguments);
    lemma_joined(start, name, "( "@);
    let o = state.output;
    let text = before + declaration;
    lemma_joined(o, before, declaration);
    lemma_joined(o, text, set);
    let text = text + set;
    lemma_joined(o, text, "__b__ = "@);
    let text = text + "__b__ = "@;
    lemma_joined(o, text, name);
    let text = text + name;
    lemma_joined(o, text, "( "@);
    let text = text + "( "@;
    lemma_joined(o, text, arguments);
    let text = text + arguments;
    lemma_joined(o, text, " );\n"@);
    let text = text + " );\n"@;
    lemma_joined(o, text, jump);
    let text = text + jump;
    lemma_joined(o, text, behind);
    assert(question_text(state, action) == text + behind);
}

/// Whether a state is that behind a guarded action: the block of the action is
/// closed, and an `else` behind it opens and closes another one for the action
/// behind it.
pub open spec fn is_guarded(
    actions: Seq<ActionView>,
    index: int,
    asked: Lowering,
    state: Lowering,
    next: int,
) -> bool {
    let then = action_step(actions, index, asked);
    let end = if then.next->Ok_0 > index {
        then.next->Ok_0
    } else {
        index + 1
    };
    if end < actions.len() && actions[end].kind == 3 {
        let other = action_step(actions, end + 1, then.state.with("}\nelse\n{\n"@));
        &&& end + 1 < actions.len()
        &&& other.next is Ok
        &&& state.output == other.state.output + "}\n"@
        &&& next > end + 1
    } else {
        &&& state.output == then.state.output + "}\n"@
        &&& next == end
    }
}

/// The end of the code ends it, a repetition repeats the next action, and a block
/// holds the actions up to its end in braces.
pub proof fn law_control_actions(actions: Seq<ActionView>, index: int, state: Lowering)
    requires
        0 <= index < actions.len(),
    ensures
        ({
            let action = actions[index];
            let step = action_step(actions, index, state);
            &&& action.kind == 4 ==> {
                &&& step.next == Ok::<int, crate::gml::dnd::Fault>(index + 1)
                &&& step.state.output == state.output + (if state.relative.len() > 0 {
                    "action_set_relative( 0 );\nexit;\n"@
                } else {
                    "exit;\n"@
                })
            }
            &&& action.kind == 5 && action.arguments.len() > 0 && index + 1 < actions.len()
                ==> step == action_step(
                actions,
                index + 1,
                state.with("repeat( "@ + action.arguments[0].value + " )\n"@),
            )
            &&& action.kind == 1 && index + 1 < actions.len() && actions[index + 1].kind == 2 ==> {
                &&& step.next == Ok::<int, crate::gml::dnd::Fault>(index + 2)
                &&& step.state.output == state.output + "{\n}\n"@
            }
            &&& action.kind == 2 || action.kind == 3 ==> step.next is Err
        }),
{
    let action = actions[index];
    reveal_strlit("action_set_relative( 0 );\nexit;\n");
    reveal_strlit("action_set_relative( 0 );\n");
    reveal_strlit("exit;\n");
    reveal_strlit("{\n");
    reveal_strlit("}\n");
    reveal_strlit("{\n}\n");
    assert("action_set_relative( 0 );\n"@ + "exit;\n"@ =~= "action_set_relative( 0 );\nexit;\n"@);
    assert("{\n"@ + "}\n"@ =~= "{\n}\n"@);
    let step = action_step(actions, index, state);
    if action.kind == 4 {
        assert(step.state.output =~= state.output + (if state.relative.len() > 0 {
            "action_set_relative( 0 );\nexit;\n"@
        } else {
            "exit;\n"@
        }));
    }
    if action.kind == 1 && index + 1 < actions.len() && actions[index + 1].kind == 2 {
        let opened = state.with("{\n"@);
        assert(block_step(actions, index, index + 1, opened).state == opened.with("}\n"@));
        assert(step.state.output =~= state.output + "{\n}\n"@);
    }
}

/// An argument that is a string is put in quotes unless it begins with one, and
/// every other argument is written as it is.
pub proof fn law_arguments_are_quoted(argument: ArgumentView)
    ensures
        ({
            let text = function_argument_text(argument);
            let quoted = argument.value.len() > 0 && (argument.value[0] == '"'
                || argument.value[0] == '\'');
            if argument.kind != 1 && argument.kind != 2 || quoted {
                text == argument.value
            } else {
                &&& text.len() == argument.value.len() + 2
                &&& text[0] == '"' && text.last() == '"'
                &&& text.subrange(1, text.len() - 1) == argument.value
            }
        }),
{
    let text = function_argument_text(argument);
    assert(text != argument.value ==> text.subrange(1, text.len() - 1) =~= argument.value);
    let wrapped = seq!['"'] + argument.value + seq!['"'];
    assert(wrapped.subrange(1, wrapped.len() - 1) =~= argument.value);
}

/// The arguments of a call stand in order, with a comma between each two.
pub proof fn law_arguments_are_separated(arguments: Seq<ArgumentView>, count: int)
    requires
        0 < count < arguments.len(),
    ensures
        arguments_text(arguments, 0).len() == 0,
        arguments_text(arguments, 1) == function_argument_text(arguments[0]),
        arguments_text(arguments, count + 1) == arguments_text(arguments, count) + ", "@
            + function_argument_text(arguments[count]),
{
}

/// A list of actions is lowered to one block. The relative state is set at its
/// start and cleared at its end where it changes within the list.
pub proof fn law_lists_are_lowered_to_a_block(actions: Seq<ActionView>, next_script: nat)
    requires
        lowered(actions, next_script).next is Ok,
    ensures
        ({
            let start = initial_lowering(actions, next_script);
            let inside = actions_step(actions, 0, start).state;
            let used = inside.relative.len() > 0;
            &&& start.output == "{\n"@ + (if start.relative.len() > 0 {
                relative_statement(start.relative[0])
            } else {
                ""@
            })
            &&& lowered(actions, next_script).state.output == inside.output + (if used {
                "action_set_relative( 0 );\n/*  */ }\n"@
            } else {
                "/*  */ }\n"@
            })
        }),
{
    let start = initial_lowering(actions, next_script);
    let inside = actions_step(actions, 0, start).state;
    reveal_strlit("action_set_relative( 0 );\n");
    reveal_strlit("/*  */ }\n");
    reveal_strlit("action_set_relative( 0 );\n/*  */ }\n");
    reveal_strlit("");
    if start.relative.len() > 0 {
        lemma_relative_statement(start.relative[0]);
    }
    assert(start.output =~= "{\n"@ + (if start.relative.len() > 0 {
        relative_statement(start.relative[0])
    } else {
        ""@
    }));
    assert("action_set_relative( 0 );\n"@ + "/*  */ }\n"@
        =~= "action_set_relative( 0 );\n/*  */ }\n"@);
    assert(lowered(actions, next_script).state.output =~= inside.output + (
    if inside.relative.len() > 0 {
        "action_set_relative( 0 );\n/*  */ }\n"@
    } else {
        "/*  */ }\n"@
    }));
}

proof fn lemma_relative_statement(relative: bool)
    ensures
        crate::gml::dnd::relative_text(relative) == relative_statement(relative),
{
    reveal_strlit("1");
    reveal_strlit("0");
    reveal_strlit("action_set_relative( ");
    reveal_strlit(" );\n");
    reveal_strlit("action_set_relative( 1 );\n");
    reveal_strlit("action_set_relative( 0 );\n");
    assert(crate::gml::dnd::relative_text(relative) =~= relative_statement(relative));
}

} // verus!
