use gmx::gml::ast::{Accessor, BinaryOp, Expr, ExprKind, StmtKind};
use gmx::gml::dnd::{lower_actions, DndContext};
use gmx::gml::lexer::{lex, TokenKind};
use gmx::gml::macros::MacroTable;
use gmx::gml::parser::{parse, token_name};
use gmx::gml::project::{action_code, extract_global_pragmas, CodeKind, CodeUnit};
use gmx::gml::semantic::{
    collect_names, collect_project_declarations, NameAccess, NameBinding, ResolveResult, Resolver,
};
use gmx::gml::symbols::{CallableSymbol, SymbolId, Symbols, ValueSymbol};
use gmx::gml::vm::{Opcode, VariableKind, VmBuffer, VmType};
use gmx::resources::{Action, ActionArgument};
use gmx::settings::{CompileConstant, ConstantSource};

#[test]
fn lexes_legacy_operators_and_accessors() {
    let tokens = lex("a[? k] += $ff div 2 and b <> c; x[@ 0]++").unwrap();
    let kinds: Vec<_> = tokens.into_iter().map(|token| token.kind).collect();
    assert_eq!(
        kinds,
        [
            TokenKind::Identifier,
            TokenKind::AccessorOpen(Accessor::DsMap),
            TokenKind::Identifier,
            TokenKind::RightBracket,
            TokenKind::AddAssign,
            TokenKind::Number,
            TokenKind::IntegerDivide,
            TokenKind::Number,
            TokenKind::LogicalAnd,
            TokenKind::Identifier,
            TokenKind::NotEqual,
            TokenKind::Identifier,
            TokenKind::Semicolon,
            TokenKind::Identifier,
            TokenKind::AccessorOpen(Accessor::ArrayDirect),
            TokenKind::Number,
            TokenKind::RightBracket,
            TokenKind::Increment,
            TokenKind::Eof,
        ]
    );
}

#[test]
fn tracks_unicode_source_positions() {
    let tokens = lex("// 注释\n变量 = 1").unwrap();
    assert_eq!(tokens[0].kind, TokenKind::Identifier);
    assert_eq!(tokens[0].span.line, 2);
    assert_eq!(tokens[0].span.column, 1);
    assert_eq!(
        &"// 注释\n变量 = 1"[tokens[0].span.start as usize..tokens[0].span.end as usize],
        "变量"
    );
}

#[test]
fn reports_unterminated_input() {
    let error = lex("/* missing").unwrap_err();
    assert_eq!(error[0].span.line, 1);
    assert!(error[0].message.contains("unterminated"));
}

fn constant(name: &str, value: &str) -> CompileConstant {
    CompileConstant {
        name: name.to_owned(),
        value: value.to_owned(),
        source: ConstantSource::Extension,
    }
}

#[test]
fn expands_expression_and_writable_global_macros() {
    let constants = [
        constant("LIMIT", "40 + 2"),
        constant("nsfs_is_available", "global.g_nsfs_is_available"),
    ];
    let table = MacroTable::new(&constants);
    let source = "nsfs_is_available = LIMIT; return nsfs_is_available; // nsfs_is_available";
    let expanded = table.expand(source).unwrap().unwrap();
    let normalized = expanded.split_whitespace().collect::<Vec<_>>().join(" ");

    assert!(normalized.contains("global . g_nsfs_is_available = 40 + 2"));
    assert!(normalized.contains("return global . g_nsfs_is_available"));
    assert!(expanded.ends_with("// nsfs_is_available"));
}

#[test]
fn expands_forward_references_and_function_aliases() {
    let constants = [
        constant("FIRST", "SECOND"),
        constant("SECOND", "1"),
        constant("TRACE", "show_debug_message"),
    ];
    let table = MacroTable::new(&constants);
    let expanded = table.expand("TRACE(FIRST);").unwrap().unwrap();

    assert!(expanded.contains("show_debug_message"));
    assert!(expanded.contains("( 1 )"));
}

#[test]
fn rejects_recursive_and_instance_member_macro_uses() {
    let constants = [constant("FIRST", "SECOND"), constant("SECOND", "FIRST")];
    let table = MacroTable::new(&constants);
    let error = table.expand("return FIRST;").unwrap_err();
    assert!(error[0].message.contains("recursive macro expansion"));

    let constants = [constant("value", "global.actual")];
    let table = MacroTable::new(&constants);
    let error = table.expand("holder.value = 1;").unwrap_err();
    assert!(error[0].message.contains("cannot be used as an instance variable"));
}

#[test]
fn leaves_source_without_macro_names_alone() {
    let constants = [constant("LIMIT", "40 + 2")];
    let table = MacroTable::new(&constants);
    assert!(!table.is_empty());
    assert_eq!(table.expand("return value;").unwrap(), None);
    assert!(MacroTable::new(&[]).is_empty());
}

#[test]
fn parses_legacy_control_flow() {
    let source = r#"
            var i = 0, total = 0;
            for (i = 0; i < 10; i++) begin
                if i mod 2 = 0 then total += i else continue;
            end
            do total-- until total <= 0;
            return total;
        "#;
    let program = parse(source).unwrap();
    assert_eq!(program.statements.len(), 4);
    assert!(matches!(program.statements[1].kind, StmtKind::For { .. }));
    assert!(matches!(
        program.statements[2].kind,
        StmtKind::DoUntil { .. }
    ));
}

#[test]
fn accepts_trailing_for_clause_semicolons_like_the_official_parser() {
    let program = parse("for (i = 0; i < 10; i += 1;) value += i; for (;;;) break;").unwrap();

    assert_eq!(program.statements.len(), 2);
    let StmtKind::For { step, .. } = &program.statements[0].kind else {
        panic!("first statement should be a for loop");
    };
    assert!(step.is_some());
    let StmtKind::For { condition, step, .. } = &program.statements[1].kind else {
        panic!("second statement should be a for loop");
    };
    assert!(condition.is_none());
    assert!(step.is_none());
}

#[test]
fn distinguishes_statement_assignment_from_single_equal_comparison() {
    let program = parse("a = 1; if (a = 1) b = 2;").unwrap();
    let StmtKind::Expr(Expr { kind: ExprKind::Assign { .. }, .. }) = &program.statements[0].kind
    else {
        panic!("first statement should be an assignment");
    };
    let StmtKind::If { condition, .. } = &program.statements[1].kind else {
        panic!("second statement should be an if");
    };
    let ExprKind::Group(condition) = &condition.kind else {
        panic!("condition should preserve grouping");
    };
    assert!(matches!(
        condition.kind,
        ExprKind::Binary { op: BinaryOp::Equal, .. }
    ));
}

#[test]
fn parses_enum_switch_and_accessors() {
    let source = r#"
            enum State { Idle, Run = 4, Done }
            switch state {
                case State.Run: value = map[? "key"];
                default: value = grid[# x, y]; break;
            }
        "#;
    let program = parse(source).unwrap();
    assert!(matches!(program.statements[0].kind, StmtKind::Enum { .. }));
    assert!(matches!(
        program.statements[1].kind,
        StmtKind::Switch { .. }
    ));
}

#[test]
fn reports_line_and_column() {
    let errors = parse("if true {\n  value = ;\n}").unwrap_err();
    assert_eq!(errors[0].span.line, 2);
    assert_eq!(errors[0].span.column, 11);
}

#[test]
fn matches_official_instruction_encoding() {
    let mut vm = VmBuffer::new();
    vm.emit_push_immediate(16);
    vm.emit_types(Opcode::Conv, VmType::Int, VmType::Variable);
    vm.emit_variable(
        Opcode::Push,
        -1,
        None,
        None,
        "x",
        VariableKind::Instance,
        0xa000_0000,
        None,
    )
    .unwrap();
    assert_eq!(
        vm.bytes(),
        &[
            0x10, 0x00, 0x0f, 0x84, 0x00, 0x00, 0x52, 0x07, 0xff, 0xff, 0x05, 0xc0, 0x00, 0x00,
            0x00, 0xa0,
        ]
    );
    assert_eq!(vm.variable_references[0].offset, 12);
}

#[test]
fn breaks_carry_a_word() {
    let mut vm = VmBuffer::new();
    vm.emit_break_i32(10, -2);
    assert_eq!(
        vm.bytes(),
        &[0x0a, 0x00, 0x02, 0xff, 0xfe, 0xff, 0xff, 0xff]
    );
}

#[test]
fn branches_are_relative_to_the_instruction_word() {
    let mut vm = VmBuffer::new();
    let end = vm.label();
    vm.emit_branch(Opcode::BranchFalse, end).unwrap();
    vm.emit_push_immediate(1);
    vm.mark(end).unwrap();
    vm.resolve_branches().unwrap();
    assert_eq!(
        vm.bytes(),
        &[0x02, 0x00, 0x00, 0xb8, 0x01, 0x00, 0x0f, 0x84]
    );
}

#[test]
fn reference_payloads_start_at_the_second_word() {
    let mut vm = VmBuffer::new();
    vm.emit_call("show_debug_message", 1).unwrap();
    vm.emit_push_string("hello").unwrap();
    assert_eq!(vm.function_references[0].offset, 4);
    assert_eq!(vm.string_references[0].offset, 12);
}

fn action(kind: i32, execution_type: i32, function: &str, arguments: &[(&str, i32)]) -> Action {
    Action {
        library_id: 1,
        id: 0,
        kind,
        use_relative: false,
        is_question: false,
        use_apply_to: false,
        execution_type,
        function_name: function.to_owned(),
        code: String::new(),
        who_name: "self".to_owned(),
        who: -1,
        relative: false,
        is_not: false,
        arguments: arguments
            .iter()
            .map(|(value, kind)| ActionArgument {
                kind: *kind,
                value_kind: String::new(),
                value: (*value).to_owned(),
            })
            .collect(),
    }
}

#[test]
fn lowers_function_variable_and_code_actions() {
    let actions = [
        action(0, 1, "show_debug_message", &[("hello", 1)]),
        action(6, 2, "", &[("score", 1), ("10", 0)]),
        action(7, 2, "", &[("x += 1;", 1)]),
    ];
    let lowered = lower_actions(&actions).unwrap();
    assert!(lowered.code.contains("show_debug_message( \"hello\" );"));
    assert!(lowered.code.contains("score = 10;"));
    assert!(lowered.code.contains("x += 1;"));
    assert!(parse(&lowered.code).is_ok());
}

#[test]
fn lowers_question_block_else_and_repeat() {
    let mut question = action(
        0,
        1,
        "action_if_variable",
        &[("score", 0), ("10", 0), ("0", 4)],
    );
    question.is_question = true;
    let actions = [
        question,
        action(1, 0, "", &[]),
        action(7, 2, "", &[("score += 1;", 1)]),
        action(2, 0, "", &[]),
        action(3, 0, "", &[]),
        action(5, 0, "", &[("2", 0)]),
        action(7, 2, "", &[("score -= 1;", 1)]),
    ];
    let lowered = lower_actions(&actions).unwrap();
    assert!(lowered.code.contains("var __b__;"));
    assert!(lowered.code.contains("else"));
    assert!(lowered.code.contains("repeat( 2 )"));
    assert!(parse(&lowered.code).is_ok());
}

#[test]
fn rejects_unbalanced_control_actions() {
    let error = lower_actions(&[action(1, 0, "", &[])]).unwrap_err();
    assert!(error.message.contains("matching end"));
}

#[test]
fn turns_question_code_into_a_generated_script() {
    let mut question = action(7, 2, "", &[("return score > 0;", 1)]);
    question.is_question = true;
    let lowered = lower_actions(&[question, action(7, 2, "", &[("score = 0;", 1)])]).unwrap();
    assert_eq!(lowered.scripts.len(), 1);
    assert_eq!(lowered.scripts[0].name, "__script0__");
    assert_eq!(lowered.scripts[0].code, "return score > 0;");
    assert!(lowered.code.contains("__b__ = __script0__(  );"));
}

fn inline_action(kind: i32, relative: bool, arguments: &[&str]) -> Action {
    Action {
        library_id: 1,
        id: 0,
        kind,
        use_relative: true,
        is_question: false,
        use_apply_to: true,
        execution_type: 2,
        function_name: String::new(),
        code: String::new(),
        who_name: "self".to_owned(),
        who: -1,
        relative,
        is_not: false,
        arguments: arguments
            .iter()
            .map(|value| ActionArgument {
                kind: 0,
                value_kind: String::new(),
                value: (*value).to_owned(),
            })
            .collect(),
    }
}

#[test]
fn lowers_inline_dnd_actions() {
    assert_eq!(
        action_code(&inline_action(6, false, &["speed", "4"])).unwrap(),
        "speed = 4;"
    );
    assert_eq!(
        action_code(&inline_action(6, true, &["x", "8"])).unwrap(),
        "x += 8;"
    );
    assert_eq!(
        action_code(&inline_action(7, false, &["show_debug_message(1)"])).unwrap(),
        "show_debug_message(1)"
    );
    assert!(action_code(&inline_action(0, false, &[])).is_none());
    let mut other = inline_action(0, false, &[]);
    other.code = "sound_play(a);".to_owned();
    assert_eq!(action_code(&other), None);
    other.kind = 7;
    assert_eq!(action_code(&other).unwrap(), "sound_play(a);");
}

#[test]
fn extracts_global_pragmas_without_shifting_source_positions() {
    let source = "value = 1;\ngml_pragma(\"global\", 'global.score = 0;');\nvalue += 2;";
    let (stripped, globals) = extract_global_pragmas(source);
    let stripped = stripped.unwrap();
    assert_eq!(globals, ["global.score = 0;"]);
    assert_eq!(stripped.len(), source.len());
    assert_eq!(stripped.matches('\n').count(), 2);
    assert!(!stripped.contains("gml_pragma"));
    assert!(parse(&stripped).is_ok());
}

fn resolve(source: &str, configure: impl FnOnce(&mut Symbols)) -> ResolveResult {
    let mut symbols = Symbols::new();
    configure(&mut symbols);
    let program = parse(source).unwrap();
    collect_names(&mut symbols, source, &program);
    let mut globals: Vec<SymbolId> = Vec::new();
    collect_project_declarations(&mut symbols, &mut globals, source, &program);
    let unit = CodeUnit {
        kind: CodeKind::Script,
        name: "test".to_owned(),
        vm_name: "gml_Script_test".to_owned(),
        source: "test.gml".to_owned(),
        code: source.to_owned(),
    };
    Resolver::new(&symbols, &globals, &unit, &program).run()
}

fn define_value(symbols: &mut Symbols, name: &str, value: ValueSymbol) {
    let id = symbols.intern(name);
    symbols.set_value(id, value, 40);
}

fn define_callable(symbols: &mut Symbols, name: &str, callable: CallableSymbol) {
    let id = symbols.intern(name);
    symbols.set_callable(id, callable);
}

#[test]
fn resolves_constants_variables_scripts_and_functions() {
    let result = resolve(
        "var value = c_red; global.score = value; room_speed += 1; custom = value; scr_test(); show_debug_message(value);",
        |symbols| {
            define_value(symbols, "c_red", ValueSymbol::BuiltinConstant);
            define_value(symbols, "global", ValueSymbol::BuiltinConstant);
            let room_speed = symbols.intern("room_speed");
            symbols.set_builtin_variable(room_speed);
            define_callable(symbols, "scr_test", CallableSymbol::Script { index: 3 });
            define_callable(
                symbols,
                "show_debug_message",
                CallableSymbol::BuiltinFunction,
            );
        },
    );
    assert!(result.errors.is_empty());
    assert_eq!(result.locals.len(), 1);
    assert!(result
        .names
        .iter()
        .any(|name| matches!(name.binding, NameBinding::LocalVariable { slot: 0 })));
    assert!(result
        .names
        .iter()
        .any(|name| name.binding == NameBinding::GlobalVariable));
    assert!(result
        .names
        .iter()
        .any(|name| name.binding == NameBinding::BuiltinVariable));
    assert!(result
        .names
        .iter()
        .any(|name| name.binding == NameBinding::InstanceVariable));
    assert!(result
        .names
        .iter()
        .any(|name| name.binding == NameBinding::Script { index: 3 }));
    assert!(result
        .names
        .iter()
        .any(|name| name.binding == NameBinding::BuiltinFunction));
}

#[test]
fn resolves_globalvar_and_enum_members_project_wide() {
    let result = resolve(
        "globalvar shared; enum State { Idle, Run = 4 } shared = State.Run;",
        |_| {},
    );
    assert!(result.errors.is_empty());
    assert!(result.names.iter().any(|name| {
        name.binding == NameBinding::GlobalVariable && name.access == NameAccess::Write
    }));
    assert!(result.names.iter().any(|name| matches!(
        name.binding,
        NameBinding::EnumMember { member_index: 1, .. }
    )));
}

#[test]
fn rejects_constant_writes_and_unknown_calls() {
    let result = resolve("c_red = 1; missing_call();", |symbols| {
        define_value(symbols, "c_red", ValueSymbol::BuiltinConstant);
    });
    assert_eq!(result.errors.len(), 2);
    assert!(result.errors[0].message.contains("cannot assign"));
    assert!(result.errors[1].message.contains("unknown function"));
}

#[test]
fn grammar_errors_stand_at_tokens() {
    for source in ["if (a { }", "{ x = 1;", "enum e { a", "x = ;", "else", "a b )"] {
        let tokens = lex(source).unwrap();
        let errors = parse(source).unwrap_err();
        assert_eq!(errors.len(), 1, "{source}");
        assert!(
            tokens.iter().any(|token| token.span == errors[0].span),
            "{source}"
        );
    }
}

#[test]
fn token_names_differ() {
    assert_eq!(token_name(TokenKind::IntegerDivide), "div");
    assert_ne!(token_name(TokenKind::Assign), token_name(TokenKind::Equal));
    assert_eq!(
        token_name(TokenKind::AccessorOpen(Accessor::Array)),
        token_name(TokenKind::AccessorOpen(Accessor::Grid))
    );
}

#[test]
fn scripts_of_one_context_have_names_of_their_own() {
    let mut question = action(7, 2, "", &[("return true;", 1)]);
    question.is_question = true;
    let actions = [question, action(7, 2, "", &[("score = 0;", 1)])];
    let mut context = DndContext::new();
    let first = context.lower(&actions).unwrap();
    let second = context.lower(&actions).unwrap();
    assert_eq!(first.scripts[0].name, "__script0__");
    assert_eq!(second.scripts[0].name, "__script1__");
}

#[test]
fn references_are_words_of_the_code() {
    let mut vm = VmBuffer::new();
    vm.emit_call("a", 0).unwrap();
    vm.emit_push_immediate(1);
    vm.emit_call("b", 0).unwrap();
    vm.emit_push_string("c").unwrap();
    let length = vm.bytes().len() as u32;
    assert_eq!(vm.position().unwrap(), length);
    let offsets = vm
        .function_references
        .iter()
        .map(|reference| reference.offset)
        .collect::<Vec<_>>();
    assert_eq!(offsets, [4, 16]);
    assert_eq!(vm.string_references[0].offset, 24);
    assert_eq!(length, 28);
}
