use gmx::assets::Assets;
use gmx::audio::AudioData;
use gmx::cache::build_dependencies;
use gmx::compile::{write_base_wad, write_vm_wad, write_vm_wad_with_artifacts, BuildOptions};
use gmx::config::Config;
use gmx::gml::backend::{
    compile_vm, CompiledCode, CompiledProject, LocalVariable, VmSummary,
};
use gmx::gml::chunks::{add_vm_chunks, intern_vm_strings};
use gmx::gml::floats::FloatOperation;
use gmx::gml::numbers::NumberText;
use gmx::gml::project::{check_assets, CodeKind};
use gmx::gml::semantic::analyze_assets;
use gmx::gml::symbols::{Builtins, FunctionClass};
use gmx::gml::vm::{Opcode, VariableKind, VmBuffer, VmType};
use gmx::loading::Drafts;
use gmx::masks::{alpha_frame, decode_alpha_frame, sprite_masks, AlphaFrame, ShapePoint};
use gmx::package::{collect_project_files, FileContents, ReadFile};
use gmx::project::ProjectManifest;
use gmx::resource_chunks::{write_shaders, ShaderData};
use gmx::resources::{
    Background, BinaryFile, CollisionType, Extension, ExtensionFile, ExtensionFunction, Sprite,
    SpriteFrame, SpriteType,
};
use gmx::settings::{CompileConstant, CompileOptions, CompileSettings, ConstantSource};
use gmx::textures::{TextureData, TextureItem, TexturePage};
use gmx::wad::{Texture, WadWriter, WriteError};

fn shift(bits: u32, origin: i32) -> u32 {
    (f32::from_bits(bits) - origin as f32).to_bits()
}

fn outside(_point: ShapePoint) -> bool {
    false
}

fn compute(operation: FloatOperation, first: u64, second: u64) -> u64 {
    let left = f64::from_bits(first);
    let right = f64::from_bits(second);
    match operation {
        FloatOperation::Add => (left + right).to_bits(),
        FloatOperation::Subtract => (left - right).to_bits(),
        FloatOperation::Multiply => (left * right).to_bits(),
        FloatOperation::Divide => (left / right).to_bits(),
        FloatOperation::Remainder => (left % right).to_bits(),
        FloatOperation::RoundTiesEven => left.round_ties_even().to_bits(),
        FloatOperation::FromInteger => (first as i64 as f64).to_bits(),
    }
}

fn show(bits: u64) -> String {
    f64::from_bits(bits).to_string()
}

fn read_number(text: &str) -> Option<u64> {
    text.parse::<f64>().ok().map(f64::to_bits)
}

fn texts(names: &[&str]) -> Vec<String> {
    names.iter().map(|name| name.to_string()).collect()
}

const CONSTANTS: [(&str, f64); 17] = [
    ("self", -1.0),
    ("other", -2.0),
    ("all", -3.0),
    ("noone", -4.0),
    ("global", -5.0),
    ("true", 1.0),
    ("false", 0.0),
    ("vbm_fast", 0.0),
    ("vbm_compatible", 1.0),
    ("vbm_most_compatible", 2.0),
    ("vertex_type_float4", 4.0),
    ("vertex_usage_position", 1.0),
    ("cmpfunc_always", 8.0),
    ("cull_counterclockwise", 2.0),
    ("lighttype_point", 1.0),
    ("path_action_reverse", 3.0),
    ("tm_countvsyncs", 1.0),
];

fn builtins() -> Builtins {
    Builtins {
        functions: texts(&[
            "ord",
            "show_debug_message",
            "display_set_windows_vertex_buffer_method",
            "vertex_format_add_custom",
            "gpu_set_zfunc",
            "gpu_set_cullmode",
            "irandom",
            "instance_find",
        ]),
        constants: CONSTANTS.iter().map(|(name, _)| name.to_string()).collect(),
        variables: texts(&["id", "argument0", "room_speed"]),
        constant_values: CONSTANTS
            .iter()
            .map(|(name, value)| NumberText {
                text: name.to_string(),
                bits: value.to_bits(),
            })
            .collect(),
        instance_variables: texts(&["id"]),
        array_variables: Vec::new(),
        function_classes: vec![FunctionClass {
            name: "irandom".to_owned(),
            flags: 4,
        }],
        baseline: 1,
    }
}

fn options() -> CompileOptions {
    CompileOptions {
        config: "Default".to_owned(),
        game_id: 42,
        display_name: "Tiny Game".to_owned(),
        active_targets: 64,
        gen8_flags: 0,
        optn_flags: 0,
        scale: -1,
        window_color: 0,
        color_depth: 0,
        resolution: 0,
        frequency: 0,
        sync_vertex: 0,
        priority: 0,
        load_alpha: 0,
        sleep_margin: 0,
        draw_color: 0,
    }
}

fn settings(constants: Vec<CompileConstant>) -> CompileSettings {
    CompileSettings {
        options: options(),
        audio_groups: Vec::new(),
        constants,
        target_mask: 64,
    }
}

fn no_drafts() -> Drafts {
    Drafts {
        sounds: Ok(Vec::new()),
        sprites: Ok(Vec::new()),
        backgrounds: Ok(Vec::new()),
        paths: Ok(Vec::new()),
        fonts: Ok(Vec::new()),
        timelines: Ok(Vec::new()),
        objects: Ok(Vec::new()),
        rooms: Ok(Vec::new()),
        extensions: Ok(Vec::new()),
    }
}

fn file(source: &str, data: &[u8]) -> ReadFile {
    ReadFile {
        source: source.to_owned(),
        contents: FileContents::Data(data.to_vec()),
    }
}

fn config_file() -> ReadFile {
    file(
        "game/Configs/Default.config.gmx",
        b"<Config><Options/></Config>",
    )
}

fn load_project(manifest: &str) -> ProjectManifest {
    let contents = FileContents::Data(manifest.as_bytes().to_vec());
    ProjectManifest::load("game/Tiny.project.gmx", &contents).unwrap()
}

fn script_assets(
    project: &ProjectManifest,
    config: &Config,
    constants: Vec<CompileConstant>,
    read: &Vec<ReadFile>,
) -> Assets {
    Assets::load(
        project,
        config,
        no_drafts(),
        Ok(settings(constants)),
        read,
        64,
        &shift,
    )
    .unwrap()
}

#[test]
fn checks_the_code_of_a_project() {
    let project = load_project(
        "<assets><scripts><script>scripts\\test.gml</script></scripts><Configs><Config>Configs\\Default</Config></Configs></assets>",
    );
    let mut read = vec![
        config_file(),
        file("game/scripts/test.gml", b"value = 1; return value;"),
    ];
    let config = Config::load_from_project(&project, "Default", &read).unwrap();
    let summary = check_assets(&script_assets(&project, &config, Vec::new(), &read)).unwrap();
    assert_eq!(summary.units, 1);
    assert_eq!(summary.tokens, 7);
    assert_eq!(summary.statements, 2);

    read[1] = file("game/scripts/test.gml", b"value = ;");
    let errors = check_assets(&script_assets(&project, &config, Vec::new(), &read)).unwrap_err();
    assert_eq!(errors[0].name, "test");
    assert_eq!(errors[0].diagnostic.span.column, 9);
}

fn compile_source(label: &str, source: &str) -> CompiledProject {
    compile_source_with_constants(label, source, &[])
}

fn compile_source_with_constants(
    label: &str,
    source: &str,
    constants: &[(&str, &str)],
) -> CompiledProject {
    let listed = constants
        .iter()
        .map(|(name, value)| format!("<constant name=\"{name}\">{value}</constant>"))
        .collect::<String>();
    let project = load_project(&format!(
        "<assets><scripts><script>scripts\\test.gml</script></scripts><constants>{listed}</constants><Configs><Config>Configs\\Default</Config></Configs></assets>"
    ));
    let read = vec![
        config_file(),
        file("game/scripts/test.gml", source.as_bytes()),
    ];
    let config = Config::load_from_project(&project, "Default", &read).unwrap();
    let settled = project
        .constants
        .iter()
        .map(|constant| CompileConstant {
            name: constant.name.clone(),
            value: constant.value.clone(),
            source: ConstantSource::Project,
        })
        .collect();
    let assets = script_assets(&project, &config, settled, &read);
    let builtins = builtins();
    let analysis = match analyze_assets(&assets, &builtins) {
        Ok(analysis) => analysis,
        Err(errors) => panic!("{label}: {errors:?}"),
    };
    match compile_vm(&assets, &analysis, &builtins, &compute, &show, &read_number) {
        Ok(compiled) => compiled,
        Err(errors) => panic!("{label}: {errors:?}"),
    }
}

fn u16_at(bytes: &[u8], offset: usize) -> u16 {
    u16::from_le_bytes(bytes[offset..offset + 2].try_into().unwrap())
}

fn u32_at(bytes: &[u8], offset: usize) -> u32 {
    u32::from_le_bytes(bytes[offset..offset + 4].try_into().unwrap())
}

fn i32_at(bytes: &[u8], offset: usize) -> i32 {
    i32::from_le_bytes(bytes[offset..offset + 4].try_into().unwrap())
}

fn string_at(bytes: &[u8], offset: usize) -> &str {
    let end = bytes[offset..]
        .iter()
        .position(|byte| *byte == 0)
        .map(|length| offset + length)
        .unwrap();
    std::str::from_utf8(&bytes[offset..end]).unwrap()
}

/// The chunks of a data file with the places of their data.
fn chunks(bytes: &[u8]) -> Vec<([u8; 4], usize)> {
    assert_eq!(&bytes[..4], b"FORM");
    assert_eq!(u32_at(bytes, 4) as usize, bytes.len() - 8);
    let mut found = Vec::new();
    let mut offset = 8;
    while offset < bytes.len() {
        found.push((bytes[offset..offset + 4].try_into().unwrap(), offset + 8));
        offset += 8 + u32_at(bytes, offset + 4) as usize;
    }
    assert_eq!(offset, bytes.len());
    found
}

fn chunk(bytes: &[u8], name: &[u8; 4]) -> usize {
    chunks(bytes)
        .into_iter()
        .find(|(found, _)| found == name)
        .unwrap()
        .1
}

fn vm_file(project: &CompiledProject) -> Vec<u8> {
    let mut writer = WadWriter::new();
    intern_vm_strings(&mut writer, project);
    add_vm_chunks(&mut writer, &builtins(), project);
    writer.write_strg();
    writer.finish().unwrap().bytes
}

#[test]
fn writes_official_vm_records_and_reference_chains() {
    let mut vm = VmBuffer::new();
    for _ in 0..2 {
        vm.emit_variable(
            Opcode::Push,
            -1,
            None,
            None,
            "value",
            VariableKind::Instance,
            0xa000_0000,
            None,
        )
        .unwrap();
    }
    for _ in 0..2 {
        vm.emit_call("show_debug_message", 0).unwrap();
    }
    vm.emit_push_string("hello").unwrap();
    vm.emit(Opcode::Exit, VmType::Int);
    let bytecode = vm.finish().unwrap();
    let project = CompiledProject {
        function_classifications: 0,
        summary: VmSummary {
            code_units: 1,
            bytecode_bytes: bytecode.bytes.len(),
            variable_references: 2,
            function_references: 2,
            string_references: 1,
        },
        codes: vec![CompiledCode {
            kind: CodeKind::Script,
            name: "test".to_owned(),
            vm_name: "gml_Script_test".to_owned(),
            bytecode,
            local_count: 1,
            locals: vec![LocalVariable {
                slot: 0,
                name: "arguments".to_owned(),
            }],
        }],
    };

    let bytes = vm_file(&project);
    let code_data = chunk(&bytes, b"CODE");
    assert_eq!(u32_at(&bytes, code_data), 1);
    let code_base = code_data + 8;
    let record = u32_at(&bytes, code_data + 4) as usize;
    assert_eq!(
        string_at(&bytes, u32_at(&bytes, record) as usize),
        "gml_Script_test"
    );
    assert_eq!(
        u32_at(&bytes, record + 4) as usize,
        project.codes[0].bytecode.bytes.len()
    );
    assert_eq!(u16_at(&bytes, record + 8), 1);
    assert_eq!(
        (record + 12) as i64 + i64::from(i32_at(&bytes, record + 12)),
        code_base as i64
    );

    let variable_data = chunk(&bytes, b"VARI");
    assert_eq!(i32_at(&bytes, variable_data), 3);
    assert_eq!(i32_at(&bytes, variable_data + 8), 1);
    let value_record = variable_data + 12 + 3 * 20;
    assert_eq!(
        string_at(&bytes, u32_at(&bytes, value_record) as usize),
        "value"
    );
    assert_eq!(i32_at(&bytes, value_record + 8), 2);
    assert_eq!(u32_at(&bytes, value_record + 12), 2);
    assert_eq!(u32_at(&bytes, value_record + 16) as usize, code_base);
    assert_eq!(u32_at(&bytes, code_base + 4), 0xa000_0008);

    let function_data = chunk(&bytes, b"FUNC");
    assert_eq!(u32_at(&bytes, function_data), 1);
    assert_eq!(
        string_at(&bytes, u32_at(&bytes, function_data + 4) as usize),
        "show_debug_message"
    );
    assert_eq!(u32_at(&bytes, function_data + 8), 2);
    assert_eq!(u32_at(&bytes, function_data + 12) as usize, code_base + 16);
    assert_eq!(u32_at(&bytes, code_base + 20), 8);
    assert_eq!(u32_at(&bytes, code_base + 36), 5);
}

#[test]
fn variable_records_group_types_by_first_name_occurrence() {
    let mut vm = VmBuffer::new();
    vm.emit_variable(
        Opcode::Push,
        -1,
        None,
        None,
        "shared",
        VariableKind::Instance,
        0xa000_0000,
        None,
    )
    .unwrap();
    vm.emit_variable(
        Opcode::Push,
        -1,
        None,
        None,
        "middle",
        VariableKind::Instance,
        0xa000_0000,
        None,
    )
    .unwrap();
    vm.emit_variable(
        Opcode::PushLocal,
        -7,
        None,
        None,
        "shared",
        VariableKind::Local,
        0xa000_0000,
        Some(1),
    )
    .unwrap();
    let bytecode = vm.finish().unwrap();
    let project = CompiledProject {
        function_classifications: 0,
        summary: VmSummary {
            code_units: 1,
            bytecode_bytes: bytecode.bytes.len(),
            variable_references: 3,
            function_references: 0,
            string_references: 0,
        },
        codes: vec![CompiledCode {
            kind: CodeKind::Script,
            name: "test".to_owned(),
            vm_name: "gml_Script_test".to_owned(),
            bytecode,
            local_count: 2,
            locals: vec![
                LocalVariable {
                    slot: 0,
                    name: "arguments".to_owned(),
                },
                LocalVariable {
                    slot: 1,
                    name: "shared".to_owned(),
                },
            ],
        }],
    };

    let bytes = vm_file(&project);
    let start = chunk(&bytes, b"VARI");
    assert_eq!(i32_at(&bytes, start), 4);
    let records = (0..6)
        .map(|index| {
            let record = start + 12 + index * 20;
            (
                string_at(&bytes, u32_at(&bytes, record) as usize),
                i32_at(&bytes, record + 4),
            )
        })
        .collect::<Vec<_>>();
    assert_eq!(
        records,
        [
            ("prototype", -1),
            ("@@array@@", -1),
            ("arguments", -7),
            ("shared", -1),
            ("shared", -7),
            ("middle", -1),
        ]
    );
}

#[test]
fn compiles_basic_control_flow_and_relocations() {
    let compiled = compile_source(
        "vm-codegen",
        "enum E { A = 4, B } var i = E.B; repeat (3) { i += 1; } with (other) { i += ord(\"A\"); } if (i > 3) show_debug_message(\"ok\"); return i;",
    );
    assert_eq!(compiled.codes.len(), 1);
    assert_eq!(compiled.codes[0].locals[0].name, "arguments");
    assert_eq!(compiled.codes[0].locals[1].name, "i");
    assert!(compiled.summary.bytecode_bytes > 32);
    assert!(compiled.summary.variable_references >= 4);
    assert!(compiled.codes[0]
        .bytecode
        .variable_references
        .iter()
        .any(|reference| reference.name == "id"));
    assert_eq!(compiled.summary.function_references, 1);
    assert_eq!(compiled.summary.string_references, 1);
}

#[test]
fn local_slots_follow_first_emitted_name_across_variable_kinds() {
    let compiled = compile_source(
        "vm-local-order",
        "holder.late = 1; var early = 2; var late = 3; return early + late;",
    );
    let code = &compiled.codes[0];
    let names = code
        .locals
        .iter()
        .map(|local| local.name.as_str())
        .collect::<Vec<_>>();
    assert_eq!(names, ["arguments", "late", "early"]);
    assert_eq!(code.local_count, 3);
    assert!(code
        .bytecode
        .variable_references
        .iter()
        .filter(|reference| reference.kind == VariableKind::Local)
        .all(|reference| reference.local_slot
            == Some(if reference.name == "late" { 1 } else { 2 })));
}

#[test]
fn code_local_count_keeps_unused_and_generated_locals_separate() {
    let unused = compile_source("vm-unused-local", "var unused; return 1;");
    assert_eq!(unused.codes[0].local_count, 2);
    assert_eq!(unused.codes[0].locals.len(), 1);

    let generated = compile_source(
        "vm-generated-local",
        "switch (argument0) { case 0: return 1; default: return 2; }",
    );
    assert_eq!(generated.codes[0].local_count, 2);
    assert_eq!(generated.codes[0].locals.len(), 2);
    assert_eq!(generated.codes[0].locals[1].name, "$$$$temp$$$$");
}

#[test]
fn compiles_array_and_dynamic_member_increment_statements() {
    compile_source(
        "vm-increment-statements",
        "a[0]++; --a[1]; holder.value++; --holder.value;",
    );
}

#[test]
fn compiles_prefix_increment_after_semicolonless_literal_assignments() {
    compile_source(
        "vm-prefix-after-assignment",
        "a = 1\n++a\nvalues[0] = 1\n++values[0]",
    );
}

#[test]
fn compiles_writable_project_macro_as_its_expanded_global() {
    let compiled = compile_source_with_constants(
        "vm-writable-macro",
        "nsfs_is_available = true; return nsfs_is_available;",
        &[("nsfs_is_available", "global.g_nsfs_is_available")],
    );
    let references = &compiled.codes[0].bytecode.variable_references;

    assert!(references.iter().any(|reference| {
        reference.name == "g_nsfs_is_available" && reference.kind == VariableKind::Global
    }));
    assert!(!references
        .iter()
        .any(|reference| reference.name == "nsfs_is_available"));
}

#[test]
fn compiles_official_compiler_only_constants_as_immediates() {
    let compiled = compile_source(
        "vm-compiler-constants",
        "display_set_windows_vertex_buffer_method(vbm_fast); \
         display_set_windows_vertex_buffer_method(vbm_compatible); \
         display_set_windows_vertex_buffer_method(vbm_most_compatible); \
         vertex_format_add_custom(vertex_type_float4, vertex_usage_position); \
         gpu_set_zfunc(cmpfunc_always); gpu_set_cullmode(cull_counterclockwise); \
         return lighttype_point + path_action_reverse + tm_countvsyncs;",
    );
    let compiler_only = [
        "vbm_fast",
        "vbm_compatible",
        "vbm_most_compatible",
        "vertex_type_float4",
        "vertex_usage_position",
        "cmpfunc_always",
        "cull_counterclockwise",
        "lighttype_point",
        "path_action_reverse",
        "tm_countvsyncs",
    ];

    assert!(compiled.codes[0]
        .bytecode
        .variable_references
        .iter()
        .all(|reference| !compiler_only.contains(&reference.name.as_str())));
}

fn instruction_word(opcode: Opcode, first: VmType, second: VmType) -> u32 {
    ((opcode.code() as u32) << 24)
        | ((first.code() as u32 | ((second.code() as u32) << 4)) << 16)
}

#[test]
fn preserves_prefix_and_postfix_results_for_stack_addressed_increments() {
    let cases = [
        ("vm-array-post-inc", "return a[0]++;", 5, Opcode::Add, false),
        ("vm-array-pre-dec", "return --a[0];", 5, Opcode::Sub, true),
        (
            "vm-member-post-dec",
            "return holder.value--;",
            6,
            Opcode::Sub,
            false,
        ),
        (
            "vm-member-pre-inc",
            "return ++holder.value;",
            6,
            Opcode::Add,
            true,
        ),
    ];

    for (label, source, reorder_depth, arithmetic, prefix) in cases {
        let compiled = compile_source(label, source);
        let words = compiled.codes[0]
            .bytecode
            .bytes
            .chunks_exact(4)
            .map(|word| u32::from_le_bytes(word.try_into().unwrap()))
            .collect::<Vec<_>>();
        let reorder =
            instruction_word(Opcode::Pop, VmType::Error, VmType::Variable) | reorder_depth;
        let arithmetic = instruction_word(arithmetic, VmType::Int, VmType::Variable);
        let reorder_position = words.iter().position(|word| *word == reorder).unwrap();
        let arithmetic_position = words.iter().position(|word| *word == arithmetic).unwrap();

        assert_eq!(
            reorder_position > arithmetic_position,
            prefix,
            "unexpected increment result ordering for {source}"
        );
    }
}

#[test]
fn evaluates_increment_addresses_once() {
    let compiled = compile_source(
        "vm-increment-address-once",
        "a[irandom(3)]++; instance_find(0, 0).value++;",
    );
    let functions = &compiled.codes[0].bytecode.function_references;
    assert_eq!(
        functions
            .iter()
            .filter(|reference| reference.name == "irandom")
            .count(),
        1
    );
    assert_eq!(
        functions
            .iter()
            .filter(|reference| reference.name == "instance_find")
            .count(),
        1
    );
}

#[test]
fn folds_arithmetic_of_literals() {
    let folded = compile_source("folded", "return 2 + 3;");
    let plain = compile_source("plain", "return 5;");
    assert_eq!(
        folded.codes[0].bytecode.bytes,
        plain.codes[0].bytecode.bytes
    );
}

fn sprite() -> Sprite {
    Sprite {
        index: 0,
        name: "mask".to_owned(),
        source: "mask.sprite.gmx".to_owned(),
        sprite_type: SpriteType::Bitmap,
        width: 5,
        height: 2,
        x_origin: 0,
        y_origin: 0,
        collision_kind: 0,
        collision_type: CollisionType::Precise,
        collision_tolerance: 0,
        separate_masks: false,
        bounding_box_mode: 1,
        bounding_box_left: 0,
        bounding_box_right: 4,
        bounding_box_top: 0,
        bounding_box_bottom: 1,
        frames: Vec::new(),
        swf_source: None,
        spine_source: None,
    }
}

#[test]
fn merges_precise_masks_most_significant_bit_first() {
    let frames = [
        AlphaFrame {
            width: 5,
            height: 2,
            alpha: vec![255, 0, 255, 0, 255, 0, 0, 0, 0, 0],
        },
        AlphaFrame {
            width: 5,
            height: 2,
            alpha: vec![0, 255, 0, 255, 0, 0, 255, 0, 255, 0],
        },
    ];
    assert_eq!(
        sprite_masks(&sprite(), &frames, &outside).unwrap(),
        [vec![0xf8, 0x50]]
    );
}

#[test]
fn separate_masks_hold_the_pixels_within_the_edges() {
    let mut separate = sprite();
    separate.separate_masks = true;
    separate.bounding_box_mode = 2;
    separate.bounding_box_left = 1;
    separate.bounding_box_right = 3;
    let frames = [
        AlphaFrame {
            width: 5,
            height: 2,
            alpha: vec![255; 10],
        },
        AlphaFrame {
            width: 2,
            height: 1,
            alpha: vec![255; 2],
        },
    ];
    assert_eq!(
        sprite_masks(&separate, &frames, &outside).unwrap(),
        [vec![0x70, 0x70], vec![0x40, 0x00]]
    );
}

#[test]
fn writes_aligned_hlsl11_shader_blobs() {
    let shader = ShaderData {
        name: "binary".to_owned(),
        kind: i32::MIN + 4,
        glsles_vertex: String::new(),
        glsles_fragment: String::new(),
        glsl_vertex: String::new(),
        glsl_fragment: String::new(),
        hlsl9_vertex: String::new(),
        hlsl9_pixel: String::new(),
        hlsl11_vertex: vec![1, 2, 3, 4, 5],
        hlsl11_pixel: vec![6, 7, 8],
        attributes: Vec::new(),
    };
    let mut writer = WadWriter::new();
    write_shaders(&mut writer, &vec![shader]);
    writer.write_strg();
    let bytes = writer.finish().unwrap().bytes;
    let record = u32_at(&bytes, chunk(&bytes, b"SHDR") + 4) as usize;
    let vertex = u32_at(&bytes, record + 32) as usize;
    let pixel = u32_at(&bytes, record + 36) as usize;
    assert_eq!(vertex % 8, 0);
    assert_eq!(pixel % 8, 0);
    assert_eq!(&bytes[vertex..vertex + 5], [1, 2, 3, 4, 5]);
    assert_eq!(&bytes[pixel..pixel + 3], [6, 7, 8]);
}

#[test]
fn writes_parseable_base_wad_with_official_chunk_order() {
    let project = load_project(
        "<assets><Configs><Config>Configs\\Default</Config></Configs><datafiles><datafile><name>included.bin</name><exists>-1</exists><size>3</size><filename>included.bin</filename></datafile></datafiles></assets>",
    );
    let read = vec![
        file(
            "game/Configs/Default.config.gmx",
            b"<Config><Options><option_gameid>42</option_gameid><option_display_name>Tiny Game</option_display_name><option_use_new_audio>true</option_use_new_audio></Options></Config>",
        ),
        file("game/included.bin", b"bin"),
    ];
    let config = Config::load_from_project(&project, "Default", &read).unwrap();
    let assets = Assets::load(
        &project,
        &config,
        no_drafts(),
        Ok(settings(Vec::new())),
        &read,
        64,
        &shift,
    )
    .unwrap();
    assert_eq!(
        assets.binary("game/included.bin"),
        Some(b"bin".as_slice())
    );
    assert_eq!(
        assets.binary("game//./included.bin"),
        Some(b"bin".as_slice())
    );
    let base = write_base_wad(&project, &assets, &BuildOptions::default()).unwrap();
    let bytes = &base.bytes;
    assert_eq!(
        chunks(&bytes)
            .into_iter()
            .map(|(name, _)| name)
            .collect::<Vec<_>>(),
        [*b"GEN8", *b"OPTN", *b"LANG", *b"EXTN", *b"STRG"]
    );
}

#[test]
fn missing_background_image_writes_a_null_texture_reference() {
    let project = load_project(
        r#"<assets>
            <Configs><Config>Configs\Default</Config></Configs>
            <backgrounds><background>backgrounds\Missing</background></backgrounds>
        </assets>"#,
    );
    let missing_image = "game/backgrounds/images/missing.png";
    let read = vec![config_file()];
    let config = Config::load_from_project(&project, "Default", &read).unwrap();
    let mut drafts = no_drafts();
    drafts.backgrounds = Ok(vec![Background {
        index: 0,
        name: "Missing".to_owned(),
        source: "game/backgrounds/Missing.background.gmx".to_owned(),
        image_source: missing_image.to_owned(),
    }]);
    let assets = Assets::load(
        &project,
        &config,
        drafts,
        Ok(settings(Vec::new())),
        &read,
        64,
        &shift,
    )
    .unwrap();
    assert_eq!(assets.binary(missing_image), None);
    assert!(build_dependencies(&project, &config, &assets).contains(&missing_image.to_owned()));

    let builtins = builtins();
    let analysis = analyze_assets(&assets, &builtins).unwrap();
    let compiled =
        compile_vm(&assets, &analysis, &builtins, &compute, &show, &read_number).unwrap();
    let audio = AudioData::prepare(&assets, None, &Vec::new()).unwrap();
    let built = write_vm_wad_with_artifacts(
        &project,
        &assets,
        &BuildOptions::default(),
        &compiled,
        &builtins,
        &TextureData::empty(),
        &Vec::new(),
        &audio,
        &read,
        &outside,
    )
    .unwrap();
    let bytes = &built.wad.bytes;
    let backgrounds = chunk(bytes, b"BGND");
    let textures = chunk(bytes, b"TPAG");
    assert_eq!(u32_at(bytes, backgrounds), 1);
    let record = u32_at(bytes, backgrounds + 4) as usize;
    assert_eq!(u32_at(bytes, record + 16), 0);
    assert_eq!(u32_at(bytes, textures), 0);
    assert!(built.external_files.is_empty());

    let alone = write_vm_wad(
        &project,
        &assets,
        &BuildOptions::default(),
        &compiled,
        &builtins,
        &TextureData::empty(),
        &Vec::new(),
        &audio,
        &read,
        &outside,
    )
    .unwrap();
    assert_eq!(alone, built.wad);

    let listed = alone
        .chunks
        .iter()
        .map(|chunk| chunk.name)
        .collect::<Vec<_>>();
    let read_names = chunks(&alone.bytes)
        .into_iter()
        .map(|(name, _)| name)
        .collect::<Vec<_>>();
    assert_eq!(listed, read_names);
    assert_eq!(
        listed,
        [
            *b"GEN8", *b"OPTN", *b"LANG", *b"EXTN", *b"SOND", *b"AGRP", *b"SPRT", *b"BGND",
            *b"PATH", *b"SCPT", *b"GLOB", *b"SHDR", *b"FONT", *b"TMLN", *b"OBJT", *b"ROOM",
            *b"DAFL", *b"TPAG", *b"TXTR", *b"CODE", *b"VARI", *b"FUNC", *b"AUDO", *b"STRG",
        ]
    );

    let textures = TextureData {
        items: vec![TextureItem {
            textures: vec![Texture::Background { index: 0 }],
            record: vec![7, 8, 9],
        }],
        pages: vec![TexturePage {
            scaled: 1,
            data: b"image".to_vec(),
        }],
    };
    let drawn = write_vm_wad(
        &project,
        &assets,
        &BuildOptions::default(),
        &compiled,
        &builtins,
        &textures,
        &Vec::new(),
        &audio,
        &read,
        &outside,
    )
    .unwrap();
    let bytes = &drawn.bytes;
    let record = u32_at(bytes, chunk(bytes, b"BGND") + 4) as usize;
    let item = u32_at(bytes, record + 16) as usize;
    assert_eq!(item, u32_at(bytes, chunk(bytes, b"TPAG") + 4) as usize);
    assert_eq!(&bytes[item..item + 3], [7, 8, 9]);
    let page = u32_at(bytes, chunk(bytes, b"TXTR") + 4) as usize;
    assert_eq!(u32_at(bytes, page), 1);
    let image = u32_at(bytes, page + 4) as usize;
    assert_eq!(&bytes[image..image + 5], b"image");
}

#[test]
fn skips_missing_files_disabled_by_config_or_unused_extensions() {
    let project = load_project(
        r#"<assets>
            <Configs><Config>Configs\Default</Config></Configs>
            <NewExtensions><extension index="0">extensions\Unused</extension></NewExtensions>
            <datafiles><datafile><name>missing.bin</name><exists>-1</exists>
                <ConfigOptions><Config name="Default"><CopyToMask>0</CopyToMask></Config></ConfigOptions>
                <filename>missing.bin</filename></datafile></datafiles>
        </assets>"#,
    );
    let read = vec![config_file()];
    let config = Config::load_from_project(&project, "Default", &read).unwrap();
    let mut drafts = no_drafts();
    drafts.extensions = Ok(vec![Extension {
        name: "Unused".to_owned(),
        source: "game/extensions/Unused.extension.gmx".to_owned(),
        folder: "game/extensions/Unused".to_owned(),
        product_id: String::new(),
        class_name: String::new(),
        files: vec![ExtensionFile {
            filename: "missing.dll".to_owned(),
            source: "game/extensions/Unused/missing.dll".to_owned(),
            target_filename: "missing.dll".to_owned(),
            target_filenames: vec!["missing.dll".to_owned()],
            kind: 1,
            init: String::new(),
            finalizer: String::new(),
            functions: vec![ExtensionFunction {
                name: "unused_call".to_owned(),
                external_name: "unused_call".to_owned(),
                id: 0,
                kind: 0,
                return_type: 0,
                arguments: Vec::new(),
            }],
            constants: Vec::new(),
            uncompress: false,
            enabled: true,
            used: false,
        }],
        enabled: true,
        used: false,
    }]);
    let assets = Assets::load(
        &project,
        &config,
        drafts,
        Ok(settings(Vec::new())),
        &read,
        64,
        &shift,
    )
    .unwrap();

    assert!(assets.binary_files.is_empty());
    assert!(!assets.extensions[0].used);
    assert!(!assets.extensions[0].files[0].used);
    assert!(
        collect_project_files(&project, &assets, &read, "Default", 64)
            .unwrap()
            .is_empty()
    );

    let mut marked = assets;
    marked.extensions[0].used = true;
    marked.extensions[0].files[0].used = true;
    let listed = |assets: &Assets| {
        let file = write_base_wad(&project, assets, &BuildOptions::default()).unwrap();
        u32_at(&file.bytes, chunk(&file.bytes, b"EXTN"))
    };
    assert_eq!(listed(&marked), 1);
    marked.extensions[0].enabled = false;
    assert_eq!(listed(&marked), 0);
    assert!(
        collect_project_files(&project, &marked, &read, "Default", 64)
            .unwrap()
            .is_empty()
    );
}

/// A picture of one row: one opaque and one transparent pixel.
fn picture() -> Vec<u8> {
    let image = image::RgbaImage::from_raw(2, 1, vec![9, 9, 9, 255, 9, 9, 9, 0]).unwrap();
    let mut bytes = std::io::Cursor::new(Vec::new());
    image
        .write_to(&mut bytes, image::ImageFormat::Png)
        .unwrap();
    bytes.into_inner()
}

#[test]
fn decodes_the_opacity_of_pictures() {
    let project = load_project(
        "<assets><Configs><Config>Configs\\Default</Config></Configs></assets>",
    );
    let read = vec![config_file(), file("frame.png", &picture())];
    let config = Config::load_from_project(&project, "Default", &read).unwrap();
    let mut drafts = no_drafts();
    let mut drawn = sprite();
    drawn.frames = vec![SpriteFrame {
        index: 0,
        source: "frame.png".to_owned(),
    }];
    drafts.sprites = Ok(vec![drawn]);
    let mut assets = Assets::load(
        &project,
        &config,
        drafts,
        Ok(settings(Vec::new())),
        &read,
        64,
        &shift,
    )
    .unwrap();
    let frame = decode_alpha_frame(&assets, "frame.png").unwrap();
    assert_eq!((frame.width, frame.height), (2, 1));
    assert_eq!(frame.alpha, [255, 0]);
    assert!(matches!(
        decode_alpha_frame(&assets, "other.png"),
        Err(WriteError::InvalidVmData { message }) if message == "sprite frame other.png was not loaded"
    ));
    assets.binary_files.push(BinaryFile {
        source: "broken.png".to_owned(),
        data: vec![1, 2, 3],
    });
    assert!(decode_alpha_frame(&assets, "broken.png").is_err());
    assert_eq!(alpha_frame(2, 1, &[1, 2, 3, 4, 5, 6, 7, 8]).unwrap().alpha, [4, 8]);
}
