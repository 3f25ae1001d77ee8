use gmx::assets::{
    decode_text, script_parts, shader_parts, text_lines, AssetError, Assets, Shader, ShaderType,
    SHADER_MARKER,
};
use gmx::audio::{plan_conversion, AudioError, AudioFormat, FileMark};
use gmx::cache::BuildCache;
use gmx::config::Config;
use gmx::extensions::{
    default_extension_product_id, finalize_extensions, mark_used_extensions, mentioned_names,
};
use gmx::identifiers::collect_gml_identifiers;
use gmx::inspection::{count_assets, missing_files, missing_message};
use gmx::loading::{
    collect_binary_paths, config_index, find_instance_id, load_binary_files, use_new_audio, Drafts,
};
use gmx::names::NameSet;
use gmx::package::{FileContents, ReadFile};
use gmx::project::ProjectManifest;
use gmx::references::{
    find_named, make_index, resolve_object_reference, resolve_object_references,
    resolve_optional_index_reference, resolve_room_references, resolve_sprite_reference,
    NameIndex,
};
use gmx::resources::{
    Action, Background, CollisionType, Extension, ExtensionConstant, ExtensionFile,
    ExtensionFunction, GameObject, ObjectEvent, Physics, PhysicsShapePoint, PhysicsWorld, Room,
    RoomBackground, RoomInstance, RoomTile, RoomView, Script, Sound, Sprite, SpriteFrame,
    SpriteType, Timeline, TimelineEntry, EXTENSION_FUNCTION_ID_START, OBJECT_UNDEFINED,
    ROOM_INSTANCE_ID_START, ROOM_TILE_ID_START,
};
use gmx::settings::{CompileOptions, CompileSettings};

fn shift(bits: u32, origin: i32) -> u32 {
    (f32::from_bits(bits) - origin as f32).to_bits()
}

fn index(entries: &[(&str, usize)]) -> NameIndex {
    let mut index = NameIndex::new();
    for (name, position) in entries {
        assert_eq!(index.insert(name, *position), None);
    }
    index
}

fn file(source: &str, data: &[u8]) -> ReadFile {
    ReadFile {
        source: source.to_owned(),
        contents: FileContents::Data(data.to_vec()),
    }
}

#[test]
fn preserves_regular_script_source() {
    let code = "return 1;\r\n";
    let parts = script_parts("normal", code);

    assert_eq!(parts.len(), 1);
    assert_eq!(parts[0].name, "normal");
    assert_eq!(parts[0].code, code);
    assert!(!parts[0].split);
}

#[test]
fn splits_define_scripts_like_the_official_loader() {
    let code = "#define first\nreturn 1;\n#define second\r\nreturn 2;";
    let parts = script_parts("ignored", code);

    assert_eq!(parts.len(), 2);
    assert_eq!(parts[0].name, "first");
    assert_eq!(parts[0].code, "\nreturn 1;\r\n");
    assert_eq!(parts[1].name, "second");
    assert_eq!(parts[1].code, "\nreturn 2;\r\n");
    assert!(parts.iter().all(|part| part.split));
}

#[test]
fn leading_space_disables_define_file_mode() {
    let code = " #define not_split\nreturn 1;";
    let parts = script_parts("original", code);

    assert_eq!(parts.len(), 1);
    assert_eq!(parts[0].name, "original");
    assert_eq!(parts[0].code, code);
}

#[test]
fn supports_all_official_line_endings() {
    assert_eq!(text_lines("a\rb\nc\r\nd"), ["a", "b", "c", "d"]);
    assert_eq!(text_lines("\n"), [""]);
    assert!(text_lines("").is_empty());
}

#[test]
fn splits_shader_without_copying_source() {
    let source = format!("vertex{SHADER_MARKER}fragment");
    let (vertex, fragment) = shader_parts(&source);

    assert_eq!(vertex, "vertex");
    assert_eq!(fragment, "fragment");

    let (vertex, fragment) = shader_parts("both");
    assert_eq!(vertex, "both");
    assert_eq!(fragment, "both");
}

#[test]
fn shaders_give_their_sources() {
    let shader = Shader {
        index: 0,
        manifest_index: 0,
        name: "glow".to_owned(),
        source: "glow.shader".to_owned(),
        shader_type: ShaderType::from_manifest("HLSL11"),
        raw_source: format!("up{SHADER_MARKER}down"),
    };
    assert_eq!(shader.vertex_source(), "up");
    assert_eq!(shader.fragment_source(), "down");
    assert!(shader.raw_source().starts_with("up//"));
    assert_eq!(shader.shader_type.text(), "HLSL11");
    assert_eq!(ShaderType::from_manifest("unknown").text(), "GLSLES");
}

#[test]
fn decodes_common_bom_encodings() {
    assert_eq!(
        decode_text("utf8.gml", b"\xEF\xBB\xBFhello").unwrap(),
        "hello"
    );
    assert_eq!(
        decode_text("utf16.gml", &[0xFF, 0xFE, b'h', 0, b'i', 0]).unwrap(),
        "hi"
    );
}

#[test]
fn reports_undecodable_text() {
    let error = decode_text("broken.gml", &[0xFF, 0x00, 0x80]).unwrap_err();
    assert!(matches!(error, AssetError::Encoding { ref path, .. } if path == "broken.gml"));
    assert!(error.text().starts_with("cannot decode asset broken.gml: "));
    assert!(decode_text("odd.gml", &[0xFF, 0xFE, b'h']).is_err());
    assert_eq!(
        decode_text("pair.gml", &[0xFE, 0xFF, 0xD8, 0x3D, 0xDE, 0x00]).unwrap(),
        "\u{1F600}"
    );
}

#[test]
fn scans_gml_identifiers_without_matching_comments_or_strings() {
    let mut identifiers = NameSet::new();
    collect_gml_identifiers(
        "real_call(argument); // fake_line()\n/* fake_block */ text = \"fake_string()\";",
        &mut identifiers,
    );

    assert!(identifiers.contains("real_call"));
    assert!(identifiers.contains("argument"));
    assert!(identifiers.contains("text"));
    assert!(!identifiers.contains("fake_line"));
    assert!(!identifiers.contains("fake_block"));
    assert!(!identifiers.contains("fake_string"));
}

#[test]
fn resolves_official_object_reference_sentinels_and_ids() {
    let sprites = index(&[("hero", 3)]);
    let objects = index(&[("enemy", 7)]);

    assert_eq!(
        resolve_sprite_reference("object", "player", "sprite", "hero", &sprites).unwrap(),
        3
    );
    assert_eq!(
        resolve_sprite_reference("object", "player", "mask sprite", "<undefined>", &sprites)
            .unwrap(),
        -1
    );
    assert_eq!(
        resolve_object_reference("object", "player", "parent", "self", &objects).unwrap(),
        -1
    );
    assert_eq!(
        resolve_object_reference("object", "player", "collision", "enemy", &objects).unwrap(),
        7
    );
    assert!(
        resolve_object_reference("object", "player", "collision", "missing", &objects).is_err()
    );
}

#[test]
fn unknown_references_are_explained() {
    let error = resolve_optional_index_reference("room", "start", "background", "sky", &index(&[]))
        .unwrap_err();
    assert_eq!(
        error.text(),
        "room \"start\" references unknown background \"sky\""
    );
    assert_eq!(
        resolve_optional_index_reference("room", "start", "background", "", &index(&[])).unwrap(),
        -1
    );
    assert_eq!(
        resolve_object_reference("object", "player", "parent", "", &index(&[])).unwrap(),
        OBJECT_UNDEFINED
    );
    for (name, number) in [("other", -2), ("all", -3), ("noone", -4), ("global", -5)] {
        assert_eq!(
            resolve_object_reference("object", "player", "parent", name, &index(&[])).unwrap(),
            number
        );
    }
}

fn function(name: &str) -> ExtensionFunction {
    ExtensionFunction {
        name: name.to_owned(),
        external_name: name.to_owned(),
        id: 0,
        kind: 12,
        return_type: 2,
        arguments: Vec::new(),
    }
}

fn extension_file(name: &str, kind: i32, functions: &[&str]) -> ExtensionFile {
    ExtensionFile {
        filename: name.to_owned(),
        source: format!("extensions/{name}"),
        target_filename: name.to_owned(),
        target_filenames: vec![name.to_owned()],
        kind,
        init: String::new(),
        finalizer: String::new(),
        functions: functions.iter().map(|name| function(name)).collect(),
        constants: vec![ExtensionConstant {
            name: format!("{name}_CONST"),
            value: "1".to_owned(),
        }],
        uncompress: false,
        enabled: true,
        used: false,
    }
}

fn extension(name: &str, product_id: &str, files: Vec<ExtensionFile>) -> Extension {
    Extension {
        name: name.to_owned(),
        source: format!("extensions/{name}.extension.gmx"),
        folder: format!("extensions/{name}"),
        product_id: product_id.to_owned(),
        class_name: String::new(),
        files,
        enabled: true,
        used: false,
    }
}

#[test]
fn finalizes_extension_product_and_function_ids_in_manifest_order() {
    let mut extensions = vec![
        extension(
            "First",
            "",
            vec![extension_file("First", 1, &["first_a", "shared"])],
        ),
        extension(
            "Second",
            "ABCDEF",
            vec![extension_file("Second", 1, &["second_a", "shared"])],
        ),
    ];

    let next_id = finalize_extensions(&mut extensions);

    assert_eq!(extensions[0].product_id, "6603CE2BED9BFA02D3F9269AEB4D5C5A");
    assert_eq!(extensions[0].product_id, default_extension_product_id(0));
    assert_eq!(extensions[1].product_id, "ABCDEF");
    assert_eq!(
        extensions[0].files[0].functions[0].id,
        EXTENSION_FUNCTION_ID_START
    );
    assert_eq!(extensions[1].files[0].functions[0].id, 3);
    assert_eq!(next_id, 5);

    let mut assets = no_assets();
    assets.extensions = extensions;
    assert_eq!(
        assets.extension_function("shared"),
        Some(&assets.extensions[0].files[0].functions[1])
    );
    assert_eq!(
        assets.extension_constant("Second_CONST"),
        Some(&assets.extensions[1].files[0].constants[0])
    );
    assert_eq!(assets.extension_constant("missing"), None);
    assert_eq!(assets.extension("Second").unwrap().product_id, "ABCDEF");
}

fn script(name: &str, code: &str) -> Script {
    Script {
        index: 0,
        manifest_index: 0,
        name: name.to_owned(),
        source: format!("{name}.gml"),
        source_name: format!("{name}.gml"),
        code: code.to_owned(),
    }
}

#[test]
fn called_extension_code_uses_what_it_calls() {
    let mut extensions = vec![
        extension("Late", "", vec![extension_file("late.dll", 1, &["late_call"])]),
        extension("Code", "", vec![extension_file("code.gml", 2, &["entry"])]),
        extension("Unused", "", vec![extension_file("unused.dll", 1, &["unused_call"])]),
    ];
    let scripts = vec![script("start", "entry(); // unused_call()")];
    let read = vec![file("extensions/code.gml", b"#define entry\nlate_call();")];
    mark_used_extensions(
        &mut extensions,
        &scripts,
        &Vec::new(),
        &Vec::new(),
        &Vec::new(),
        &read,
    )
    .unwrap();
    assert!(extensions[0].used && extensions[0].files[0].used);
    assert!(extensions[1].used && extensions[1].files[0].used);
    assert!(!extensions[2].used && !extensions[2].files[0].used);

    let mut missing = vec![extension(
        "Code",
        "",
        vec![extension_file("gone.gml", 2, &["entry"])],
    )];
    let error = mark_used_extensions(
        &mut missing,
        &scripts,
        &Vec::new(),
        &Vec::new(),
        &Vec::new(),
        &read,
    )
    .unwrap_err();
    assert!(matches!(error, AssetError::Io { ref path, .. } if path == "extensions/gone.gml"));
    assert!(missing[0].used && missing[0].files[0].used);
}

#[test]
fn extension_marks_stop_at_a_file_that_cannot_be_read() {
    let mut extensions = vec![
        extension("First", "", vec![extension_file("first.dll", 1, &["entry"])]),
        extension("Code", "", vec![extension_file("gone.gml", 2, &["entry"])]),
        extension("Last", "", vec![extension_file("last.dll", 1, &["entry"])]),
    ];
    let scripts = vec![script("start", "entry();")];
    let error = mark_used_extensions(
        &mut extensions,
        &scripts,
        &Vec::new(),
        &Vec::new(),
        &Vec::new(),
        &Vec::new(),
    )
    .unwrap_err();
    assert!(matches!(error, AssetError::Io { ref path, .. } if path == "extensions/gone.gml"));
    let used: Vec<_> = extensions
        .iter()
        .map(|extension| (extension.used, extension.files[0].used))
        .collect();
    assert_eq!(used, [(true, true), (true, true), (false, false)]);
}

#[test]
fn files_marked_before_do_not_mark_their_extension() {
    let mut marked = extension_file("marked.gml", 2, &["entry"]);
    marked.used = true;
    let mut both = extension_file("both.dll", 1, &["entry"]);
    both.used = true;
    let mut extensions = vec![
        extension("Marked", "", vec![marked]),
        extension(
            "Both",
            "",
            vec![both, extension_file("new.dll", 1, &["entry"])],
        ),
    ];
    mark_used_extensions(
        &mut extensions,
        &vec![script("start", "entry();")],
        &Vec::new(),
        &Vec::new(),
        &Vec::new(),
        &Vec::new(),
    )
    .unwrap();
    assert!(!extensions[0].used && extensions[0].files[0].used);
    assert!(extensions[1].used && extensions[1].files[0].used && extensions[1].files[1].used);
}

#[test]
fn hooks_of_extensions_are_mentioned() {
    let mut hooked = extension_file("hook.dll", 1, &["hook_start"]);
    hooked.init = "hook_start".to_owned();
    let names = mentioned_names(
        &vec![extension("Hook", "", vec![hooked])],
        &vec![script("one", "first()")],
        &Vec::new(),
        &Vec::new(),
        &Vec::new(),
    );
    assert!(names.contains("hook_start"));
    assert!(names.contains("first"));
    assert!(!names.contains("second"));
}

fn instance(name: &str) -> RoomInstance {
    RoomInstance {
        name: name.to_owned(),
        object_name: "player".to_owned(),
        object_index: 0,
        id: 0,
        code: String::new(),
        x: 1,
        y: 2,
        scale_x: 1.0f32.to_bits(),
        scale_y: 1.0f32.to_bits(),
        wad_color: 0xffff_ffff,
        rotation: 0,
    }
}

fn room(name: &str, instances: Vec<RoomInstance>) -> Room {
    Room {
        index: 0,
        name: name.to_owned(),
        source: format!("{name}.room.gmx"),
        caption: String::new(),
        width: 640,
        height: 480,
        speed: 30,
        persistent: false,
        color: 0,
        show_color: true,
        enable_views: false,
        clear_view_background: true,
        clear_display_buffer: true,
        physics_world: PhysicsWorld {
            enabled: false,
            top: 0,
            left: 0,
            right: 640,
            bottom: 480,
            gravity_x: 0,
            gravity_y: 10.0f32.to_bits(),
            pixels_to_meters: 0.1f32.to_bits(),
        },
        code: String::new(),
        backgrounds: Vec::new(),
        views: Vec::new(),
        instances,
        tiles: Vec::new(),
    }
}

#[test]
fn resolves_room_references_and_assigns_global_ids_in_room_order() {
    let mut first = room("first", vec![instance("inst_first")]);
    first.backgrounds.push(RoomBackground {
        background_name: "sky".to_owned(),
        background_index: 0,
        visible: true,
        foreground: false,
        x: 0,
        y: 0,
        horizontal_tile: false,
        vertical_tile: false,
        horizontal_speed: 0,
        vertical_speed: 0,
        stretch: false,
    });
    first.views.push(RoomView {
        object_name: "<undefined>".to_owned(),
        object_index: 0,
        visible: true,
        x_view: 0,
        y_view: 0,
        width_view: 320,
        height_view: 240,
        x_port: 0,
        y_port: 0,
        width_port: 640,
        height_port: 480,
        horizontal_border: 32,
        vertical_border: 32,
        horizontal_speed: -1,
        vertical_speed: -1,
    });
    first.tiles.push(RoomTile {
        background_name: "tiles".to_owned(),
        background_index: 0,
        id: 0,
        x: 0,
        y: 0,
        source_x: 0,
        source_y: 0,
        width: 16,
        height: 16,
        depth: 100,
        scale_x: 1.0f32.to_bits(),
        scale_y: 1.0f32.to_bits(),
        alpha: 255,
        blend: 0xff_ffff,
    });
    let rooms = vec![first, room("second", vec![instance("inst_second")])];
    let backgrounds = index(&[("sky", 2), ("tiles", 5)]);
    let objects = index(&[("player", 7)]);

    let resolved = resolve_room_references(rooms, &backgrounds, &objects).unwrap();
    let rooms = &resolved.rooms;

    assert_eq!(rooms[0].backgrounds[0].background_index, 2);
    assert_eq!(rooms[0].views[0].object_index, -1);
    assert_eq!(rooms[0].instances[0].object_index, 7);
    assert_eq!(rooms[0].instances[0].id, ROOM_INSTANCE_ID_START);
    assert_eq!(rooms[1].instances[0].id, ROOM_INSTANCE_ID_START + 1);
    assert_eq!(rooms[0].tiles[0].background_index, 5);
    assert_eq!(rooms[0].tiles[0].id, ROOM_TILE_ID_START);
    assert_eq!(resolved.next_instance_id, ROOM_INSTANCE_ID_START + 2);
    assert_eq!(resolved.next_tile_id, ROOM_TILE_ID_START + 1);
    assert_eq!(
        find_instance_id(rooms, "inst_second"),
        Some(ROOM_INSTANCE_ID_START + 1)
    );
    assert_eq!(find_instance_id(rooms, "inst_third"), None);

    let error = resolve_room_references(
        vec![room("lost", vec![instance("inst_lost")])],
        &backgrounds,
        &index(&[]),
    )
    .unwrap_err();
    assert_eq!(
        error.text(),
        "room \"lost\" references unknown instance object \"player\""
    );
}

fn action(who_name: &str) -> Action {
    Action {
        library_id: 1,
        id: 1,
        kind: 0,
        use_relative: false,
        is_question: false,
        use_apply_to: true,
        execution_type: 0,
        function_name: String::new(),
        code: String::new(),
        who_name: who_name.to_owned(),
        who: 0,
        relative: false,
        is_not: false,
        arguments: Vec::new(),
    }
}

fn sprite(name: &str) -> Sprite {
    Sprite {
        index: 0,
        name: name.to_owned(),
        source: format!("{name}.sprite.gmx"),
        sprite_type: SpriteType::Bitmap,
        width: 8,
        height: 8,
        x_origin: 3,
        y_origin: 4,
        collision_kind: 1,
        collision_type: CollisionType::AxisAlignedRectangle,
        collision_tolerance: 0,
        separate_masks: false,
        bounding_box_mode: 0,
        bounding_box_left: 0,
        bounding_box_right: 7,
        bounding_box_top: 0,
        bounding_box_bottom: 7,
        frames: vec![SpriteFrame {
            index: 0,
            source: format!("{name}.png"),
        }],
        swf_source: None,
        spine_source: None,
    }
}

fn object(name: &str, sprite_name: &str, shape: i32) -> GameObject {
    let point = PhysicsShapePoint {
        x: 10.0f32.to_bits(),
        y: 20.0f32.to_bits(),
    };
    GameObject {
        index: 0,
        name: name.to_owned(),
        source: format!("{name}.object.gmx"),
        sprite_name: sprite_name.to_owned(),
        sprite_index: 0,
        mask_name: "<undefined>".to_owned(),
        mask_index: 0,
        parent_name: String::new(),
        parent_index: 0,
        visible: true,
        solid: false,
        depth: 0,
        persistent: false,
        physics: Physics {
            object: true,
            sensor: false,
            shape,
            density: 0,
            restitution: 0,
            group: 0,
            linear_damping: 0,
            angular_damping: 0,
            friction: 0,
            awake: true,
            kinematic: false,
            shape_points: vec![point, point],
        },
        events: vec![vec![ObjectEvent {
            event_type: 0,
            subtype: 0,
            subtype_name: Some(name.to_owned()),
            actions: vec![action("self"), action(name)],
        }]],
    }
}

#[test]
fn objects_get_what_they_refer_to_and_their_shapes_move() {
    let sprites = vec![sprite("hero")];
    let sprite_index = make_index(&sprites, "sprite").unwrap();
    let list = vec![object("box", "hero", 1), object("ball", "hero", 0)];
    let objects = make_index(&list, "object").unwrap();
    let timelines = vec![Timeline {
        index: 0,
        name: "story".to_owned(),
        source: "story.timeline.gmx".to_owned(),
        entries: vec![TimelineEntry {
            step: 5,
            actions: vec![action("ball")],
        }],
    }];
    let (list, timelines) =
        resolve_object_references(list, timelines, &sprites, &sprite_index, &objects, &shift)
            .unwrap();
    assert_eq!(list[0].sprite_index, 0);
    assert_eq!(list[0].mask_index, -1);
    assert_eq!(list[0].parent_index, OBJECT_UNDEFINED);
    assert_eq!(list[1].events[0][0].subtype, 1);
    assert_eq!(list[1].events[0][0].actions[0].who, -1);
    assert_eq!(list[1].events[0][0].actions[1].who, 1);
    assert_eq!(timelines[0].entries[0].actions[0].who, 1);
    let moved = PhysicsShapePoint {
        x: 7.0f32.to_bits(),
        y: 16.0f32.to_bits(),
    };
    assert_eq!(list[0].physics.shape_points, [moved, moved]);
    assert_eq!(list[1].physics.shape_points[0], moved);
    assert_eq!(
        list[1].physics.shape_points[1],
        PhysicsShapePoint {
            x: 10.0f32.to_bits(),
            y: 20.0f32.to_bits(),
        }
    );

    let lost = vec![object("lost", "nothing", 0)];
    let error = resolve_object_references(
        lost,
        Vec::new(),
        &sprites,
        &sprite_index,
        &objects,
        &shift,
    )
    .unwrap_err();
    assert_eq!(
        error.text(),
        "object \"lost\" references unknown sprite \"nothing\""
    );
}

#[test]
fn names_of_resources_are_unique() {
    let sprites = vec![sprite("one"), sprite("two"), sprite("one")];
    let error = make_index(&sprites, "sprite").unwrap_err();
    assert_eq!(
        error.text(),
        "duplicate sprite name \"one\" in one.sprite.gmx and one.sprite.gmx"
    );
    let sprites = vec![sprite("one"), sprite("two")];
    let index = make_index(&sprites, "sprite").unwrap();
    assert_eq!(index.get("two"), Some(1));
    assert_eq!(index.get("three"), None);
    assert_eq!(find_named(&sprites, "two"), Some(&sprites[1]));
    assert_eq!(find_named(&sprites, "three"), None);
}

fn settings() -> CompileSettings {
    CompileSettings {
        options: CompileOptions {
            config: "Default".to_owned(),
            game_id: 0,
            display_name: String::new(),
            active_targets: 64,
            gen8_flags: 0,
            optn_flags: 0,
            scale: 0,
            window_color: 0,
            color_depth: 0,
            resolution: 0,
            frequency: 0,
            sync_vertex: 0,
            priority: 0,
            load_alpha: 0,
            sleep_margin: 0,
            draw_color: 0,
        },
        audio_groups: Vec::new(),
        constants: Vec::new(),
        target_mask: 64,
    }
}

fn no_drafts() -> Drafts {
    Drafts {
        sounds: Ok(Vec::new()),
        sprites: Ok(Vec::new()),
        backgrounds: Ok(Vec::new()),
        paths: Ok(Vec::new()),
        fonts: Ok(Vec::new()),
        timelines: Ok(Vec::new()),
        objects: Ok(Vec::new()),
        rooms: Ok(Vec::new()),
        extensions: Ok(Vec::new()),
    }
}

fn project(body: &str) -> ProjectManifest {
    let manifest = format!(
        "<assets><Configs><Config>Configs\\Other</Config><Config>Configs\\Default</Config></Configs>{body}</assets>"
    );
    let contents = FileContents::Data(manifest.into_bytes());
    ProjectManifest::load("Game.project.gmx", &contents).unwrap()
}

fn config_file(options: &str) -> ReadFile {
    file(
        "Configs/Default.config.gmx",
        format!("<Config><Options>{options}</Options></Config>").as_bytes(),
    )
}

fn no_assets() -> Assets {
    let read = vec![config_file("")];
    let project = project("");
    let config = Config::load_from_project(&project, "Default", &read).unwrap();
    Assets::load(
        &project,
        &config,
        no_drafts(),
        Ok(settings()),
        &read,
        64,
        &shift,
    )
    .unwrap()
}

#[test]
fn configurations_have_positions_and_audio_options() {
    let project = project("");
    let read = vec![config_file("<option_use_new_audio>0</option_use_new_audio>")];
    let config = Config::load_from_project(&project, "Default", &read).unwrap();
    assert_eq!(config_index(&project, &config), 1);
    assert!(!use_new_audio(&config).unwrap());
    let plain = Config::load_from_project(&project, "Default", &vec![config_file("")]).unwrap();
    assert!(use_new_audio(&plain).unwrap());
    let odd = vec![config_file("<option_use_new_audio>maybe</option_use_new_audio>")];
    let config = Config::load_from_project(&project, "Default", &odd).unwrap();
    assert_eq!(
        use_new_audio(&config).unwrap_err().text(),
        "invalid option_use_new_audio value \"maybe\" in config Configs/Default.config.gmx"
    );
    let error = Config::load_from_project(&project, "Missing", &read).unwrap_err();
    assert_eq!(
        error.text(),
        "configuration \"Missing\" does not exist in project Game.project.gmx"
    );
    assert!(Config::load_from_project(&project, "Other", &read).is_err());
}

fn sound(name: &str) -> Sound {
    Sound {
        index: 0,
        name: name.to_owned(),
        source: format!("{name}.sound.gmx"),
        audio_source: "shared.ogg".to_owned(),
        original_name: name.to_owned(),
        extension: ".ogg".to_owned(),
        effects: 0,
        volume: 1.0f32.to_bits(),
        pan: 0,
        preload: true,
        new_audio: true,
        streamed: false,
        compressed: true,
        uncompress_on_load: false,
        stereo: false,
        bit_rate: 192,
        sample_rate: 44100,
        bit_depth: 16,
        group_index: 0,
    }
}

#[test]
fn loads_scripts_shaders_and_files_of_a_project() {
    let project = project(
        "<scripts><script>scripts\\both.gml</script><script>scripts\\plain.gml</script></scripts>\
         <shaders><shader type=\"GLSL\">shaders\\glow.shader</shader></shaders>",
    );
    let read = vec![
        config_file(""),
        file("scripts/both.gml", b"#define one\nx = 1;\n#define two\ny = 2;"),
        file("scripts/plain.gml", b"z = 3;"),
        file("shaders/glow.shader", b"code"),
        file("shared.ogg", b"OggS"),
        file("there.png", b"png"),
    ];
    let config = Config::load_from_project(&project, "Default", &read).unwrap();
    let mut drafts = no_drafts();
    drafts.sounds = Ok(vec![sound("first"), sound("second")]);
    drafts.backgrounds = Ok(vec![
        Background {
            index: 0,
            name: "there".to_owned(),
            source: "there.background.gmx".to_owned(),
            image_source: "there.png".to_owned(),
        },
        Background {
            index: 1,
            name: "gone".to_owned(),
            source: "gone.background.gmx".to_owned(),
            image_source: "gone.png".to_owned(),
        },
    ]);
    let assets = Assets::load(
        &project,
        &config,
        drafts,
        Ok(settings()),
        &read,
        64,
        &shift,
    )
    .unwrap();
    assert_eq!(assets.config_index, 1);
    let names: Vec<_> = assets
        .scripts
        .iter()
        .map(|script| (script.index, script.name.as_str(), script.source_name.as_str()))
        .collect();
    assert_eq!(
        names,
        [
            (0, "one", "one.gml"),
            (1, "two", "two.gml"),
            (2, "plain", "scripts/plain.gml"),
        ]
    );
    assert_eq!(assets.script("plain").unwrap().code, "z = 3;");
    assert_eq!(assets.shader("glow").unwrap().shader_type, ShaderType::Glsl);
    assert_eq!(assets.sound("second").unwrap().source, "second.sound.gmx");
    assert_eq!(assets.background("gone").unwrap().image_source, "gone.png");
    assert!(assets.sprite("none").is_none());
    assert!(assets.path("none").is_none());
    assert!(assets.font("none").is_none());
    assert!(assets.timeline("none").is_none());
    assert!(assets.object("none").is_none());
    assert!(assets.room("none").is_none());
    assert_eq!(assets.room_instance_id("none"), None);
    let sources: Vec<_> = assets
        .binary_files
        .iter()
        .map(|file| file.source.as_str())
        .collect();
    assert_eq!(sources, ["shared.ogg", "there.png"]);
    assert_eq!(
        assets.binary_file("shared.ogg").unwrap().digest()[..4],
        md5_head(b"OggS")
    );
    let again = collect_binary_paths(
        &project,
        &assets.extensions,
        &assets.sounds,
        &assets.sprites,
        &assets.backgrounds,
        &assets.fonts,
        &config,
        64,
        &read,
    );
    assert_eq!(again, ["shared.ogg", "there.png"]);
}

/// The first bytes of a digest, from the crate that computes it.
fn md5_head(data: &[u8]) -> [u8; 4] {
    let digest = <md5::Md5 as md5::Digest>::digest(data);
    [digest[0], digest[1], digest[2], digest[3]]
}

#[test]
fn loading_reports_the_first_fault() {
    let project = project("<scripts><script>scripts\\gone.gml</script></scripts>");
    let read = vec![config_file("")];
    let config = Config::load_from_project(&project, "Default", &read).unwrap();
    let mut drafts = no_drafts();
    drafts.rooms = Err(AssetError::Resource {
        message: "bad room".to_owned(),
    });
    let error = Assets::load(
        &project,
        &config,
        drafts,
        Ok(settings()),
        &read,
        64,
        &shift,
    )
    .unwrap_err();
    assert_eq!(error.text(), "bad room");
    let error = Assets::load(
        &project,
        &config,
        no_drafts(),
        Ok(settings()),
        &read,
        64,
        &shift,
    )
    .unwrap_err();
    assert_eq!(
        error.text(),
        "cannot read asset scripts/gone.gml: file was not read"
    );
    let full = vec![config_file(""), file("scripts/gone.gml", b"x = 1;")];
    let error = Assets::load(
        &project,
        &config,
        no_drafts(),
        Err(AssetError::Settings {
            message: "bad settings".to_owned(),
        }),
        &full,
        64,
        &shift,
    )
    .unwrap_err();
    assert_eq!(error.text(), "bad settings");
    let mut drafts = no_drafts();
    drafts.sounds = Ok(vec![sound("one")]);
    assert!(matches!(
        Assets::load(&project, &config, drafts, Ok(settings()), &full, 64, &shift),
        Err(AssetError::Io { path, .. }) if path == "shared.ogg"
    ));
    let unreadable = vec![ReadFile {
        source: "a".to_owned(),
        contents: FileContents::Failed("denied".to_owned()),
    }];
    assert_eq!(
        load_binary_files(&vec!["a".to_owned()], &unreadable)
            .unwrap_err()
            .text(),
        "cannot read asset a: denied"
    );
}

fn loaded() -> (ProjectManifest, Assets, Vec<ReadFile>) {
    let project = project(
        "<datafiles><datafile><name>note.txt</name><exists>-1</exists>\
         <filename>note.txt</filename></datafile></datafiles>",
    );
    let read = vec![
        config_file(""),
        file("note.txt", b"note"),
        file("shared.ogg", b"OggS"),
        file("hero.png", b"png"),
    ];
    let config = Config::load_from_project(&project, "Default", &read).unwrap();
    let mut drafts = no_drafts();
    drafts.sounds = Ok(vec![sound("song")]);
    drafts.sprites = Ok(vec![sprite("hero")]);
    drafts.objects = Ok(vec![object("hero_object", "hero", 0)]);
    let mut only = room("only", vec![instance("inst_a"), instance("inst_b")]);
    for instance in &mut only.instances {
        instance.object_name = "hero_object".to_owned();
    }
    drafts.rooms = Ok(vec![only]);
    let assets = Assets::load(
        &project,
        &config,
        drafts,
        Ok(settings()),
        &read,
        64,
        &shift,
    )
    .unwrap();
    (project, assets, read)
}

#[test]
fn projects_are_counted_and_missing_files_listed() {
    let (project, assets, _) = loaded();
    let counts = count_assets(&assets);
    assert_eq!(counts.binary_bytes, 11);
    assert_eq!(counts.sprite_frames, 1);
    assert_eq!((counts.object_events, counts.object_actions), (1, 2));
    assert_eq!((counts.room_instances, counts.room_tiles), (2, 0));
    assert_eq!(counts.extension_files, 0);

    let present = vec![
        "Configs/Other.config.gmx".to_owned(),
        "Configs/Default.config.gmx".to_owned(),
        "shared.ogg".to_owned(),
    ];
    let missing = missing_files(&project, &assets, &present);
    let labels: Vec<_> = missing.iter().map(|file| file.label.as_str()).collect();
    assert_eq!(labels, ["datafile note.txt", "sprite frame hero[0]"]);
    assert_eq!(missing[1].path, "hero.png");
    assert_eq!(
        missing_message(missing.len()),
        Some("project references 2 missing files".to_owned())
    );
    assert_eq!(missing_message(0), None);
    assert_eq!(
        missing_files(&project, &assets, &Vec::new())[0].label,
        "config Other"
    );
}

#[test]
fn instances_are_found_by_name() {
    let (_, assets, _) = loaded();
    assert_eq!(
        assets.room_instance_id("inst_b"),
        Some(ROOM_INSTANCE_ID_START + 1)
    );
    assert_eq!(assets.next_room_instance_id, ROOM_INSTANCE_ID_START + 2);
    assert_eq!(assets.object("hero_object").unwrap().sprite_index, 0);
}

#[test]
fn conversions_depend_on_the_source_and_the_converter() {
    let (_, assets, _) = loaded();
    let mark = FileMark {
        length: Some(1),
        modified: Some((2, 3)),
    };
    let first = plan_conversion(&assets, &assets.sounds[0], "ffmpeg", mark).unwrap();
    assert_eq!(first.format, AudioFormat::Ogg);
    assert_eq!(first.key.len(), 32);
    assert_eq!(first.cache_name, format!("{}.ogg", first.key));
    let other = plan_conversion(&assets, &assets.sounds[0], "other", mark).unwrap();
    assert_ne!(first.key, other.key);
    let mut lost = sound("lost");
    lost.audio_source = "lost.ogg".to_owned();
    assert!(matches!(
        plan_conversion(&assets, &lost, "ffmpeg", mark),
        Err(AudioError::MissingSource { path, .. }) if path == "lost.ogg"
    ));
}

#[test]
fn loaded_files_need_not_be_read_for_the_key() {
    let (_, assets, read) = loaded();
    let cache = BuildCache::at("cache", "Game.project.gmx", "Default");
    let machine = gmx::cache::Machine {
        version: "1".to_owned(),
        system: "linux".to_owned(),
        architecture: "x86_64".to_owned(),
        programs: Vec::new(),
    };
    let dependencies = vec!["hero.png".to_owned(), "note.txt".to_owned()];
    let places = vec![None; assets.binary_files.len()];
    assert_eq!(
        cache
            .key_with_assets(&machine, &dependencies, &assets, &places, &Vec::new())
            .unwrap(),
        cache.key(&machine, &dependencies, &read).unwrap()
    );
    assert_ne!(
        cache.key(&machine, &dependencies, &Vec::new()).unwrap(),
        cache.key(&machine, &dependencies, &read).unwrap()
    );
}
