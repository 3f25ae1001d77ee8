use gmx::cache::{
    build_cache_enabled, cache_enabled, cache_root, default_cache_root, dependency_keys,
    dependency_path, dependency_stamp, encode_dependencies, env_flag, normalized_dependencies,
    output_marker, output_marker_matches, path_key, read_saved_dependencies, restored_files,
    unchanged, validate_key, BuildCache, CacheError, DependencyStamp, FileState, KnownBuild,
    Lookup, Machine, ProgramMark, SavedDependency,
};
use gmx::artifact::GeneratedFile;
use gmx::builds::{CopiedFile, KeptFile};
use gmx::package::{FileContents, ReadFile};

fn texts(names: &[&str]) -> Vec<String> {
    names.iter().map(|name| name.to_string()).collect()
}

fn machine() -> Machine {
    Machine {
        version: "1.0.0".to_owned(),
        system: "linux".to_owned(),
        architecture: "x86_64".to_owned(),
        programs: vec![ProgramMark {
            path: "/usr/bin/ffmpeg".to_owned(),
            size: Some(10),
            modified_seconds: 5,
            modified_nanos: 6,
            dated: true,
        }],
    }
}

fn file(source: &str, data: &[u8]) -> ReadFile {
    ReadFile {
        source: source.to_owned(),
        contents: FileContents::Data(data.to_vec()),
    }
}

fn dated(size: u64, seconds: u64) -> DependencyStamp {
    dependency_stamp(FileState::Dated {
        size,
        seconds,
        nanos: 7,
    })
}

#[test]
fn default_cache_is_inside_the_project_build_directory() {
    assert_eq!(
        default_cache_root("/work/game/Game.project.gmx"),
        "/work/game/build/.gmx-cache"
    );
    assert_eq!(default_cache_root("Game.project.gmx"), "./build/.gmx-cache");
    assert_eq!(
        cache_root(None, "/work/Game.project.gmx"),
        "/work/build/.gmx-cache"
    );
    assert_eq!(
        cache_root(Some("/elsewhere"), "/work/Game.project.gmx"),
        "/elsewhere"
    );
}

#[test]
fn restores_complete_builds_and_invalidates_changed_dependencies() {
    let project = "/work/Game.project.gmx";
    let source = "/work/script.gml";
    let cache = BuildCache::at("/work/cache", project, "Default");
    let dependencies = texts(&[project, source]);
    let read = vec![file(project, b"<assets/>"), file(source, b"return 1;")];
    let key = cache.key(&machine(), &dependencies, &read).unwrap();
    validate_key(&key).unwrap();

    let stamps = vec![dated(9, 1), dated(9, 2)];
    let saved = cache
        .save_dependencies(&normalized_dependencies(&dependencies), &stamps)
        .unwrap();
    let contents = FileContents::Data(saved);
    let known = cache
        .known_build(&machine(), &contents, &read)
        .unwrap()
        .unwrap();
    assert!(known.matches_dependencies(&dependencies));
    assert!(!known.matches_dependencies(&texts(&[project, source, "/work/built.win"])));
    assert!(known.contains_dependency(source));
    assert!(!known.contains_dependency("/work/built.win"));
    let listed = cache.saved_dependencies(&contents).unwrap().unwrap();
    let again = cache
        .known_build_if_unchanged(&machine(), &listed, &stamps, &read)
        .unwrap()
        .unwrap();
    assert_eq!(again.key, key);
    assert_eq!(again.dependency_keys, known.dependency_keys);
    assert_eq!(
        cache.known_key(&machine(), &contents, &read).unwrap(),
        Some(key.clone())
    );

    let files = vec![SavedDependency {
        path: "music/theme.ogg".to_owned(),
        stamp: dated(5, 3),
    }];
    let marker = cache
        .record_output(&key, dated(9, 4), &files)
        .unwrap()
        .unwrap();
    assert!(output_marker_matches(&marker, &key, dated(9, 4), &files));
    assert!(!output_marker_matches(&marker, &key, dated(9, 5), &files));
    let changed = vec![SavedDependency {
        path: "music/theme.ogg".to_owned(),
        stamp: dated(3, 3),
    }];
    assert!(!output_marker_matches(&marker, &key, dated(9, 4), &changed));

    let outputs = vec![GeneratedFile::new(
        "music/theme.ogg".to_owned(),
        b"audio".to_vec(),
    )];
    let kept = cache.store(&key, false, &outputs).unwrap().unwrap();
    assert_eq!(
        kept,
        [KeptFile {
            path: "music/theme.ogg".to_owned(),
            blob: cache.blob_path(b"audio"),
        }]
    );
    assert_eq!(cache.store(&key, true, &outputs).unwrap(), None);
    let names = texts(&["music/theme.ogg"]);
    let plan = cache
        .restore(&key, true, &names, "restored", "data.win")
        .unwrap()
        .unwrap();
    assert_eq!(plan.wad, format!("/work/cache/artifacts/{key}/data.win"));
    assert_eq!(
        plan.files,
        [CopiedFile {
            source: format!("/work/cache/artifacts/{key}/files/music/theme.ogg"),
            path: "music/theme.ogg".to_owned(),
            destination: "restored/music/theme.ogg".to_owned(),
        }]
    );
    let hit = plan.hit(&key, 9);
    assert_eq!(hit.key, key);
    assert_eq!(hit.wad_bytes, 9);
    assert_eq!(hit.external_files, 1);
    assert_eq!(
        cache
            .restore(&key, false, &names, "restored", "data.win")
            .unwrap(),
        None
    );

    let edited = vec![file(project, b"<assets/>"), file(source, b"return 200;")];
    assert!(cache
        .known_build_if_unchanged(&machine(), &listed, &vec![dated(9, 1), dated(11, 8)], &edited)
        .unwrap()
        .is_none());
    assert_ne!(
        cache
            .known_key(&machine(), &contents, &edited)
            .unwrap()
            .unwrap(),
        key
    );
}

#[test]
fn missing_dependencies_invalidate_the_cache_when_created() {
    let project = "/work/Game.project.gmx";
    let optional = "/work/missing.png";
    let cache = BuildCache::at("/work/cache", project, "Default");
    let dependencies = texts(&[project, optional]);
    let without = vec![file(project, b"<assets/>")];

    let missing_key = cache.key(&machine(), &dependencies, &without).unwrap();
    let stamps = vec![dated(9, 1), dependency_stamp(FileState::Absent)];
    let contents = FileContents::Data(
        cache
            .save_dependencies(&normalized_dependencies(&dependencies), &stamps)
            .unwrap(),
    );
    assert_eq!(
        cache.known_key(&machine(), &contents, &without).unwrap(),
        Some(missing_key.clone())
    );

    let with = vec![file(project, b"<assets/>"), file(optional, b"png")];
    let saved = cache.saved_dependencies(&contents).unwrap().unwrap();
    assert!(cache
        .known_build_if_unchanged(&machine(), &saved, &vec![dated(9, 1), dated(3, 2)], &with)
        .unwrap()
        .is_none());
    assert_ne!(
        cache.known_key(&machine(), &contents, &with).unwrap(),
        Some(missing_key.clone())
    );
    assert!(cache
        .known_build_if_unchanged(&machine(), &saved, &stamps, &without)
        .unwrap()
        .is_some());
    assert_eq!(
        cache.known_key(&machine(), &contents, &without).unwrap(),
        Some(missing_key)
    );
}

#[test]
fn external_payloads_are_shared_between_build_entries() {
    let cache = BuildCache::at("cache", "Game.project.gmx", "Default");
    let shared = vec![GeneratedFile::new(
        "music/theme.ogg".to_owned(),
        b"shared audio".to_vec(),
    )];
    let one = cache.store(&"1".repeat(32), false, &shared).unwrap();
    let two = cache.store(&"2".repeat(32), false, &shared).unwrap();
    assert_eq!(one, two);
    let first = cache.blob_path(b"shared audio");
    assert_eq!(one.unwrap()[0].blob, first);
    assert_eq!(first, cache.blob_path(b"shared audio"));
    assert_ne!(first, cache.blob_path(b"other audio"));
    assert!(first.starts_with("cache/objects/"));
    assert!(first.ends_with("-12"));
    assert_eq!(
        cache.blob_path(b""),
        "cache/objects/d4/d41d8cd98f00b204e9800998ecf8427e-0"
    );
    assert_eq!(cache.entry(&"1".repeat(32)), format!("cache/artifacts/{}", "1".repeat(32)));
}

#[test]
fn caches_of_configurations_differ() {
    let first = BuildCache::at("c", "Game.project.gmx", "Default");
    let second = BuildCache::at("c", "Game.project.gmx", "Other");
    assert_ne!(first.dependency_file, second.dependency_file);
    assert!(first.dependency_file.starts_with("c/projects/"));
    assert!(first.dependency_file.ends_with(".deps"));
    assert!(first.output_marker_path("out\\data.win").ends_with(".state"));
    assert_eq!(
        first.output_marker_path("out\\data.win"),
        second.output_marker_path("out/data.win")
    );
}

#[test]
fn written_dependencies_are_read() {
    let saved = vec![
        SavedDependency {
            path: "a/\u{e9}.gml".to_owned(),
            stamp: dated(u64::MAX, 1 << 40),
        },
        SavedDependency {
            path: String::new(),
            stamp: dependency_stamp(FileState::Undated { size: 12 }),
        },
    ];
    let bytes = encode_dependencies(&saved).unwrap();
    assert_eq!(&bytes[..14], b"GMXRSDEPS2\x02\0\0\0");
    assert_eq!(read_saved_dependencies("deps", &bytes).unwrap(), saved);

    let mut longer = bytes.clone();
    longer.push(0);
    let mut kind = bytes.clone();
    let place = bytes.len() - 21;
    kind[place] = 3;
    for broken in [&longer[..], &kind[..], &bytes[..bytes.len() - 1], b"GMXRSDEPS2", b""] {
        let error = read_saved_dependencies("deps", broken).unwrap_err();
        assert_eq!(error, CacheError::InvalidDependencyFile("deps".to_owned()));
        assert_eq!(error.text(), "invalid build-cache dependency file deps");
    }
}

#[test]
fn dependencies_are_listed_once_in_order() {
    let paths = texts(&["b/z", "a\\y", "b/a", "a/y"]);
    let list = normalized_dependencies(&paths);
    assert_eq!(dependency_keys(&paths), ["a/y", "b/a", "b/z"]);
    assert_eq!(list[0].path, "a\\y");
    let known = KnownBuild {
        key: "key".to_owned(),
        dependency_keys: texts(&["a/y", "b/a", "b/z"]),
    };
    assert!(known.matches_dependencies(&paths));
    assert_eq!(path_key("a\\b/c"), "a/b/c");
}

#[test]
fn keys_are_thirty_two_digits() {
    assert!(validate_key("0123456789abcdefABCDEF0123456789").is_ok());
    let error = validate_key("short").unwrap_err();
    assert_eq!(error.text(), "invalid build-cache key \"short\"");
    assert!(validate_key("0123456789abcdefABCDEF012345678g").is_err());
    let cache = BuildCache::at("c", "p", "d");
    assert!(matches!(
        cache.record_output("short", dated(1, 1), &Vec::new()),
        Err(CacheError::InvalidKey(key)) if key == "short"
    ));
}

#[test]
fn only_known_states_are_recorded() {
    let key = "0".repeat(32);
    let unknown = dependency_stamp(FileState::Undated { size: 1 });
    assert!(!unknown.reliable());
    assert!(dated(1, 1).reliable());
    assert_eq!(output_marker(&key, unknown, &Vec::new()).unwrap(), None);
    let bad = vec![SavedDependency {
        path: "../escape".to_owned(),
        stamp: dated(1, 1),
    }];
    assert_eq!(
        output_marker(&key, dated(1, 1), &bad).unwrap_err(),
        CacheError::InvalidEntry("../escape".to_owned())
    );
    let undated = vec![SavedDependency {
        path: "a".to_owned(),
        stamp: unknown,
    }];
    assert_eq!(
        output_marker(&key, dated(1, 1), &undated)
            .unwrap_err()
            .text(),
        "invalid build-cache entry a"
    );
    let saved = vec![SavedDependency {
        path: "a".to_owned(),
        stamp: unknown,
    }];
    assert!(!unchanged(&saved, &vec![unknown]));
}

#[test]
fn restored_files_stay_beside_the_output() {
    let names = texts(&["music/theme.ogg", "game.ico"]);
    assert_eq!(
        restored_files(&names, "entry/files", "data.win").unwrap(),
        ["music/theme.ogg", "game.ico"]
    );
    assert_eq!(
        restored_files(&texts(&["DATA.win"]), "entry/files", "data.win").unwrap_err(),
        CacheError::InvalidEntry("entry/files/DATA.win".to_owned())
    );
    assert!(restored_files(&texts(&["../data"]), "entry/files", "data.win").is_err());
}

#[test]
fn kept_files_are_restored_in_order() {
    let cache = BuildCache::at("c", "Game.project.gmx", "Default");
    let key = "a".repeat(32);
    let outputs = vec![
        GeneratedFile::new("./music/../theme.ogg".to_owned(), b"x".to_vec()),
        GeneratedFile::new("game.ico".to_owned(), b"y".to_vec()),
    ];
    assert_eq!(
        cache.store(&key, false, &outputs).unwrap_err(),
        CacheError::InvalidEntry("./music/../theme.ogg".to_owned())
    );
    assert_eq!(
        cache.store("short", true, &outputs).unwrap_err(),
        CacheError::InvalidKey("short".to_owned())
    );
    let outputs = vec![
        GeneratedFile::new("./music/./theme.ogg".to_owned(), b"x".to_vec()),
        GeneratedFile::new("game.ico".to_owned(), b"y".to_vec()),
    ];
    let kept = cache.store(&key, false, &outputs).unwrap().unwrap();
    let names = kept.iter().map(|file| file.path.clone()).collect::<Vec<_>>();
    assert_eq!(names, ["music/theme.ogg", "game.ico"]);
    let plan = cache
        .restore(&key, true, &names, "", "data.win")
        .unwrap()
        .unwrap();
    let restored = plan
        .files
        .iter()
        .map(|file| file.destination.as_str())
        .collect::<Vec<_>>();
    assert_eq!(restored, ["game.ico", "music/theme.ogg"]);
    assert_eq!(
        cache
            .restore("short", true, &names, "", "data.win")
            .unwrap_err(),
        CacheError::InvalidKey("short".to_owned())
    );
    assert_eq!(
        cache
            .restore(&key, true, &names, "", "GAME.ICO")
            .unwrap_err(),
        CacheError::InvalidEntry(format!("c/artifacts/{key}/files/game.ico"))
    );
}

#[test]
fn variables_switch_caching_off() {
    for value in ["", "0", "false", "NO"] {
        assert!(!env_flag(Some(value)));
    }
    assert!(env_flag(Some("1")));
    assert!(!env_flag(None));
    assert!(cache_enabled(None));
    assert!(!cache_enabled(Some("yes")));
    assert!(build_cache_enabled(None, Some("0")));
    assert!(!build_cache_enabled(None, Some("1")));
    assert!(!build_cache_enabled(Some("1"), None));
}

#[test]
fn missing_files_are_looked_for_where_they_would_be() {
    let here = Ok("/here".to_owned());
    assert_eq!(
        dependency_path("a", &Lookup::Found("/real/a".to_owned()), &here).unwrap(),
        "/real/a"
    );
    assert_eq!(
        dependency_path("a", &Lookup::Missing, &here).unwrap(),
        "/here/a"
    );
    assert_eq!(
        dependency_path("/a", &Lookup::Missing, &Err("lost".to_owned())).unwrap(),
        "/a"
    );
    assert_eq!(
        dependency_path("a", &Lookup::Missing, &Err("lost".to_owned()))
            .unwrap_err()
            .text(),
        "a: lost"
    );
    assert!(dependency_path("a", &Lookup::Failed("denied".to_owned()), &here).is_err());
}

#[test]
fn unreadable_dependency_files_are_errors() {
    let cache = BuildCache::at("c", "p", "d");
    assert!(cache
        .known_build(&machine(), &FileContents::Missing("none".to_owned()), &Vec::new())
        .unwrap()
        .is_none());
    assert!(matches!(
        cache.known_key(&machine(), &FileContents::Failed("denied".to_owned()), &Vec::new()),
        Err(CacheError::Io { message, .. }) if message == "denied"
    ));
    assert_eq!(
        CacheError::TooManyDependencies(5).text(),
        "build cache has too many dependencies: 5"
    );
    assert_eq!(
        CacheError::PathTooLong("x".to_owned()).text(),
        "build-cache dependency path is too long: x"
    );
}
