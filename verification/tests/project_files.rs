use std::io::{Cursor, Write};

use zip::write::SimpleFileOptions;
use zip::{CompressionMethod, ZipWriter};

use gmx::artifact::{
    file_matches_data, merge_generated_files, validate_relative_path, write_generated_files,
    ArtifactError, GeneratedFile,
};
use gmx::config;
use gmx::config::ConfigError;
use gmx::package::{
    extract_extension_archive, included_path, portable_relative_path, FileContents, ReadFile,
};
use gmx::project;
use gmx::project::{DataFile, LoadError, ProjectManifest, ResourceKind};
use gmx::runner::{
    choose_project, clean_project_build, external_runner_file, format_diagnostics,
    overwritten_output, run_allowed, runner_executable_path, runner_path_next_to, BuildPlace,
};
use gmx::wad::WriteError;

#[test]
fn games_are_run_on_windows_only() {
    assert_eq!(run_allowed(true), Ok(()));
    assert!(run_allowed(false)
        .unwrap_err()
        .starts_with("gmx run requires Windows"));
}

#[test]
fn reads_options_and_constants() {
    let xml = br#"
            <Config>
              <Options>
                <option_gameid>42</option_gameid>
                <option_empty></option_empty>
                <option_name>Rock &amp; Roll</option_name>
              </Options>
              <ConfigConstants>
                <constants><constant name="LIMIT">100</constant></constants>
              </ConfigConstants>
            </Config>
        "#;
    let config = config::parse("Default", "Default.config.gmx", xml).unwrap();

    assert_eq!(config.name, "Default");
    assert_eq!(config.options().len(), 3);
    assert_eq!(config.option("option_gameid"), Some("42"));
    assert_eq!(config.option("option_empty"), Some(""));
    assert_eq!(config.option("option_name"), Some("Rock & Roll"));
    assert_eq!(config.constant("LIMIT"), Some("100"));
    assert_eq!(config.constant("MISSING"), None);
}

#[test]
fn supports_legacy_root_options() {
    let xml = b"<Config><option_gameid>7</option_gameid><option_name>old</option_name></Config>";
    let config = config::parse("Legacy", "Legacy.config.gmx", xml).unwrap();

    assert_eq!(config.options().len(), 2);
    assert_eq!(config.option("option_gameid"), Some("7"));
}

#[test]
fn rejects_duplicate_options() {
    let xml = b"<Config><Options><same>1</same><same>2</same></Options></Config>";
    let error = config::parse("Bad", "Bad.config.gmx", xml).unwrap_err();

    assert!(matches!(error, ConfigError::DuplicateOption { .. }));
}

const PROJECT: &str = r#"
        <assets>
          <Configs name="configs">
            <Config>Configs\Default</Config>
          </Configs>
          <datafiles number="1" name="datafiles">
            <datafiles number="1" name="Music">
              <datafile>
                <name>theme.ogg</name>
                <exists>-1</exists>
                <size>123</size>
                <exportAction>2</exportAction>
                <exportDir></exportDir>
                <overwrite>0</overwrite>
                <freeData>-1</freeData>
                <removeEnd>0</removeEnd>
                <store>0</store>
                <ConfigOptions>
                  <Config name="Default"><CopyToMask>9223372036854775807</CopyToMask></Config>
                </ConfigOptions>
                <filename>theme.ogg</filename>
              </datafile>
            </datafiles>
          </datafiles>
          <sounds name="sounds">
            <sounds name="folder">
              <sound>sound\snd&amp;One</sound>
              <sound>sound/sndTwo</sound>
            </sounds>
          </sounds>
          <scripts name="scripts"><script>scripts\start.gml</script></scripts>
          <shaders name="shaders">
            <shader type="GLSLES">shaders\basic.shader</shader>
          </shaders>
          <constants><constant name="ANSWER">40 + 2</constant></constants>
          <audiogroups><audiogroup name="music"/></audiogroups>
        </assets>
    "#;

fn load_project() -> ProjectManifest {
    project::parse("game/Test.project.gmx", PROJECT.as_bytes()).unwrap()
}

#[test]
fn reads_resources_in_manifest_order() {
    let project = load_project();

    assert_eq!(project.name, "Test");
    assert_eq!(project.resources.len(), 5);
    assert_eq!(project.resource_count(ResourceKind::Sound), 2);
    assert_eq!(project.resources[1].name, "snd&One");
    assert_eq!(project.resources[1].index, 0);
    assert_eq!(project.resources[2].name, "sndTwo");
    assert_eq!(project.resources[2].index, 1);
    assert_eq!(project.resources[1].relative_path, "sound/snd&One.sound.gmx");
    assert_eq!(project.resources[3].relative_path, "scripts/start.gml");
    assert_eq!(project.resources[4].shader_type.as_deref(), Some("GLSLES"));
}

#[test]
fn reads_datafiles_constants_and_audio_groups() {
    let project = load_project();

    assert_eq!(project.data_files.len(), 1);
    let data_file = &project.data_files[0];
    assert_eq!(data_file.name, "theme.ogg");
    assert_eq!(data_file.relative_path, "datafiles/Music/theme.ogg");
    assert!(data_file.exists);
    assert_eq!(data_file.size, 123);
    assert!(data_file.free_data);
    assert_eq!(data_file.configs[0].name, "Default");
    assert_eq!(data_file.configs[0].copy_to_mask, i64::MAX);
    assert_eq!(project.constants[0].name, "ANSWER");
    assert_eq!(project.constants[0].value, "40 + 2");
    assert_eq!(project.audio_groups[0].name, "music");
}

#[test]
fn rejects_non_project_xml() {
    let error = project::parse("broken.project.gmx", b"<project/>").unwrap_err();
    assert!(matches!(error, LoadError::InvalidRoot { .. }));
}

fn data_file(relative_path: &str) -> DataFile {
    DataFile {
        name: "theme.ogg".to_owned(),
        listed_filename: None,
        source: String::new(),
        relative_path: relative_path.to_owned(),
        exists: true,
        size: 0,
        export_action: 0,
        export_dir: String::new(),
        overwrite: false,
        free_data: false,
        remove_end: false,
        store: false,
        configs: Vec::new(),
    }
}

#[test]
fn strips_only_the_top_level_datafiles_directory() {
    let file = data_file("datafiles/Music/theme.ogg");
    assert_eq!(included_path(&file).unwrap(), "Music/theme.ogg");

    let file = data_file("Files/datafiles/theme.ogg");
    assert_eq!(included_path(&file).unwrap(), "Files/datafiles/theme.ogg");
}

#[test]
fn included_files_are_placed_by_the_parts_of_their_paths() {
    let place = |path: &str| included_path(&data_file(path)).unwrap();
    assert_eq!(place("datafiles//Music/./theme.ogg"), "Music/theme.ogg");
    assert_eq!(place("./datafiles/theme.ogg"), "datafiles/theme.ogg");
    assert_eq!(place("datafiles\\theme.ogg"), "datafiles/theme.ogg");
}

#[test]
fn rejects_included_files_outside_the_project() {
    let error = included_path(&data_file("datafiles/../theme.ogg")).unwrap_err();
    assert_eq!(
        error,
        WriteError::InvalidVmData {
            message: "external files: unsafe generated file path ../theme.ogg".to_owned(),
        }
    );
}

#[test]
fn validates_portable_archive_paths() {
    assert_eq!(
        portable_relative_path("bin\\helper.dll").unwrap(),
        "bin/helper.dll"
    );
    assert!(portable_relative_path("../outside.dll").is_err());
    assert!(portable_relative_path("/absolute.dll").is_err());
}

#[test]
fn extracts_deflated_extension_archives_in_memory() {
    let mut archive = ZipWriter::new(Cursor::new(Vec::new()));
    let options = SimpleFileOptions::default().compression_method(CompressionMethod::Deflated);
    archive.start_file("bin/helper.dll", options).unwrap();
    archive.write_all(b"extension payload").unwrap();
    let bytes = archive.finish().unwrap().into_inner();

    let mut files = Vec::new();
    extract_extension_archive("Example", "bundle.ext", &bytes, &mut files).unwrap();
    assert_eq!(files.len(), 1);
    assert_eq!(files[0].path, "bin/helper.dll");
    assert_eq!(files[0].data, b"extension payload");
}

#[test]
fn rejects_data_that_is_no_archive() {
    let mut files = Vec::new();
    let error =
        extract_extension_archive("Example", "bundle.ext", b"nothing", &mut files).unwrap_err();
    let WriteError::InvalidVmData { message } = error else {
        panic!("the archive should be invalid");
    };
    assert!(message
        .starts_with("external files: extension Example archive bundle.ext is invalid: "));
    assert!(files.is_empty());
}

#[test]
fn rejects_paths_that_can_escape_the_output_directory() {
    assert!(validate_relative_path("../outside.bin").is_err());
    assert!(validate_relative_path("..\\outside.bin").is_err());
    assert!(validate_relative_path("/absolute.bin").is_err());
    assert!(validate_relative_path("C:/absolute.bin").is_err());
    assert_eq!(
        validate_relative_path("Music/theme.ogg").unwrap(),
        "Music/theme.ogg"
    );
}

#[test]
fn deduplicates_equal_files_and_rejects_windows_path_collisions() {
    let files = merge_generated_files(&vec![
        GeneratedFile::new("Music/Theme.ogg".to_owned(), Vec::from(&b"same"[..])),
        GeneratedFile::new("music/theme.ogg".to_owned(), Vec::from(&b"same"[..])),
    ])
    .unwrap();
    assert_eq!(files.len(), 1);

    let error = merge_generated_files(&vec![
        GeneratedFile::new("file.bin".to_owned(), Vec::from(&b"first"[..])),
        GeneratedFile::new("FILE.BIN".to_owned(), Vec::from(&b"second"[..])),
    ])
    .unwrap_err();
    assert_eq!(
        error,
        ArtifactError::ConflictingFiles {
            first: "file.bin".to_owned(),
            second: "FILE.BIN".to_owned(),
        }
    );
}

#[test]
fn runner_executable_preserves_the_project_name() {
    assert_eq!(
        runner_executable_path("build", "My Game"),
        "build/My Game.exe"
    );
}

#[test]
fn runner_source_is_only_next_to_gmx() {
    assert_eq!(
        runner_path_next_to("tools/gmx.exe").unwrap(),
        "tools/Runner.exe"
    );
    assert!(runner_path_next_to("").is_err());
    assert!(runner_path_next_to("/").is_err());
    for (executable, runner) in [
        ("gmx.exe", "Runner.exe"),
        ("a/b/", "a/Runner.exe"),
        ("a/b/.", "a/Runner.exe"),
        ("a/./b", "a/Runner.exe"),
        ("./gmx", "./Runner.exe"),
        ("/gmx", "/Runner.exe"),
        ("C:/tools/gmx.exe", "C:/tools/Runner.exe"),
        ("tools\\gmx.exe", "Runner.exe"),
    ] {
        assert_eq!(runner_path_next_to(executable).unwrap(), runner);
    }
}

#[test]
fn external_runner_is_renamed_and_keeps_its_bytes() {
    let runner =
        external_runner_file("Runner.exe", b"MZcustom runner".to_vec(), "My Game").unwrap();

    assert_eq!(runner.path, "My Game.exe");
    assert_eq!(runner.data, b"MZcustom runner");
}

#[test]
fn external_runner_rejects_non_pe_files() {
    let error = external_runner_file("Runner.exe", b"not an executable".to_vec(), "My Game")
        .unwrap_err();

    assert!(error.contains("not a Windows PE"));
}

fn names(values: &[&str]) -> Vec<String> {
    values.iter().map(|value| (*value).to_owned()).collect()
}

#[test]
fn detects_the_only_project_in_a_directory() {
    assert_eq!(
        choose_project("games", &names(&["notes.txt", "Game.PROJECT.GMX"])).unwrap(),
        "games/Game.PROJECT.GMX"
    );
}

#[test]
fn reports_missing_and_ambiguous_projects() {
    let error = choose_project("games", &names(&[])).unwrap_err();
    assert!(error.contains("no *.project.gmx"));

    let error = choose_project("games", &names(&["B.project.gmx", "A.project.gmx"])).unwrap_err();
    assert!(error.ends_with("A.project.gmx, B.project.gmx"));
}

#[test]
fn lists_fifty_diagnostics() {
    let messages: Vec<String> = (0..52).map(|index| format!("message {index}")).collect();
    let text = format_diagnostics("Failed", &messages);
    assert!(text.starts_with("Failed with 52 diagnostic(s)\nmessage 0\n"));
    assert!(text.ends_with("message 49\n... 2 more"));
    assert_eq!(
        format_diagnostics("Failed", &names(&["first"])),
        "Failed with 1 diagnostic(s)\nfirst"
    );
}

#[test]
fn keeps_the_data_file_from_being_replaced() {
    let files = vec![
        GeneratedFile::new("music/data.win".to_owned(), Vec::new()),
        GeneratedFile::new("DATA.WIN".to_owned(), Vec::new()),
    ];
    assert_eq!(
        overwritten_output(&files, "data.win").unwrap(),
        "generated file would overwrite WAD output: DATA.WIN"
    );
    assert_eq!(overwritten_output(&files, "other.win"), None);
}

fn build_directory(resolved: &str) -> BuildPlace {
    BuildPlace::Directory {
        resolved: resolved.to_owned(),
        project: "/work/game".to_owned(),
    }
}

#[test]
fn clean_removes_only_the_project_build_directory() {
    assert_eq!(
        clean_project_build("game/build", &build_directory("/work/game/build")),
        Ok(true)
    );
    assert_eq!(
        clean_project_build("game/build", &build_directory("/work/other/build")),
        Err(
            "refusing to clean build directory outside project root: /work/other/build".to_owned()
        )
    );
    assert_eq!(
        clean_project_build("game/build", &BuildPlace::Missing),
        Ok(false)
    );
    assert_eq!(
        clean_project_build("game/build", &build_directory("/work/game/./build/")),
        Ok(true)
    );
}

#[test]
fn backslashes_of_a_project_path_separate_nothing() {
    let contents = FileContents::Data(b"<assets></assets>".to_vec());
    let project = ProjectManifest::load("dir\\Game.project.gmx", &contents).unwrap();
    assert_eq!(project.name, "dir\\Game");
    assert_eq!(project.root_dir, "");
    let project = ProjectManifest::load("dir/Game.project.gmx", &contents).unwrap();
    assert_eq!(project.name, "Game");
    assert_eq!(project.root_dir, "dir");
}

#[test]
fn clean_rejects_a_non_directory_build_path() {
    let message = clean_project_build("game/build", &BuildPlace::Other).unwrap_err();
    assert!(message.contains("non-directory"));
    assert_eq!(
        clean_project_build("game/build", &BuildPlace::Linked),
        Err("refusing to clean linked build directory game/build".to_owned())
    );
}

#[test]
fn skips_generated_files_that_already_have_identical_contents() {
    let file = GeneratedFile::new("music/theme.ogg".to_owned(), b"same audio".to_vec());
    let files = vec![file];
    let planned = write_generated_files("root", &files, &Vec::new()).unwrap();
    assert_eq!(planned[0].destination, "root/music/theme.ogg");
    assert!(planned[0].needed);

    let contents = FileContents::Data(b"same audio".to_vec());
    assert!(file_matches_data(&contents, b"same audio"));
    assert!(!file_matches_data(&contents, b"other audio"));
    let read = vec![ReadFile {
        source: "root/music/theme.ogg".to_owned(),
        contents,
    }];
    assert!(!write_generated_files("root", &files, &read).unwrap()[0].needed);

    let outside = vec![GeneratedFile::new("../theme.ogg".to_owned(), Vec::new())];
    assert!(matches!(
        write_generated_files("root", &outside, &read),
        Err(ArtifactError::UnsafePath { path }) if path == "../theme.ogg"
    ));
}
