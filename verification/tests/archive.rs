use std::io::Write;

use mrpack::archive::{prefix_of, Side};
use mrpack::{
    DecodeError, Dependencies, Dependency, Env, Environment, Error, Field, File, GameType, Hashes,
    Modpack, Overrides,
};

const MANIFEST: &str = r#"{
  "formatVersion": 1,
  "game": "minecraft",
  "versionId": "1.0.0",
  "name": "Example Pack",
  "files": [
    {
      "path": "mods/a.jar",
      "hashes": { "sha1": "aa", "sha512": "bb" },
      "downloads": ["https://cdn.modrinth.com/a.jar"],
      "fileSize": 10
    }
  ],
  "dependencies": { "minecraft": "1.20.1", "fabric-loader": "0.15.0" }
}"#;

fn container(entries: &[(&str, &[u8])]) -> Vec<u8> {
    let mut writer = zip::ZipWriter::new(std::io::Cursor::new(Vec::new()));
    let options = zip::write::SimpleFileOptions::default();
    for (name, content) in entries {
        if name.ends_with('/') {
            writer.add_directory(name.trim_end_matches('/'), options).unwrap();
        } else {
            writer.start_file(*name, options).unwrap();
            writer.write_all(content).unwrap();
        }
    }
    writer.finish().unwrap().into_inner()
}

#[test]
fn scenario_decode_and_encode_again() {
    let bytes = container(&[
        ("modrinth.index.json", MANIFEST.as_bytes()),
        ("overrides/config/a.cfg", b"hello"),
    ]);
    let pack = Modpack::from_reader(bytes).unwrap();
    assert_eq!(pack.format_version, 1);
    assert_eq!(pack.game, GameType::Minecraft);
    assert_eq!(pack.version_id, "1.0.0");
    assert_eq!(pack.name, "Example Pack");
    assert_eq!(pack.summary, None);
    assert_eq!(pack.files.len(), 1);
    let file = &pack.files[0];
    assert_eq!(file.path, "mods/a.jar");
    assert_eq!(file.hashes.sha1(), "aa");
    assert_eq!(file.hashes.sha512(), "bb");
    assert_eq!(file.hashes.optional_len(), 0);
    assert_eq!(file.env, None);
    assert_eq!(file.downloads, vec!["https://cdn.modrinth.com/a.jar".to_string()]);
    assert_eq!(file.file_size, 10);
    assert_eq!(pack.dependencies.get(Dependency::Minecraft), Some(&"1.20.1".to_string()));
    assert_eq!(pack.dependencies.get(Dependency::FabricLoader), Some(&"0.15.0".to_string()));
    assert_eq!(pack.dependencies.get(Dependency::Forge), None);
    assert_eq!(pack.filesystem.len(), 1);
    assert_eq!(pack.filesystem.path(0), "config/a.cfg");
    assert_eq!(pack.filesystem.get("config/a.cfg"), Some(&b"hello".to_vec()));

    let written = pack.to_bytes(true, Some(6)).unwrap();
    let again = Modpack::from_reader(written).unwrap();
    assert_eq!(again, pack);
    assert_eq!(again.files.len(), 1);
    assert_eq!(again.filesystem.len(), 1);
    assert_eq!(again.filesystem.get("config/a.cfg"), Some(&b"hello".to_vec()));
}

#[test]
fn empty_archive_is_refused() {
    let bytes = container(&[]);
    assert_eq!(Modpack::from_reader(bytes), Err(Error::EmptyArchive));
    assert_eq!(Modpack::from_entries(&Vec::new()), Err(Error::EmptyArchive));
}

#[test]
fn missing_manifest_is_refused() {
    let bytes = container(&[("overrides/config/a.cfg", b"hello")]);
    assert_eq!(Modpack::from_reader(bytes), Err(Error::ManifestNotFound));
}

#[test]
fn bytes_that_are_no_container_are_refused() {
    assert_eq!(Modpack::from_reader(b"not a zip".to_vec()), Err(Error::ArchiveOpen));
    assert_eq!(Modpack::from_reader(Vec::new()), Err(Error::ArchiveOpen));
}

fn manifest_with_path(path: &str) -> String {
    format!(
        r#"{{"formatVersion":1,"game":"minecraft","versionId":"v","name":"n","files":[{{"path":"{}","hashes":{{"sha1":"aa","sha512":"bb"}},"downloads":[],"fileSize":1}}],"dependencies":{{}}}}"#,
        path
    )
}

fn entry(name: &str, content: &[u8]) -> (String, Vec<u8>) {
    (name.to_string(), content.to_vec())
}

fn sample() -> Modpack {
    let mut hashes = Hashes::new("aa".to_string(), "bb".to_string());
    hashes.insert("sha256".to_string(), "cc".to_string());
    let mut dependencies = Dependencies::new();
    dependencies.insert(Dependency::Minecraft, "1.20.1".to_string());
    dependencies.insert(Dependency::QuiltLoader, "0.20".to_string());
    let mut filesystem = Overrides::new();
    filesystem.insert("options.txt".to_string(), b"fov:90\n".to_vec()).unwrap();
    filesystem.insert("config/mod.toml".to_string(), b"[a]\nb = 1\n".to_vec()).unwrap();
    filesystem.insert("config/empty".to_string(), Vec::new()).unwrap();
    filesystem.insert("resourcepacks/\u{e9}t\u{e9}.zip".to_string(), vec![0u8; 3000]).unwrap();
    let mut client_filesystem = Overrides::new();
    client_filesystem.insert("options.txt".to_string(), b"fov:110\n".to_vec()).unwrap();
    client_filesystem.insert("config/shaders.cfg".to_string(), b"on".to_vec()).unwrap();
    let mut server_filesystem = Overrides::new();
    server_filesystem.insert("server.properties".to_string(), b"pvp=false\n".to_vec()).unwrap();
    Modpack {
        format_version: 1,
        game: GameType::Minecraft,
        version_id: "2.1.0".to_string(),
        name: "Sample".to_string(),
        summary: Some("A pack with \"quotes\" and \u{e9}".to_string()),
        files: vec![
            File {
                path: "mods/a.jar".to_string(),
                hashes,
                env: Some(Environment { client: Env::Required, server: Env::Optional }),
                downloads: vec![
                    "https://cdn.modrinth.com/a.jar".to_string(),
                    "https://github.com/a/a.jar".to_string(),
                ],
                file_size: 1234567890123,
            },
            File {
                path: "mods/b.jar".to_string(),
                hashes: Hashes::new("11".to_string(), "22".to_string()),
                env: None,
                downloads: vec!["https://cdn.modrinth.com/b.jar".to_string()],
                file_size: 0,
            },
        ],
        dependencies,
        filesystem,
        client_filesystem,
        server_filesystem,
    }
}

#[test]
fn comprehensive() {
    let empty = Modpack {
        format_version: 1,
        game: GameType::Minecraft,
        version_id: String::new(),
        name: String::new(),
        summary: None,
        files: Vec::new(),
        dependencies: Dependencies::new(),
        filesystem: Overrides::new(),
        client_filesystem: Overrides::new(),
        server_filesystem: Overrides::new(),
    };
    for pack in [sample(), empty] {
        let output = pack.to_bytes(true, None).unwrap();
        let again = Modpack::from_reader(output).unwrap();
        assert_eq!(again, pack);
    }
}

#[test]
fn a_pack_comes_back_at_every_level_and_layout() {
    let pack = sample();
    for pretty in [false, true] {
        for level in [None, Some(1), Some(2), Some(3), Some(6), Some(9), Some(10), Some(264)] {
            let bytes = pack.to_bytes(pretty, level).unwrap();
            assert_eq!(Modpack::from_reader(bytes), Ok(sample()), "{:?} {:?}", pretty, level);
        }
    }
}

#[test]
fn a_level_out_of_range_is_refused() {
    let pack = sample();
    for level in [0, -1, 265, 1000, i64::MIN, i64::MAX] {
        assert_eq!(pack.to_bytes(true, Some(level)), Err(Error::CompressionLevel));
    }
    assert!(mrpack::container::is_level_supported(None));
    assert!(mrpack::container::is_level_supported(Some(mrpack::container::MIN_LEVEL)));
    assert!(mrpack::container::is_level_supported(Some(mrpack::container::MAX_LEVEL)));
    assert!(!mrpack::container::is_level_supported(Some(0)));
    assert_eq!(
        mrpack::container::write_archive(&Vec::new(), Some(0)),
        Err(Error::CompressionLevel)
    );
}

#[test]
fn the_entries_of_a_pack_are_the_manifest_and_the_overrides() {
    let pack = sample();
    let entries = pack.to_entries(false).unwrap();
    assert_eq!(entries.len(), 8);
    assert_eq!(entries[0].0, "modrinth.index.json");
    assert_eq!(entries[0].1, pack.to_json_text(false).unwrap());
    assert_eq!(entries[1], entry("overrides/config/empty", b""));
    assert_eq!(entries[2], entry("overrides/config/mod.toml", b"[a]\nb = 1\n"));
    assert_eq!(entries[3], entry("overrides/options.txt", b"fov:90\n"));
    assert_eq!(entries[4].0, "overrides/resourcepacks/\u{e9}t\u{e9}.zip");
    assert_eq!(entries[5], entry("client-overrides/config/shaders.cfg", b"on"));
    assert_eq!(entries[6], entry("client-overrides/options.txt", b"fov:110\n"));
    assert_eq!(entries[7], entry("server-overrides/server.properties", b"pvp=false\n"));
    assert_eq!(Modpack::from_entries(&entries), Ok(sample()));
}

#[test]
fn a_container_gives_back_what_was_written() {
    let entries = vec![
        entry("modrinth.index.json", b"{}"),
        entry("overrides/a.txt", b"hello hello hello hello hello"),
        entry("overrides/\u{e9}.bin", &[0, 255, 1, 254]),
        entry("elsewhere", b""),
    ];
    for level in [None, Some(1), Some(9), Some(11)] {
        let bytes = mrpack::container::write_archive(&entries, level).unwrap();
        assert_ne!(bytes, Vec::<u8>::new());
        assert_eq!(&bytes[0..2], b"PK");
        assert_eq!(mrpack::container::read_archive(bytes), Ok(entries.clone()));
    }
    let empty = mrpack::container::write_archive(&Vec::new(), None).unwrap();
    assert_eq!(mrpack::container::read_archive(empty), Ok(Vec::new()));
    assert_eq!(mrpack::container::read_archive(b"PK".to_vec()), Err(Error::ArchiveOpen));
}

#[test]
fn a_container_does_not_take_a_name_twice() {
    let entries = vec![entry("a", b"1"), entry("a", b"2")];
    assert_eq!(mrpack::container::write_archive(&entries, None), Err(Error::ArchiveWrite));
}

#[test]
fn the_same_pack_gives_the_same_bytes() {
    let one = sample().to_bytes(true, Some(6)).unwrap();
    let other = sample().to_bytes(true, Some(6)).unwrap();
    assert_eq!(one, other);
}

#[test]
fn the_manifest_may_stand_behind_dot_slash() {
    let entries = vec![
        entry("overrides/a.txt", b"a"),
        entry("./modrinth.index.json", manifest_with_path("mods/a.jar").as_bytes()),
        entry("./overrides/b.txt", b"b"),
    ];
    let pack = Modpack::from_entries(&entries).unwrap();
    assert_eq!(pack.files[0].path, "mods/a.jar");
    assert_eq!(pack.filesystem.len(), 2);
    assert_eq!(pack.filesystem.get("a.txt"), Some(&b"a".to_vec()));
    assert_eq!(pack.filesystem.get("b.txt"), Some(&b"b".to_vec()));
}

#[test]
fn the_first_manifest_counts() {
    let entries = vec![
        entry("./modrinth.index.json", manifest_with_path("mods/first.jar").as_bytes()),
        entry("modrinth.index.json", manifest_with_path("mods/second.jar").as_bytes()),
    ];
    assert_eq!(Modpack::from_entries(&entries).unwrap().files[0].path, "mods/first.jar");
}

#[test]
fn a_directory_in_place_of_the_manifest_is_refused() {
    let entries = vec![entry("overrides/a.txt", b"a"), entry("modrinth.index.json/", b"")];
    assert_eq!(Modpack::from_entries(&entries), Err(Error::ManifestIsDirectory));
    let bytes = container(&[("modrinth.index.json/", b""), ("overrides/a.txt", b"a")]);
    assert_eq!(Modpack::from_reader(bytes), Err(Error::ManifestIsDirectory));
    let both = vec![
        entry("modrinth.index.json/", b""),
        entry("modrinth.index.json", manifest_with_path("mods/a.jar").as_bytes()),
    ];
    assert!(Modpack::from_entries(&both).is_ok());
}

#[test]
fn a_manifest_that_cannot_be_decoded_is_refused() {
    let entries = vec![entry("modrinth.index.json", b"{")];
    assert_eq!(
        Modpack::from_entries(&entries),
        Err(Error::ManifestDecode(DecodeError::Syntax))
    );
    let entries = vec![entry("modrinth.index.json", b"{}")];
    assert_eq!(
        Modpack::from_entries(&entries),
        Err(Error::ManifestDecode(DecodeError::Missing(Field::FormatVersion)))
    );
    let no_sha1 = br#"{"formatVersion":1,"game":"minecraft","versionId":"v","name":"n","files":[{"path":"a","hashes":{"sha512":"bb"},"downloads":[],"fileSize":1}],"dependencies":{}}"#;
    let bytes = container(&[("modrinth.index.json", no_sha1)]);
    assert_eq!(
        Modpack::from_reader(bytes),
        Err(Error::ManifestDecode(DecodeError::Missing(Field::Sha1)))
    );
}

#[test]
fn a_path_that_leaves_the_root_is_refused_on_reading() {
    let good = manifest_with_path("mods/a.jar");
    for name in [
        "overrides/../a.txt",
        "overrides/config/../../a.txt",
        "overrides/..",
        "overrides//etc/passwd",
        "overrides/C:/a.txt",
        "overrides/a\\..\\..\\b.txt",
    ] {
        let entries = vec![entry("modrinth.index.json", good.as_bytes()), entry(name, b"x")];
        assert_eq!(Modpack::from_entries(&entries), Err(Error::PathEscape), "{}", name);
    }
    let bytes = container(&[
        ("modrinth.index.json", good.as_bytes()),
        ("overrides/../../outside.txt", b"x"),
    ]);
    assert_eq!(Modpack::from_reader(bytes), Err(Error::PathEscape));
    for path in ["../a.jar", "mods/../../a.jar", "/mods/a.jar", "mods/.."] {
        let entries = vec![entry("modrinth.index.json", manifest_with_path(path).as_bytes())];
        assert_eq!(Modpack::from_entries(&entries), Err(Error::PathEscape), "{}", path);
    }
}

#[test]
fn a_path_that_leaves_the_root_is_refused_on_writing() {
    let mut pack = sample();
    pack.files[1].path = "mods/../../b.jar".to_string();
    assert!(!pack.files_contained());
    assert_eq!(pack.to_bytes(true, None), Err(Error::PathEscape));
    assert_eq!(pack.to_bytes(true, Some(0)), Err(Error::PathEscape));
    assert_eq!(pack.to_entries(false), Err(Error::PathEscape));
    assert!(sample().files_contained());
}

#[test]
fn an_override_that_stands_twice_is_refused() {
    let good = manifest_with_path("mods/a.jar");
    let entries = vec![
        entry("modrinth.index.json", good.as_bytes()),
        entry("overrides/a.txt", b"1"),
        entry("./overrides/a.txt", b"2"),
    ];
    assert_eq!(Modpack::from_entries(&entries), Err(Error::DuplicateOverride));
    let first_wrong = vec![
        entry("overrides/a.txt", b"1"),
        entry("overrides/a.txt", b"2"),
        entry("overrides/../b.txt", b"3"),
        entry("modrinth.index.json", good.as_bytes()),
    ];
    assert_eq!(Modpack::from_entries(&first_wrong), Err(Error::DuplicateOverride));
}

#[test]
fn the_manifest_is_judged_before_the_overrides() {
    let entries = vec![entry("overrides/../b.txt", b"3"), entry("modrinth.index.json", b"{")];
    assert_eq!(
        Modpack::from_entries(&entries),
        Err(Error::ManifestDecode(DecodeError::Syntax))
    );
    let entries = vec![entry("overrides/../b.txt", b"3")];
    assert_eq!(Modpack::from_entries(&entries), Err(Error::ManifestNotFound));
}

#[test]
fn directories_and_entries_elsewhere_are_passed_over() {
    let good = manifest_with_path("mods/a.jar");
    let bytes = container(&[
        ("overrides/", b""),
        ("overrides/config/", b""),
        ("overrides/config/a.cfg", b"hello"),
        ("overrides/LICENSE", b"free"),
        ("modrinth.index.json", good.as_bytes()),
        ("icon.png", b"png"),
        ("README", b"read me"),
        ("client-overrides/b.cfg", b"b"),
        ("../outside.txt", b"inert"),
        ("overridesx/c.cfg", b"c"),
    ]);
    let pack = Modpack::from_reader(bytes).unwrap();
    assert_eq!(pack.filesystem.len(), 2);
    assert_eq!(pack.filesystem.path(0), "LICENSE");
    assert_eq!(pack.filesystem.path(1), "config/a.cfg");
    assert_eq!(pack.filesystem.get("config/a.cfg"), Some(&b"hello".to_vec()));
    assert_eq!(pack.filesystem.get("LICENSE"), Some(&b"free".to_vec()));
    assert_eq!(pack.client_filesystem.len(), 1);
    assert_eq!(pack.client_filesystem.get("b.cfg"), Some(&b"b".to_vec()));
    assert_eq!(pack.server_filesystem.len(), 0);
}

#[test]
fn each_side_has_its_own_overrides() {
    let good = manifest_with_path("mods/a.jar");
    let entries = vec![
        entry("server-overrides/a.cfg", b"server"),
        entry("overrides/a.cfg", b"both"),
        entry("modrinth.index.json", good.as_bytes()),
        entry("client-overrides/a.cfg", b"client"),
        entry("./client-overrides/b.cfg", b"client b"),
        entry("client-overrides/", b""),
    ];
    let pack = Modpack::from_entries(&entries).unwrap();
    assert_eq!(pack.filesystem.len(), 1);
    assert_eq!(pack.filesystem.get("a.cfg"), Some(&b"both".to_vec()));
    assert_eq!(pack.client_filesystem.len(), 2);
    assert_eq!(pack.client_filesystem.get("a.cfg"), Some(&b"client".to_vec()));
    assert_eq!(pack.client_filesystem.get("b.cfg"), Some(&b"client b".to_vec()));
    assert_eq!(pack.server_filesystem.len(), 1);
    assert_eq!(pack.server_filesystem.get("a.cfg"), Some(&b"server".to_vec()));

    let twice = vec![
        entry("modrinth.index.json", good.as_bytes()),
        entry("server-overrides/a.cfg", b"1"),
        entry("server-overrides/a.cfg", b"2"),
    ];
    assert_eq!(Modpack::from_entries(&twice), Err(Error::DuplicateOverride));
    let escaping = vec![
        entry("modrinth.index.json", good.as_bytes()),
        entry("client-overrides/../a.cfg", b"1"),
    ];
    assert_eq!(Modpack::from_entries(&escaping), Err(Error::PathEscape));
    let both_first = vec![
        entry("modrinth.index.json", good.as_bytes()),
        entry("client-overrides/../a.cfg", b"1"),
        entry("overrides/a.cfg", b"1"),
        entry("overrides/a.cfg", b"2"),
    ];
    assert_eq!(Modpack::from_entries(&both_first), Err(Error::DuplicateOverride));
}

#[test]
fn an_entry_that_cannot_be_read_is_refused() {
    let mut writer = zip::ZipWriter::new(std::io::Cursor::new(Vec::new()));
    let stored = zip::write::SimpleFileOptions::default()
        .compression_method(zip::CompressionMethod::Stored);
    writer.start_file("modrinth.index.json", stored).unwrap();
    writer.write_all(manifest_with_path("mods/a.jar").as_bytes()).unwrap();
    writer.start_file("stray.txt", stored).unwrap();
    writer.write_all(b"content-of-the-stray-entry").unwrap();
    let mut bytes = writer.finish().unwrap().into_inner();
    assert!(Modpack::from_reader(bytes.clone()).is_ok());
    let needle = b"content-of-the-stray-entry";
    let at = bytes.windows(needle.len()).position(|w| w == needle).unwrap();
    bytes[at] ^= 0xff;
    assert_eq!(Modpack::from_reader(bytes.clone()), Err(Error::ArchiveOpen));
    assert_eq!(mrpack::container::read_archive(bytes), Err(Error::ArchiveOpen));
}

#[test]
fn each_side_has_its_prefix() {
    assert_eq!(prefix_of(Side::Both), "overrides/");
    assert_eq!(prefix_of(Side::Client), "client-overrides/");
    assert_eq!(prefix_of(Side::Server), "server-overrides/");
}

#[test]
fn layout_and_level_do_not_change_what_is_read() {
    let pack = sample();
    let one = Modpack::from_reader(pack.to_bytes(true, None).unwrap());
    let other = Modpack::from_reader(pack.to_bytes(false, Some(9)).unwrap());
    let third = Modpack::from_reader(pack.to_bytes(false, None).unwrap());
    assert_eq!(one, other);
    assert_eq!(one, third);
    assert_eq!(one, Ok(sample()));
}

#[test]
fn an_entry_larger_than_a_buffer_comes_back() {
    let mut content = Vec::new();
    for i in 0..40_000u32 {
        content.push((i % 251) as u8);
    }
    let entries = vec![entry("modrinth.index.json", b"{}"), entry("overrides/big.bin", &content)];
    for level in [None, Some(9), Some(10)] {
        let bytes = mrpack::container::write_archive(&entries, level).unwrap();
        assert_eq!(mrpack::container::read_archive(bytes), Ok(entries.clone()));
    }
}
