use mrpack::json::find_member;
use mrpack::{
    DecodeError, Dependencies, Dependency, Env, Environment, Error, Field, File, GameType, Hashes,
    Json, Modpack, Overrides,
};

fn read(text: &str) -> Result<Modpack, DecodeError> {
    Modpack::from_json_text(text.as_bytes())
}

fn with_file(file: &str) -> String {
    format!(
        r#"{{"formatVersion":1,"game":"minecraft","versionId":"v","name":"n","files":[{}],"dependencies":{{}}}}"#,
        file
    )
}

fn sample() -> Modpack {
    let mut hashes = Hashes::new("aa".to_string(), "bb".to_string());
    assert!(hashes.insert("sha256".to_string(), "cc".to_string()));
    let mut dependencies = Dependencies::new();
    dependencies.insert(Dependency::FabricLoader, "0.15.0".to_string());
    dependencies.insert(Dependency::Minecraft, "1.20.1".to_string());
    Modpack {
        format_version: 1,
        game: GameType::Minecraft,
        version_id: "1.0.0".to_string(),
        name: "Example Pack".to_string(),
        summary: Some("An example".to_string()),
        files: vec![File {
            path: "mods/example.jar".to_string(),
            hashes,
            env: Some(Environment { client: Env::Required, server: Env::Unsupported }),
            downloads: vec!["https://cdn.modrinth.com/data/example.jar".to_string()],
            file_size: 12345,
        }],
        dependencies,
        filesystem: Overrides::new(),
        client_filesystem: Overrides::new(),
        server_filesystem: Overrides::new(),
    }
}

#[test]
fn the_example_of_the_format_is_read() {
    let text = r#"{
  "formatVersion": 1,
  "game": "minecraft",
  "versionId": "1.0.0",
  "name": "Example Pack",
  "summary": "An example",
  "files": [
    {
      "path": "mods/example.jar",
      "hashes": { "sha1": "aa", "sha512": "bb", "sha256": "cc" },
      "env": { "client": "required", "server": "unsupported" },
      "downloads": ["https://cdn.modrinth.com/data/example.jar"],
      "fileSize": 12345
    }
  ],
  "dependencies": { "minecraft": "1.20.1", "fabric-loader": "0.15.0" }
}"#;
    assert_eq!(read(text), Ok(sample()));
}

#[test]
fn the_manifest_is_written_on_one_line() {
    let text = sample().to_json_text(false).unwrap();
    assert_eq!(
        String::from_utf8(text).unwrap(),
        [
            r#"{"formatVersion":1,"game":"minecraft","versionId":"1.0.0","name":"Example Pack","#,
            r#""summary":"An example","files":[{"path":"mods/example.jar","#,
            r#""hashes":{"sha1":"aa","sha512":"bb","sha256":"cc"},"#,
            r#""env":{"client":"required","server":"unsupported"},"#,
            r#""downloads":["https://cdn.modrinth.com/data/example.jar"],"fileSize":12345}],"#,
            r#""dependencies":{"minecraft":"1.20.1","fabric-loader":"0.15.0"}}"#,
        ]
        .join("")
    );
}

#[test]
fn the_manifest_is_written_with_an_indent_of_four() {
    let pack = Modpack {
        format_version: 1,
        game: GameType::Minecraft,
        version_id: "v".to_string(),
        name: "n".to_string(),
        summary: None,
        files: Vec::new(),
        dependencies: Dependencies::new(),
        filesystem: Overrides::new(),
        client_filesystem: Overrides::new(),
        server_filesystem: Overrides::new(),
    };
    let text = pack.to_json_text(true).unwrap();
    assert_eq!(
        String::from_utf8(text).unwrap(),
        "{\n    \"formatVersion\": 1,\n    \"game\": \"minecraft\",\n    \"versionId\": \"v\",\n    \"name\": \"n\",\n    \"files\": [],\n    \"dependencies\": {}\n}"
    );
}

#[test]
fn a_file_for_both_sides_is_written_with_null() {
    let file = File {
        path: "mods/a.jar".to_string(),
        hashes: Hashes::new("aa".to_string(), "bb".to_string()),
        env: None,
        downloads: Vec::new(),
        file_size: 0,
    };
    assert_eq!(
        file.to_json().render(false),
        Some(
            br#"{"path":"mods/a.jar","hashes":{"sha1":"aa","sha512":"bb"},"env":null,"downloads":[],"fileSize":0}"#
                .to_vec()
        )
    );
}

#[test]
fn a_manifest_that_is_written_is_read_as_itself() {
    let pack = sample();
    for pretty in [false, true] {
        let text = pack.to_json_text(pretty).unwrap();
        assert_eq!(Modpack::from_json_text(&text), Ok(sample()));
    }
    assert_eq!(Modpack::from_json(&pack.to_json()), Ok(sample()));
}

#[test]
fn hashes_need_sha1_and_sha512() {
    let no_sha1 = with_file(
        r#"{"path":"a","hashes":{"sha512":"bb"},"downloads":[],"fileSize":1}"#,
    );
    assert_eq!(read(&no_sha1), Err(DecodeError::Missing(Field::Sha1)));
    let no_sha512 = with_file(
        r#"{"path":"a","hashes":{"sha1":"aa"},"downloads":[],"fileSize":1}"#,
    );
    assert_eq!(read(&no_sha512), Err(DecodeError::Missing(Field::Sha512)));
    let no_hashes = with_file(r#"{"path":"a","downloads":[],"fileSize":1}"#);
    assert_eq!(read(&no_hashes), Err(DecodeError::Missing(Field::Hashes)));
    let number = with_file(
        r#"{"path":"a","hashes":{"sha1":1,"sha512":"bb"},"downloads":[],"fileSize":1}"#,
    );
    assert_eq!(read(&number), Err(DecodeError::Mistyped(Field::Sha1)));
}

#[test]
fn a_further_hash_is_kept_and_written_again() {
    let text = with_file(
        r#"{"path":"a","hashes":{"sha256":"cc","sha1":"aa","sha512":"bb","md5":"dd"},"downloads":[],"fileSize":1}"#,
    );
    let pack = read(&text).unwrap();
    let hashes = &pack.files[0].hashes;
    assert_eq!(hashes.sha1(), "aa");
    assert_eq!(hashes.sha512(), "bb");
    assert_eq!(hashes.optional_len(), 2);
    assert_eq!(hashes.optional_at(0), (&"md5".to_string(), &"dd".to_string()));
    assert_eq!(hashes.optional_at(1), (&"sha256".to_string(), &"cc".to_string()));
    let written = String::from_utf8(pack.to_json_text(false).unwrap()).unwrap();
    assert!(written.contains(r#""hashes":{"sha1":"aa","sha512":"bb","md5":"dd","sha256":"cc"}"#));
    assert_eq!(Modpack::from_json_text(written.as_bytes()), Ok(pack));

    let mistyped = with_file(
        r#"{"path":"a","hashes":{"sha1":"aa","sha512":"bb","sha256":7},"downloads":[],"fileSize":1}"#,
    );
    assert_eq!(read(&mistyped), Err(DecodeError::Mistyped(Field::ExtraHash)));
}

#[test]
fn hashes_take_no_further_hash_under_a_mandatory_name() {
    let mut hashes = Hashes::new("aa".to_string(), "bb".to_string());
    assert!(!hashes.insert("sha1".to_string(), "zz".to_string()));
    assert!(!hashes.insert("sha512".to_string(), "zz".to_string()));
    assert_eq!(hashes.optional_len(), 0);
    assert_eq!(hashes.sha1(), "aa");
    assert!(hashes.insert("md5".to_string(), "1".to_string()));
    assert!(hashes.insert("crc".to_string(), "2".to_string()));
    assert!(hashes.insert("md5".to_string(), "3".to_string()));
    assert_eq!(hashes.optional_len(), 2);
    assert_eq!(hashes.optional_at(0), (&"crc".to_string(), &"2".to_string()));
    assert_eq!(hashes.optional_at(1), (&"md5".to_string(), &"3".to_string()));
}

#[test]
fn hashes_do_not_depend_on_the_order_in_which_they_were_put_in() {
    let mut one = Hashes::new("aa".to_string(), "bb".to_string());
    one.insert("sha256".to_string(), "cc".to_string());
    one.insert("md5".to_string(), "dd".to_string());
    one.insert("blake3".to_string(), "ee".to_string());
    let mut other = Hashes::new("aa".to_string(), "bb".to_string());
    other.insert("blake3".to_string(), "old".to_string());
    other.insert("md5".to_string(), "dd".to_string());
    other.insert("sha256".to_string(), "cc".to_string());
    other.insert("blake3".to_string(), "ee".to_string());
    assert_eq!(one, other);
    assert_eq!(one.optional_len(), 3);
    assert_eq!(one.optional_at(0), (&"blake3".to_string(), &"ee".to_string()));
    assert_eq!(one.optional_at(1), (&"md5".to_string(), &"dd".to_string()));
    assert_eq!(one.optional_at(2), (&"sha256".to_string(), &"cc".to_string()));
    assert_eq!(
        one.to_json().render(false),
        Some(
            br#"{"sha1":"aa","sha512":"bb","blake3":"ee","md5":"dd","sha256":"cc"}"#.to_vec()
        )
    );
}

#[test]
fn a_dependency_named_twice_has_its_last_version() {
    let text = r#"{"formatVersion":1,"game":"minecraft","versionId":"v","name":"n","files":[],
        "dependencies":{"minecraft":"1.0","forge":"47","minecraft":"2.0"}}"#;
    let pack = read(text).unwrap();
    assert_eq!(pack.dependencies.get(Dependency::Minecraft), Some(&"2.0".to_string()));
    assert_eq!(pack.dependencies.get(Dependency::Forge), Some(&"47".to_string()));
    assert_eq!(pack.dependencies.get(Dependency::Neoforge), None);

    let by_hand = Json::Object(vec![
        ("formatVersion".to_string(), Json::Unsigned(1)),
        ("game".to_string(), Json::Text("minecraft".to_string())),
        ("versionId".to_string(), Json::Text("v".to_string())),
        ("name".to_string(), Json::Text("old".to_string())),
        ("name".to_string(), Json::Text("new".to_string())),
        ("files".to_string(), Json::Array(Vec::new())),
        (
            "dependencies".to_string(),
            Json::Object(vec![
                ("quilt-loader".to_string(), Json::Text("1".to_string())),
                ("quilt-loader".to_string(), Json::Text("2".to_string())),
            ]),
        ),
    ]);
    let pack = Modpack::from_json(&by_hand).unwrap();
    assert_eq!(pack.name, "new");
    assert_eq!(pack.dependencies.get(Dependency::QuiltLoader), Some(&"2".to_string()));
}

#[test]
fn dependencies_hold_one_version_of_each_component() {
    let mut dependencies = Dependencies::new();
    assert_eq!(dependencies.get(Dependency::Forge), None);
    dependencies.insert(Dependency::Forge, "1".to_string());
    dependencies.insert(Dependency::Forge, "2".to_string());
    dependencies.insert(Dependency::Neoforge, "3".to_string());
    assert_eq!(dependencies.get(Dependency::Forge), Some(&"2".to_string()));
    assert_eq!(dependencies.get(Dependency::Neoforge), Some(&"3".to_string()));
    assert_eq!(dependencies.get(Dependency::Minecraft), None);
    assert_eq!(dependencies.get(Dependency::FabricLoader), None);
    assert_eq!(dependencies.get(Dependency::QuiltLoader), None);
    assert_eq!(
        dependencies.to_json(),
        Json::Object(vec![
            ("forge".to_string(), Json::Text("2".to_string())),
            ("neoforge".to_string(), Json::Text("3".to_string())),
        ])
    );
}

#[test]
fn every_dependency_has_its_tag() {
    let text = r#"{"formatVersion":1,"game":"minecraft","versionId":"v","name":"n","files":[],
        "dependencies":{"quilt-loader":"5","fabric-loader":"4","neoforge":"3","forge":"2","minecraft":"1"}}"#;
    let pack = read(text).unwrap();
    assert_eq!(pack.dependencies.get(Dependency::Minecraft), Some(&"1".to_string()));
    assert_eq!(pack.dependencies.get(Dependency::Forge), Some(&"2".to_string()));
    assert_eq!(pack.dependencies.get(Dependency::Neoforge), Some(&"3".to_string()));
    assert_eq!(pack.dependencies.get(Dependency::FabricLoader), Some(&"4".to_string()));
    assert_eq!(pack.dependencies.get(Dependency::QuiltLoader), Some(&"5".to_string()));
    let written = String::from_utf8(pack.to_json_text(false).unwrap()).unwrap();
    assert!(written.ends_with(
        r#""dependencies":{"minecraft":"1","forge":"2","neoforge":"3","fabric-loader":"4","quilt-loader":"5"}}"#
    ));
}

#[test]
fn a_tag_that_the_format_does_not_know_is_refused() {
    let game = r#"{"formatVersion":1,"game":"terraria","versionId":"v","name":"n","files":[],"dependencies":{}}"#;
    assert_eq!(read(game), Err(DecodeError::Mistyped(Field::Game)));
    let dependency = r#"{"formatVersion":1,"game":"minecraft","versionId":"v","name":"n","files":[],"dependencies":{"fabricLoader":"1"}}"#;
    assert_eq!(read(dependency), Err(DecodeError::Mistyped(Field::Dependencies)));
    let version = r#"{"formatVersion":1,"game":"minecraft","versionId":"v","name":"n","files":[],"dependencies":{"forge":1}}"#;
    assert_eq!(read(version), Err(DecodeError::Mistyped(Field::Dependencies)));
    let client = with_file(
        r#"{"path":"a","hashes":{"sha1":"a","sha512":"b"},"env":{"client":"Required","server":"optional"},"downloads":[],"fileSize":1}"#,
    );
    assert_eq!(read(&client), Err(DecodeError::Mistyped(Field::Client)));
    let server = with_file(
        r#"{"path":"a","hashes":{"sha1":"a","sha512":"b"},"env":{"client":"optional","server":"never"},"downloads":[],"fileSize":1}"#,
    );
    assert_eq!(read(&server), Err(DecodeError::Mistyped(Field::Server)));
}

#[test]
fn the_sides_of_a_file_are_read() {
    let sides = with_file(
        r#"{"path":"a","hashes":{"sha1":"a","sha512":"b"},"env":{"client":"optional","server":"unsupported"},"downloads":[],"fileSize":1}"#,
    );
    assert_eq!(
        read(&sides).unwrap().files[0].env,
        Some(Environment { client: Env::Optional, server: Env::Unsupported })
    );
    let null = with_file(
        r#"{"path":"a","hashes":{"sha1":"a","sha512":"b"},"env":null,"downloads":[],"fileSize":1}"#,
    );
    assert_eq!(read(&null).unwrap().files[0].env, None);
    let one_side = with_file(
        r#"{"path":"a","hashes":{"sha1":"a","sha512":"b"},"env":{"client":"optional"},"downloads":[],"fileSize":1}"#,
    );
    assert_eq!(read(&one_side), Err(DecodeError::Missing(Field::Server)));
    let no_client = with_file(
        r#"{"path":"a","hashes":{"sha1":"a","sha512":"b"},"env":{"server":"optional"},"downloads":[],"fileSize":1}"#,
    );
    assert_eq!(read(&no_client), Err(DecodeError::Missing(Field::Client)));
    let text = with_file(
        r#"{"path":"a","hashes":{"sha1":"a","sha512":"b"},"env":"client","downloads":[],"fileSize":1}"#,
    );
    assert_eq!(read(&text), Err(DecodeError::Mistyped(Field::Env)));
}

#[test]
fn a_field_that_is_missing_is_named() {
    let all = [
        (r#""formatVersion":1"#, Field::FormatVersion),
        (r#""game":"minecraft""#, Field::Game),
        (r#""versionId":"v""#, Field::VersionId),
        (r#""name":"n""#, Field::Name),
        (r#""files":[]"#, Field::Files),
        (r#""dependencies":{}"#, Field::Dependencies),
    ];
    for (i, (_, field)) in all.iter().enumerate() {
        let members: Vec<&str> =
            all.iter().enumerate().filter(|(j, _)| *j != i).map(|(_, (m, _))| *m).collect();
        let text = format!("{{{}}}", members.join(","));
        assert_eq!(read(&text), Err(DecodeError::Missing(*field)));
    }
    let file = [
        (r#""path":"a""#, Field::Path),
        (r#""hashes":{"sha1":"a","sha512":"b"}"#, Field::Hashes),
        (r#""downloads":[]"#, Field::Downloads),
        (r#""fileSize":1"#, Field::FileSize),
    ];
    for (i, (_, field)) in file.iter().enumerate() {
        let members: Vec<&str> =
            file.iter().enumerate().filter(|(j, _)| *j != i).map(|(_, (m, _))| *m).collect();
        let text = with_file(&format!("{{{}}}", members.join(",")));
        assert_eq!(read(&text), Err(DecodeError::Missing(*field)));
    }
}

#[test]
fn a_field_of_another_shape_is_named() {
    let cases = [
        (r#"[]"#.to_string(), Field::Root),
        (
            r#"{"formatVersion":"1","game":"minecraft","versionId":"v","name":"n","files":[],"dependencies":{}}"#.to_string(),
            Field::FormatVersion,
        ),
        (
            r#"{"formatVersion":-1,"game":"minecraft","versionId":"v","name":"n","files":[],"dependencies":{}}"#.to_string(),
            Field::FormatVersion,
        ),
        (
            r#"{"formatVersion":1.5,"game":"minecraft","versionId":"v","name":"n","files":[],"dependencies":{}}"#.to_string(),
            Field::FormatVersion,
        ),
        (
            r#"{"formatVersion":1,"game":1,"versionId":"v","name":"n","files":[],"dependencies":{}}"#.to_string(),
            Field::Game,
        ),
        (
            r#"{"formatVersion":1,"game":"minecraft","versionId":null,"name":"n","files":[],"dependencies":{}}"#.to_string(),
            Field::VersionId,
        ),
        (
            r#"{"formatVersion":1,"game":"minecraft","versionId":"v","name":[],"files":[],"dependencies":{}}"#.to_string(),
            Field::Name,
        ),
        (
            r#"{"formatVersion":1,"game":"minecraft","versionId":"v","name":"n","summary":1,"files":[],"dependencies":{}}"#.to_string(),
            Field::Summary,
        ),
        (
            r#"{"formatVersion":1,"game":"minecraft","versionId":"v","name":"n","files":{},"dependencies":{}}"#.to_string(),
            Field::Files,
        ),
        (
            r#"{"formatVersion":1,"game":"minecraft","versionId":"v","name":"n","files":[],"dependencies":[]}"#.to_string(),
            Field::Dependencies,
        ),
        (with_file(r#""mods/a.jar""#), Field::File),
        (
            with_file(r#"{"path":1,"hashes":{"sha1":"a","sha512":"b"},"downloads":[],"fileSize":1}"#),
            Field::Path,
        ),
        (with_file(r#"{"path":"a","hashes":[],"downloads":[],"fileSize":1}"#), Field::Hashes),
        (
            with_file(r#"{"path":"a","hashes":{"sha1":"a","sha512":false},"downloads":[],"fileSize":1}"#),
            Field::Sha512,
        ),
        (
            with_file(r#"{"path":"a","hashes":{"sha1":"a","sha512":"b"},"downloads":"x","fileSize":1}"#),
            Field::Downloads,
        ),
        (
            with_file(r#"{"path":"a","hashes":{"sha1":"a","sha512":"b"},"downloads":["x",2],"fileSize":1}"#),
            Field::Downloads,
        ),
        (
            with_file(r#"{"path":"a","hashes":{"sha1":"a","sha512":"b"},"downloads":[],"fileSize":"1"}"#),
            Field::FileSize,
        ),
    ];
    for (text, field) in cases {
        assert_eq!(read(&text), Err(DecodeError::Mistyped(field)), "{}", text);
    }
}

#[test]
fn the_first_file_that_is_wrong_is_reported() {
    let text = r#"{"formatVersion":1,"game":"minecraft","versionId":"v","name":"n","files":[
        {"path":"a","hashes":{"sha1":"a","sha512":"b"},"downloads":[],"fileSize":1},
        {"path":"b","hashes":{"sha1":"a","sha512":"b"},"downloads":[]},
        {"hashes":{"sha1":"a","sha512":"b"},"downloads":[],"fileSize":1}
    ],"dependencies":{}}"#;
    assert_eq!(read(text), Err(DecodeError::Missing(Field::FileSize)));
}

#[test]
fn text_that_is_no_document_is_refused() {
    assert_eq!(read(""), Err(DecodeError::Syntax));
    assert_eq!(read("{"), Err(DecodeError::Syntax));
    assert_eq!(read(r#"{"formatVersion":1,}"#), Err(DecodeError::Syntax));
    assert_eq!(read("not json"), Err(DecodeError::Syntax));
    assert_eq!(Modpack::from_json_text(&[0xff, 0xfe]), Err(DecodeError::Syntax));
}

#[test]
fn the_summary_may_be_missing_and_unknown_members_are_passed_over() {
    let text = r#"{"formatVersion":18446744073709551615,"game":"minecraft","versionId":"v","name":"n",
        "summary":null,"files":[],"dependencies":{},"comment":{"any":["thing"]}}"#;
    let pack = read(text).unwrap();
    assert_eq!(pack.summary, None);
    assert_eq!(pack.format_version, u64::MAX);
    assert_eq!(pack.filesystem, Overrides::new());
    let written = String::from_utf8(pack.to_json_text(false).unwrap()).unwrap();
    assert!(!written.contains("summary"));
    assert!(!written.contains("comment"));
    assert!(written.contains(r#""formatVersion":18446744073709551615"#));
}

#[test]
fn a_document_is_read_as_a_tree() {
    assert_eq!(Json::parse(b"null"), Some(Json::Null));
    assert_eq!(Json::parse(b"true"), Some(Json::Bool(true)));
    assert_eq!(Json::parse(b"7"), Some(Json::Unsigned(7)));
    assert_eq!(Json::parse(b"-7"), Some(Json::OtherNumber));
    assert_eq!(Json::parse(b"7.5"), Some(Json::OtherNumber));
    assert_eq!(Json::parse(b"\"a\\u00e9\""), Some(Json::Text("a\u{e9}".to_string())));
    assert_eq!(
        Json::parse(br#"[1, [2, {"b": null, "a": [false]}]]"#),
        Some(Json::Array(vec![
            Json::Unsigned(1),
            Json::Array(vec![
                Json::Unsigned(2),
                Json::Object(vec![
                    ("b".to_string(), Json::Null),
                    ("a".to_string(), Json::Array(vec![Json::Bool(false)])),
                ]),
            ]),
        ]))
    );
    assert_eq!(Json::parse(b"[1,"), None);
    assert_eq!(Json::parse(b""), None);
}

#[test]
fn a_tree_is_written_as_a_document() {
    let tree = Json::Object(vec![
        ("b".to_string(), Json::Array(vec![Json::Unsigned(1), Json::Null, Json::Bool(true)])),
        ("a".to_string(), Json::Text("x".to_string())),
    ]);
    assert_eq!(tree.render(false), Some(br#"{"b":[1,null,true],"a":"x"}"#.to_vec()));
    assert_eq!(
        tree.render(true),
        Some(b"{\n    \"b\": [\n        1,\n        null,\n        true\n    ],\n    \"a\": \"x\"\n}".to_vec())
    );
    assert_eq!(Json::OtherNumber.render(false), None);
    assert_eq!(Json::Array(vec![Json::OtherNumber]).render(false), None);
    let twice = Json::Object(vec![
        ("a".to_string(), Json::Null),
        ("a".to_string(), Json::Null),
    ]);
    assert_eq!(twice.render(true), None);
}

#[test]
fn a_member_is_found_where_its_key_stands_last() {
    let members = vec![
        ("a".to_string(), Json::Unsigned(1)),
        ("b".to_string(), Json::Unsigned(2)),
        ("a".to_string(), Json::Unsigned(3)),
    ];
    assert_eq!(find_member(&members, "a"), Some(&Json::Unsigned(3)));
    assert_eq!(find_member(&members, "b"), Some(&Json::Unsigned(2)));
    assert_eq!(find_member(&members, "c"), None);
    assert_eq!(find_member(&Vec::new(), "a"), None);
}

#[test]
fn an_error_says_what_it_is() {
    assert_eq!(Error::EmptyArchive.message(), "invalid .mrpack: empty");
    assert_eq!(
        Error::InvalidExtension.message(),
        "the path must have the extension '.mrpack'"
    );
    assert_eq!(
        Error::ManifestDecode(DecodeError::Syntax).message(),
        "invalid .mrpack: modrinth.index.json cannot be decoded"
    );
}
