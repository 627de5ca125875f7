use aura_compression::template_library::TemplateLibrary;
use aura_compression::template_store::{get_member, Json};
use aura_compression::text::{parse_u32, to_chars};

fn object(members: Vec<(&str, Json)>) -> Json {
    Json::Object(members.into_iter().map(|(k, v)| (k.to_string(), v)).collect())
}

fn text(s: &str) -> Json {
    Json::Text(s.to_string())
}

#[test]
fn parse_u32_agrees_with_std() {
    let cases = [
        "", "0", "7", "42", "007", "+5", "+", "-0", "-1", "4294967295", "4294967296",
        "42949672950", "99999999999999999999999999", "00000000000000000000000000000001",
        " 1", "1 ", "1a", "a1", "１", "٣", "+-1", "++1", "1+", "0x10", "1_000", "1.0",
    ];
    for case in cases {
        assert_eq!(parse_u32(&to_chars(case)), case.parse::<u32>().ok(), "case {:?}", case);
    }
    for n in [0u32, 1, 9, 10, 99, 100, 65535, 65536, 4294967294, 4294967295] {
        assert_eq!(parse_u32(&to_chars(&n.to_string())), Some(n));
    }
}

#[test]
fn member_lookup() {
    let json = object(vec![("a", Json::Null), ("b", Json::Bool(true)), ("a", text("second"))]);
    assert!(matches!(get_member(&json, "a"), Some(Json::Null)));
    assert!(matches!(get_member(&json, "b"), Some(Json::Bool(true))));
    assert!(get_member(&json, "c").is_none());
    assert!(get_member(&json, "").is_none());
    assert!(get_member(&text("a"), "a").is_none());
    assert!(get_member(&Json::Array(vec![text("a")]), "a").is_none());
}

#[test]
fn load_store_registers_what_counts() {
    let store = object(vec![
        ("version", Json::Number("1".to_string())),
        (
            "templates",
            object(vec![
                ("100", object(vec![("pattern", text("Hundred {0}"))])),
                ("+7", object(vec![("pattern", text("Plus seven"))])),
                ("abc", object(vec![("pattern", text("No id"))])),
                ("-3", object(vec![("pattern", text("Negative"))])),
                ("4294967296", object(vec![("pattern", text("Too large"))])),
                ("200", object(vec![("description", text("No pattern"))])),
                ("201", object(vec![("pattern", Json::Number("5".to_string()))])),
                ("202", text("Not an object")),
                ("0100", object(vec![("pattern", text("Hundred again {0}"))])),
                ("5", object(vec![("pattern", text(""))])),
            ]),
        ),
    ]);
    let mut library = TemplateLibrary::empty();
    library.load_store(&store);
    let all = library.list();
    assert_eq!(all.len(), 3);
    // "0100" comes after "100" and reads as the same id: the last one wins.
    assert_eq!(all[&100], "Hundred again {0}");
    assert_eq!(all[&7], "Plus seven");
    assert_eq!(all[&5], "");
}

#[test]
fn load_store_without_templates_changes_nothing() {
    for store in [
        Json::Null,
        text("templates"),
        object(vec![]),
        object(vec![("templates", Json::Array(vec![]))]),
        object(vec![("templates", text("none"))]),
        object(vec![("other", object(vec![("1", object(vec![("pattern", text("x"))]))]))]),
    ] {
        let mut library = TemplateLibrary::new();
        library.load_store(&store);
        assert_eq!(library.len(), 20);
        assert_eq!(library.list()[&1], "I cannot {0}.");
    }
}

#[test]
fn load_from_json_reads_a_document() {
    let content = r#"
        {
          "version": 2,
          "templates": {
            "21": { "pattern": "Héllo {0}", "category": "greeting" },
            "1": { "pattern": "Replaced {0}" },
            "x": { "pattern": "skipped" },
            "22": { "pattern": 4 },
            "23": {}
          }
        }"#;
    let mut library = TemplateLibrary::new();
    assert!(library.load_from_json(content).is_ok());
    let all = library.list();
    assert_eq!(all.len(), 21);
    assert_eq!(all[&21], "Héllo {0}");
    assert_eq!(all[&1], "Replaced {0}");
}

#[test]
fn load_from_json_rejects_what_is_no_json() {
    for content in ["", "{", "{\"templates\": }", "templates", "{'templates': {}}"] {
        let mut library = TemplateLibrary::new();
        assert!(library.load_from_json(content).is_err(), "content {:?}", content);
        assert_eq!(library.len(), 20);
    }
}

#[test]
fn load_from_json_accepts_any_document() {
    for content in ["null", "[]", "3", "\"text\"", "{}", "{\"templates\": []}"] {
        let mut library = TemplateLibrary::new();
        assert!(library.load_from_json(content).is_ok(), "content {:?}", content);
        assert_eq!(library.len(), 20);
    }
}

#[test]
fn load_from_json_keeps_escapes_and_nesting() {
    let content = "{\"templates\": {\"9\": {\"pattern\": \"line\\nbreak \\u00e9 {0}\", \"extra\": [1, [2, {\"a\": null}], true]}}}";
    let mut library = TemplateLibrary::empty();
    assert!(library.load_from_json(content).is_ok());
    assert_eq!(library.list()[&9], "line\nbreak é {0}");
}
