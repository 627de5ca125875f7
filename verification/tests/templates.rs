use aura_compression::error::AuraError;
use aura_compression::template_library::TemplateLibrary;
use aura_compression::text::{find, replace, to_chars, to_text};

fn strings(items: &[&str]) -> Vec<String> {
    items.iter().map(|s| s.to_string()).collect()
}

#[test]
fn library_ships_twenty_templates() {
    let library = TemplateLibrary::new();
    let all = library.list();
    assert_eq!(library.len(), 20);
    assert_eq!(all.len(), 20);
    for id in 0..20u32 {
        assert!(library.contains(id));
        assert!(all.contains_key(&id));
    }
    assert!(!library.contains(20));
    assert_eq!(all[&0], "I don't have access to {0}. {1}");
    assert_eq!(all[&1], "I cannot {0}.");
    assert_eq!(all[&10], "The {0} of {1} is {2}.");
    assert_eq!(all[&19], "{0} is known for {1}.");
}

#[test]
fn empty_library_has_no_templates() {
    let library = TemplateLibrary::empty();
    assert_eq!(library.len(), 0);
    assert!(library.list().is_empty());
    assert_eq!(library.match_template("I cannot fly."), None);
}

#[test]
fn register_adds_and_overrides() {
    let mut library = TemplateLibrary::new();
    library.register(500, "Hello {0}!".to_string());
    assert_eq!(library.len(), 21);
    assert_eq!(library.list()[&500], "Hello {0}!");
    library.register(1, "I will not {0}.".to_string());
    assert_eq!(library.len(), 21);
    assert_eq!(library.list()[&1], "I will not {0}.");
    assert_eq!(
        library.format_template(1, &strings(&["sing"])).unwrap(),
        "I will not sing."
    );
}

#[test]
fn register_keeps_ids_apart_whatever_the_order() {
    let mut library = TemplateLibrary::empty();
    for id in [7u32, 3, 900, 0, 4_000_000_000, 5, 3] {
        library.register(id, format!("pattern {}", id));
    }
    assert_eq!(library.len(), 6);
    for id in [7u32, 3, 900, 0, 4_000_000_000, 5] {
        assert_eq!(library.list()[&id], format!("pattern {}", id));
    }
}

#[test]
fn format_fills_slots_in_order() {
    let library = TemplateLibrary::new();
    assert_eq!(
        library.format_template(1, &strings(&["browse the internet"])).unwrap(),
        "I cannot browse the internet."
    );
    assert_eq!(
        library.format_template(10, &strings(&["capital", "France", "Paris"])).unwrap(),
        "The capital of France is Paris."
    );
}

#[test]
fn format_of_unknown_id_fails() {
    let library = TemplateLibrary::new();
    match library.format_template(77, &strings(&["x"])) {
        Err(AuraError::TemplateNotFound(77)) => {}
        other => panic!("unexpected: {:?}", other),
    }
}

#[test]
fn format_leaves_missing_placeholders_alone() {
    let library = TemplateLibrary::new();
    // Too few slots: the second placeholder stays.
    assert_eq!(
        library.format_template(0, &strings(&["the web"])).unwrap(),
        "I don't have access to the web. {1}"
    );
    // Too many slots: the extra one changes nothing.
    assert_eq!(
        library.format_template(1, &strings(&["fly", "unused"])).unwrap(),
        "I cannot fly."
    );
    assert_eq!(library.format_template(1, &[]).unwrap(), "I cannot {0}.");
}

#[test]
fn format_replaces_every_occurrence_and_sees_earlier_slots() {
    let mut library = TemplateLibrary::empty();
    library.register(1, "{0} and {0}, then {1}".to_string());
    assert_eq!(
        library.format_template(1, &strings(&["a", "b"])).unwrap(),
        "a and a, then b"
    );
    // What the first slot put in is seen by the second replacement.
    assert_eq!(
        library.format_template(1, &strings(&["{1}", "b"])).unwrap(),
        "b and b, then b"
    );
}

#[test]
fn format_agrees_with_successive_replace() {
    let mut library = TemplateLibrary::empty();
    let pattern = "{0}{1} x{10}y {2}{{0}} {11} é{3}ü {0}";
    library.register(9, pattern.to_string());
    let slots: Vec<String> = (0..12).map(|i| format!("<{}é{{{}}}>", i, (i + 1) % 12)).collect();
    let mut expected = pattern.to_string();
    for (i, slot) in slots.iter().enumerate() {
        expected = expected.replace(&format!("{{{}}}", i), slot);
    }
    assert_eq!(library.format_template(9, &slots).unwrap(), expected);
}

#[test]
fn match_extracts_slots() {
    let library = TemplateLibrary::new();
    assert_eq!(
        library.extract_slots("I cannot browse the internet.", "I cannot {0}."),
        Some(strings(&["browse the internet"]))
    );
    assert_eq!(
        library.extract_slots("The capital of France is Paris.", "The capital of {0} is {1}."),
        Some(strings(&["France", "Paris"]))
    );
    assert_eq!(library.extract_slots("Nothing alike", "I cannot {0}."), None);
}

#[test]
fn extraction_is_greedy_and_ignores_the_rest() {
    let library = TemplateLibrary::empty();
    // The first literal may stand anywhere; what is before it is dropped.
    assert_eq!(
        library.extract_slots("Well, I cannot fly. Sorry.", "I cannot {0}."),
        Some(strings(&["fly"]))
    );
    // An empty gap gives an empty slot.
    assert_eq!(
        library.extract_slots("I cannot .", "I cannot {0}."),
        Some(vec![String::new()])
    );
    assert_eq!(
        library.extract_slots(" is x.", "{0} is {1}."),
        Some(strings(&["", "x"]))
    );
    assert_eq!(
        library.extract_slots("The capital of  is .", "The capital of {0} is {1}."),
        Some(strings(&["", ""]))
    );
    // A pattern that starts with a placeholder captures what is before its
    // first literal.
    assert_eq!(
        library.extract_slots("Rome is old.", "{0} is {1}."),
        Some(strings(&["Rome", "old"]))
    );
    // A pattern without literals matches anything and captures nothing.
    assert_eq!(library.extract_slots("anything", "{0}{1}"), Some(vec![]));
    assert_eq!(library.extract_slots("", ""), Some(vec![]));
    // The first occurrence of a literal wins.
    assert_eq!(
        library.extract_slots("a is b is c.", "{0} is {1}."),
        Some(strings(&["a", "b is c"]))
    );
}

#[test]
fn extraction_handles_multibyte_text() {
    let library = TemplateLibrary::empty();
    assert_eq!(
        library.extract_slots("Je ne peux pas écrire à Zoë.", "Je ne peux pas {0} à {1}."),
        Some(strings(&["écrire", "Zoë"]))
    );
    assert_eq!(
        library.extract_slots("日本の首都は東京です", "{0}の首都は{1}です"),
        Some(strings(&["日本", "東京"]))
    );
}

#[test]
fn lowest_matching_id_wins() {
    let library = TemplateLibrary::new();
    // Templates 1, 5, 6 and 8 all contain "I cannot"; 1 is the lowest that
    // matches this text.
    assert_eq!(
        library.match_template("I cannot browse the internet."),
        Some((1, strings(&["browse the internet"])))
    );
    // Template 11 ("{0} is {1}.") is the lowest that matches.
    assert_eq!(
        library.match_template("The capital of France is Paris."),
        Some((10, strings(&["capital", "France", "Paris"])))
    );
    assert_eq!(
        library.match_template("Paris is known for art."),
        Some((11, strings(&["Paris", "known for art"])))
    );
    assert_eq!(library.match_template("Hello"), None);
}

#[test]
fn match_prefers_lower_id_after_registration() {
    let mut library = TemplateLibrary::empty();
    library.register(9, "Hello {0}!".to_string());
    library.register(4, "Hello {0}".to_string());
    // The placeholder at the end of template 4 has no literal behind it, so
    // it captures nothing.
    assert_eq!(library.match_template("Hello you!"), Some((4, vec![])));
    library.register(2, "{0} you!".to_string());
    assert_eq!(library.match_template("Hello you!"), Some((2, strings(&["Hello"]))));
}

#[test]
fn chars_round_trip() {
    for text in ["", "plain", "héllo wörld", "日本語", "a\u{10FFFF}b"] {
        let chars = to_chars(text);
        assert_eq!(chars, text.chars().collect::<Vec<char>>());
        assert_eq!(to_text(&chars), text);
    }
}

#[test]
fn find_gives_first_position() {
    let hay = to_chars("abcabcabc");
    assert_eq!(find(&hay, &to_chars("abc"), 0), Some(0));
    assert_eq!(find(&hay, &to_chars("abc"), 1), Some(3));
    assert_eq!(find(&hay, &to_chars("abc"), 6), Some(6));
    assert_eq!(find(&hay, &to_chars("abc"), 7), None);
    assert_eq!(find(&hay, &to_chars("abd"), 0), None);
    assert_eq!(find(&hay, &to_chars("abcabcabca"), 0), None);
    assert_eq!(find(&hay, &to_chars("c"), 100), None);
    assert_eq!(find(&hay, &to_chars(""), 9), Some(9));
}

#[test]
fn replace_agrees_with_std() {
    let cases = [
        ("aaaa", "aa", "b"),
        ("abcabc", "bc", ""),
        ("abcabc", "x", "y"),
        ("", "a", "b"),
        ("ababab", "aba", "X"),
        ("{0}{0}{1}", "{0}", "{1}"),
        ("ünïcödé ünï", "ünï", "uni"),
    ];
    for (text, from, to) in cases {
        let out = replace(&to_chars(text), &to_chars(from), &to_chars(to));
        assert_eq!(to_text(&out), text.replace(from, to));
    }
    // An empty needle changes nothing.
    assert_eq!(to_text(&replace(&to_chars("abc"), &[], &to_chars("x"))), "abc");
}

#[test]
fn empty_slots_round_trip_through_matching() {
    let library = TemplateLibrary::new();
    let (id, slots) = library.match_template("I cannot .").unwrap();
    assert_eq!(id, 1);
    assert_eq!(slots, vec![String::new()]);
    assert_eq!(library.format_template(id, &slots).unwrap(), "I cannot .");
}
