use ms::text::{
    bearer_token, can_edit, clean_name, is_control, is_id_char, is_whitespace, push_decimal, safe_extension,
    safe_id, sample_extension, to_ascii_lowercase, valid_project_id,
};

#[test]
fn project_ids() {
    assert!(valid_project_id("abc-123_X"));
    assert!(valid_project_id(&"a".repeat(64)));
    assert!(!valid_project_id(&"a".repeat(65)));
    assert!(!valid_project_id(""));
    assert!(!valid_project_id("a b"));
    assert!(!valid_project_id("../etc"));
    assert!(!valid_project_id("caf\u{e9}"));
}

#[test]
fn safe_ids_keep_id_characters_only() {
    assert_eq!(safe_id("../etc/passwd"), "etcpasswd");
    assert_eq!(safe_id("a b.c-d_e"), "abc-d_e");
    assert_eq!(safe_id(""), "");
    assert_eq!(safe_id(&"x/".repeat(100)), "x".repeat(64));
    for raw in ["../etc/passwd", "a b.c-d_e", "\u{e9}t\u{e9}!", &"y.".repeat(80)] {
        let kept = safe_id(raw);
        assert!(kept.is_empty() || valid_project_id(&kept));
    }
}

#[test]
fn a_valid_id_is_its_own_safe_id() {
    for id in ["room-1", "ABC_def", &"z".repeat(64)] {
        assert!(valid_project_id(id));
        assert_eq!(safe_id(id), id);
    }
}

#[test]
fn clean_names() {
    assert_eq!(clean_name("  Hello\u{7}World  ", 80), "HelloWorld");
    assert_eq!(clean_name("abcdef", 3), "abc");
    // Truncation happens before trimming.
    assert_eq!(clean_name("ab   cd", 4), "ab");
    assert_eq!(clean_name("\u{3000}\u{85}tab\tbed\u{9f} ", 80), "tabbed");
    assert_eq!(clean_name("   ", 10), "");
    assert_eq!(clean_name("anything", 0), "");
}

#[test]
fn cleaning_twice_changes_nothing() {
    for (name, max) in [("  a\u{0}b  c ", 4), ("\u{2003}x\u{7f}y\u{2003}", 80), ("long name here", 6)] {
        let once = clean_name(name, max);
        assert_eq!(clean_name(&once, max), once);
        assert!(once.chars().count() <= max);
    }
}

#[test]
fn character_classes() {
    assert!(is_control('\u{0}'));
    assert!(is_control('\u{1f}'));
    assert!(is_control('\u{7f}'));
    assert!(is_control('\u{9f}'));
    assert!(!is_control('\u{a0}'));
    assert!(!is_control('a'));
    assert!(is_whitespace(' '));
    assert!(is_whitespace('\u{2028}'));
    assert!(!is_whitespace('\u{200b}'));
    assert!(is_id_char('-'));
    assert!(is_id_char('Z'));
    assert!(!is_id_char('.'));
    for c in ['\u{0}', '\u{85}', 'x', '\u{3000}', '\u{1680}'] {
        assert_eq!(is_control(c), c.is_control());
        assert_eq!(is_whitespace(c), c.is_whitespace());
    }
}

#[test]
fn bearer_tokens() {
    assert_eq!(bearer_token("Bearer abc "), Some("abc".to_string()));
    assert_eq!(bearer_token("bearer  xyz"), Some("xyz".to_string()));
    assert_eq!(bearer_token("Bearer "), Some(String::new()));
    assert_eq!(bearer_token("Basic abc"), None);
    assert_eq!(bearer_token("Bearer"), None);
    assert_eq!(bearer_token("BEARER x"), None);
}

#[test]
fn editing_roles() {
    assert!(can_edit("owner"));
    assert!(can_edit("editor"));
    assert!(!can_edit("viewer"));
    assert!(!can_edit("Owner"));
    assert!(!can_edit(""));
}

#[test]
fn decimals() {
    let mut s = String::from("n-");
    push_decimal(&mut s, 0);
    assert_eq!(s, "n-0");
    let mut t = String::new();
    push_decimal(&mut t, 1700000000123);
    assert_eq!(t, "1700000000123");
    let mut u = String::new();
    push_decimal(&mut u, u128::MAX);
    assert_eq!(u, "340282366920938463463374607431768211455");
}

#[test]
fn lowercase() {
    assert_eq!(to_ascii_lowercase("AbC-\u{dc}"), "abc-\u{dc}");
}

#[test]
fn sample_extensions() {
    assert_eq!(sample_extension(Some("WAV")), "wav");
    assert_eq!(sample_extension(Some("Flac")), "flac");
    assert_eq!(sample_extension(Some("exe")), "bin");
    assert_eq!(sample_extension(None), "bin");
}

#[test]
fn safe_extensions_of_file_names() {
    assert_eq!(safe_extension("kick.WAV"), "wav");
    assert_eq!(safe_extension("song.mp3"), "mp3");
    assert_eq!(safe_extension("a.tar.flac"), "flac");
    assert_eq!(safe_extension("loop.webm"), "webm");
    assert_eq!(safe_extension("noext"), "bin");
    assert_eq!(safe_extension("evil.exe"), "bin");
    assert_eq!(safe_extension(".wav"), "bin");
    assert_eq!(safe_extension("dir.wav/file"), "bin");
    assert_eq!(safe_extension(""), "bin");
    assert_eq!(safe_extension("loop.tar.ogg"), "ogg");
    assert_eq!(safe_extension("a.wav.mp3"), "mp3");
    assert_eq!(safe_extension("song."), "bin");
    assert_eq!(safe_extension("..."), "bin");
    assert_eq!(safe_extension(".hidden.M4A"), "m4a");
}
