use lvim_zpm::text::{
    after_last_char, has_text, is_white, join, lines, number, replace, same, split, split_once,
    strip_prefix, trim, word,
};

/// All texts of up to `len` characters over a small alphabet.
fn all_texts(alphabet: &[char], len: usize) -> Vec<String> {
    let mut all = vec![String::new()];
    let mut last = vec![String::new()];
    for _ in 0..len {
        let mut next = Vec::new();
        for s in &last {
            for c in alphabet {
                let mut t = s.clone();
                t.push(*c);
                next.push(t);
            }
        }
        all.extend(next.iter().cloned());
        last = next;
    }
    all
}

#[test]
fn white_space_is_what_unicode_says() {
    for u in 0..=0x10ffffu32 {
        if let Some(c) = char::from_u32(u) {
            assert_eq!(is_white(c), c.is_whitespace(), "U+{:04X}", u);
        }
    }
}

#[test]
fn lines_end_at_line_feeds() {
    assert_eq!(lines("a\r\nb\n\nc\r"), vec!["a", "b", "", "c\r"]);
    assert!(lines("").is_empty());
    for s in all_texts(&['a', '\n', '\r', '—'], 6) {
        assert_eq!(lines(&s), s.lines().collect::<Vec<_>>(), "{:?}", s);
    }
}

#[test]
fn words_and_trimming() {
    assert_eq!(word("  wasm \"x\""), Some("wasm"));
    assert_eq!(word(" \t "), None);
    assert_eq!(trim("\u{3000}a b\u{a0}"), "a b");
    for s in all_texts(&['a', ' ', '\u{2003}', '—'], 6) {
        assert_eq!(word(&s), s.split_whitespace().next(), "{:?}", s);
        assert_eq!(trim(&s), s.trim(), "{:?}", s);
    }
}

#[test]
fn searching_for_characters() {
    assert_eq!(split_once("a b c", ' '), Some(("a", "b c")));
    assert_eq!(split_once("abc", ' '), None);
    assert_eq!(after_last_char("owner/repo", '/'), "repo");
    assert_eq!(after_last_char("repo", '/'), "repo");
    assert_eq!(after_last_char("dir/", '/'), "");
    for s in all_texts(&['a', '/', '—'], 6) {
        assert_eq!(split_once(&s, '/'), s.split_once('/'), "{:?}", s);
        assert_eq!(Some(after_last_char(&s, '/')), s.rsplit('/').next(), "{:?}", s);
    }
}

#[test]
fn searching_for_texts() {
    assert!(has_text("x@@NOMANIFEST@@\n", "@@NOMANIFEST@@"));
    assert!(!has_text("@@NOMANIFEST@", "@@NOMANIFEST@@"));
    assert_eq!(strip_prefix("file:/a", "file:"), Some("/a"));
    assert_eq!(strip_prefix("fil", "file:"), None);
    for s in all_texts(&['a', 'b', '—'], 6) {
        for p in ["a", "ab", "aa", "aba", "b—", "—"] {
            assert_eq!(has_text(&s, p), s.contains(p), "{:?} {:?}", s, p);
            assert_eq!(strip_prefix(&s, p), s.strip_prefix(p), "{:?} {:?}", s, p);
        }
    }
    assert!(same("—", "—"));
    assert!(!same("a", "ab"));
}

#[test]
fn splitting_joining_replacing() {
    assert_eq!(split("a, b, ", ", "), vec!["a", "b", ""]);
    assert_eq!(join(&vec!["a".to_string(), "b".to_string()], "\n"), "a\nb");
    assert_eq!(join(&Vec::new(), "\n"), "");
    assert_eq!(replace("x {{wasm}} {{wasm}}", "{{wasm}}", "file:/w"), "x file:/w file:/w");
    for s in all_texts(&['a', 'b', '—'], 7) {
        for p in ["a", "ab", "aa", "aba", "—"] {
            let pieces = split(&s, p);
            assert_eq!(pieces, s.split(p).collect::<Vec<_>>(), "{:?} {:?}", s, p);
            assert_eq!(join(&pieces, p), s, "joining undoes splitting: {:?} {:?}", s, p);
            assert!(pieces.iter().all(|piece| !has_text(piece, p)), "{:?} {:?}", s, p);
            assert_eq!(replace(&s, p, "xy"), s.replace(p, "xy"), "{:?} {:?}", s, p);
        }
    }
}

#[test]
fn splitting_undoes_joining() {
    let pieces = vec!["=".to_string(), "==PLUGIN".to_string(), "=== PLUGIN ".to_string()];
    assert_eq!(split(&join(&pieces, "===PLUGIN "), "===PLUGIN "), pieces);
}

#[test]
fn replacing_leaves_none() {
    let out = replace("{{{wasm}}}{{wasm}}{{wa", "{{wasm}}", "file:/sm}}");
    assert_eq!(out, "{file:/sm}}}file:/sm}}{{wa");
    assert!(!has_text(&out, "{{wasm}}"));
}

#[test]
fn numbers_are_decimal() {
    for n in 0..=u16::MAX {
        assert_eq!(number(n), n.to_string());
    }
}
