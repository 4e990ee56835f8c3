use statusline::config::{ctx_window_of, dir_of_parent, live_dir};
use statusline::text::{
    chars_of, count_nonblank, is_white, natural_at, trimmed,
};

#[test]
fn window_of_a_plain_and_a_quoted_section() {
    assert_eq!(ctx_window_of("[model.m]\ncontext_tokens = 10000\n", "m"), Some(10000));
    assert_eq!(
        ctx_window_of("[model.\"a-b.c\"]\n  context_tokens=200000", "a-b.c"),
        Some(200000)
    );
    assert_eq!(
        ctx_window_of("  [model.m]  \r\n\tcontext_tokens = \"512\"\r\n", "m"),
        Some(512)
    );
}

#[test]
fn window_is_unknown() {
    assert_eq!(ctx_window_of("", "m"), None);
    assert_eq!(ctx_window_of("[model.m]\n", "m"), None);
    assert_eq!(ctx_window_of("context_tokens = 5\n", "m"), None);
    assert_eq!(ctx_window_of("[model.n]\ncontext_tokens = 5\n", "m"), None);
    assert_eq!(ctx_window_of("[model.m]\ncontext_tokens = many\n", "m"), None);
    assert_eq!(ctx_window_of("[model.m]\ncontext_tokens = 200_000\n", "m"), None);
    assert_eq!(ctx_window_of("[model.m]\ncontext_tokens =\n", "m"), None);
    assert_eq!(ctx_window_of("[model.m]\n[loop]\ncontext_tokens = 5\n", "m"), None);
    assert_eq!(
        ctx_window_of("[model.m]\ncontext_tokens = 18446744073709551616\n", "m"),
        None
    );
}

#[test]
fn other_sections_do_not_matter() {
    let raw = "[ui]\ncontext_tokens = 1\n[model.a]\nurl = \"x\"\ncontext_tokens = 100\n\
               [model.b]\ncontext_tokens = 200\n[loop]\ncontext_tokens = 3\n";
    assert_eq!(ctx_window_of(raw, "a"), Some(100));
    assert_eq!(ctx_window_of(raw, "b"), Some(200));
    assert_eq!(ctx_window_of(raw, "c"), None);
}

#[test]
fn the_last_section_and_the_last_key_count() {
    assert_eq!(
        ctx_window_of("[model.m]\ncontext_tokens = 1\ncontext_tokens = 2\n", "m"),
        Some(2)
    );
    assert_eq!(
        ctx_window_of("[model.m]\ncontext_tokens = 1\n[model.m]\ncontext_tokens = 2\n", "m"),
        Some(2)
    );
    assert_eq!(
        ctx_window_of("[model.m]\ncontext_tokens = 1\n[model.m]\n", "m"),
        None
    );
    assert_eq!(
        ctx_window_of("[model.m]\ncontext_tokens = 1\ncontext_tokens = x\n", "m"),
        None
    );
}

#[test]
fn header_without_a_bracket_and_key_without_an_equals_sign() {
    assert_eq!(ctx_window_of("[model.m\ncontext_tokens 7", "m"), Some(7));
    assert_eq!(ctx_window_of("[model.m]]\ncontext_tokens == +7", "m"), Some(7));
}

#[test]
fn a_longer_key_is_another_key() {
    assert_eq!(
        ctx_window_of(
            "[model.m]\ncontext_tokens = 10000\ncontext_tokens_reserve = 500\n",
            "m"
        ),
        Some(10000)
    );
    assert_eq!(
        ctx_window_of(
            "[model.m]\ncontext_tokens_reserve = 500\ncontext_tokens = 10000\n",
            "m"
        ),
        Some(10000)
    );
    assert_eq!(ctx_window_of("[model.m]\ncontext_tokens_reserve = 500\n", "m"), None);
    assert_eq!(ctx_window_of("[model.m]\ncontext_tokens5\n", "m"), None);
    assert_eq!(ctx_window_of("[model.m]\ncontext_tokens\t=\t5\n", "m"), Some(5));
    assert_eq!(ctx_window_of("[model.m]\ncontext_tokens = 5\ncontext_tokens\n", "m"), None);
}

#[test]
fn live_dir_is_where_the_configuration_lies() {
    assert_eq!(live_dir(None), ".");
    assert_eq!(live_dir(Some("")), ".");
    assert_eq!(live_dir(Some("/")), ".");
    assert_eq!(live_dir(Some("config.toml")), "");
    assert_eq!(live_dir(Some("/config.toml")), "/");
    assert_eq!(live_dir(Some("/home/me/agent/config.toml")), "/home/me/agent");
    assert_eq!(live_dir(Some("a/b/config.toml")), "a/b");
    assert_eq!(live_dir(Some("a//b/config.toml")), "a//b");
    assert_eq!(live_dir(Some("./config.toml")), ".");
    assert_eq!(live_dir(Some("../config.toml")), "..");
    assert_eq!(live_dir(Some("a./config.toml")), "a.");
    assert_eq!(live_dir(Some("a/..")), "a");
    assert_eq!(live_dir(Some("/etc/conf/")), "/etc");
    assert_eq!(live_dir(Some("/home/a:b/config.toml")), "/home/a:b");
    assert_eq!(live_dir(Some("ab:c/config.toml:x")), "ab:c");
    assert_eq!(live_dir(Some("/etc//conf/./")), "/etc");
    assert_eq!(live_dir(Some("a/./b/.")), "a");
    assert_eq!(live_dir(Some("/./a")), "/");
    assert_eq!(live_dir(Some("/.")), ".");
    assert_eq!(live_dir(Some(".")), "");
    assert_eq!(live_dir(Some("./")), "");
    assert_eq!(live_dir(Some("././a")), ".");
    assert_eq!(live_dir(Some("..")), "");
    assert_eq!(live_dir(Some("/..")), "/");
    assert_eq!(live_dir(Some("a//")), "");
    assert_eq!(dir_of_parent(None), ".");
    assert_eq!(dir_of_parent(Some("x".to_string())), "x");
}

#[test]
fn white_space_is_the_unicode_property() {
    let mut code: u32 = 0;
    while code <= 0x10FFFF {
        if let Some(c) = char::from_u32(code) {
            assert_eq!(is_white(c), c.is_whitespace(), "{:x}", code);
        }
        code += 1;
    }
}

#[test]
fn numbers_are_read_as_by_the_standard_library() {
    for s in [
        "", "+", "-", "0", "-0", "+0", "7", "+7", "++7", "007", "18446744073709551615",
        "18446744073709551616", "18446744073709551620", "99999999999999999999", " 1", "1 ", "1a",
        "a", "\u{0661}", "00000000000000000000000000000001",
    ] {
        let chars = chars_of(s);
        assert_eq!(natural_at(&chars, 0, chars.len()), s.parse::<u64>().ok(), "{}", s);
    }
}

#[test]
fn texts_are_trimmed_as_by_the_standard_library() {
    for s in ["", " ", "a", " a ", "\n\t a b \r\n", "\u{a0}x\u{3000}", "x\u{200b}"] {
        assert_eq!(trimmed(s), s.trim());
    }
}

#[test]
fn blank_lines_are_not_counted() {
    for s in ["", "\n", "a", "a\n", "a\n\nb", " \n\t\r\nx\r\n y", "\r", "a\rb\n"] {
        let want = s.lines().filter(|l| !l.trim().is_empty()).count();
        assert_eq!(count_nonblank(s), want, "{:?}", s);
    }
}

/// Without separators and lone dots at the end, down to the head.
fn settle(path: &str, head: usize) -> &str {
    let mut rest = path;
    while rest.len() > head {
        let start = rest[head..].rfind('/').map_or(head, |i| head + i + 1);
        if start < rest.len() && &rest[start..] != "." {
            break;
        }
        rest = &rest[..if start > head { start - 1 } else { head }];
    }
    rest
}

#[test]
fn live_dir_of_every_short_path() {
    let mut paths: Vec<String> = vec![String::new()];
    let mut done = 0;
    while done < paths.len() {
        let path = paths[done].clone();
        done += 1;
        if path.len() < 8 {
            for c in ["/", ".", "a"] {
                paths.push(format!("{path}{c}"));
            }
        }
        if path.starts_with("//") {
            continue;
        }
        let rooted = path.starts_with('/');
        let dotted = path == "." || path.starts_with("./");
        let head = if rooted || dotted { 1 } else { 0 };
        let whole = settle(&path, head);
        let want = if whole.len() > head {
            let start = whole[head..].rfind('/').map_or(head, |i| head + i);
            settle(&whole[..start], head).to_string()
        } else if dotted {
            String::new()
        } else {
            ".".to_string()
        };
        assert_eq!(live_dir(Some(&path)), want, "{}", path);
    }
    assert_eq!(done, 9841);
}
