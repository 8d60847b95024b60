use autoscaler::text::Text;

fn chars(s: &str) -> Vec<char> {
    s.chars().collect()
}

fn back(s: &[char]) -> String {
    Text::string(s)
}

fn backs(parts: Vec<Vec<char>>) -> Vec<String> {
    parts.iter().map(|p| p.iter().collect()).collect()
}

fn samples() -> Vec<&'static str> {
    vec![
        "",
        " ",
        "a",
        "  a b\tc \n d ",
        "one\ntwo\r\nthree\r",
        "one\n\ntwo\n",
        "\r\n\r\n",
        "a,b,,c,",
        ",",
        "ünï→cödé \u{2003}x\u{a0}",
        "key=value=more",
        "///a/b//",
        "http://http://x",
    ]
}

#[test]
fn characters_and_strings() {
    for s in samples() {
        assert_eq!(Text::chars(s), chars(s));
        assert_eq!(back(&chars(s)), s);
    }
}

#[test]
fn white_space_is_that_of_unicode() {
    for n in 0..=0x10ffffu32 {
        if let Some(c) = char::from_u32(n) {
            assert_eq!(Text::is_white(c), c.is_whitespace(), "{:x}", n);
        }
    }
}

#[test]
fn trimming_and_splitting() {
    for s in samples() {
        let c = chars(s);
        assert_eq!(back(Text::trim(&c)), s.trim());
        assert_eq!(back(Text::trim_start(&c)), s.trim_start());
        assert_eq!(backs(Text::split_words(&c)), s.split_whitespace().collect::<Vec<_>>());
        assert_eq!(backs(Text::split_lines(&c)), s.lines().collect::<Vec<_>>());
        assert_eq!(backs(Text::split(&c, ',')), s.split(',').collect::<Vec<_>>());
        assert_eq!(back(Text::trim_leading(&c, '/')), s.trim_start_matches('/'));
        assert_eq!(back(Text::trim_trailing(&c, '/')), s.trim_end_matches('/'));
        assert_eq!(
            back(Text::trim_prefixes(&c, &chars("http://"))),
            s.trim_start_matches("http://")
        );
        assert_eq!(Text::starts_with(&c, &chars("a")), s.starts_with("a"));
        assert_eq!(Text::find(&c, '='), s.chars().position(|x| x == '=').unwrap_or(c.len()));
        assert!(Text::same(&c, s));
        assert!(!Text::same(&c, "something else"));
        assert_eq!(Text::replace(s, ',', ';'), s.replace(",", ";"));
    }
}

#[test]
fn numbers_are_written_and_read() {
    for n in [0u64, 1, 9, 10, 99, 100, 65535, 65536, 4294967295, u64::MAX - 1, u64::MAX] {
        assert_eq!(Text::to_decimal(n), n.to_string());
        assert_eq!(Text::parse(&chars(&n.to_string()), u64::MAX), Some(n));
        assert_eq!(Text::parse(&chars(&n.to_string()), 65535), n.to_string().parse::<u16>().ok().map(u64::from));
    }
    for s in ["", "+", "-", "+7", "007", "-1", "1 ", " 1", "1a", "18446744073709551616", "++1", "٣"] {
        assert_eq!(Text::parse(&chars(s), u64::MAX), s.parse::<u64>().ok(), "{:?}", s);
    }
}

#[test]
fn fields_are_found_again_in_their_row() {
    let fields = vec!["1", "", "a b", "x;y"];
    let row = Text::separate(&fields, ",");
    assert_eq!(row, "1,,a b,x;y");
    assert_eq!(backs(Text::split(&chars(&row), ',')), fields);
    assert_eq!(Text::separate(&vec![], ","), "");
    assert_eq!(Text::separate(&vec!["only"], ","), "only");
    assert_eq!(Text::separate(&vec!["a", "b"], "|"), "a|b");
}

#[test]
fn lines_are_found_again_by_their_ends() {
    let lines = vec![String::from("a=1"), String::new(), String::from("b=2")];
    let text = Text::end_lines(&lines);
    assert_eq!(text, "a=1\n\nb=2\n");
    assert_eq!(backs(Text::split_lines(&chars(&text))), lines);
}

#[test]
fn paths_are_joined() {
    for dir in ["", "/", "data", "data/", "/sys/fs/cgroup"] {
        assert_eq!(
            Text::join(dir, "file.csv"),
            std::path::Path::new(dir).join("file.csv").to_string_lossy()
        );
    }
}

#[test]
fn texts_of_their_own() {
    assert_eq!(Text::list(vec!["a", "b"]), vec![String::from("a"), String::from("b")]);
}
