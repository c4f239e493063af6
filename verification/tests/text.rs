use string_calculator::text;

fn chars(s: &str) -> Vec<char> {
    s.chars().collect()
}

fn string(v: &[char]) -> String {
    v.iter().collect()
}

const SAMPLES: [&str; 16] = [
    "",
    "1",
    "1,2",
    "1\n2,3",
    ",",
    ",,",
    "\n",
    "a,b\nc,",
    ",a",
    " 1 , 2 ",
    "1;2;;3;;;4",
    "aaaa",
    "abababa",
    "\u{20ac}1,\u{a7}\u{a7}2\n",
    "//;\n1;2",
    "\t x y \r\n",
];

#[test]
fn test_chars_of() {
    for s in SAMPLES {
        assert_eq!(text::chars_of(s), chars(s));
    }
    assert_eq!(text::chars_of("a\u{20ac}b"), vec!['a', '\u{20ac}', 'b']);
}

#[test]
fn test_find_line_break() {
    assert_eq!(text::find_line_break(&chars("")), 0);
    assert_eq!(text::find_line_break(&chars("abc")), 3);
    assert_eq!(text::find_line_break(&chars("//;\n1\n2")), 3);
    assert_eq!(text::find_line_break(&chars("\n")), 0);
    assert_eq!(text::find_line_break(&chars("a,b")), 3);
    assert_eq!(text::find_line_break(&chars("\u{20ac}\u{20ac}\n")), 2);
}

#[test]
fn test_find_separator() {
    assert_eq!(text::find_separator(&chars("")), 0);
    assert_eq!(text::find_separator(&chars("abc")), 3);
    assert_eq!(text::find_separator(&chars("ab,c\n")), 2);
    assert_eq!(text::find_separator(&chars("ab\nc,")), 2);
    assert_eq!(text::find_separator(&chars(",")), 0);
}

#[test]
fn test_starts_with() {
    for s in SAMPLES {
        for p in SAMPLES {
            assert_eq!(text::starts_with(&chars(s), &chars(p)), s.starts_with(p));
        }
    }
    assert!(text::starts_with(&chars("abc"), &chars("ab")));
    assert!(!text::starts_with(&chars("ab"), &chars("abc")));
    assert!(text::starts_with(&chars(""), &chars("")));
}

#[test]
fn test_replace() {
    assert_eq!(string(&text::replace(&chars("1;2"), &chars(";"), ',')), "1,2");
    assert_eq!(string(&text::replace(&chars("1;;;2"), &chars(";;"), ',')), "1,;2");
    assert_eq!(string(&text::replace(&chars("aaaa"), &chars("aa"), ',')), ",,");
    assert_eq!(string(&text::replace(&chars("aaa"), &chars("aa"), ',')), ",a");
    assert_eq!(string(&text::replace(&chars("abc"), &chars(""), ',')), ",a,b,c,");
    assert_eq!(string(&text::replace(&chars(""), &chars(""), ',')), ",");
    assert_eq!(string(&text::replace(&chars(""), &chars("x"), ',')), "");
    assert_eq!(string(&text::replace(&chars("abc"), &chars("abcd"), ',')), "abc");
}

#[test]
fn test_replace_as_std_does() {
    let patterns = ["", ",", ";", ";;", "a", "aa", "ab", "aba", "\n", "\u{a7}", "1;", " "];
    for s in SAMPLES {
        for p in patterns {
            let ours = string(&text::replace(&chars(s), &chars(p), ','));
            assert_eq!(ours, s.replace(p, ","));
            let ours = string(&text::replace(&chars(s), &chars(p), '#'));
            assert_eq!(ours, s.replace(p, "#"));
        }
    }
}

#[test]
fn test_split() {
    let v = chars("1,2\n3");
    let parts = text::split(&v);
    assert_eq!(parts, vec![&['1'][..], &['2'][..], &['3'][..]]);
    let v = chars("");
    assert_eq!(text::split(&v), vec![&[][..] as &[char]]);
    let v = chars(",");
    assert_eq!(text::split(&v).len(), 2);
    let v = chars("ab,,c\n");
    let parts: Vec<String> = text::split(&v).into_iter().map(string).collect();
    assert_eq!(parts, vec!["ab", "", "c", ""]);
}

#[test]
fn test_split_as_std_does() {
    for s in SAMPLES {
        let v = chars(s);
        let ours: Vec<String> = text::split(&v).into_iter().map(string).collect();
        let theirs: Vec<String> = s.split([',', '\n']).map(String::from).collect();
        assert_eq!(ours, theirs);
    }
}

#[test]
fn test_whitespace_is_the_unicode_property() {
    let mut c = '\0';
    loop {
        assert_eq!(text::is_whitespace(c), c.is_whitespace());
        if c == char::MAX {
            break;
        }
        c = char::from_u32(if c == '\u{d7ff}' { 0xe000 } else { c as u32 + 1 }).unwrap();
    }
}

#[test]
fn test_whitespace() {
    for c in [' ', '\t', '\n', '\r', '\u{b}', '\u{c}', '\u{85}', '\u{a0}', '\u{1680}', '\u{2000}',
        '\u{200a}', '\u{2028}', '\u{2029}', '\u{202f}', '\u{205f}', '\u{3000}']
    {
        assert!(text::is_whitespace(c));
    }
    for c in ['a', '0', ',', '\u{8}', '\u{e}', '\u{1f}', '\u{180e}', '\u{200b}', '\u{feff}'] {
        assert!(!text::is_whitespace(c));
    }
}

#[test]
fn test_trim() {
    assert_eq!(string(text::trim(&chars("  12 "))), "12");
    assert_eq!(string(text::trim(&chars("12"))), "12");
    assert_eq!(string(text::trim(&chars(" 1 2 "))), "1 2");
    assert_eq!(string(text::trim(&chars("   "))), "");
    assert_eq!(string(text::trim(&chars(""))), "");
    assert_eq!(string(text::trim(&chars("\t\r\n7\u{3000}"))), "7");
}

#[test]
fn test_trim_as_std_does() {
    for s in SAMPLES {
        assert_eq!(string(text::trim(&chars(s))), s.trim());
    }
}
