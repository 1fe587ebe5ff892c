use std::collections::HashSet;
use template::Template;

fn is_identifier(s: &str) -> bool {
    let mut cs = s.chars();
    match cs.next() {
        Some(c) if c.is_ascii_alphabetic() || c == '_' || c == '$' => {}
        _ => return false,
    }
    cs.all(|c| c.is_ascii_alphanumeric() || c == '_' || c == '$')
}

fn is_path_fragment(s: &str) -> bool {
    s.chars().all(|c| c.is_ascii_alphanumeric() || "_!\u{a7}$()=-^\u{b0}".contains(c))
        && !s.starts_with('-')
        && !s.ends_with('-')
}

fn is_block_comment(s: &str, open: &str) -> bool {
    s.starts_with(open) && s.ends_with(" */") && s.len() >= open.len() + 3 && s.find("*/") == Some(s.len() - 2)
}

fn samples() -> Vec<String> {
    let mut v: Vec<String> = [
        "", "a", "1ab", "a--b", "a__b", "-a", "_", "$x", "\u{e9}t\u{e9}", "a b\tc\n", "*/", "**/", "*/*/",
        "test/path/thing", "--a--", "---", "/", "a/-b", "\u{a7}\u{b0}^=()!", "x\r\ny", " \u{3000}z ",
        "123test-identifier@thing1234", "//*//*", "a*", "/a", "\u{1f600}smile",
    ]
    .iter()
    .map(|s| s.to_string())
    .collect();
    let alphabet: Vec<char> = "a1_-$ */\n\t\u{e9}!".chars().collect();
    let mut seed: u64 = 12345;
    for _ in 0..300 {
        let mut s = String::new();
        seed = seed.wrapping_mul(6364136223846793005).wrapping_add(1442695040888963407);
        let len = (seed >> 33) % 9;
        for _ in 0..len {
            seed = seed.wrapping_mul(6364136223846793005).wrapping_add(1442695040888963407);
            s.push(alphabet[((seed >> 33) % alphabet.len() as u64) as usize]);
        }
        v.push(s);
    }
    v
}

#[test]
fn to_identifier_examples() {
    assert_eq!(Template::to_identifier(""), "");
    assert_eq!(Template::to_identifier("1ab"), "_1ab");
    assert_eq!(Template::to_identifier("a--b"), "a_b");
}

#[test]
fn to_identifier_keeps_underscores_and_dollars() {
    assert_eq!(Template::to_identifier("a__b"), "a__b");
    assert_eq!(Template::to_identifier("$x_1"), "$x_1");
    assert_eq!(Template::to_identifier("-a"), "__a");
    assert_eq!(Template::to_identifier("\u{e9}t\u{e9}"), "__t_");
    assert_eq!(Template::to_identifier("123test-identifier@thing1234"), "_123test_identifier_thing1234");
}

#[test]
fn to_identifier_is_idempotent() {
    for s in samples() {
        let once = Template::to_identifier(&s);
        assert_eq!(Template::to_identifier(&once), once, "input {:?}", s);
    }
}

#[test]
fn to_identifier_gives_identifiers() {
    for s in samples() {
        let r = Template::to_identifier(&s);
        assert_eq!(r.is_empty(), s.is_empty());
        assert!(s.is_empty() || is_identifier(&r), "input {:?} gave {:?}", s, r);
    }
}

#[test]
fn to_comment_examples() {
    assert_eq!(Template::to_commemnt(""), "");
    assert_eq!(Template::to_commemnt("a*/b"), "/*! a* /b */");
    assert_eq!(Template::to_commemnt("test comment"), "/*! test comment */");
    assert_eq!(Template::to_commemnt("*/*/"), "/*! * /* / */");
}

#[test]
fn to_normal_comment_examples() {
    assert_eq!(Template::to_normal_commemnt(""), "");
    assert_eq!(Template::to_normal_commemnt("a*/b"), "/* a* /b */");
    assert_eq!(Template::to_normal_commemnt("**/"), "/* ** / */");
}

#[test]
fn comments_are_well_formed() {
    for s in samples() {
        if s.is_empty() {
            continue;
        }
        let r = Template::to_commemnt(&s);
        assert!(is_block_comment(&r, "/*! "), "input {:?} gave {:?}", s, r);
        let r = Template::to_normal_commemnt(&s);
        assert!(is_block_comment(&r, "/* "), "input {:?} gave {:?}", s, r);
    }
}

#[test]
fn to_path_examples() {
    assert_eq!(Template::to_path("test/path/thing"), "test-path-thing");
    assert_eq!(Template::to_path("--a--"), "a");
    assert_eq!(Template::to_path(""), "");
    assert_eq!(Template::to_path("---"), "");
    assert_eq!(Template::to_path("a/-b"), "a--b");
    assert_eq!(Template::to_path("/x y//"), "x-y");
    assert_eq!(Template::to_path("\u{a7}(a)=b^\u{b0}!$_"), "\u{a7}(a)=b^\u{b0}!$_");
}

#[test]
fn to_path_gives_path_fragments() {
    for s in samples() {
        let r = Template::to_path(&s);
        assert!(is_path_fragment(&r), "input {:?} gave {:?}", s, r);
    }
}

#[test]
fn number_to_identifier_examples() {
    assert_eq!(Template::number_to_identifier(0), "a");
    assert_eq!(Template::number_to_identifier(25), "z");
    assert_eq!(Template::number_to_identifier(26), "A");
    assert_eq!(Template::number_to_identifier(51), "Z");
    assert_eq!(Template::number_to_identifier(52), "_");
    assert_eq!(Template::number_to_identifier(53), "$");
    assert_eq!(Template::number_to_identifier(54), "ab");
    assert_eq!(Template::number_to_identifier(1234), "Uw");
    assert_eq!(Template::number_to_identifier(54 * 52), "a0");
    assert_eq!(Template::number_to_identifier(54 * 64), "aab");
}

#[test]
fn number_to_identifier_continuation_examples() {
    assert_eq!(Template::number_to_identifier_continuation(0), "a");
    assert_eq!(Template::number_to_identifier_continuation(52), "0");
    assert_eq!(Template::number_to_identifier_continuation(61), "9");
    assert_eq!(Template::number_to_identifier_continuation(62), "_");
    assert_eq!(Template::number_to_identifier_continuation(63), "$");
    assert_eq!(Template::number_to_identifier_continuation(64), "ab");
}

#[test]
fn number_to_identifier_is_injective_and_valid() {
    let mut seen = HashSet::new();
    let big = [u32::MAX, u32::MAX - 1, 1 << 31, 54 * 64 * 64, 54 * 64 * 64 - 1];
    for n in (0u32..40000).chain(big.iter().copied()) {
        let r = Template::number_to_identifier(n);
        assert!(is_identifier(&r), "{} gave {:?}", n, r);
        assert!(seen.insert(r), "{} repeats a name", n);
    }
}

#[test]
fn indent_examples() {
    assert_eq!(Template::indent("a"), "a");
    assert_eq!(Template::indent("a\nb"), "\ta\n\nb");
    assert_eq!(Template::indent(""), "");
    assert_eq!(Template::indent("a\r\nb  \n"), "\ta\n\nb");
    assert_eq!(Template::indent("x\n\ny\n  z  "), "\tx\n\t\n\ty\n\nz");
    assert_eq!(Template::indent("\n"), "");
}

#[test]
fn indent_trims_as_str_trim_does() {
    let last = "\u{3000}\u{85} last\u{a0}\u{2009}";
    assert_eq!(Template::indent(last), last.trim());
    assert_eq!(Template::indent(&format!("a\n{}", last)), format!("\ta\n\n{}", last.trim()));
}

#[test]
fn prefix_examples() {
    assert_eq!(Template::prefix("  a\nb\n\nc  ", "> "), "> a\n> b\n\n> c");
    assert_eq!(Template::prefix("   ", "> "), "");
    assert_eq!(Template::prefix("", "> "), "");
    assert_eq!(Template::prefix("one", "// "), "// one");
}

#[test]
fn function_body_example() {
    let r = Template::get_function_content(|| "function() {\n\treturn 1;\n}".to_string());
    assert_eq!(r, "return 1;");
}

#[test]
fn function_body_with_crlf_and_semicolon() {
    let src = "function () {\r\n\tlet a = 1;\r\n\treturn a;\r\n};\n";
    assert_eq!(Template::function_body(src), "let a = 1;\nreturn a;");
    assert_eq!(Template::get_function_content(|| src.to_string()), "let a = 1;\nreturn a;");
}

#[test]
fn function_body_without_anchors() {
    assert_eq!(Template::function_body("abc"), "abc");
    assert_eq!(Template::function_body("x }"), "x ");
    assert_eq!(Template::function_body("\tx\n\t\ty"), "x\n\ty");
    assert_eq!(Template::function_body("function(){}"), "");
    assert_eq!(Template::function_body("function(){ a } ;; "), " a } ;; ");
}

#[test]
fn function_body_keeps_inner_blocks() {
    let src = "function() {\n\tif (x) {\n\t\ty();\n\t}\n\treturn 2;\n}\n";
    assert_eq!(Template::function_body(src), "if (x) {\n\ty();\n}\nreturn 2;");
}
