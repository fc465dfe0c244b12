use l7_flood::template::{template_generator, Part, TemplateError};

fn is_shape(s: &str, prefix: &str, check: &dyn Fn(&str) -> bool) -> bool {
    s.starts_with(prefix) && check(&s[prefix.len()..])
}

#[test]
fn test() {
    let generator =
        template_generator("https://shinnku.com/?x=[0-9]&y=[a-zA-Z]{2}&z=[a-zA-Z0-9]").unwrap();
    for _ in 0..14 {
        let s = generator.generate();
        println!("{}", s);
        assert_eq!(s.len(), "https://shinnku.com/?x=0&y=ab&z=0".len());
    }
}

#[test]
fn test2() {
    let generator =
        template_generator("https://shinnku.com/?x=[a-zA-Z0-9]{10}&y=[a-zA-Z]{2}").unwrap();
    for _ in 0..30 {
        let s = generator.generate();
        println!("{}", s);
        assert_eq!(s.len(), "https://shinnku.com/?x=0123456789&y=ab".len());
    }
}

#[test]
fn test3() {
    let generator = template_generator("https://shinnku.com/[a-zA-Z0-9]{10}").unwrap();
    for _ in 0..30 {
        let s = generator.generate();
        println!("{}", s);
        assert!(is_shape(&s, "https://shinnku.com/", &|r: &str| r.len() == 10
            && r.chars().all(|c| c.is_ascii_alphanumeric())));
    }
}

#[test]
fn template_shape_letters_dash_digits() {
    let g = template_generator("https://example.com/[a-z]{3}-[0-9]{2}").unwrap();
    for _ in 0..50 {
        let s = g.generate();
        let rest = s.strip_prefix("https://example.com/").unwrap();
        let cs: Vec<char> = rest.chars().collect();
        assert_eq!(cs.len(), 6);
        assert!(cs[0..3].iter().all(|c| c.is_ascii_lowercase()));
        assert_eq!(cs[3], '-');
        assert!(cs[4..6].iter().all(|c| c.is_ascii_digit()));
    }
}

#[test]
fn template_parts_are_compiled() {
    let g = template_generator("ab[x-z]{2}cd[q]").unwrap();
    let parts = g.parts();
    assert_eq!(parts.len(), 4);
    match &parts[0] {
        Part::Literal(t) => assert_eq!(t, &vec!['a', 'b']),
        _ => panic!("expected a literal"),
    }
    match &parts[1] {
        Part::RandomChars { chars, count } => {
            assert_eq!(chars, &vec!['x', 'y', 'z']);
            assert_eq!(*count, 2);
        }
        _ => panic!("expected a random part"),
    }
    match &parts[3] {
        Part::RandomChars { chars, count } => {
            assert_eq!(chars, &vec!['q']);
            assert_eq!(*count, 1);
        }
        _ => panic!("expected a random part"),
    }
}

#[test]
fn template_render_is_exact() {
    let g = template_generator("id=[a-c]{3}/[0-9]").unwrap();
    assert_eq!(g.render(&vec![0, 1, 5, 7]), "id=abc/7");
}

#[test]
fn template_trailing_dash_is_literal_and_brace_without_digits_is_text() {
    let g = template_generator("[a-]{x}").unwrap();
    assert_eq!(g.render(&vec![1]), "-{x}");
}

#[test]
fn template_unterminated_bracket_is_invalid() {
    assert!(matches!(template_generator("https://x.com/[a-z"), Err(TemplateError::InvalidTemplate)));
}

#[test]
fn template_empty_class_is_invalid() {
    assert!(matches!(template_generator("https://x.com/[]"), Err(TemplateError::InvalidTemplate)));
    assert!(matches!(template_generator("[z-a]"), Err(TemplateError::InvalidTemplate)));
}

#[test]
fn template_without_brackets_is_one_literal() {
    let g = template_generator("https://example.com/plain").unwrap();
    assert_eq!(g.generate(), "https://example.com/plain");
    assert_eq!(g.render(&vec![]), "https://example.com/plain");
}

#[test]
fn template_zero_count_gives_nothing() {
    let g = template_generator("a[0-9]{0}b").unwrap();
    assert_eq!(g.generate(), "ab");
}

#[test]
fn template_count_overflow_is_invalid() {
    assert!(matches!(
        template_generator("[a]{99999999999999999999999}"),
        Err(TemplateError::InvalidTemplate)
    ));
}

#[test]
fn example_template_compiles_to_letters_dash_digits() {
    let g = template_generator("https://example.com/[a-z]{3}-[0-9]{2}").unwrap();
    let parts = g.parts();
    assert_eq!(parts.len(), 4);
    match &parts[0] {
        Part::Literal(t) => assert_eq!(t.iter().collect::<String>(), "https://example.com/"),
        _ => panic!("expected a literal"),
    }
    match &parts[1] {
        Part::RandomChars { chars, count } => {
            assert_eq!(chars, &('a'..='z').collect::<Vec<char>>());
            assert_eq!(*count, 3);
        }
        _ => panic!("expected a random part"),
    }
    match &parts[2] {
        Part::Literal(t) => assert_eq!(t, &vec!['-']),
        _ => panic!("expected a literal"),
    }
    match &parts[3] {
        Part::RandomChars { chars, count } => {
            assert_eq!(chars, &('0'..='9').collect::<Vec<char>>());
            assert_eq!(*count, 2);
        }
        _ => panic!("expected a random part"),
    }
}
