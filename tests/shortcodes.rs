use ministatic::error::Error;
use ministatic::shortcode::parse_shortcode;

#[test]
fn shortcode_one_argument() {
    let sc = parse_shortcode("{{ note(text=\"hi\") }}").unwrap();
    assert_eq!(sc.name, "note");
    assert_eq!(sc.arguments.len(), 1);
    assert_eq!(sc.arguments[0].name, "text");
    assert_eq!(sc.arguments[0].value, "hi");
}

#[test]
fn shortcode_arguments_keep_order_and_value_text() {
    let sc = parse_shortcode("{{figure( src = \"a b.png\" ,alt=\" x \",n_1=\"\")}}").unwrap();
    assert_eq!(sc.name, "figure");
    let args: Vec<(String, String)> =
        sc.arguments.iter().map(|a| (a.name.clone(), a.value.clone())).collect();
    assert_eq!(
        args,
        vec![
            ("src".to_string(), "a b.png".to_string()),
            ("alt".to_string(), " x ".to_string()),
            ("n_1".to_string(), "".to_string()),
        ]
    );
}

#[test]
fn shortcode_no_arguments() {
    let sc = parse_shortcode("{{ ghost() }}").unwrap();
    assert_eq!(sc.name, "ghost");
    assert!(sc.arguments.is_empty());
}

#[test]
fn shortcode_unclosed_argument_list_is_syntax_error() {
    let r = parse_shortcode("{{ bad(x=\"1\" }}");
    assert!(matches!(r, Err(Error::ShortCodeSyntaxError { offset: 13 })));
}

#[test]
fn shortcode_syntax_errors() {
    assert!(matches!(parse_shortcode("{ x() }}"), Err(Error::ShortCodeSyntaxError { offset: 0 })));
    assert!(matches!(parse_shortcode("{{ (x=\"1\") }}"), Err(Error::ShortCodeSyntaxError { offset: 3 })));
    assert!(matches!(parse_shortcode("{{ f(x=\"1\",) }}"), Err(Error::ShortCodeSyntaxError { offset: 11 })));
    assert!(matches!(parse_shortcode("{{ f(x=1) }}"), Err(Error::ShortCodeSyntaxError { offset: 7 })));
    assert!(matches!(parse_shortcode("{{ f() }} tail"), Err(Error::ShortCodeSyntaxError { offset: 10 })));
}

#[test]
fn shortcode_error_offset_counts_bytes() {
    // `ü` takes two bytes, so the `!` after it stands at byte 5
    assert!(matches!(parse_shortcode("{{ ü!() }}"), Err(Error::ShortCodeSyntaxError { offset: 5 })));
}
