use codex_fast::js_tokens::{Kind, Tokens};

fn texts<'a>(tokens: &'a Tokens<'a>) -> Vec<&'a str> {
    (0..tokens.len()).map(|index| tokens.text(index)).collect()
}

#[test]
fn skips_comments_without_mistaking_strings_for_comments() {
    let tokens = Tokens::new(
        r#"const text="// if(fake)return false"; /* fake() */ real=!1;// fake2()
next()"#,
    );
    assert_eq!(
        texts(&tokens),
        [
            "const",
            "text",
            "=",
            r#""// if(fake)return false""#,
            ";",
            "real",
            "=",
            "!",
            "1",
            ";",
            "next",
            "(",
            ")",
        ]
    );
}

#[test]
fn keeps_nested_interpolated_template_opaque() {
    let source = r#"before;`outer ${fn({value:`inner ${/}/.test("}")}`})} tail`;after()"#;
    let tokens = Tokens::new(source);
    let templates = (0..tokens.len())
        .filter(|&index| tokens.kind(index) == Kind::Template)
        .collect::<Vec<_>>();
    assert_eq!(templates.len(), 1);
    assert!(tokens.text(templates[0]).contains("inner"));
    assert_eq!(&texts(&tokens)[tokens.len() - 3..], ["after", "(", ")"]);
}

#[test]
fn regex_body_does_not_emit_fake_code() {
    let tokens = Tokens::new(r#"const r=/if\(x\)return false;[{}\/]/gi;real=false"#);
    let regex = (0..tokens.len())
        .find(|&index| tokens.kind(index) == Kind::Regex)
        .unwrap();
    assert_eq!(tokens.text(regex), r#"/if\(x\)return false;[{}\/]/gi"#);
    assert_eq!(
        texts(&tokens)
            .iter()
            .filter(|&&text| text == "return")
            .count(),
        0
    );
}

#[test]
fn distinguishes_division_from_regex_literals() {
    let tokens = Tokens::new("let ratio=a/b/c; return /a\\/b/g.test(value)");
    assert_eq!(
        (0..tokens.len())
            .filter(|&index| tokens.kind(index) == Kind::Punct && tokens.text(index) == "/")
            .count(),
        2
    );
    assert_eq!(
        (0..tokens.len())
            .filter(|&index| tokens.kind(index) == Kind::Regex)
            .count(),
        1
    );
}

#[test]
fn unicode_input_is_safe() {
    let source = "const π='你好';let 😀=`值 ${π/2}`;结束?.调用()";
    let tokens = Tokens::new(source);
    assert!(texts(&tokens).contains(&"π"));
    let pi = (0..tokens.len())
        .find(|&index| tokens.text(index) == "π")
        .unwrap();
    assert_eq!(&source[tokens.span(pi)], "π");
}

#[test]
fn compares_literal_values() {
    let tokens = Tokens::new(
        r#"name "fast mode" name `fast` `fast ${mode}` "chat\u0067pt" '\x66ast' `literal \${value}` "\u{1f600}""#,
    );
    assert!(tokens.string_eq(1, "fast mode"));
    assert!(tokens.string_eq(3, "fast"));
    assert!(!tokens.string_eq(4, "fast"));
    assert!(tokens.string_eq(5, "chatgpt"));
    assert!(tokens.string_eq(6, "fast"));
    assert!(tokens.string_eq(7, "literal ${value}"));
    assert!(tokens.string_eq(8, "😀"));
}

#[test]
fn recognizes_all_javascript_line_terminators() {
    let tokens = Tokens::new("// hidden\u{2028}visible;// hidden\u{2029}again");
    assert_eq!(texts(&tokens), ["visible", ";", "again"]);
}

#[test]
fn recognizes_regex_after_control_header() {
    let tokens = Tokens::new("if(ok)/return false;}/.test(value);real=!1");
    assert_eq!(
        (0..tokens.len())
            .filter(|&index| tokens.kind(index) == Kind::Regex)
            .map(|index| tokens.text(index))
            .collect::<Vec<_>>(),
        ["/return false;}/"]
    );
    assert!(!texts(&tokens).contains(&"return"));
}

#[test]
fn recognizes_regex_after_a_statement_block() {
    let tokens = Tokens::new("if(ok){} /,x=y&&z.availableOptions.length>1,/.test(value)");

    assert!((0..tokens.len()).all(|index| tokens.text(index) != "availableOptions"));
    assert!((0..tokens.len()).any(|index| tokens.kind(index) == Kind::Regex));
}

#[test]
fn recognizes_regex_after_export_default() {
    let tokens = Tokens::new("export default /,x=y&&z.availableOptions.length>1,/;visible=!1");

    assert!((0..tokens.len()).any(|index| tokens.kind(index) == Kind::Regex));
    assert!((0..tokens.len()).all(|index| tokens.text(index) != "availableOptions"));
}

#[test]
fn keeps_division_after_an_object_literal_visible() {
    let tokens = Tokens::new("const x={}/(q,target=gate&&settings.availableOptions.length>1,r)/z");

    assert_eq!(
        (0..tokens.len())
            .filter(|&index| tokens.kind(index) == Kind::Regex)
            .count(),
        0
    );
    assert!(texts(&tokens).contains(&"availableOptions"));
}

#[test]
fn keeps_unicode_separators_inside_strings() {
    let tokens = Tokens::new("\"prefix\u{2028},x=y&&z.availableOptions.length>1,suffix\";visible");

    assert_eq!(tokens.kind(0), Kind::String);
    assert_eq!(
        texts(&tokens),
        [
            "\"prefix\u{2028},x=y&&z.availableOptions.length>1,suffix\"",
            ";",
            "visible"
        ]
    );
}

#[test]
fn tokens_follow_one_another_inside_the_source() {
    let source = "/* a */ let x = 'y' // z\n ;x /= 2 /* end";
    let tokens = Tokens::new(source);
    let mut end = 0;
    for index in 0..tokens.len() {
        let span = tokens.span(index);
        assert!(end <= span.start && span.start < span.end && span.end <= source.len());
        assert_eq!(&source[span.clone()], tokens.text(index));
        end = span.end;
    }
    assert_eq!(texts(&tokens), ["let", "x", "=", "'y'", ";", "x", "/=", "2"]);
}

#[test]
fn only_white_space_and_comments_stand_between_tokens() {
    let source = "a /* one\ntwo */ b\t/* three */ c // four\r\nd";
    let tokens = Tokens::new(source);
    assert_eq!(texts(&tokens), ["a", "b", "c", "d"]);
    assert_eq!(&source[tokens.span(0).end..tokens.span(1).start], " /* one\ntwo */ ");
    assert!(!tokens.has_line_break_before(0));
    assert!(tokens.has_line_break_before(1));
    assert!(!tokens.has_line_break_before(2));
    assert!(tokens.has_line_break_before(3));
}

#[test]
fn classifies_every_kind_of_token() {
    let tokens = Tokens::new("name 0x1f 'text' `tick` =>");
    let kinds = (0..tokens.len())
        .map(|index| tokens.kind(index))
        .collect::<Vec<_>>();
    assert_eq!(
        kinds,
        vec![
            Kind::Ident,
            Kind::Number,
            Kind::String,
            Kind::Template,
            Kind::Punct
        ]
    );
}

#[test]
fn scans_empty_and_unfinished_sources() {
    assert_eq!(Tokens::new("").len(), 0);
    assert_eq!(Tokens::new("  // nothing").len(), 0);
    assert_eq!(texts(&Tokens::new("'open")), ["'open"]);
    assert_eq!(texts(&Tokens::new("`open ${a")), ["`open ${a"]);
}
