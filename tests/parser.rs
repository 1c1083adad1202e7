use minilate::{parse_condition, peek_tokens, tokenize, AstNode, ParseError, ParseErrorKind};

fn var(name: &str) -> AstNode {
    AstNode::Variable { name: name.to_string() }
}

fn const_str(data: &str) -> AstNode {
    AstNode::Constant { data: data.to_string() }
}

fn not(c: AstNode) -> AstNode {
    AstNode::Not { condition: Box::new(c) }
}

fn and(l: AstNode, r: AstNode) -> AstNode {
    AstNode::And { left: Box::new(l), right: Box::new(r) }
}

fn or(l: AstNode, r: AstNode) -> AstNode {
    AstNode::Or { left: Box::new(l), right: Box::new(r) }
}

fn parse_test_condition(condition_str: &str) -> Result<Box<AstNode>, ParseError> {
    parse_condition(condition_str).map(Box::new)
}

#[test]
fn test_peek_any() {
    let input = "  {{%     if condition %}}";
    assert!(!peek_tokens(input, &["{{%", "if"]));
    assert!(!peek_tokens(input, &["{{%", "else"]));
    assert!(!peek_tokens(input, &["{{%", "if", "else"]));
    assert!(!peek_tokens(input, &["{{%", "endif"]));

    let input = "{{%     if condition %}}";
    assert!(peek_tokens(input, &["{{%", "if"]));
    assert!(!peek_tokens(input, &["{{%", "else"]));
    assert!(!peek_tokens(input, &["{{%", "if", "else"]));
    assert!(!peek_tokens(input, &["{{%", "endif"]));

    let input = "{{%if condition %}}";
    assert!(peek_tokens(input, &["{{%", "if"]));
    assert!(!peek_tokens(input, &["{{%", "else"]));
    assert!(!peek_tokens(input, &["{{%", "if", "else"]));
    assert!(!peek_tokens(input, &["{{%", "endif"]));
}

#[test]
fn test_empty_input() {
    assert_eq!(tokenize("").unwrap(), AstNode::Root(vec![]));
}

#[test]
fn test_simple_constant() {
    assert_eq!(tokenize("hello world").unwrap(), AstNode::Root(vec![const_str("hello world")]));
}

#[test]
fn test_constant_ending_at_eof() {
    assert_eq!(tokenize("text").unwrap(), AstNode::Root(vec![const_str("text")]));
}

#[test]
fn test_simple_variable() {
    assert_eq!(tokenize("{{name}}").unwrap(), AstNode::Root(vec![var("name")]));
}

#[test]
fn test_variable_with_whitespace() {
    assert_eq!(tokenize("{{ name }}").unwrap(), AstNode::Root(vec![var("name")]));
}

#[test]
fn test_variable_with_dot() {
    assert_eq!(tokenize("{{ user.name }}").unwrap(), AstNode::Root(vec![var("user.name")]));
}

#[test]
fn test_constant_and_variable() {
    assert_eq!(
        tokenize("Hello {{name}}!").unwrap(),
        AstNode::Root(vec![const_str("Hello "), var("name"), const_str("!")])
    );
}

#[test]
fn test_multiple_variables() {
    assert_eq!(
        tokenize("{{first}} {{second}}").unwrap(),
        AstNode::Root(vec![var("first"), const_str(" "), var("second")])
    );
}

#[test]
fn test_leading_constant() {
    assert_eq!(
        tokenize("Prefix {{var}}").unwrap(),
        AstNode::Root(vec![const_str("Prefix "), var("var")])
    );
}

#[test]
fn test_trailing_constant() {
    assert_eq!(
        tokenize("{{var}} Suffix").unwrap(),
        AstNode::Root(vec![var("var"), const_str(" Suffix")])
    );
}

#[test]
fn test_panic_unclosed_variable() {
    let err = tokenize("{{var").unwrap_err();
    assert!(
        matches!(err.kind, ParseErrorKind::Expected { ref description } if description.contains("'}}'"))
    );
}

#[test]
fn test_panic_empty_variable() {
    let err = tokenize("{{}}").unwrap_err();
    assert!(
        matches!(err.kind, ParseErrorKind::Expected { ref description } if description.contains("identifier"))
    );
}

#[test]
fn test_panic_empty_variable_with_space() {
    let err = tokenize("{{ }}").unwrap_err();
    assert!(
        matches!(err.kind, ParseErrorKind::Expected { ref description } if description.contains("identifier"))
    );
}

#[test]
fn test_no_spurious_empty_constants_at_start_of_tag() {
    let ast = tokenize("{{var}}").unwrap();
    if let AstNode::Root(nodes) = ast {
        assert_eq!(nodes.len(), 1);
        assert_eq!(nodes[0], var("var"));
    } else {
        panic!("Expected Root node");
    }
}

#[test]
fn test_no_spurious_empty_constants_between_tags() {
    let ast = tokenize("{{var1}}{{var2}}").unwrap();
    if let AstNode::Root(nodes) = ast {
        assert_eq!(nodes.len(), 2);
        assert_eq!(nodes[0], var("var1"));
        assert_eq!(nodes[1], var("var2"));
    } else {
        panic!("Expected Root node");
    }
}

#[test]
fn test_condition_single_variable() {
    assert_eq!(parse_test_condition("isActive").unwrap(), Box::new(var("isActive")));
}

#[test]
fn test_condition_not() {
    assert_eq!(parse_test_condition("!isActive").unwrap(), Box::new(not(var("isActive"))));
}

#[test]
fn test_condition_double_not() {
    assert_eq!(parse_test_condition("!!user").unwrap(), Box::new(not(not(var("user")))));
}

#[test]
fn test_condition_and() {
    assert_eq!(
        parse_test_condition("user && isActive").unwrap(),
        Box::new(and(var("user"), var("isActive")))
    );
}

#[test]
fn test_condition_or() {
    assert_eq!(
        parse_test_condition("isAdmin || isSuperuser").unwrap(),
        Box::new(or(var("isAdmin"), var("isSuperuser")))
    );
}

#[test]
fn test_condition_precedence_and_then_or() {
    assert_eq!(
        parse_test_condition("a && b || c").unwrap(),
        Box::new(or(and(var("a"), var("b")), var("c")))
    );
}

#[test]
fn test_condition_precedence_or_and_and() {
    assert_eq!(
        parse_test_condition("a || b && c").unwrap(),
        Box::new(or(var("a"), and(var("b"), var("c"))))
    );
}

#[test]
fn test_condition_precedence_not_and() {
    assert_eq!(
        parse_test_condition("!a && b").unwrap(),
        Box::new(and(not(var("a")), var("b")))
    );
}

#[test]
fn test_condition_precedence_not_or() {
    assert_eq!(
        parse_test_condition("!a || b").unwrap(),
        Box::new(or(not(var("a")), var("b")))
    );
}

#[test]
fn test_condition_complex_precedence() {
    assert_eq!(
        parse_test_condition("!a && b || !c").unwrap(),
        Box::new(or(and(not(var("a")), var("b")), not(var("c"))))
    );
}

#[test]
fn test_condition_empty_string() {
    let err = parse_test_condition("").unwrap_err();
    assert!(matches!(err.kind, ParseErrorKind::Expected { .. }));
}

#[test]
fn test_condition_only_operator_and() {
    let err = parse_test_condition("&").unwrap_err();
    assert!(matches!(err.kind, ParseErrorKind::Expected { .. }));
}

#[test]
fn test_condition_incomplete_and() {
    let err = parse_test_condition("a &&").unwrap_err();
    assert!(matches!(err.kind, ParseErrorKind::Expected { .. }));
}

#[test]
fn test_condition_incomplete_or() {
    let err = parse_test_condition("a ||").unwrap_err();
    assert!(matches!(err.kind, ParseErrorKind::Expected { .. }));
}

#[test]
fn test_condition_incomplete_not() {
    let err = parse_test_condition("!").unwrap_err();
    assert!(matches!(err.kind, ParseErrorKind::Expected { .. }));
}

#[test]
fn test_condition_trailing_operator_error() {
    let _result = parse_test_condition("a && b ||");
    let err = parse_test_condition("a && b ||").unwrap_err();
    assert_eq!(err.line, 1);
    assert_eq!(err.column, 10);
    assert!(
        matches!(err.kind, ParseErrorKind::Expected { ref description } if description == "identifier" )
    );
}

#[test]
fn test_simple_for_loop() {
    let input = "{{% for item in items %}} {{item}} {{% endfor %}}";
    let expected = AstNode::Root(vec![AstNode::For {
        variable: "item".to_string(),
        iterable: "items".to_string(),
        body: vec![const_str(" "), var("item"), const_str(" ")],
    }]);
    assert_eq!(tokenize(input).unwrap(), expected);
}

#[test]
fn test_for_loop_with_constants_and_vars() {
    let input = "{{% for x in list %}}Value: {{x}}!{{% endfor %}}";
    let expected = AstNode::Root(vec![AstNode::For {
        variable: "x".to_string(),
        iterable: "list".to_string(),
        body: vec![const_str("Value: "), var("x"), const_str("!")],
    }]);
    assert_eq!(tokenize(input).unwrap(), expected);
}

#[test]
fn test_empty_for_loop() {
    let input = "{{% for i in data %}}{{% endfor %}}";
    let expected = AstNode::Root(vec![AstNode::For {
        variable: "i".to_string(),
        iterable: "data".to_string(),
        body: vec![],
    }]);
    assert_eq!(tokenize(input).unwrap(), expected);
}

#[test]
fn test_for_loop_missing_in() {
    let input = "{{% for item items %}}loop{{% endfor %}}";
    let err = tokenize(input).unwrap_err();
    assert_eq!(err.line, 1);
    assert_eq!(err.column, 14);
    assert!(
        matches!(err.kind, ParseErrorKind::Expected { ref description } if description.contains("in") || description.contains("'in'"))
    );
}

#[test]
fn test_for_loop_missing_iterable() {
    let input = "{{% for item in %}}loop{{% endfor %}}";
    let err = tokenize(input).unwrap_err();
    assert_eq!(err.line, 1);
    assert_eq!(err.column, 17);
    assert!(
        matches!(err.kind, ParseErrorKind::Expected { ref description } if description == "identifier")
    );
}

#[test]
fn test_for_loop_missing_closing_tag_delimiter() {
    let input = "{{% for item in items loop{{% endfor %}}";
    let err = tokenize(input).unwrap_err();
    assert_eq!(err.line, 1);
    assert_eq!(err.column, 23);
    assert!(
        matches!(err.kind, ParseErrorKind::Expected { ref description } if description.contains("'%}}'"))
    );
}

#[test]
fn test_for_loop_unclosed_block() {
    let input = "{{% for item in items %}}loop";
    let err = tokenize(input).unwrap_err();
    assert_eq!(err.line, 1);
    assert_eq!(err.column, input.len() + 1);
    assert!(
        matches!(err.kind, ParseErrorKind::UnexpectedEOF { ref expected_what } if expected_what.contains("{{% endfor %}}"))
    );
}

#[test]
fn test_simple_if() {
    let input = "{{% if condition %}}Hello{{% endif %}}";
    let expected = AstNode::Root(vec![AstNode::If {
        condition: Box::new(var("condition")),
        body: vec![const_str("Hello")],
        else_branch: None,
    }]);
    assert_eq!(tokenize(input), Ok(expected));
}

#[test]
fn test_if_with_empty_body() {
    let input = "{{% if condition %}}{{% endif %}}";
    let expected = AstNode::Root(vec![AstNode::If {
        condition: Box::new(var("condition")),
        body: vec![],
        else_branch: None,
    }]);
    assert_eq!(tokenize(input), Ok(expected));
}

#[test]
fn test_if_else() {
    let input = "{{% if user.active %}}Welcome!{{% else %}}Access Denied.{{% endif %}}";
    let expected = AstNode::Root(vec![AstNode::If {
        condition: Box::new(var("user.active")),
        body: vec![const_str("Welcome!")],
        else_branch: Some(Box::new(AstNode::Root(vec![const_str("Access Denied.")]))),
    }]);
    assert_eq!(tokenize(input), Ok(expected));
}

#[test]
fn test_if_else_if() {
    let input = "{{% if a %}} A {{% else if b %}} B {{% endif %}}";
    let expected = AstNode::Root(vec![AstNode::If {
        condition: Box::new(var("a")),
        body: vec![const_str(" A ")],
        else_branch: Some(Box::new(AstNode::Root(vec![AstNode::If {
            condition: Box::new(var("b")),
            body: vec![const_str(" B ")],
            else_branch: None,
        }]))),
    }]);
    assert_eq!(tokenize(input), Ok(expected));
}

#[test]
fn test_if_else_if_else() {
    let input = "{{% if cA %}}Aye{{% else if cB %}}Bee{{% else %}}Sea{{% endif %}}";
    let expected = AstNode::Root(vec![AstNode::If {
        condition: Box::new(var("cA")),
        body: vec![const_str("Aye")],
        else_branch: Some(Box::new(AstNode::Root(vec![AstNode::If {
            condition: Box::new(var("cB")),
            body: vec![const_str("Bee")],
            else_branch: Some(Box::new(AstNode::Root(vec![const_str("Sea")]))),
        }]))),
    }]);
    assert_eq!(tokenize(input), Ok(expected));
}

#[test]
fn test_if_with_complex_condition() {
    let input_complex = "{{% if !a && b || !c %}}Content{{% endif %}}";
    let expected_complex_cond = Box::new(or(and(not(var("a")), var("b")), not(var("c"))));
    assert_eq!(
        tokenize(input_complex),
        Ok(AstNode::Root(vec![AstNode::If {
            condition: expected_complex_cond,
            body: vec![const_str("Content")],
            else_branch: None
        }]))
    );
}

#[test]
fn test_if_missing_closing_tag_delimiter() {
    let input = "{{% if condition text {{% endif %}}";
    let err = tokenize(input).unwrap_err();
    assert_eq!(err.line, 1);
    assert_eq!(err.column, 18);
    assert!(
        matches!(err.kind, ParseErrorKind::Expected { ref description } if description.contains("'%}}'"))
    );
}

#[test]
fn test_if_unclosed_simple() {
    let input = "{{% if condition %}} text";
    let err = tokenize(input).unwrap_err();
    assert_eq!(err.line, 1);
    assert_eq!(err.column, input.len() + 1);
    assert!(
        matches!(err.kind, ParseErrorKind::UnexpectedEOF { ref expected_what } if expected_what.contains("{{% endif %}}"))
    );
}

#[test]
fn test_if_unclosed_with_else() {
    let input = "{{% if condition %}} text {{% else %}} other";
    let err = tokenize(input).unwrap_err();
    assert_eq!(err.line, 1);
    assert_eq!(err.column, input.len() + 1);
    assert!(
        matches!(err.kind, ParseErrorKind::UnexpectedEOF { ref expected_what } if expected_what.contains("{{% endif %}}"))
    );
}

#[test]
fn test_if_unclosed_with_else_if() {
    let input = "{{% if c1 %}} A {{% else if c2 %}} B";
    let err = tokenize(input).unwrap_err();
    assert_eq!(err.line, 1);
    assert_eq!(err.column, input.len() + 1);
    assert!(
        matches!(err.kind, ParseErrorKind::UnexpectedEOF { ref expected_what } if expected_what.contains("{{% endif %}}"))
    );
}

#[test]
fn test_nested_if_in_for() {
    let input = "{{% for user in users %}}{{% if user.active %}}{{user.name}}{{% else %}}Inactive{{% endif %}}{{% endfor %}}";
    let expected = AstNode::Root(vec![AstNode::For {
        variable: "user".to_string(),
        iterable: "users".to_string(),
        body: vec![AstNode::If {
            condition: Box::new(var("user.active")),
            body: vec![var("user.name")],
            else_branch: Some(Box::new(AstNode::Root(vec![const_str("Inactive")]))),
        }],
    }]);
    assert_eq!(tokenize(input), Ok(expected));
}

#[test]
fn test_nested_for_in_if() {
    let input = "{{% if items_exist %}}{{% for item in items %}}{{item}}{{% endfor %}}{{% else %}}No items.{{% endif %}}";
    let expected = AstNode::Root(vec![AstNode::If {
        condition: Box::new(var("items_exist")),
        body: vec![AstNode::For {
            variable: "item".to_string(),
            iterable: "items".to_string(),
            body: vec![var("item")],
        }],
        else_branch: Some(Box::new(AstNode::Root(vec![const_str("No items.")]))),
    }]);
    assert_eq!(tokenize(input).unwrap(), expected);
}

#[test]
fn test_comment_full_line() {
    let input = "// This is a full line comment\n{{var}}";
    let expected = AstNode::Root(vec![const_str("// This is a full line comment\n"), var("var")]);
    assert_eq!(tokenize(input).unwrap(), expected);
}

#[test]
fn test_comment_after_whitespace() {
    let input = "  // This is a comment after whitespace\n{{var}}";
    let expected = AstNode::Root(vec![
        const_str("  // This is a comment after whitespace\n"),
        var("var"),
    ]);
    assert_eq!(tokenize(input).unwrap(), expected);
}

#[test]
fn test_comment_at_end_of_file() {
    let input = "{{var}}\n// This is a comment at EOF";
    let expected = AstNode::Root(vec![var("var"), const_str("\n// This is a comment at EOF")]);
    assert_eq!(tokenize(input).unwrap(), expected);
}

#[test]
fn test_comment_at_very_end_of_file_no_newline() {
    let input = "{{var}}//EOF comment";
    let expected = AstNode::Root(vec![var("var"), const_str("//EOF comment")]);
    assert_eq!(tokenize(input).unwrap(), expected);
}

#[test]
fn test_only_comment_in_file() {
    let input = "// Just a comment";
    let expected = AstNode::Root(vec![const_str("// Just a comment")]);
    assert_eq!(tokenize(input).unwrap(), expected);
}

#[test]
fn test_only_comment_with_newline_in_file() {
    let input = "// Just a comment\n";
    let expected = AstNode::Root(vec![const_str("// Just a comment\n")]);
    assert_eq!(tokenize(input).unwrap(), expected);
}

#[test]
fn test_multiple_comments() {
    let input = "// Comment 1\n{{var1}}\n// Comment 2\n  // Comment 3\n{{var2}} // Comment 4";
    let expected = AstNode::Root(vec![
        const_str("// Comment 1\n"),
        var("var1"),
        const_str("\n// Comment 2\n  // Comment 3\n"),
        var("var2"),
        const_str(" // Comment 4"),
    ]);
    assert_eq!(tokenize(input).unwrap(), expected);
}

#[test]
fn test_comment_between_tags() {
    let input = "{{var1}} // comment here\n{{var2}}";
    let expected = AstNode::Root(vec![var("var1"), const_str(" // comment here\n"), var("var2")]);
    assert_eq!(tokenize(input).unwrap(), expected);
}

#[test]
fn test_comment_inside_tag_is_not_a_comment() {
    let input = "{{a_b}}";
    let expected = AstNode::Root(vec![var("a_b")]);
    match tokenize(input) {
        Ok(result) => assert_eq!(result, expected),
        Err(e) => panic!("Expected success, got error: {:?}", e),
    }
}

#[test]
fn test_comment_inside_directive_tag() {
    let input_if = "{{% if a//b %}}text{{% endif %}}";
    let err = tokenize(input_if).unwrap_err();
    assert_eq!(err.line, 1);
    assert!(matches!(err.kind, ParseErrorKind::Expected { .. }));
}

#[test]
fn test_comment_in_constant_text_is_not_a_comment() {
    let input = "This is text with // inside it.";
    let expected = AstNode::Root(vec![const_str("This is text with // inside it.")]);
    assert_eq!(tokenize(input).unwrap(), expected);
}

#[test]
fn test_empty_lines_and_comments() {
    let input = "\n  // comment\n\n{{var}}\n  \n// another";
    let expected = AstNode::Root(vec![
        const_str("\n  // comment\n\n"),
        var("var"),
        const_str("\n  \n// another"),
    ]);
    assert_eq!(tokenize(input).unwrap(), expected);
}
