use minilate::{
    tokenize, AstNode, Context, MinilateEngine, MinilateError, ParseErrorKind, Template, VariableTy,
};

fn constants(node: &AstNode, out: &mut Vec<String>) {
    match node {
        AstNode::Root(children) => children.iter().for_each(|c| constants(c, out)),
        AstNode::Constant { data } => out.push(data.clone()),
        AstNode::For { body, .. } => body.iter().for_each(|c| constants(c, out)),
        AstNode::If { body, else_branch, .. } => {
            body.iter().for_each(|c| constants(c, out));
            if let Some(e) = else_branch {
                constants(e, out);
            }
        }
        _ => {}
    }
}

#[test]
fn constants_are_slices_of_the_source_without_escapes() {
    let source = "Hi {{ a }}, {{% if b %}}yes{{% else %}}no {{% for x in xs %}}[{{x}}]{{% endfor %}}{{% endif %}} end";
    let ast = tokenize(source).unwrap();
    let mut found = Vec::new();
    constants(&ast, &mut found);
    assert_eq!(found, vec!["Hi ", ", ", "yes", "no ", "[", "]", " end"]);
    for text in &found {
        assert!(source.contains(text.as_str()));
    }
}

#[test]
fn rendering_twice_gives_the_same_output() {
    let mut engine = MinilateEngine::new();
    engine
        .add_template("t", "{{% for x in xs %}}<{{x}}>{{% endfor %}}{{% if f %}}!{{% endif %}}")
        .unwrap();
    let mut ctx = Context::new();
    ctx.insert("xs", VariableTy::Iterable.with_data("a, b"));
    ctx.insert("f", VariableTy::Boolean.with_data("yes"));
    let first = engine.render("t", Some(&ctx)).unwrap();
    let second = engine.render("t", Some(&ctx)).unwrap();
    assert_eq!(first, "<a><b>!");
    assert_eq!(first, second);
}

#[test]
fn escaped_delimiters_render_literally() {
    let mut engine = MinilateEngine::new();
    engine.add_template("esc", "\\{{ not a var }}").unwrap();
    assert_eq!(engine.render("esc", None).unwrap(), "{{ not a var }}");
    assert_eq!(
        tokenize("a \\{{% b").unwrap(),
        AstNode::Root(vec![AstNode::Constant { data: "a {{% b".to_string() }])
    );
}

#[test]
fn missing_key_and_missing_data_differ() {
    let mut engine = MinilateEngine::new();
    engine.add_template("t", "{{ name }}").unwrap();
    let mut empty_data = Context::new();
    empty_data.insert("name", VariableTy::String.with_data(""));
    assert_eq!(
        engine.render("t", Some(&empty_data)),
        Err(MinilateError::MissingVariableData { variable_name: "name".to_string() })
    );
    let mut no_data = Context::new();
    no_data.insert("name", VariableTy::String.without_data());
    assert_eq!(
        engine.render("t", Some(&no_data)),
        Err(MinilateError::MissingVariableData { variable_name: "name".to_string() })
    );
    assert_eq!(
        engine.render("t", Some(&Context::new())),
        Err(MinilateError::MissingVariable { variable_name: "name".to_string() })
    );
}

#[test]
fn loop_items_are_trimmed_and_scoped() {
    let mut engine = MinilateEngine::new();
    engine.add_template("t", "{{% for x in xs %}}({{x}}){{% endfor %}}").unwrap();
    let mut ctx = Context::new();
    ctx.insert("xs", VariableTy::Iterable.with_data("  one ,two,\tthree  "));
    assert_eq!(engine.render("t", Some(&ctx)).unwrap(), "(one)(two)(three)");
    assert!(!ctx.contains("x"));
}

#[test]
fn empty_iterable_renders_nothing_and_absent_data_fails() {
    let mut engine = MinilateEngine::new();
    engine.add_template("t", "a{{% for x in xs %}}{{x}}{{% endfor %}}b").unwrap();
    let mut ctx = Context::new();
    ctx.insert("xs", VariableTy::Iterable.with_data(""));
    assert_eq!(engine.render("t", Some(&ctx)).unwrap(), "ab");
    let mut ctx = Context::new();
    ctx.insert("xs", VariableTy::Iterable.without_data());
    assert_eq!(
        engine.render("t", Some(&ctx)),
        Err(MinilateError::MissingVariableData { variable_name: "xs".to_string() })
    );
}

#[test]
fn boolean_truthiness() {
    let mut engine = MinilateEngine::new();
    engine.add_template("t", "{{% if f %}}T{{% else %}}F{{% endif %}}").unwrap();
    for (data, out) in [("true", "T"), ("1", "T"), ("yes", "T"), ("false", "F"), ("TRUE", "F"), ("", "F")] {
        let mut ctx = Context::new();
        ctx.insert("f", VariableTy::Boolean.with_data(data));
        assert_eq!(engine.render("t", Some(&ctx)).unwrap(), out);
    }
    assert_eq!(engine.render("t", None).unwrap(), "F");
    let mut ctx = Context::new();
    ctx.insert("f", VariableTy::String.with_data("x"));
    assert_eq!(engine.render("t", Some(&ctx)).unwrap(), "T");
}

#[test]
fn short_circuit_conditions() {
    let mut engine = MinilateEngine::new();
    engine
        .add_template("t", "{{% if a && b || !c %}}Y{{% else %}}N{{% endif %}}")
        .unwrap();
    let mut ctx = Context::new();
    ctx.insert("a", VariableTy::Boolean.with_data("true"));
    ctx.insert("b", VariableTy::Boolean.with_data("false"));
    ctx.insert("c", VariableTy::Boolean.with_data("true"));
    assert_eq!(engine.render("t", Some(&ctx)).unwrap(), "N");
    ctx.insert("c", VariableTy::Boolean.with_data("no"));
    assert_eq!(engine.render("t", Some(&ctx)).unwrap(), "Y");
}

#[test]
fn else_if_chains() {
    let mut engine = MinilateEngine::new();
    engine
        .add_template("t", "{{% if a %}}A{{% else if b %}}B{{% else %}}C{{% endif %}}")
        .unwrap();
    let mut ctx = Context::new();
    ctx.insert("b", VariableTy::Boolean.with_data("1"));
    assert_eq!(engine.render("t", Some(&ctx)).unwrap(), "B");
    assert_eq!(engine.render("t", None).unwrap(), "C");
}

#[test]
fn self_inclusion_is_reported_not_looped() {
    let mut engine = MinilateEngine::new();
    engine.add_template("a", "x{{<< b }}").unwrap();
    engine.add_template("b", "y{{ v }}{{<< a }}").unwrap();
    let needed = engine.context("a", &Context::new());
    assert_eq!(needed, vec![("v".to_string(), VariableTy::String)]);
    let mut ctx = Context::new();
    ctx.insert("v", VariableTy::String.with_data("1"));
    assert_eq!(
        engine.render("a", Some(&ctx)),
        Err(MinilateError::RenderError { message: "Template inclusion cycle at: a".to_string() })
    );
}

#[test]
fn inclusion_of_unknown_template_and_without_engine() {
    let mut engine = MinilateEngine::new();
    engine.add_template("t", "{{<< nowhere.tmpl }}").unwrap();
    assert_eq!(
        engine.render("t", None),
        Err(MinilateError::MissingTemplate { template_name: "nowhere".to_string() })
    );
    let template = Template::new("{{<< other }}").unwrap();
    assert_eq!(
        template.render(&Context::new(), None),
        Err(MinilateError::RenderError {
            message: "Cannot include template: no engine provided".to_string()
        })
    );
}

#[test]
fn tmpl_suffix_is_ignored() {
    let mut engine = MinilateEngine::new();
    engine.add_template("part", "P").unwrap();
    engine.add_template("whole", "[{{<< part.tmpl }}][{{<<part}}]").unwrap();
    assert_eq!(engine.render("whole", None).unwrap(), "[P][P]");
}

#[test]
fn parse_errors_have_lines_and_byte_columns() {
    let err = tokenize("line one\nä {{% bogus %}}").unwrap_err();
    assert_eq!(err.line, 2);
    assert_eq!(err.column, 13);
    assert_eq!(err.kind, ParseErrorKind::UnknownKeyword { keyword: "bogus".to_string() });
    let err = tokenize("{{% for x in y %}}\n\n{{ a ").unwrap_err();
    assert_eq!(err.line, 3);
    assert_eq!(err.column, 6);
    assert!(matches!(err.kind, ParseErrorKind::Expected { .. }));
}

#[test]
fn unexpected_eof_text() {
    assert_eq!(
        ParseErrorKind::unexpected_eof(Some("X".to_string())),
        ParseErrorKind::UnexpectedEOF { expected_what: " (expected 'X')".to_string() }
    );
    assert_eq!(
        ParseErrorKind::unexpected_eof(None),
        ParseErrorKind::UnexpectedEOF { expected_what: String::new() }
    );
}

#[test]
fn duplicate_name_keeps_first_template() {
    let mut engine = MinilateEngine::new();
    engine.add_template("t", "one").unwrap();
    assert!(matches!(engine.add_template("t", "two"), Err(MinilateError::TemplateExists { .. })));
    assert!(matches!(engine.add_template("u", "{{ x"), Err(MinilateError::Parse(_))));
    assert_eq!(engine.render("t", None).unwrap(), "one");
    assert!(matches!(engine.render("u", None), Err(MinilateError::MissingTemplate { .. })));
}

#[test]
fn required_variables_sorted_deduplicated_first_type_wins() {
    let mut engine = MinilateEngine::new();
    engine
        .add_template("t", "{{% if zeta %}}{{ alpha }}{{% endif %}}{{ zeta }}{{% for i in beta %}}{{% endfor %}}")
        .unwrap();
    let needed = engine.context("t", &Context::new());
    assert_eq!(
        needed,
        vec![
            ("alpha".to_string(), VariableTy::String),
            ("beta".to_string(), VariableTy::Iterable),
            ("zeta".to_string(), VariableTy::Boolean),
        ]
    );
    assert!(engine.context("unknown", &Context::new()).is_empty());
}

#[test]
fn empty_requirements_mean_render_succeeds() {
    let mut engine = MinilateEngine::new();
    engine.add_template("g", "Hi {{ who }}").unwrap();
    engine.add_template("t", "{{% if on %}}{{<< g }}{{% endif %}}").unwrap();
    let mut ctx = Context::new();
    ctx.insert("on", VariableTy::Boolean.with_data("true"));
    ctx.insert("who", VariableTy::String.with_data("Bo"));
    assert!(engine.context("t", &ctx).is_empty());
    assert_eq!(engine.render("t", Some(&ctx)).unwrap(), "Hi Bo");
}

#[test]
fn direct_inclusions_only() {
    let template =
        Template::new("{{<< a }}{{% if c %}}{{<< b }}{{% endif %}}{{% for x in xs %}}{{<< c }}{{% endfor %}}{{<< a }}{{<< b }}{{<< d }}")
            .unwrap();
    assert_eq!(
        template.find_template_inclusions(&Context::new()),
        vec!["a".to_string(), "d".to_string()]
    );
}

#[test]
fn context_insert_replaces() {
    let mut ctx = Context::new();
    ctx.insert("k", VariableTy::String.with_data("1"));
    ctx.insert("k", VariableTy::Boolean.with_data("true"));
    let v = ctx.get("k").unwrap();
    assert_eq!(v.ty(), VariableTy::Boolean);
    assert_eq!(v.data(), Some("true"));
    assert!(ctx.get("j").is_none());
    assert!(!ctx.contains("j"));
}

#[test]
fn collected_variables_of_a_template() {
    let template = Template::new("{{ a }}{{% if b %}}{{ c }}{{% endif %}}").unwrap();
    let mut ctx = Context::new();
    ctx.insert("c", VariableTy::String.with_data("x"));
    let mut vars = Vec::new();
    template.collect_variables(&mut vars, &ctx);
    assert_eq!(
        vars,
        vec![("a".to_string(), VariableTy::String), ("b".to_string(), VariableTy::Boolean)]
    );
}

#[test]
fn context_entries_are_sorted_and_unique() {
    let mut ctx = Context::new();
    ctx.insert("m", VariableTy::String.with_data("1"))
        .insert("b", VariableTy::String.with_data("2"))
        .insert("z", VariableTy::Iterable.with_data("3"))
        .insert("b", VariableTy::Boolean.with_data("4"));
    let names: Vec<String> = ctx.entries().into_iter().map(|(k, _)| k).collect();
    assert_eq!(names, vec!["b".to_string(), "m".to_string(), "z".to_string()]);
    assert_eq!(ctx.get("b").unwrap().ty(), VariableTy::Boolean);
    let mut other = Context::new();
    other.insert("z", VariableTy::Iterable.with_data("3"));
    other.insert("b", VariableTy::Boolean.with_data("4"));
    other.insert("m", VariableTy::String.with_data("1"));
    assert_eq!(ctx, other);
}

#[test]
fn condition_must_span_the_input() {
    let err = minilate::parse_condition("a b").unwrap_err();
    assert_eq!(err.column, 3);
    assert!(matches!(err.kind, ParseErrorKind::Message(_)));
}

#[test]
fn sources_and_content_round_trip() {
    let mut engine = MinilateEngine::new();
    engine.add_template("a", "A {{ x }}").unwrap();
    engine.add_template("b", "B").unwrap();
    assert_eq!(
        engine.sources(),
        vec![("a".to_string(), "A {{ x }}".to_string()), ("b".to_string(), "B".to_string())]
    );
    let t = Template::new("T {{ y }}").unwrap();
    assert_eq!(t.content(), "T {{ y }}");
}

#[test]
fn empty_data_is_reported_as_a_requirement() {
    let mut engine = MinilateEngine::new();
    engine.add_template("t", "{{ x }}").unwrap();
    let mut ctx = Context::new();
    ctx.insert("x", VariableTy::String.with_data(""));
    assert_eq!(engine.context("t", &ctx), vec![("x".to_string(), VariableTy::String)]);
    assert_eq!(
        engine.render("t", Some(&ctx)),
        Err(MinilateError::MissingVariableData { variable_name: "x".to_string() })
    );
    ctx.insert("x", VariableTy::String.with_data("ok"));
    assert!(engine.context("t", &ctx).is_empty());
}

#[test]
fn comment_marker_inside_a_tag_is_an_error() {
    assert!(tokenize("{{ name // c\n}}").is_err());
    assert!(tokenize("{{% if a // c\n %}}x{{% endif %}}").is_err());
    assert_eq!(
        tokenize("a // b").unwrap(),
        AstNode::Root(vec![AstNode::Constant { data: "a // b".to_string() }])
    );
}

#[test]
fn collected_names_are_not_repeated() {
    let template = Template::new("{{ x }}{{ y }}{{ x }}{{% if x %}}{{% endif %}}").unwrap();
    let mut vars = vec![("y".to_string(), VariableTy::Boolean)];
    template.collect_variables(&mut vars, &Context::new());
    assert_eq!(
        vars,
        vec![("y".to_string(), VariableTy::Boolean), ("x".to_string(), VariableTy::String)]
    );
}

#[test]
fn unreachable_branches_report_nothing() {
    let mut engine = MinilateEngine::new();
    engine
        .add_template("t", "{{% if c %}}{{ x }}{{% else %}}{{ y }}{{% endif %}}")
        .unwrap();
    let mut ctx = Context::new();
    ctx.insert("c", VariableTy::Boolean.with_data("false"));
    assert_eq!(engine.context("t", &ctx), vec![("y".to_string(), VariableTy::String)]);
    ctx.insert("c", VariableTy::Boolean.with_data("true"));
    assert_eq!(engine.context("t", &ctx), vec![("x".to_string(), VariableTy::String)]);
    let all = engine.context("t", &Context::new());
    assert_eq!(
        all,
        vec![
            ("c".to_string(), VariableTy::Boolean),
            ("x".to_string(), VariableTy::String),
            ("y".to_string(), VariableTy::String),
        ]
    );
}

#[test]
fn loops_without_items_report_their_body_only_when_unsupplied() {
    let mut engine = MinilateEngine::new();
    engine.add_template("t", "{{% for i in xs %}}{{ y }}{{ i }}{{% endfor %}}").unwrap();
    let mut ctx = Context::new();
    ctx.insert("xs", VariableTy::Iterable.with_data(""));
    assert!(engine.context("t", &ctx).is_empty());
    ctx.insert("xs", VariableTy::Iterable.without_data());
    assert_eq!(
        engine.context("t", &ctx),
        vec![("xs".to_string(), VariableTy::Iterable), ("y".to_string(), VariableTy::String)]
    );
    ctx.insert("xs", VariableTy::Iterable.with_data("a"));
    assert_eq!(engine.context("t", &ctx), vec![("y".to_string(), VariableTy::String)]);
}

#[test]
fn an_inclusion_is_analysed_once_per_call() {
    let mut engine = MinilateEngine::new();
    engine.add_template("g", "{{ x }}").unwrap();
    engine
        .add_template("t", "{{% for x in xs %}}{{<< g }}{{% endfor %}}{{<< g }}")
        .unwrap();
    let mut ctx = Context::new();
    ctx.insert("xs", VariableTy::Iterable.with_data("a"));
    // `g` is analysed inside the loop, where `x` is bound, and then skipped.
    assert!(engine.context("t", &ctx).is_empty());
    assert_eq!(
        engine.render("t", Some(&ctx)),
        Err(MinilateError::MissingVariable { variable_name: "x".to_string() })
    );
}

#[test]
fn reentry_under_another_context_is_rendered() {
    let mut engine = MinilateEngine::new();
    engine
        .add_template("A", "{{% if x %}}ok{{% else %}}{{% for x in items %}}{{<< A }}{{% endfor %}}{{% endif %}}")
        .unwrap();
    let mut ctx = Context::new();
    ctx.insert("items", VariableTy::Iterable.with_data("v"));
    assert_eq!(engine.render("A", Some(&ctx)).unwrap(), "ok");
    ctx.insert("items", VariableTy::Iterable.with_data(""));
    assert_eq!(engine.render("A", Some(&ctx)).unwrap(), "");
}

#[test]
fn reentry_under_the_same_context_is_a_cycle() {
    let mut engine = MinilateEngine::new();
    engine
        .add_template("B", "{{% for x in items %}}[{{<< B }}]{{% endfor %}}")
        .unwrap();
    let mut ctx = Context::new();
    ctx.insert("items", VariableTy::Iterable.with_data("v"));
    assert_eq!(
        engine.render("B", Some(&ctx)),
        Err(MinilateError::RenderError { message: "Template inclusion cycle at: B".to_string() })
    );
}

#[test]
fn user_data_decides_branches_whatever_its_value() {
    let mut engine = MinilateEngine::new();
    engine
        .add_template("t", "{{% if c %}}{{ x }}{{% else %}}{{ y }}{{% endif %}}")
        .unwrap();
    let mut ctx = Context::new();
    ctx.insert("c", VariableTy::String.with_data("dummy"));
    assert_eq!(engine.context("t", &ctx), vec![("x".to_string(), VariableTy::String)]);
    engine
        .add_template("u", "{{% for c in cs %}}{{% if c %}}{{ x }}{{% else %}}{{ y }}{{% endif %}}{{% endfor %}}")
        .unwrap();
    let mut ctx = Context::new();
    ctx.insert("cs", VariableTy::Iterable.with_data("a"));
    assert_eq!(
        engine.context("u", &ctx),
        vec![("x".to_string(), VariableTy::String), ("y".to_string(), VariableTy::String)]
    );
}
