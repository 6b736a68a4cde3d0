use unified_knowledge::sexpr::SExprTracer;

#[test]
fn test_sexpr_validation() {
    let tracer = SExprTracer::new();

    assert!(tracer.validate_sexpr("(hello world)"));
    assert!(tracer.validate_sexpr("(S (K f) I)"));
    assert!(tracer.validate_sexpr("(nested (expression (here)))"));
    assert!(!tracer.validate_sexpr("(unmatched"));
    assert!(!tracer.validate_sexpr("unmatched)"));
    assert!(tracer.validate_sexpr("(string \"with (parens)\")"));
}

#[test]
fn test_complex_combinator_generation() {
    let tracer = SExprTracer::new();

    let combinator = tracer.generate_complex_combinator("compose", 2);
    assert!(combinator.contains("S"));
    assert!(combinator.contains("compose"));

    let simple = tracer.generate_complex_combinator("test", 0);
    assert_eq!(simple, "I");
}

#[test]
fn combinator_exact_forms() {
    let tracer = SExprTracer::new();
    assert_eq!(
        tracer.generate_complex_combinator("compose", 2),
        "S (S (K compose) (S (K map) (I))) (S (S (K fold) acc) (I))"
    );
    assert_eq!(tracer.generate_complex_combinator("other", 3), "S (K other) I");
    assert_eq!(tracer.generate_complex_combinator("map", 2), "S (K map) (S (K transform) I)");
}

#[test]
fn validation_edge_cases() {
    let tracer = SExprTracer::new();
    assert!(tracer.validate_sexpr(""));
    assert!(!tracer.validate_sexpr(")("));
    assert!(!tracer.validate_sexpr("(\"open string)"));
    assert!(tracer.validate_sexpr("(\"escaped \\\" quote (\")"));
    assert!(tracer.validate_sexpr("a \\ b"));
}

#[test]
fn pretty_printing_indents() {
    let tracer = SExprTracer::new();
    assert_eq!(tracer.pretty_print_sexpr("(a b)"), "(\n  a\n  b\n)");
    assert_eq!(tracer.pretty_print_sexpr("(s \"x y\")"), "(\n  s\n  \"x y\"\n)");
    assert_eq!(tracer.pretty_print_sexpr(")"), "\n)");
}

#[test]
fn traces_cut_content() {
    let tracer = SExprTracer::new();
    let trace = tracer.trace_parsing("fn hello() {}");
    assert!(trace.starts_with("(parse\n  (input \"fn hello() {}\")"));
    assert!(trace.contains("S (K parse) I"));
    let long = "x".repeat(60);
    let trace = tracer.trace_generic(&long);
    assert!(trace.contains(&format!("(content \"{}\")", "x".repeat(30))));
    assert!(!trace.contains(&"x".repeat(31)));
    let trace = tracer.trace_semantic_analysis("abc");
    assert!(trace.contains("(mathematical-rigor 0.85)"));
}
