use unified_knowledge::codegen::{
    generate_code_from_architecture, generate_forward_pass_code, generate_lambda_from_emojis,
    generate_python_code, generate_python_forward_pass, generate_rust_code, generate_sexpr_trace,
    pretty_print_trace,
};
use unified_knowledge::neural::{CompositionType, NeuralComposer};
use unified_knowledge::sexpr::SExprTracer;
use unified_knowledge::synth::NeuralSynthesizer;

#[test]
fn lambda_from_emojis_wraps_left_to_right() {
    assert_eq!(generate_lambda_from_emojis(""), "I");
    assert_eq!(generate_lambda_from_emojis("🔥⚡"), "S (K relu) (S (K matmul) (I))");
    assert_eq!(generate_lambda_from_emojis("x"), "S (K identity) (I)");
}

#[test]
fn forward_passes_one_line_per_emoji() {
    assert_eq!(
        generate_forward_pass_code("🔥x"),
        "        // MatMul operation\n        x = x.matmul(&weights)?;\n        // Identity operation\n"
    );
    assert_eq!(
        generate_python_forward_pass("⚡"),
        "        # ReLU activation\n        x = torch.relu(x)\n"
    );
}

#[test]
fn code_in_each_format() {
    let rust = generate_rust_code("🌊", "demo");
    assert!(rust.starts_with("// Generated neural architecture: 🌊\n// Context: demo\n"));
    assert!(rust.contains("use candle_core::{Tensor, Device};"));
    assert!(rust.contains("x = x.sigmoid()?;\n"));
    let py = generate_python_code("🌀", "ctx");
    assert!(py.contains("class NeuralNetwork(nn.Module):"));
    assert!(py.ends_with("        x = torch.tanh(x)\n\n        return x\n"));
    assert_eq!(generate_code_from_architecture("🌊", "demo", "rust"), rust);
    assert_eq!(generate_code_from_architecture("🌀", "ctx", "python"), py);
    assert_eq!(
        generate_code_from_architecture("🎭", "c", "go"),
        "// Generated from architecture: 🎭\n// Context: c"
    );
}

#[test]
fn traces_replace_spaces() {
    let trace = generate_sexpr_trace("f x", 3);
    assert!(trace.starts_with("(trace\n  (expression \"f x\")\n  (depth 3)"));
    assert!(trace.ends_with("(result (S (K f_x) I)))"));
    assert_eq!(pretty_print_trace("(a (b))"), "(\n  a (\n  b\n)\n)");
}

#[test]
fn signatures_follow_declarations() {
    let synth = NeuralSynthesizer::new().unwrap();
    assert_eq!(synth.generate_neural_signature("Function: run"), "🔥");
    assert_eq!(synth.generate_neural_signature("struct A; impl A {}"), "📏🕸️");
    assert_eq!(synth.generate_neural_signature("enum E"), "🎭");
    assert_eq!(synth.generate_neural_signature("let x = 1;"), "⚡");
}

#[test]
fn name_and_type_traces() {
    let tracer = SExprTracer::new();
    let t = tracer.trace_name_resolution("Function:  hello ");
    assert!(t.starts_with("(resolve-name\n  (identifier \"hello\")"));
    let t = tracer.trace_name_resolution("Function:\t\u{a0}run\u{3000}\n");
    assert!(t.starts_with("(resolve-name\n  (identifier \"run\")"));
    let t = tracer.trace_name_resolution("Function:   ");
    assert!(t.starts_with("(resolve-name\n  (identifier \"\")"));
    let t = tracer.trace_name_resolution("plain text");
    assert_eq!(t, "(resolve\n  (content \"plain text\")\n  (combinator (S (K resolve) I)))");
    let t = tracer.trace_type_inference("Struct: Point: 2");
    assert!(t.starts_with("(infer-type\n  (construct \"Point\")"));
    let t = tracer.trace_type_inference("x");
    assert!(t.starts_with("(type-infer\n  (expression \"x\")"));
}

#[test]
fn compositions_spell_out_patterns() {
    let composer = NeuralComposer::new();
    let arch = composer.compose_architecture("⚡", CompositionType::Residual, 1).unwrap();
    let emojis: Vec<&str> = arch.layers.iter().map(|l| l.emoji.as_str()).collect();
    assert_eq!(emojis, vec!["⚡", "➕"]);
    let arch = composer.compose_architecture("⚡", CompositionType::Sequential, 3).unwrap();
    let emojis: Vec<&str> = arch.layers.iter().map(|l| l.emoji.as_str()).collect();
    assert_eq!(emojis, vec!["⚡", "🔄", "⚡", "🔄", "⚡"]);
    let arch = composer.compose_architecture("🔥", CompositionType::Parallel, 2).unwrap();
    assert_eq!(arch.layers.len(), 3);
    assert_eq!(arch.layers[1].lambda_expr, "S (K concat) I");
    let arch = composer.compose_architecture("⚡", CompositionType::Recursive, 1).unwrap();
    assert_eq!(arch.layers.len(), 2);
    let err = composer.compose_architecture("⚡", CompositionType::Recursive, 2).unwrap_err();
    assert_eq!(err, "Unknown neural emoji: (");
    // The attention head emoji carries a variation selector, so its first
    // character alone names no operation.
    let err = composer.compose_architecture("", CompositionType::Attention, 1).unwrap_err();
    assert_eq!(err, "Unknown neural emoji: 👁");
}
