use unified_knowledge::lambda::{interpret_emoji, Expr};
use unified_knowledge::neural::{CompositionType, NeuralComposer, NeuralEmojiMap, OperationType};

#[test]
fn test_neural_emoji_map_creation() {
    let map = NeuralEmojiMap::default();
    assert!(map.get_operation("🔥").is_some());
    assert!(map.get_operation("⚡").is_some());
    assert!(map.get_operation("🌊").is_some());
}

#[test]
fn test_neural_architecture_parsing() {
    let map = NeuralEmojiMap::default();
    let architecture = map.parse_neural_architecture("🔥⚡🌊").unwrap();
    assert_eq!(architecture.layers.len(), 3);

    let lambda_expr = architecture.to_lambda_expression();
    assert!(lambda_expr.contains("S"));
}

#[test]
fn test_neural_poem_generation() {
    let map = NeuralEmojiMap::default();
    let architecture = map.parse_neural_architecture("🔥⚡").unwrap();
    let poem = architecture.to_poem();
    assert!(poem.contains("S combinators burn"));
    assert!(poem.contains("🔥"));
    assert!(poem.contains("⚡"));
}

#[test]
fn test_emoji_parsing() {
    let map = NeuralEmojiMap::default();
    let arch = map.parse_neural_architecture("🔥⚡").unwrap();
    assert_eq!(arch.layers.len(), 2);
    assert_eq!(arch.layers[0].emoji, "🔥");
    assert_eq!(arch.layers[1].emoji, "⚡");
}

#[test]
fn test_lambda_expression_generation() {
    let map = NeuralEmojiMap::default();
    let arch = map.parse_neural_architecture("🔥⚡").unwrap();
    let expr = arch.to_lambda_expression();
    assert!(expr.contains("S"));
    assert!(expr.contains("matmul"));
    assert!(expr.contains("max"));
}

#[test]
fn lambda_expression_composes_left_to_right() {
    let map = NeuralEmojiMap::default();
    let arch = map.parse_neural_architecture("🔥⚡🌀").unwrap();
    assert_eq!(
        arch.to_lambda_expression(),
        "S (S (S (K matmul) I) (S (S (K max) (K 0)) I)) (S (K tanh) I)"
    );
    let empty = map.parse_neural_architecture("").unwrap();
    assert_eq!(empty.to_lambda_expression(), "I");
    let single = map.parse_neural_architecture("🎭").unwrap();
    assert_eq!(single.to_lambda_expression(), "S (K softmax) I");
}

#[test]
fn unknown_emoji_is_reported() {
    let map = NeuralEmojiMap::default();
    let err = map.parse_neural_architecture("🔥x⚡").unwrap_err();
    assert_eq!(err, "Unknown neural emoji: x");
    // A two-character emoji never matches a single character.
    let err = map.parse_neural_architecture("🕸️").unwrap_err();
    assert_eq!(err, "Unknown neural emoji: 🕸");
}

#[test]
fn poem_numbers_layers() {
    let map = NeuralEmojiMap::default();
    let arch = map.parse_neural_architecture("🔥⚡").unwrap();
    let expected = "In the realm where S combinators burn,\nNeural emojis dance and turn:\n\n\
1. 🔥 - Matrix multiplication - the S combinator burns through tensor dimensions\n\
2. ⚡ - ReLU activation - lightning strikes negative values\n\
\nThrough lambda calculus they flow,\nMaking tensors dance and glow! 🔥✨\n";
    assert_eq!(arch.to_poem(), expected);
}

#[test]
fn default_map_lists_its_emojis() {
    let map = NeuralEmojiMap::default();
    let emojis = map.list_emojis();
    assert_eq!(emojis.len(), 12);
    assert_eq!(emojis[0], "🔥");
    assert!(emojis.contains(&"🕸️".to_string()));
    let op = map.get_operation("🚀").unwrap();
    assert_eq!(op.operation_type, OperationType::Optimize);
    assert!(map.get_operation("🐍").is_none());
}

#[test]
fn expr_text() {
    let e = Expr::App(
        Box::new(Expr::Lam("x".to_string(), Box::new(Expr::Var("x".to_string())))),
        Box::new(Expr::App(Box::new(Expr::S), Box::new(Expr::K))),
    );
    assert_eq!(e.to_string(), "((λx.x) (S K))");
    assert_eq!(Expr::I.to_string(), "I");
}

#[test]
fn emoji_words() {
    assert_eq!(interpret_emoji("🔥"), "burn");
    assert_eq!(interpret_emoji("⚡"), "lightning");
    assert_eq!(interpret_emoji("🌊"), "wave");
    assert_eq!(interpret_emoji("🐍"), "unknown");
}

#[test]
fn test_composition() {
    let composer = NeuralComposer::new();
    let arch = composer.compose_architecture("⚡", CompositionType::Sequential, 2).unwrap();
    assert!(arch.layers.len() >= 2);
}
