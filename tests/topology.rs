use unified_knowledge::topology::{EmojiTopologyAnalyzer, Path, TopologyType};

#[test]
fn test_emoji_topology_analysis() {
    let analyzer = EmojiTopologyAnalyzer::new(3);
    let corpus = vec![
        "I love coding! 😊👍🔥".to_string(),
        "Python is great 🐍😊✨".to_string(),
        "Neural networks 🧠⚡🌊".to_string(),
    ];

    let result = analyzer.analyze_corpus(&corpus);

    assert_eq!(result.corpus_size, 3);
    assert!(result.total_emojis > 0);
    assert!(result.unique_emojis > 0);
    assert!(!result.emoji_reports.is_empty());

    assert!(result.mathematical_expression.contains("S"));
    assert!(result.mathematical_expression.contains("sample_3"));
}

#[test]
fn test_path_extraction() {
    let analyzer = EmojiTopologyAnalyzer::new(2);
    let (emojis, paths) = analyzer.extract_with_paths("Hello 😊 World 🔥", 0);

    assert_eq!(emojis.len(), 2);
    assert_eq!(paths.len(), 2);
    assert!(emojis.contains(&"😊".to_string()));
    assert!(emojis.contains(&"🔥".to_string()));
}

#[test]
fn test_s_combinator_properties() {
    let analyzer = EmojiTopologyAnalyzer::new(2);
    let corpus = vec!["Test 🔥⚡".to_string()];
    let result = analyzer.analyze_corpus(&corpus);

    assert!(result.mathematical_expression.contains("S"));
    assert_eq!(result.depth_n, 2);

    for report in &result.emoji_reports {
        assert!(report.lambda_expression.contains("S"));
    }
}

#[test]
fn grapheme_clusters_count_once() {
    let analyzer = EmojiTopologyAnalyzer::new(2);
    let (emojis, paths) = analyzer.extract_with_paths("a🕸️b👍🏽", 4);
    assert_eq!(emojis, vec!["🕸️".to_string(), "👍🏽".to_string()]);
    assert_eq!(paths, vec![Path::new(4, 1), Path::new(4, 3)]);
}

#[test]
fn reports_by_frequency() {
    let analyzer = EmojiTopologyAnalyzer::new(3);
    let corpus = vec!["🔥 ⚡ 🔥".to_string(), "⚡⚡ x 🐍".to_string()];
    let result = analyzer.analyze_corpus(&corpus);
    assert_eq!(result.total_emojis, 6);
    assert_eq!(result.unique_emojis, 3);
    let order: Vec<(&str, usize)> =
        result.emoji_reports.iter().map(|r| (r.emoji.as_str(), r.frequency)).collect();
    assert_eq!(order, vec![("⚡", 3), ("🔥", 2), ("🐍", 1)]);
    let fire = &result.emoji_reports[1];
    assert_eq!(fire.paths, vec![Path::new(0, 0), Path::new(0, 4)]);
    assert_eq!(fire.lambda_expression, "S (K matmul) I");
    let snake = &result.emoji_reports[2];
    assert_eq!(snake.lambda_expression, "S (K 128013) I");
    assert_eq!(snake.semiotic_meaning, "Mathematical symbol representing 🐍");
    assert_eq!(result.session_id, "emoji-topology-session-123");
}

#[test]
fn topologies_group_by_string_and_window() {
    let analyzer = EmojiTopologyAnalyzer::new(3);
    let paths = vec![Path::new(0, 0), Path::new(0, 3), Path::new(0, 20), Path::new(1, 2)];
    let tops = analyzer.group_topologies(&paths);
    assert_eq!(tops.len(), 3);
    assert_eq!(tops[0].topology_type, TopologyType::StringLevel);
    assert_eq!(tops[0].paths, vec![Path::new(0, 0), Path::new(0, 3), Path::new(0, 20)]);
    assert_eq!(tops[0].description, "String-level topology for string 0");
    assert_eq!(tops[1].paths, vec![Path::new(1, 2)]);
    assert_eq!(tops[2].topology_type, TopologyType::WindowBased);
    assert_eq!(tops[2].paths, vec![Path::new(0, 0), Path::new(0, 3)]);
    assert_eq!(tops[2].description, "Window-based topology around position 0");
}

#[test]
fn sampling_sorts_then_cuts() {
    let analyzer = EmojiTopologyAnalyzer::new(2);
    let paths = vec![Path::new(2, 1), Path::new(0, 9), Path::new(0, 3)];
    assert_eq!(analyzer.sample_paths(&paths, 2), vec![Path::new(0, 3), Path::new(0, 9)]);
    assert_eq!(analyzer.sample_paths(&paths, 10).len(), 3);
}

#[test]
fn poetry_lists_reports() {
    let analyzer = EmojiTopologyAnalyzer::new(1);
    let result = analyzer.analyze_corpus(&vec!["🔥".to_string()]);
    let text = result.to_mathematical_poetry();
    assert!(text.starts_with("🔥 Emoji Topology Analysis"));
    assert!(text.contains("Corpus Size: 1 strings"));
    assert!(text.contains(
        "1. 🔥 (frequency: 1)\n   Lambda: S (K matmul) I\n   Meaning: Transformation through mathematical fire\n   Paths: [Path { string_index: 0, char_position: 0 }]\n   Topologies: 1 groups\n\n"
    ));
}

#[test]
fn emojis_from_given_clusters() {
    let analyzer = EmojiTopologyAnalyzer::new(2);
    let clusters = vec!["x".to_string(), "🔥".to_string(), " ".to_string(), "a⚡".to_string()];
    let (emojis, paths) = analyzer.emojis_with_paths(&clusters, 2);
    assert_eq!(emojis, vec!["🔥".to_string(), "a⚡".to_string()]);
    assert_eq!(paths, vec![Path::new(2, 1), Path::new(2, 3)]);
}
