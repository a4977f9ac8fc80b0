use continuum_core::compression::keep_informative;
use continuum_core::{MessageCompressor, NoiseFilter};

#[test]
fn test_filter_simple_pleasantries() {
    let filter = NoiseFilter::new();

    assert_eq!(filter.filter("please"), None);
    assert_eq!(filter.filter("Thank you!"), None);
    assert_eq!(filter.filter("okay"), None);
    assert_eq!(filter.filter("Great!"), None);

    let result = filter.filter("Here's the code you requested");
    assert!(result.is_some());
    assert_eq!(result.unwrap(), "Here's the code you requested");
}

#[test]
fn test_filter_enthusiasm() {
    let filter = NoiseFilter::new();

    assert_eq!(filter.filter("this is all very exciting"), None);
    assert_eq!(filter.filter("This is amazing!"), None);
    assert_eq!(filter.filter("How cool!"), None);
    assert_eq!(filter.filter("Very interesting!"), None);

    let result = filter.filter("This is exciting because it reduces tokens by 20%");
    assert!(result.is_some());
    assert!(result.unwrap().contains("reduces tokens"));
}

#[test]
fn test_filter_boilerplate() {
    let filter = NoiseFilter::new();

    let input = "<environment_context>\n  <cwd>/home/test</cwd>\n</environment_context>\nHello there";
    let result = filter.filter(input);
    assert_eq!(result.unwrap(), "Hello there");

    let input2 = "<system-reminder>Some reminder</system-reminder>Actual content";
    let result2 = filter.filter(input2);
    assert_eq!(result2.unwrap(), "Actual content");
}

#[test]
fn test_filter_acknowledgments() {
    let filter = NoiseFilter::new();

    assert_eq!(filter.filter("I understand"), None);
    assert_eq!(filter.filter("Understood."), None);
    assert_eq!(filter.filter("Will do!"), None);
    assert_eq!(filter.filter("Done"), None);
}

#[test]
fn test_compressor_batch() {
    let compressor = MessageCompressor::new();

    let messages = vec![
        ("user".to_string(), "please help me".to_string()),
        ("assistant".to_string(), "Here's how it works: step 1, step 2, step 3".to_string()),
        ("user".to_string(), "thanks".to_string()),
        ("assistant".to_string(), "Let me know if you need anything else!".to_string()),
    ];

    let compressed = compressor.compress_batch(&messages);

    assert!(compressed.len() >= 1);
    assert!(compressed
        .iter()
        .any(|(role, content)| role == "assistant" && content.contains("step 1")));
}

#[test]
fn test_token_estimation() {
    let compressor = MessageCompressor::new();

    let messages = vec![("user".to_string(), "Hello world this is a test message".to_string())];

    let tokens = compressor.estimate_tokens(&messages);
    assert!(tokens >= 10 && tokens <= 20);
}

#[test]
fn test_preserves_code_and_technical_content() {
    let filter = NoiseFilter::new();

    let code = "fn main() {\n    println!(\"Hello\");\n}";
    assert_eq!(filter.filter(code).unwrap(), code);

    let technical = "The FTS5 virtual table uses a trigram index for fast full-text search.";
    assert_eq!(filter.filter(technical).unwrap(), technical);
}

#[test]
fn whole_pleasantry_dropped_but_sentence_kept() {
    let filter = NoiseFilter::new();
    assert_eq!(filter.filter("please"), None);
    assert_eq!(
        filter.filter("please implement the retry logic"),
        Some("please implement the retry logic".to_string())
    );
}

#[test]
fn boilerplate_removed_content_kept() {
    let filter = NoiseFilter::new();
    assert_eq!(
        filter.filter("<system-reminder>x</system-reminder>Actual content"),
        Some("Actual content".to_string())
    );
    assert_eq!(
        filter.filter("before <system>Tool ran without output or errors</system> after"),
        Some("before  after".to_string())
    );
}

#[test]
fn boilerplate_only_is_noise() {
    let filter = NoiseFilter::new();
    assert_eq!(filter.filter("<system-reminder>only this</system-reminder>\n  "), None);
    assert!(filter.is_noise("<environment_context>x</environment_context>"));
}

#[test]
fn surrounding_white_space_trimmed() {
    let filter = NoiseFilter::new();
    assert_eq!(filter.filter("  \t run the build \n"), Some("run the build".to_string()));
}

#[test]
fn shorter_than_three_characters_is_noise() {
    let filter = NoiseFilter::new();
    assert_eq!(filter.filter(""), None);
    assert_eq!(filter.filter("  "), None);
    assert_eq!(filter.filter("ab"), None);
    assert_eq!(filter.filter("abc"), Some("abc".to_string()));
    assert_eq!(filter.filter("éé"), None);
}

#[test]
fn polite_opener_and_closer_are_noise() {
    let filter = NoiseFilter::new();
    assert!(filter.is_noise("Let me check the logs for you"));
    assert!(filter.is_noise("Here it is. Let me know if you need anything else!"));
    assert!(!filter.is_noise("Run cargo test before merging"));
}

#[test]
fn second_pass_keeps_cleaned_text() {
    let filter = NoiseFilter::new();
    let once = filter
        .filter("<system-reminder>r</system-reminder>  Deploy the service  ")
        .unwrap();
    assert_eq!(once, "Deploy the service");
    assert_eq!(filter.filter(&once), Some(once.clone()));
}

#[test]
fn compress_keeps_order_and_roles() {
    let compressor = MessageCompressor::new();
    let messages = vec![
        ("user".to_string(), "thanks".to_string()),
        ("assistant".to_string(), "  first answer  ".to_string()),
        ("tool".to_string(), "ok".to_string()),
        ("user".to_string(), "<system-reminder>r</system-reminder>second question".to_string()),
        ("assistant".to_string(), "Done".to_string()),
    ];
    let compressed = compressor.compress_batch(&messages);
    assert_eq!(
        compressed,
        vec![
            ("assistant".to_string(), "first answer".to_string()),
            ("user".to_string(), "second question".to_string()),
        ]
    );
}

#[test]
fn estimate_tokens_exact() {
    let compressor = MessageCompressor::new();
    let messages = vec![
        ("user".to_string(), "Hello world this is a test message".to_string()),
        ("assistant".to_string(), String::new()),
        ("user".to_string(), "abcd".to_string()),
        ("user".to_string(), "abcde".to_string()),
    ];
    assert_eq!(compressor.estimate_tokens(&messages), 14 + 5 + 6 + 7);
    assert_eq!(compressor.estimate_tokens(&[]), 0);
}

#[test]
fn token_savings_rounds_up_and_floors_at_zero() {
    let filter = NoiseFilter::new();
    assert_eq!(filter.token_savings("abcdefghi", Some("abcd")), 2);
    assert_eq!(filter.token_savings("abcdefghi", None), 3);
    assert_eq!(filter.token_savings("ab", Some("abcdefghi")), 0);
    assert_eq!(filter.token_savings("", None), 0);
}

#[test]
fn keep_informative_decides_after_matching() {
    assert_eq!(keep_informative("abc".to_string(), false), Some("abc".to_string()));
    assert_eq!(keep_informative("abc".to_string(), true), None);
    assert_eq!(keep_informative("ab".to_string(), false), None);
    assert_eq!(keep_informative("ééé".to_string(), false), Some("ééé".to_string()));
}

#[test]
fn defaults_match_new() {
    let filter = NoiseFilter::default();
    assert_eq!(filter.filter("thanks"), None);
    let compressor = MessageCompressor::default();
    assert_eq!(compressor.compress_batch(&[("user".to_string(), "ok".to_string())]), vec![]);
}
