use continuum_core::{LoopDetection, LoopDetector, LoopSeverity};

fn msg(role: &str, content: &str) -> (String, String) {
    (role.to_string(), content.to_string())
}

#[test]
fn test_high_message_count() {
    let detector = LoopDetector::new();

    let messages: Vec<(String, String)> = (0..150)
        .map(|i| ("user".to_string(), format!("Message {}", i)))
        .collect();

    let detections = detector.analyze(&messages);
    assert!(!detections.is_empty());
    assert!(detections.iter().any(|d| d.severity == LoopSeverity::Warning));
}

#[test]
fn test_content_repetition() {
    let detector = LoopDetector::new();

    let messages: Vec<(String, String)> = (0..20)
        .map(|_| ("user".to_string(), "Please read documentation".to_string()))
        .collect();

    let detections = detector.analyze(&messages);
    assert!(!detections.is_empty());
    let repetition_detection = detections.iter().find(|d| d.pattern_size == 1);
    assert!(repetition_detection.is_some());
    assert_eq!(repetition_detection.unwrap().repetition_count, 20);
}

#[test]
fn test_pattern_loop() {
    let detector = LoopDetector::new();

    let mut messages = Vec::new();
    for _ in 0..15 {
        messages.push(("user".to_string(), "Question A".to_string()));
        messages.push(("assistant".to_string(), "Answer A".to_string()));
    }

    let detections = detector.analyze(&messages);
    assert!(!detections.is_empty());
    let pattern_detection = detections.iter().find(|d| d.pattern_size > 1);
    assert!(pattern_detection.is_some());
}

#[test]
fn test_no_false_positives() {
    let detector = LoopDetector::new();

    let messages = vec![
        ("user".to_string(), "How do I fix this error?".to_string()),
        ("assistant".to_string(), "Let me help you debug that.".to_string()),
        ("user".to_string(), "Thanks, that worked!".to_string()),
        ("assistant".to_string(), "Great! Anything else?".to_string()),
    ];

    let detections = detector.analyze(&messages);
    assert!(detections.is_empty());
}

#[test]
fn test_four_message_loop() {
    let detector = LoopDetector::new();

    let mut messages = Vec::new();
    for _ in 0..50 {
        messages.push(("user".to_string(), "Please read documentation in ~/Assistants/shared".to_string()));
        messages.push(("assistant".to_string(), "Key points after reading the shared docs: Universal knowledge base...".to_string()));
        messages.push(("user".to_string(), "Please read through all documentation relevant to continuum".to_string()));
        messages.push(("assistant".to_string(), "Continuum documentation highlights (all read): Current state...".to_string()));
    }

    let detections = detector.analyze(&messages);
    assert!(!detections.is_empty());

    assert!(detections.iter().any(|d| d.severity == LoopSeverity::Critical));
    assert!(detections.iter().any(|d| d.pattern_size == 4 || d.pattern_size == 2));
}

fn varied(n: usize) -> Vec<(String, String)> {
    (0..n)
        .map(|i| {
            let role = if i % 2 == 0 { "user" } else { "assistant" };
            msg(role, &format!("Distinct message number {}", i))
        })
        .collect()
}

fn summary(d: &LoopDetection) -> (LoopSeverity, usize, usize) {
    (d.severity, d.repetition_count, d.pattern_size)
}

#[test]
fn exactly_warning_count_gives_one_volume_warning() {
    let detections = LoopDetector::new().analyze(&varied(100));
    assert_eq!(detections.len(), 1);
    assert_eq!(summary(&detections[0]), (LoopSeverity::Warning, 0, 0));
    assert_eq!(detections[0].message, "High message count: 100 messages (threshold: 100)");
}

#[test]
fn one_below_warning_count_gives_nothing() {
    assert!(LoopDetector::new().analyze(&varied(99)).is_empty());
}

#[test]
fn exactly_critical_count_gives_one_volume_critical() {
    let detections = LoopDetector::new().analyze(&varied(200));
    assert_eq!(detections.len(), 1);
    assert_eq!(summary(&detections[0]), (LoopSeverity::Critical, 0, 0));
    assert_eq!(
        detections[0].message,
        "Extremely high message count: 200 messages (threshold: 200)"
    );
}

#[test]
fn twenty_identical_contents_reach_critical() {
    let messages: Vec<(String, String)> = (0..20).map(|_| msg("user", "Same text")).collect();
    let detections = LoopDetector::new().analyze(&messages);
    assert_eq!(detections.len(), 2);
    assert_eq!(summary(&detections[0]), (LoopSeverity::Critical, 20, 1));
    assert_eq!(detections[0].message, "Identical content repeated 20 times (threshold: 20)");
    assert_eq!(summary(&detections[1]), (LoopSeverity::Warning, 19, 2));
    assert_eq!(
        detections[1].message,
        "Message pattern of 2 messages repeated 19 times (threshold: 10)"
    );
}

#[test]
fn nineteen_identical_contents_stay_warning() {
    let messages: Vec<(String, String)> = (0..19).map(|_| msg("user", "Same text")).collect();
    let detections = LoopDetector::new().analyze(&messages);
    assert_eq!(detections.len(), 1);
    assert_eq!(summary(&detections[0]), (LoopSeverity::Warning, 19, 1));
    assert_eq!(detections[0].message, "Content repeated 19 times (threshold: 10)");
}

#[test]
fn content_repetition_ignores_role_and_spacing() {
    let mut messages = Vec::new();
    for i in 0..10 {
        let role = if i % 2 == 0 { "user" } else { "tool" };
        let content = if i % 3 == 0 { "  ran   the\ttests \n" } else { "ran the tests" };
        messages.push(msg(role, content));
    }
    let detections = LoopDetector::new().analyze(&messages);
    assert_eq!(detections.len(), 1);
    assert_eq!(summary(&detections[0]), (LoopSeverity::Warning, 10, 1));
}

#[test]
fn nine_repetitions_stay_below_threshold() {
    let messages: Vec<(String, String)> = (0..9).map(|_| msg("user", "again")).collect();
    assert!(LoopDetector::new().analyze(&messages).is_empty());
}

#[test]
fn four_message_cycle_reports_smallest_window() {
    let mut messages = Vec::new();
    for _ in 0..50 {
        messages.push(msg("user", "A"));
        messages.push(msg("assistant", "B"));
        messages.push(msg("user", "C"));
        messages.push(msg("assistant", "D"));
    }
    let detections = LoopDetector::new().analyze(&messages);
    assert_eq!(detections.len(), 3);
    assert_eq!(summary(&detections[0]), (LoopSeverity::Critical, 0, 0));
    assert_eq!(summary(&detections[1]), (LoopSeverity::Critical, 50, 1));
    assert_eq!(summary(&detections[2]), (LoopSeverity::Critical, 50, 2));
}

#[test]
fn pattern_pass_tells_roles_apart() {
    let mut messages = Vec::new();
    for i in 0..20 {
        let role = if i % 2 == 0 { "user" } else { "assistant" };
        messages.push(msg(role, "same"));
    }
    let detections = LoopDetector::new().analyze(&messages);
    assert_eq!(detections.len(), 2);
    assert_eq!(summary(&detections[0]), (LoopSeverity::Critical, 20, 1));
    assert_eq!(summary(&detections[1]), (LoopSeverity::Warning, 10, 2));
}

#[test]
fn empty_and_single_batches_have_no_findings() {
    let detector = LoopDetector::new();
    assert!(detector.analyze(&[]).is_empty());
    assert!(detector.analyze(&[msg("user", "hello")]).is_empty());
}

#[test]
fn pattern_pass_alone_picks_smallest_size() {
    let mut messages = Vec::new();
    for _ in 0..50 {
        messages.push(msg("user", "A"));
        messages.push(msg("assistant", "B"));
        messages.push(msg("user", "C"));
        messages.push(msg("assistant", "D"));
    }
    let d = LoopDetector::new().detect_message_pattern_loops(&messages).unwrap();
    assert_eq!(summary(&d), (LoopSeverity::Critical, 50, 2));
    assert_eq!(d.message, "Message pattern of 2 messages repeated 50 times (threshold: 20)");
}

#[test]
fn three_cycle_reports_its_pairs() {
    // 30 messages cycling x, y, z: the pairs (x, y) and (y, z) occur 10 times each,
    // which already qualifies at size 2.
    let mut messages = Vec::new();
    for i in 0..30 {
        let content = ["x", "y", "z"][i % 3];
        messages.push(msg("user", content));
    }
    let d = LoopDetector::new().detect_message_pattern_loops(&messages).unwrap();
    assert_eq!(summary(&d), (LoopSeverity::Warning, 10, 2));
}

#[test]
fn pattern_pass_none_for_short_or_varied_batches() {
    let detector = LoopDetector::new();
    assert!(detector.detect_message_pattern_loops(&varied(7)).is_none());
    assert!(detector.detect_message_pattern_loops(&varied(150)).is_none());
}

#[test]
fn content_pass_alone() {
    let messages: Vec<(String, String)> = (0..12).map(|_| msg("tool", "same")).collect();
    let d = LoopDetector::new().detect_content_repetition(&messages).unwrap();
    assert_eq!(summary(&d), (LoopSeverity::Warning, 12, 1));
    assert!(LoopDetector::new().detect_content_repetition(&varied(50)).is_none());
}
