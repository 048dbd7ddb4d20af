use token_optimization::edits::apply_edits;
use token_optimization::edits::char_diff;
use token_optimization::edits::count_edit_size;
use token_optimization::engine::BatchError;
use token_optimization::engine::TokenOptimizer;
use token_optimization::lexicon::get_abbreviation;
use token_optimization::lexicon::is_key_term;
use token_optimization::lexicon::is_stop_word;
use token_optimization::numfmt::decimal_string;
use token_optimization::strategies::collapse_repeats;

#[test]
fn test_compression_levels() {
    let optimizer = TokenOptimizer::new(10, 1000, true);
    let text = "这是一个人工智能和机器学习的测试用例";

    let aggressive = optimizer.aggressive_optimize(text);
    let balanced = optimizer.balanced_optimize(text);
    let conservative = optimizer.conservative_optimize(text);

    assert!(aggressive.len() < balanced.len());
    assert!(aggressive.len() < conservative.len());
    assert!(conservative.len() < balanced.len());
}

#[test]
fn test_incremental_update() {
    let mut optimizer = TokenOptimizer::new(10, 1000, true);
    let text1 = "初始文本";
    let text2 = "初始文本追加内容";

    optimizer.update_state_snapshot(text1.to_string());
    if let Some(result) = optimizer.try_incremental_update(text2) {
        assert!(result.len() < text2.len());
    }
}

#[test]
fn repeated_text_reports_cache_hit() {
    let mut optimizer = TokenOptimizer::new(10, 1000, true);
    let text = "这是一个人工智能和机器学习的测试用例";
    let first = optimizer.optimize_text(text.to_string());
    let second = optimizer.optimize_text(text.to_string());
    assert_eq!(second.cache_hits, first.cache_hits + 1);
    assert_eq!(second.optimized_count, first.optimized_count);
    assert_eq!(second.original_count, first.original_count);
}

#[test]
fn empty_batch_is_refused() {
    let mut optimizer = TokenOptimizer::new(10, 1000, true);
    let r = optimizer.optimize_batch(Vec::new());
    assert!(matches!(r, Err(BatchError::EmptyBatch)));
}

#[test]
fn oversized_batch_is_refused() {
    let mut optimizer = TokenOptimizer::new(10, 1000, true);
    let requests: Vec<String> = (0..1001).map(|i| format!("{}", i)).collect();
    let r = optimizer.optimize_batch(requests);
    assert!(matches!(r, Err(BatchError::BatchTooLarge)));
}

#[test]
fn singleton_batch_matches_single_stats() {
    let text = "这是一个人工智能和机器学习的测试用例";
    let mut single = TokenOptimizer::new(10, 1000, true);
    let s = single.optimize_text(text.to_string());

    let mut batched = TokenOptimizer::new(10, 1000, true);
    let b = batched.optimize_batch(vec![text.to_string()]).unwrap();
    assert_eq!(b.optimized_requests.len(), 1);
    assert_eq!(b.stats.original_count, s.original_count);
    assert_eq!(b.stats.optimized_count, s.optimized_count);
    assert!(!b.batch_id.is_empty());
    assert!(b.batch_id.chars().all(|c| c.is_ascii_digit()));
}

#[test]
fn batch_serves_repeats_from_cache() {
    let text = "这是一个人工智能和机器学习的测试用例";
    let mut optimizer = TokenOptimizer::new(10, 1000, true);
    let b = optimizer
        .optimize_batch(vec![text.to_string(), text.to_string()])
        .unwrap();
    assert_eq!(b.optimized_requests.len(), 2);
    assert_eq!(b.optimized_requests[0], b.optimized_requests[1]);
}

#[test]
fn stop_words_vanish_under_aggressive() {
    let optimizer = TokenOptimizer::new(10, 1000, true);
    let out = optimizer.aggressive_optimize("的了着来去把");
    assert_eq!(out, "");
}

#[test]
fn conservative_substitutes_known_abbreviation() {
    let optimizer = TokenOptimizer::new(10, 1000, true);
    let out = optimizer.conservative_optimize("人工智能");
    assert!(out.contains("AI"));
}

#[test]
fn fresh_snapshot_is_served_incrementally() {
    let base = "一二三四五六七八九十甲乙";
    let appended = "一二三四五六七八九十甲乙丙";
    let mut optimizer = TokenOptimizer::new(10, 1000, true);
    optimizer.update_state_snapshot(base.to_string());
    let patched = optimizer.try_incremental_update(appended);
    assert_eq!(patched.as_deref(), Some(appended));

    let stats = optimizer.optimize_text(appended.to_string());
    assert_eq!(stats.incremental_updates, 1);
    assert_eq!(stats.optimized_count, appended.chars().count() as u128);
}

#[test]
fn large_edit_falls_through_to_recomputation() {
    let base = "初始文本";
    let distant = "初始文本追加内容";
    let mut optimizer = TokenOptimizer::new(10, 1000, true);
    optimizer.update_state_snapshot(base.to_string());
    assert_eq!(optimizer.try_incremental_update(distant), None);
}

#[test]
fn stop_word_lookup() {
    assert!(is_stop_word("的"));
    assert!(is_stop_word("把"));
    assert!(!is_stop_word("人"));
    assert!(!is_stop_word("的的"));
}

#[test]
fn abbreviation_lookup() {
    assert_eq!(get_abbreviation("人工智能").as_deref(), Some("AI"));
    assert_eq!(get_abbreviation("机器学习").as_deref(), Some("ML"));
    assert_eq!(get_abbreviation("人工"), None);
    assert_eq!(get_abbreviation("AI"), None);
}

#[test]
fn key_term_classification() {
    assert!(is_key_term("abc"));
    assert!(is_key_term("a1"));
    assert!(is_key_term("人工智能"));
    assert!(!is_key_term("ab"));
    assert!(!is_key_term("的"));
}

#[test]
fn collapse_repeated_runs() {
    let v: Vec<char> = "ababab".chars().collect();
    let out: String = collapse_repeats(&v).into_iter().collect();
    assert_eq!(out, "ab");

    let v2: Vec<char> = "aaa".chars().collect();
    let out2: String = collapse_repeats(&v2).into_iter().collect();
    assert_eq!(out2, "aaa");

    let v3: Vec<char> = "aabb".chars().collect();
    let out3: String = collapse_repeats(&v3).into_iter().collect();
    assert_eq!(out3, "aabb");

    let v4: Vec<char> = "测试用例测试用例测试用例".chars().collect();
    let out4: String = collapse_repeats(&v4).into_iter().collect();
    assert_eq!(out4, "测试用例");
}

#[test]
fn edit_scripts_round_trip() {
    let edits = char_diff("abc", "abXc");
    assert_eq!(count_edit_size(&edits), 1);
    assert_eq!(apply_edits(&edits), "abXc");

    let edits2 = char_diff("初始文本", "初始文本追加内容");
    assert_eq!(count_edit_size(&edits2), 4);
    assert_eq!(apply_edits(&edits2), "初始文本追加内容");

    let edits3 = char_diff("same", "same");
    assert_eq!(count_edit_size(&edits3), 0);
    assert_eq!(apply_edits(&edits3), "same");
}

#[test]
fn decimal_rendering() {
    assert_eq!(decimal_string(0), "0");
    assert_eq!(decimal_string(7), "7");
    assert_eq!(decimal_string(12345), "12345");
    assert_eq!(decimal_string(1700000000000), "1700000000000");
}
