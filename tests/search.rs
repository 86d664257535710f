use mail_search::history::QueryHistory;
use mail_search::search::{
    blended_score, gather_hits, merge_results, metadata_request, paginate, plan_backends, search_results,
    union_ids, BackendPlan, EmailMetadata, FtsHit, SearchFolder, SearchHit, SearchMode,
    SearchQuery, SearchSettings, SearchSource, SemanticHit,
};

fn fts(id: &str, rank: i32, snippet: &str) -> FtsHit {
    FtsHit {
        email_id: id.to_string(),
        thread_id: format!("thread-{}", id),
        rank,
        snippet: snippet.to_string(),
    }
}

fn sem(id: &str, relevance: u16, highlights: &[&str]) -> SemanticHit {
    SemanticHit {
        email_id: id.to_string(),
        relevance,
        highlights: highlights.iter().map(|h| h.to_string()).collect(),
    }
}

fn meta(id: &str) -> EmailMetadata {
    EmailMetadata {
        email_id: id.to_string(),
        thread_id: format!("thread-{}", id),
        subject: Some(format!("Subject {}", id)),
        snippet: format!("default snippet {}", id),
        from: "sender@example.com".to_string(),
        date: 1_700_000_000_000,
        is_read: false,
    }
}

fn ids(hits: &[SearchHit]) -> Vec<String> {
    hits.iter().map(|h| h.email_id.clone()).collect()
}

#[test]
fn search_query_builder() {
    let query = SearchQuery::new("test query")
        .with_folder(SearchFolder::Inbox)
        .with_from("sender@example.com")
        .with_limit(20);

    assert_eq!(query.text, "test query");
    assert_eq!(query.folder, Some(SearchFolder::Inbox));
    assert_eq!(query.from, Some("sender@example.com".to_string()));
    assert_eq!(query.limit, 20);
}

#[test]
fn search_query_defaults_and_setters() {
    let query = SearchQuery::new("q");
    assert_eq!(query.limit, 50);
    assert_eq!(query.offset, 0);
    assert_eq!(query.mode, SearchMode::Hybrid);
    assert!(query.account_ids.is_empty());
    let query = query
        .with_accounts(vec!["acct-1".to_string()])
        .with_to("bob@example.com")
        .with_attachment(true)
        .with_offset(100)
        .with_mode(SearchMode::FullText)
        .with_date_range(10, 20);
    assert_eq!(query.account_ids, vec!["acct-1".to_string()]);
    assert_eq!(query.to, Some("bob@example.com".to_string()));
    assert_eq!(query.has_attachment, Some(true));
    assert_eq!(query.offset, 100);
    assert_eq!(query.mode, SearchMode::FullText);
    assert_eq!(query.date_range.map(|r| (r.start, r.end)), Some((10, 20)));
    assert_eq!(query.text, "q");
}

#[test]
fn search_mode_default() {
    let mode = SearchMode::default();
    assert_eq!(mode, SearchMode::Hybrid);
}

#[test]
fn search_settings_default() {
    let settings = SearchSettings::default();
    assert!(settings.semantic_enabled);
    assert!(settings.fts_weight > 0);
    assert!(settings.semantic_weight > 0);
    assert_eq!(settings.default_limit, 50);
    assert_eq!(settings.min_score, 300_000);
}

#[test]
fn search_folder_variants() {
    assert_eq!(SearchFolder::Inbox, SearchFolder::Inbox);
    assert_ne!(SearchFolder::Inbox, SearchFolder::Sent);

    let label = SearchFolder::Label("custom".to_string());
    assert!(matches!(label, SearchFolder::Label(_)));
}

#[test]
fn lexical_only_hit_is_weighted() {
    let st = SearchSettings::default();
    let merged = merge_results(&vec![fts("E1", 800, "lexical E1")], &vec![], &vec![meta("E1")], &st);
    assert_eq!(merged.len(), 1);
    assert_eq!(merged[0].email_id, "E1");
    assert_eq!(merged[0].score, 480_000);
    assert_eq!(merged[0].source, SearchSource::FullText);
    assert_eq!(merged[0].snippet, "lexical E1");
    assert!(merged[0].highlights.is_empty());
}

#[test]
fn hit_in_both_lists_blends_scores() {
    let st = SearchSettings::default();
    let merged = merge_results(
        &vec![fts("E2", 900, "lexical E2")],
        &vec![sem("E2", 500, &["span"])],
        &vec![meta("E2")],
        &st,
    );
    assert_eq!(merged.len(), 1);
    assert_eq!(merged[0].score, 740_000);
    assert_eq!(merged[0].source, SearchSource::Both);
    assert_eq!(merged[0].snippet, "lexical E2");
    assert_eq!(merged[0].highlights, vec!["span".to_string()]);
    assert_eq!(merged[0].thread_id, "thread-E2");
    assert_eq!(merged[0].subject, Some("Subject E2".to_string()));
}

#[test]
fn below_threshold_excluded_from_hits_and_total() {
    let st = SearchSettings::default();
    let query = SearchQuery::new("q");
    let results = search_results(
        &query,
        &st,
        &vec![fts("E1", 800, "a")],
        &vec![sem("E3", 200, &["x"])],
        &vec![meta("E1"), meta("E3")],
        7,
    );
    assert_eq!(ids(&results.hits), vec!["E1".to_string()]);
    assert_eq!(results.total, 1);
    assert!(results.used_semantic);
    assert_eq!(results.took_ms, 7);
    assert_eq!(results.query, "q");
    assert_eq!(blended_score(0, 200, &st), 80_000);
}

#[test]
fn blank_query_not_recorded_but_searched() {
    let mut history = QueryHistory::new();
    history.record("");
    history.record("   ");
    history.record("\t\n");
    history.record("\u{3000}\u{a0}");
    assert!(history.recent(10).is_empty());
    let query = SearchQuery::new("");
    let st = SearchSettings::default();
    let results = search_results(&query, &st, &vec![fts("E1", 800, "a")], &vec![], &vec![meta("E1")], 0);
    assert_eq!(results.total, 1);
}

#[test]
fn semantic_mode_disabled_falls_back_to_lexical() {
    let plan = plan_backends(SearchMode::Semantic, false, true);
    assert_eq!(plan, BackendPlan { lexical: true, semantic: false });
    let gathered: Result<_, String> = gather_hits(Ok(vec![fts("E1", 800, "a")]), Ok::<_, String>(vec![]));
    let (l, s) = gathered.unwrap();
    let results = search_results(&SearchQuery::new("q"), &SearchSettings::default(), &l, &s, &vec![meta("E1")], 0);
    assert!(!results.used_semantic);
    assert_eq!(results.hits[0].source, SearchSource::FullText);
}

#[test]
fn backend_plans() {
    assert_eq!(plan_backends(SearchMode::FullText, true, true), BackendPlan { lexical: true, semantic: false });
    assert_eq!(plan_backends(SearchMode::Semantic, true, true), BackendPlan { lexical: false, semantic: true });
    assert_eq!(plan_backends(SearchMode::Semantic, true, false), BackendPlan { lexical: true, semantic: false });
    assert_eq!(plan_backends(SearchMode::Hybrid, true, true), BackendPlan { lexical: true, semantic: true });
    assert_eq!(plan_backends(SearchMode::Hybrid, false, true), BackendPlan { lexical: true, semantic: false });
}

#[test]
fn lexical_failure_fails_semantic_failure_degrades() {
    let r: Result<(Vec<FtsHit>, Vec<SemanticHit>), String> =
        gather_hits(Err("index down".to_string()), Ok::<_, String>(vec![sem("E1", 900, &[])]));
    assert_eq!(r.err(), Some("index down".to_string()));
    let r: Result<(Vec<FtsHit>, Vec<SemanticHit>), String> =
        gather_hits(Ok(vec![fts("E1", 800, "a")]), Err::<Vec<SemanticHit>, _>("model down".to_string()));
    let (l, s) = r.unwrap();
    assert_eq!(l.len(), 1);
    assert!(s.is_empty());
}

#[test]
fn blending_is_exact_for_any_weights() {
    let st = SearchSettings { semantic_enabled: true, fts_weight: 1_500, semantic_weight: -250, min_score: i64::MIN, default_limit: 50 };
    let merged = merge_results(&vec![fts("A", 700, "a")], &vec![sem("A", 300, &[])], &vec![meta("A")], &st);
    assert_eq!(merged[0].score, 700 * 1_500 - 300 * 250);
    assert_eq!(blended_score(i32::MIN, u16::MAX, &SearchSettings { fts_weight: i32::MIN, semantic_weight: i32::MIN, ..st }),
        (i32::MIN as i64) * (i32::MIN as i64) + (u16::MAX as i64) * (i32::MIN as i64));
}

#[test]
fn union_is_complete_and_deduplicated() {
    let f = vec![fts("A", 500, "a"), fts("B", 600, "b"), fts("A", 900, "a2")];
    let s = vec![sem("B", 900, &["hb"]), sem("C", 950, &[]), sem("D", 990, &[])];
    assert_eq!(union_ids(&f, &s), vec!["A", "B", "C", "D"]);
    let st = SearchSettings { min_score: 0, ..SearchSettings::default() };
    let merged = merge_results(&f, &s, &vec![meta("A"), meta("B"), meta("C")], &st);
    let mut got = ids(&merged);
    got.sort();
    assert_eq!(got, vec!["A", "B", "C"]);
    let a = merged.iter().find(|h| h.email_id == "A").unwrap();
    assert_eq!(a.score, 900 * 600);
    assert_eq!(a.snippet, "a");
    let b = merged.iter().find(|h| h.email_id == "B").unwrap();
    assert_eq!(b.source, SearchSource::Both);
}

#[test]
fn hits_without_positive_score_or_metadata_are_dropped() {
    let st = SearchSettings { min_score: i64::MIN, ..SearchSettings::default() };
    let merged = merge_results(
        &vec![fts("Z", 0, "z"), fts("N", -40, "n"), fts("M", 100, "m")],
        &vec![],
        &vec![meta("Z"), meta("N")],
        &st,
    );
    assert!(merged.is_empty());
}

#[test]
fn results_sorted_and_ties_keep_union_order() {
    let st = SearchSettings { min_score: 0, ..SearchSettings::default() };
    let f = vec![fts("A", 100, "a"), fts("B", 500, "b"), fts("C", 100, "c"), fts("D", 900, "d")];
    let merged = merge_results(&f, &vec![], &vec![meta("D"), meta("C"), meta("B"), meta("A")], &st);
    assert_eq!(ids(&merged), vec!["D", "B", "A", "C"]);
    for w in merged.windows(2) {
        assert!(w[0].score >= w[1].score);
    }
}

#[test]
fn pages_concatenate_to_whole_list() {
    let st = SearchSettings { min_score: 0, ..SearchSettings::default() };
    let f: Vec<FtsHit> = (0..120).map(|i| fts(&format!("e{}", i), 1000 - i, "s")).collect();
    let m: Vec<EmailMetadata> = (0..120).map(|i| meta(&format!("e{}", i))).collect();
    let all = merge_results(&f, &vec![], &m, &st);
    assert_eq!(all.len(), 120);
    let mut joined: Vec<String> = Vec::new();
    for k in 0..3 {
        let query = SearchQuery::new("q").with_offset(k * 50).with_limit(50);
        let page = search_results(&query, &st, &f, &vec![], &m, 0);
        assert!(page.hits.len() <= 50);
        assert_eq!(page.total, 120);
        joined.extend(ids(&page.hits));
    }
    assert_eq!(joined, ids(&all));
    assert!(paginate(all, 500, 50).is_empty());
}

#[test]
fn history_keeps_one_copy_most_recent_first() {
    let mut history = QueryHistory::new();
    history.record("invoice");
    history.record("report");
    history.record("invoice");
    history.record("invoice");
    assert_eq!(history.recent(10), vec!["invoice".to_string(), "report".to_string()]);
    assert_eq!(history.recent(1), vec!["invoice".to_string()]);
}

#[test]
fn history_records_trimmed_text() {
    let mut history = QueryHistory::new();
    history.record("  invoice ");
    history.record("invoice");
    history.record("\tinvoice\n");
    assert_eq!(history.recent(10), vec!["invoice".to_string()]);
}

#[test]
fn metadata_requested_only_for_hits() {
    assert_eq!(metadata_request(&vec![], &vec![]), None);
    assert_eq!(
        metadata_request(&vec![fts("A", 1, "a")], &vec![sem("B", 1, &[]), sem("A", 2, &[])]),
        Some(vec!["A".to_string(), "B".to_string()])
    );
}

#[test]
fn history_is_bounded() {
    let mut history = QueryHistory::new();
    for i in 0..105 {
        history.record(&format!("query {}", i));
    }
    let recent = history.recent(1000);
    assert_eq!(recent.len(), 100);
    assert_eq!(recent[0], "query 104");
    assert_eq!(recent[99], "query 5");
}

#[test]
fn suggestions_ignore_case() {
    let mut history = QueryHistory::new();
    history.record("Hello World");
    history.record("other");
    history.record("help me");
    history.record("HELIUM");
    assert_eq!(history.suggest("HEL", 10), vec!["HELIUM", "help me", "Hello World"]);
    assert_eq!(history.suggest("hel", 2), vec!["HELIUM", "help me"]);
    assert!(history.suggest("xyz", 5).is_empty());
}
