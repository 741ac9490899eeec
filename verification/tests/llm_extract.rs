use whosaidwhat::llm::extract::{
    parse_action_items, parse_timestamps, quote_snippet, resolve_segment, ActionItem, SegmentSpan,
};

#[test]
fn adversarial_edges_match_python() {
    assert_eq!(parse_timestamps("[[01:05]"), vec![65_000]);
    assert_eq!(parse_timestamps("[01:05][01:06]"), vec![65_000, 66_000]);
    assert_eq!(parse_timestamps("a [0:05] b"), vec![5_000]);
    assert_eq!(parse_timestamps("[1:05]"), vec![65_000]);
    assert_eq!(
        parse_timestamps("[123:45:12] x"),
        vec![(123u64 * 3600 + 45 * 60 + 12) * 1000]
    );
    assert!(parse_timestamps("[01:05:99]").is_empty());
    assert!(parse_timestamps("text [99999:00]").is_empty());
}

#[test]
fn parses_mm_ss_and_h_mm_ss_markers() {
    let text = "Decision at [01:05], revisited [92:11] and again at [1:32:07].";
    assert_eq!(
        parse_timestamps(text),
        vec![65_000, (92 * 60 + 11) * 1000, ((1 * 60 + 32) * 60 + 7) * 1000]
    );
}

#[test]
fn ignores_non_marker_brackets_and_dedups() {
    let text = "[TODO] fix [01:05] later; see [01:05] and [notes] and [12:99].";
    assert_eq!(parse_timestamps(text), vec![65_000]);
}

#[test]
fn marker_at_boundaries_and_empty() {
    assert_eq!(parse_timestamps("[00:00]"), vec![0]);
    assert!(parse_timestamps("").is_empty());
    assert!(parse_timestamps("no markers here").is_empty());
    assert!(parse_timestamps("broken [12:3").is_empty());
}

fn seg(id: i64, start: u64, end: u64) -> SegmentSpan {
    SegmentSpan { id, start_ms: start, end_ms: end }
}

#[test]
fn resolves_containment_exactly() {
    let segs = vec![seg(1, 0, 4_000), seg(2, 5_000, 9_000)];
    assert_eq!(resolve_segment(6_000, &segs), Some(2));
    assert_eq!(resolve_segment(0, &segs), Some(1));
    assert_eq!(resolve_segment(4_000, &segs), Some(1));
}

#[test]
fn snaps_truncated_marker_to_nearest_start_within_tolerance() {
    let segs = vec![seg(1, 0, 60_000), seg(2, 65_400, 80_000)];
    assert_eq!(resolve_segment(65_000, &segs), Some(2));
}

#[test]
fn drops_marker_beyond_tolerance() {
    let segs = vec![seg(1, 0, 4_000)];
    assert_eq!(resolve_segment(8_000, &segs), Some(1));
    assert_eq!(resolve_segment(120_000, &segs), None);
    assert_eq!(resolve_segment(0, &[]), None);
}

#[test]
fn parses_action_items_with_owner_timestamp_variants() {
    let response = "\
* Sarah: send the revised budget to finance [12:41]
- Me: file the DER benchmark issue
• Unassigned: book a room for the offsite [01:05]
Some stray narration the model added.
* : broken line skipped
* NoTask:";
    let items = parse_action_items(response);
    assert_eq!(items.len(), 3);
    assert_eq!(
        items[0],
        ActionItem {
            owner: Some("Sarah".into()),
            text: "send the revised budget to finance".into(),
            ts_ms: Some((12 * 60 + 41) * 1000),
        }
    );
    assert_eq!(items[1].owner.as_deref(), Some("Me"));
    assert_eq!(items[1].ts_ms, None);
    assert_eq!(items[2].owner, None, "Unassigned maps to no owner");
    assert_eq!(items[2].text, "book a room for the offsite");
}

#[test]
fn quote_snippet_truncates_on_char_boundaries() {
    assert_eq!(quote_snippet("short"), "short");
    let long = "é".repeat(400);
    let q = quote_snippet(&long);
    assert!(q.ends_with('…'));
    assert_eq!(q.chars().count(), 241);
}

#[test]
fn none_response_yields_no_items() {
    assert!(parse_action_items("None").is_empty());
    assert!(parse_action_items("").is_empty());
}

#[test]
fn only_a_truly_trailing_marker_is_stripped() {
    let items = parse_action_items("* Owner: do the thing [12:41] more]");
    assert_eq!(items[0].text, "do the thing [12:41] more]");
    assert_eq!(items[0].ts_ms, Some((12 * 60 + 41) * 1000));
    let t = parse_action_items("* Owner: ship it [02:00]");
    assert_eq!(t[0].text, "ship it");
    let two = parse_action_items("* Owner: foo [01:00] bar [02:00]");
    assert_eq!(two[0].text, "foo [01:00] bar");
    assert_eq!(two[0].ts_ms, Some(120_000));
}

#[test]
fn bracketed_owner_format_is_tolerated() {
    let items = parse_action_items("* [Kim]: draft the rollout plan [03:00]");
    assert_eq!(items[0].owner.as_deref(), Some("Kim"));
    assert_eq!(items[0].text, "draft the rollout plan");
    assert_eq!(items[0].ts_ms, Some(180_000));
}

// ---- further cases ----

#[test]
fn nearest_start_ties_pick_lower_id() {
    let segs = vec![seg(7, 10_000, 11_000), seg(3, 20_000, 21_000)];
    // 15_000 is 5_000 from both starts.
    assert_eq!(resolve_segment(15_000, &segs), Some(3));
}

#[test]
fn marker_only_task_is_skipped_and_crlf_lines_work() {
    assert!(parse_action_items("* Ann: [01:00]").is_empty());
    let items = parse_action_items("* UNASSIGNED: a\r\n* Bob: b [1:00:00]\r\n");
    assert_eq!(items.len(), 2);
    assert_eq!(items[0].owner, None);
    assert_eq!(items[1].owner.as_deref(), Some("Bob"));
    assert_eq!(items[1].text, "b");
    assert_eq!(items[1].ts_ms, Some(3_600_000));
}

#[test]
fn quote_snippet_trims_before_ellipsis() {
    let mut s = "a".repeat(239);
    s.push(' ');
    s.push_str("tail");
    let q = quote_snippet(&s);
    assert_eq!(q.chars().count(), 240);
    assert!(q.ends_with("a…"));
    let exact = "b".repeat(240);
    assert_eq!(quote_snippet(&exact), exact);
}

#[test]
fn timestamps_reject_malformed_fields() {
    assert!(parse_timestamps("[1:5]").is_empty());
    assert!(parse_timestamps("[:05]").is_empty());
    assert!(parse_timestamps("[1:60]").is_empty());
    assert!(parse_timestamps("[1:2:3:4]").is_empty());
    assert!(parse_timestamps("[1:60:00]").is_empty());
    assert_eq!(parse_timestamps("[9999:59]"), vec![(9999 * 60 + 59) * 1000]);
}

#[test]
fn equally_near_starts_resolve_to_smaller_id() {
    let segs = vec![
        SegmentSpan { id: 5, start_ms: 10_000, end_ms: 11_000 },
        SegmentSpan { id: 3, start_ms: 20_000, end_ms: 21_000 },
    ];
    assert_eq!(resolve_segment(15_000, &segs), Some(3));
}
