use whosaidwhat::detect::meet_url::is_meet_meeting_url;

#[test]
fn meeting_code_urls_match() {
    assert!(is_meet_meeting_url("https://meet.google.com/abc-defg-hij"));
    assert!(is_meet_meeting_url("https://meet.google.com/abc-defg-hij?authuser=0"));
    assert!(is_meet_meeting_url("http://meet.google.com/xyz-qrst-uvw#frag"));
    assert!(is_meet_meeting_url("  https://meet.google.com/abc-defg-hij\n"));
}

#[test]
fn lookup_urls_match() {
    assert!(is_meet_meeting_url("https://meet.google.com/lookup/team-standup"));
}

#[test]
fn landing_page_and_lobby_do_not_match() {
    assert!(!is_meet_meeting_url("https://meet.google.com/"));
    assert!(!is_meet_meeting_url("https://meet.google.com"));
    assert!(!is_meet_meeting_url("https://meet.google.com/landing"));
    assert!(!is_meet_meeting_url("https://meet.google.com/new"));
}

#[test]
fn other_urls_do_not_match() {
    assert!(!is_meet_meeting_url("https://calendar.google.com/abc-defg-hij"));
    assert!(!is_meet_meeting_url("https://example.com/https://meet.google.com/abc-defg-hij"));
    assert!(!is_meet_meeting_url(""));
    assert!(!is_meet_meeting_url("https://meet.google.com/ab1-defg-hij"));
    assert!(!is_meet_meeting_url("https://meet.google.com/abc-defg-hij-x"));
}

#[test]
fn uppercase_codes_and_fragments_on_lookup() {
    assert!(is_meet_meeting_url("https://meet.google.com/ABC-DEFG-HIJ"));
    assert!(is_meet_meeting_url("https://meet.google.com/lookup/x?y=1"));
    assert!(!is_meet_meeting_url("https://meet.google.com/abc-defghij"));
    assert!(!is_meet_meeting_url("https://meet.google.com/?abc-defg-hij"));
    assert!(!is_meet_meeting_url("https://meet.google.com/abc-défg-hij"));
}
