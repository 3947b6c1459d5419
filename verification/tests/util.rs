use grok_cli::util::{
    diff_lines, diff_stats, estimate_tokens, format_duration, format_unix_utc, is_within,
    looks_binary, number_lines, resolve, truncate_text, Duration,
};

#[test]
fn token_estimate_rounds_up_so_short_strings_never_cost_zero() {
    assert_eq!(estimate_tokens(""), 0);
    assert_eq!(estimate_tokens("a"), 1);
    assert_eq!(estimate_tokens("abcd"), 1);
    assert_eq!(estimate_tokens("abcde"), 2);
}

#[test]
fn unix_epoch_and_a_known_instant_format_correctly() {
    assert_eq!(format_unix_utc(0), "1970-01-01T00:00:00Z");
    assert_eq!(format_unix_utc(1_788_758_660), "2026-09-07T05:24:20Z");
}

#[test]
fn leap_days_are_handled() {
    assert_eq!(format_unix_utc(1_709_164_800), "2024-02-29T00:00:00Z");
}

#[test]
fn relative_paths_resolve_against_the_workspace() {
    let ws = "/repo";
    assert_eq!(resolve(ws, "src/main.rs"), "/repo/src/main.rs");
    assert_eq!(resolve(ws, "./src/../lib.rs"), "/repo/lib.rs");
    assert_eq!(resolve(ws, "/etc/hosts"), "/etc/hosts");
}

#[test]
fn dot_dot_escaping_the_workspace_is_detectable() {
    let ws = "/repo";
    let escaped = resolve(ws, "../secrets.txt");
    assert_eq!(escaped, "/secrets.txt");
    assert!(!is_within(ws, &escaped), "the sandbox check must see the escape");
    assert!(is_within(ws, &resolve(ws, "a/../b.rs")));
}

#[test]
fn truncation_reports_what_it_dropped_and_respects_char_boundaries() {
    let out = truncate_text("aaaa😀bbbbbbbb", 6);
    assert!(out.starts_with("aaaa"), "got {out}");
    assert!(out.contains("truncated"));
    assert_eq!(truncate_text("short", 100), "short", "short input passes through unchanged");
}

#[test]
fn binary_detection_keys_on_nul_bytes() {
    assert!(looks_binary(b"\x7fELF\0\0"));
    assert!(!looks_binary(b"fn main() {}"));
}

#[test]
fn line_numbering_starts_where_it_is_told() {
    assert_eq!(number_lines("a\nb", 10), "    10\ta\n    11\tb\n");
}

#[test]
fn diff_stats_count_only_changed_lines() {
    let (added, removed) = diff_stats("a\nb\nc\n", "a\nB\nc\nd\n");
    assert_eq!(
        (added, removed),
        (2, 1),
        "b→B is one removal plus one addition; d is a further addition"
    );
}

#[test]
fn identical_text_produces_no_diff() {
    assert!(diff_lines("same\n", "same\n", 3).is_empty());
    assert_eq!(diff_stats("same\n", "same\n"), (0, 0));
}

#[test]
fn durations_format_at_three_scales() {
    assert_eq!(format_duration(Duration::from_millis(340)), "340ms");
    assert_eq!(format_duration(Duration::from_millis(2400)), "2.4s");
    assert_eq!(format_duration(Duration::from_secs(72)), "1m12s");
}

#[test]
fn truncation_states_the_bytes_it_dropped() {
    // Six bytes end inside the emoji, so four are kept of sixteen.
    assert_eq!(
        truncate_text("aaaa😀bbbbbbbb", 6),
        "aaaa\n\n[truncated 12 bytes of 16 total]"
    );
}

#[test]
fn dot_dot_at_the_root_stays_there() {
    assert_eq!(resolve("/", "../../etc"), "/etc");
    assert!(is_within("/", "/etc"));
    assert!(!is_within("/repo", "/repository"), "a sibling with the same start is outside");
}

#[test]
fn a_diff_shows_context_around_each_change() {
    let lines = diff_lines("a\nb\nc\n", "a\nB\nc\n", 1);
    let texts: Vec<&str> = lines.iter().map(|l| l.text.as_str()).collect();
    assert_eq!(texts, ["a", "b", "B", "c"]);
}

#[test]
fn long_durations_are_whole_seconds() {
    assert_eq!(format_duration(Duration::from_millis(0)), "0ms");
    assert_eq!(format_duration(Duration::from_millis(999)), "999ms");
    assert_eq!(format_duration(Duration::from_secs(3600)), "60m00s");
}

#[test]
fn cut_text_stays_near_its_bound() {
    let long = "é".repeat(100_000);
    for max in [0, 1, 7, 1024, 199_999] {
        let cut = truncate_text(&long, max);
        assert!(cut.len() <= max + 70, "{} bytes for a bound of {max}", cut.len());
        assert!(cut.ends_with(" total]"));
    }
    assert_eq!(truncate_text(&long, 200_000), long);
}

#[test]
fn timestamps_sort_as_the_times_do() {
    let times = [0, 59, 60, 86_399, 86_400, 951_782_400, 951_868_800, 1_767_225_599, 253_402_300_799];
    let stamps: Vec<String> = times.iter().map(|t| format_unix_utc(*t)).collect();
    assert!(stamps.iter().all(|s| s.len() == 20));
    assert!(stamps.windows(2).all(|w| w[0] < w[1]), "got: {stamps:?}");
    assert_eq!(stamps[5], "2000-02-29T00:00:00Z");
    assert_eq!(stamps[8], "9999-12-31T23:59:59Z");
}
