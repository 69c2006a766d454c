use unibot::logging::{
    cleanup_cutoff, cleanup_delay_ms, cleanup_due_at_startup, default_entry_ts, file_line_seqs,
    file_log_candidates, log_candidate, next_file_base, log_file_date, log_file_wanted, parse_level, query_accepts,
    query_date_bounds, select_log_entries, should_delete_log, LogCandidate, LogLevel, LogQuery,
};

fn line(ts: i64, seq: u64, level: &str, text: &str) -> LogCandidate {
    LogCandidate { ts: Some(ts), seq, level: Some(level.to_string()), text: text.to_string() }
}

fn query(before: Option<u64>, before_seq: Option<u64>, limit: usize) -> LogQuery {
    LogQuery::new(None, before, before_seq, limit, None, &Vec::new())
}

#[test]
fn selection_is_newest_first_by_time_then_seq() {
    let cands = vec![
        line(1000, 0, "INFO", "a"),
        line(1000, 40, "INFO", "b"),
        line(1000, 80, "INFO", "c"),
        line(2000, 120, "INFO", "new"),
    ];
    let keys = select_log_entries(&query(None, None, 10), &cands);
    let order: Vec<usize> = keys.iter().map(|k| k.index).collect();
    assert_eq!(order, vec![3, 2, 1, 0]);
    assert!(keys.windows(2).all(|w| (w[0].ts, w[0].seq) > (w[1].ts, w[1].seq)));
}

#[test]
fn selection_pages_with_a_cursor() {
    let cands: Vec<LogCandidate> = (0..5).map(|i| line(1000, i * 40, "INFO", "x")).collect();
    let page1 = select_log_entries(&query(None, None, 2), &cands);
    assert_eq!(page1.len(), 2);
    let oldest = page1[1];
    let page2 = select_log_entries(&query(Some(1000), Some(oldest.seq), 2), &cands);
    assert_eq!(page2.len(), 2);
    assert!(page2.iter().all(|k| k.seq < oldest.seq));
    let page3 = select_log_entries(&query(Some(1000), Some(page2[1].seq), 2), &cands);
    assert_eq!(page3.len(), 1);
    assert_eq!(page3[0].seq, 0);
}

#[test]
fn query_filters_time_level_and_keyword() {
    let levels = vec!["WARN".to_string()];
    let q = LogQuery::new(Some(100), Some(500), None, 10, Some("  DisK "), &levels);
    assert_eq!(q.since, Some(100));
    assert_eq!(q.keyword.as_deref(), Some("disk"));
    assert_eq!(q.levels, vec!["warn".to_string()]);
    assert!(query_accepts(&q, &line(200, 0, "warn", "Disk full")));
    assert!(!query_accepts(&q, &line(200, 0, "info", "Disk full")));
    assert!(!query_accepts(&q, &line(50, 0, "warn", "disk")));
    assert!(!query_accepts(&q, &line(500, 0, "warn", "disk")));
    assert!(!query_accepts(&q, &line(200, 0, "warn", "cpu")));
    let no_ts = LogCandidate { ts: None, seq: 0, level: Some("warn".into()), text: "disk".into() };
    assert!(!query_accepts(&q, &no_ts));
    let big = LogQuery::new(Some(u64::MAX), None, None, 1, Some("   "), &Vec::new());
    assert_eq!(big.since, Some(i64::MAX));
    assert_eq!(big.keyword, None);
}

#[test]
fn level_names_parse_like_tracing() {
    assert_eq!(parse_level("DEBUG"), (LogLevel::Debug, true));
    assert_eq!(parse_level("3"), (LogLevel::Info, true));
    assert_eq!(parse_level("+5"), (LogLevel::Trace, true));
    assert_eq!(parse_level("0"), (LogLevel::Off, true));
    assert_eq!(parse_level(""), (LogLevel::Error, true));
    assert_eq!(parse_level("6"), (LogLevel::Info, false));
    assert_eq!(parse_level("loud"), (LogLevel::Info, false));
    assert_eq!(parse_level("Trace"), (LogLevel::Trace, true));
}

#[test]
fn log_file_names_and_dates() {
    assert_eq!(log_file_date("unibot.2024-06-12.log"), Some((2024, 6, 12)));
    assert_eq!(log_file_date("unibot.2024-02-30.log"), None);
    assert_eq!(log_file_date("other.2024-06-12.log"), None);
    assert!(log_file_wanted("unibot.2024-06-12.log", Some((2024, 6, 12)), Some((2024, 6, 12))));
    assert!(!log_file_wanted("unibot.2024-06-11.log", Some((2024, 6, 12)), None));
    assert!(!log_file_wanted("unibot.2024-06-13.log", None, Some((2024, 6, 12))));
    assert!(log_file_wanted("notes.log", Some((2024, 6, 12)), None));
    assert!(!log_file_wanted("unibot.2024-06-12.txt", None, None));
}

#[test]
fn dates_of_times() {
    let q = LogQuery::new(Some(1718150400000), Some(1718236800000), None, 5, None, &Vec::new());
    assert_eq!(query_date_bounds(&q), (Some((2024, 6, 12)), Some((2024, 6, 13))));
    assert_eq!(default_entry_ts(false, Some((2024, 6, 12))), Some(1718150400000));
    assert_eq!(default_entry_ts(true, Some((2024, 6, 12))), None);
    assert_eq!(default_entry_ts(false, None), None);
}

#[test]
fn cleanup_rules() {
    assert_eq!(cleanup_cutoff(1_000_000_000_000, 0), None);
    assert_eq!(cleanup_cutoff(1_000_000_000_000, 1), Some(1_000_000_000_000 - 86_400_000));
    assert_eq!(cleanup_cutoff(1000, 7), Some(0));
    let cutoff = 1718150400000; // 2024-06-12T00:00:00Z
    assert!(should_delete_log("unibot.2024-06-11.log", cutoff));
    assert!(!should_delete_log("unibot.2024-06-12.log", cutoff));
    assert!(!should_delete_log("random.log", cutoff));
    assert!(!should_delete_log("unibot.2024-06-01.txt", cutoff));
}

#[test]
fn cleanup_schedule() {
    assert!(cleanup_due_at_startup(0, 1000));
    assert!(cleanup_due_at_startup(999, 1000));
    assert!(!cleanup_due_at_startup(1000, 1000));
    assert!(!cleanup_due_at_startup(5000, 1000));
    assert_eq!(cleanup_delay_ms(1000, 4000), 3000);
    assert_eq!(cleanup_delay_ms(4000, 1000), 0);
    assert_eq!(cleanup_delay_ms(i64::MIN, i64::MAX), u64::MAX);
}

#[test]
fn cursor_pages_cover_the_listing() {
    let cands = vec![
        line(3000, 0, "INFO", "a"),
        line(1000, 40, "INFO", "b"),
        line(3000, 80, "INFO", "c"),
        line(2000, 120, "INFO", "d"),
        line(1000, 160, "INFO", "e"),
    ];
    let all: Vec<usize> = select_log_entries(&query(None, None, 10), &cands).iter().map(|k| k.index).collect();
    assert_eq!(all, vec![2, 0, 3, 4, 1]);
    let mut paged: Vec<usize> = Vec::new();
    let mut cursor: Option<(u64, u64)> = None;
    loop {
        let q = match cursor {
            Some((ts, seq)) => query(Some(ts), Some(seq), 2),
            None => query(None, None, 2),
        };
        let page = select_log_entries(&q, &cands);
        paged.extend(page.iter().map(|k| k.index));
        if page.len() < 2 {
            break;
        }
        let last = page[page.len() - 1];
        cursor = Some((last.ts.unwrap() as u64, last.seq));
    }
    assert_eq!(paged, all);
}

#[test]
fn line_seqs_are_byte_offsets_across_files() {
    let first = file_line_seqs(0, &vec![41, 41, 1, 42]);
    assert_eq!(first, vec![0, 41, 82, 83]);
    let base = next_file_base(0, 125);
    assert_eq!(base, 125);
    let second = file_line_seqs(base, &vec![10, 20]);
    assert_eq!(second, vec![125, 135]);
    assert!(file_line_seqs(7, &Vec::new()).is_empty());
}

fn leap(y: i64) -> bool {
    y.rem_euclid(4) == 0 && (y.rem_euclid(100) != 0 || y.rem_euclid(400) == 0)
}

fn month_days(y: i64, m: i64) -> i64 {
    match m {
        2 => {
            if leap(y) {
                29
            } else {
                28
            }
        }
        4 | 6 | 9 | 11 => 30,
        _ => 31,
    }
}

fn days_from_civil(y: i64, m: i64, d: i64) -> i64 {
    let yy = if m <= 2 { y - 1 } else { y };
    let era = yy.div_euclid(400);
    let yoe = yy - era * 400;
    let mp = if m > 2 { m - 3 } else { m + 9 };
    let doy = (153 * mp + 2) / 5 + d - 1;
    let doe = yoe * 365 + yoe / 4 - yoe / 100 + doy;
    era * 146097 + doe - 719468
}

fn civil_from_days(z: i64) -> (i64, i64, i64) {
    let zz = z + 719468;
    let era = zz.div_euclid(146097);
    let doe = zz - era * 146097;
    let yoe = (doe - doe / 1460 + doe / 36524 - doe / 146096) / 365;
    let doy = doe - (365 * yoe + yoe / 4 - yoe / 100);
    let mp = (5 * doy + 2) / 153;
    let d = doy - (153 * mp + 2) / 5 + 1;
    let m = if mp < 10 { mp + 3 } else { mp - 9 };
    (yoe + era * 400 + if m <= 2 { 1 } else { 0 }, m, d)
}

#[test]
fn midnights_follow_the_calendar_formula() {
    let years = [
        -262145, -262144, -262143, -262142, -4801, -401, -400, -100, -4, -1, 0, 1, 4, 100, 1600,
        1900, 1969, 1970, 2000, 2023, 2024, 2100, 262141, 262142, 262143,
    ];
    for y in years {
        for m in 0..=13i64 {
            for d in [0i64, 1, 15, 28, 29, 30, 31, 32] {
                let valid = (-262143..=262142).contains(&y)
                    && (1..=12).contains(&m)
                    && d >= 1
                    && d <= month_days(y, m);
                // A date chrono cannot make falls back to time 0.
                let expected = if valid { Some(days_from_civil(y, m, d) * 86_400_000) } else { Some(0) };
                assert_eq!(
                    default_entry_ts(false, Some((y as i32, m as u32, d as u32))),
                    expected,
                    "{y}-{m}-{d}"
                );
            }
        }
    }
}

#[test]
fn dates_of_times_follow_the_calendar_formula() {
    let mut samples: Vec<i64> = (0..2000).map(|k| k * 4_999_999_937).collect();
    samples.extend([0, 86_399_999, 86_400_000, 951_782_400_000, 8_210_298_412_799_999, 8_210_298_412_800_000]);
    let max_day = days_from_civil(262142, 12, 31);
    for ts in samples {
        let z = ts.div_euclid(86_400_000);
        let expected = if z <= max_day {
            let (y, m, d) = civil_from_days(z);
            Some((y as i32, m as u32, d as u32))
        } else {
            None
        };
        let q = LogQuery::new(Some(ts as u64), None, None, 1, None, &Vec::new());
        assert_eq!(query_date_bounds(&q).0, expected, "{ts}");
    }
    let q = LogQuery::new(Some(u64::MAX), None, None, 1, None, &Vec::new());
    assert_eq!(query_date_bounds(&q).0, None);
}

#[test]
fn log_lines_become_candidates() {
    let lines: Vec<String> = vec![
        "{\"level\":\"INFO\",\"target\":\"t\",\"msg\":\"a\"}\n".to_string(),
        "   \n".to_string(),
        "not json\n".to_string(),
        "{\"ts\":5,\"level\":\"warn\"}\n".to_string(),
        "null\n".to_string(),
    ];
    let lengths: Vec<u64> = lines.iter().map(|l| l.len() as u64).collect();
    let found = file_log_candidates(100, &lines, &lengths, Some((2024, 6, 12))).unwrap();
    assert_eq!(found.len(), 3);

    assert_eq!(found[0].ts, Some(1718150400000));
    assert_eq!(found[0].seq, 100);
    assert_eq!(found[0].level.as_deref(), Some("INFO"));
    assert_eq!(found[0].text, "{\"level\":\"INFO\",\"msg\":\"a\",\"seq\":100,\"target\":\"t\",\"ts\":1718150400000}");

    let fourth = 100 + lengths[0] + lengths[1] + lengths[2];
    assert_eq!(found[1].ts, Some(5));
    assert_eq!(found[1].seq, fourth);
    assert_eq!(found[1].level.as_deref(), Some("warn"));
    assert_eq!(found[1].text, format!("{{\"level\":\"warn\",\"seq\":{fourth},\"ts\":5}}"));

    assert_eq!(found[2].ts, Some(1718150400000));
    assert_eq!(found[2].level, None);
    assert_eq!(found[2].text, format!("{{\"seq\":{},\"ts\":1718150400000}}", fourth + lengths[3]));

    // Without a date in the file name a line without `ts` keeps none.
    let c = log_candidate("{\"msg\":\"x\"}", None, 7).unwrap();
    assert_eq!(c.ts, None);
    assert_eq!(c.text, "{\"msg\":\"x\",\"seq\":7}");
    assert!(log_candidate("  ", None, 0).is_none());
    assert!(log_candidate("{oops", None, 0).is_none());

    // A JSON number cannot take fields: reading the file stops.
    let bad = vec!["5\n".to_string()];
    assert!(file_log_candidates(0, &bad, &vec![2], None).is_none());
}

/// Reads in-memory log files (name and lines, oldest file first) the way the log reader does,
/// and returns the selected entries as JSON values.
fn read_files(files: &[(&str, Vec<String>)], q: &LogQuery) -> Vec<serde_json::Value> {
    let mut cands: Vec<LogCandidate> = Vec::new();
    let mut base: u64 = 0;
    for (name, lines) in files {
        let lines: Vec<String> = lines.iter().map(|l| format!("{l}\n")).collect();
        let lengths: Vec<u64> = lines.iter().map(|l| l.len() as u64).collect();
        let size: u64 = lengths.iter().sum();
        cands.extend(file_log_candidates(base, &lines, &lengths, log_file_date(name)).unwrap());
        base = next_file_base(base, size);
    }
    select_log_entries(q, &cands)
        .iter()
        .map(|k| serde_json::from_str(&cands[k.index].text).unwrap())
        .collect()
}

fn seq_of(v: &serde_json::Value) -> u64 {
    v.get("seq").unwrap().as_u64().unwrap()
}

#[test]
fn log_files_give_newest_first_byte_offsets() {
    let files = [(
        "unibot.2024-06-12.log",
        vec![
            r#"{"level":"INFO","target":"t","msg":"a"}"#.to_string(),
            r#"{"level":"INFO","target":"t","msg":"b"}"#.to_string(),
            r#"{"level":"INFO","target":"t","msg":"c"}"#.to_string(),
        ],
    )];
    let entries = read_files(&files, &query(None, None, 10));
    assert_eq!(entries.len(), 3);
    let seqs: Vec<u64> = entries.iter().map(seq_of).collect();
    assert!(seqs.windows(2).all(|w| w[0] > w[1]));
    assert_eq!(seqs, vec![80, 40, 0]);
}

#[test]
fn log_files_page_by_time_and_seq_cursor() {
    let lines: Vec<String> =
        (0..5).map(|i| format!(r#"{{"level":"INFO","target":"t","msg":"{i}"}}"#)).collect();
    let files = [("unibot.2024-06-12.log", lines)];
    let page1 = read_files(&files, &query(None, None, 2));
    assert_eq!(page1.len(), 2);
    let oldest = page1.last().unwrap();
    let before = oldest.get("ts").unwrap().as_u64().unwrap();
    let before_seq = seq_of(oldest);

    let page2 = read_files(&files, &query(Some(before), Some(before_seq), 2));
    assert_eq!(page2.len(), 2);
    let page2_seqs: Vec<u64> = page2.iter().map(seq_of).collect();
    assert!(page2_seqs.iter().all(|s| *s < before_seq));
    assert!(page2_seqs.windows(2).all(|w| w[0] > w[1]));

    let page3 = read_files(&files, &query(Some(before), Some(seq_of(page2.last().unwrap())), 2));
    assert_eq!(page3.len(), 1);
    assert!(seq_of(&page3[0]) < page2_seqs[1]);
}

#[test]
fn log_files_sort_by_time_then_seq() {
    let files = [
        ("unibot.2024-06-12.log", vec![r#"{"level":"INFO","target":"t","msg":"old"}"#.to_string()]),
        ("unibot.2024-06-13.log", vec![r#"{"level":"INFO","target":"t","msg":"new"}"#.to_string()]),
    ];
    let entries = read_files(&files, &query(None, None, 10));
    assert_eq!(entries.len(), 2);
    assert_eq!(entries[0].get("msg").unwrap().as_str().unwrap(), "new");
    assert_eq!(entries[1].get("msg").unwrap().as_str().unwrap(), "old");
    assert_eq!(entries[1].get("ts").unwrap().as_i64().unwrap(), 1718150400000);
}
