use email_assassin::aggregate::ScanAggregator;
use email_assassin::header::{locate_sender, parse_sender, senders_from_headers};
use email_assassin::partition::{chunk_len, partition_ids, split_into_chunks, MAX_CONCURRENT};
use email_assassin::scan::{order_ids, plan_scan};
use email_assassin::state::SenderInfo;

fn ids(n: u32) -> Vec<u32> {
    (1..=n).collect()
}

#[test]
fn chunk_len_never_below_one() {
    assert_eq!(chunk_len(0, 10), 1);
    assert_eq!(chunk_len(7, 10), 1);
    assert_eq!(chunk_len(25, 10), 2);
    assert_eq!(chunk_len(100, 10), 10);
}

#[test]
fn partition_covers_every_identifier_once() {
    let all = ids(25);
    let chunks = partition_ids(&all, MAX_CONCURRENT);
    assert_eq!(chunks.len(), 13);
    assert!(chunks[..12].iter().all(|c| c.len() == 2));
    assert_eq!(chunks[12], vec![25]);
    let flat: Vec<u32> = chunks.concat();
    assert_eq!(flat, all);
}

#[test]
fn partition_chunk_count_within_one_of_concurrency() {
    for (n, c) in [(100u32, 10usize), (105, 10), (10, 10), (3, 10), (1, 1), (50, 7)] {
        let chunks = partition_ids(&ids(n), c);
        assert!(chunks.len() <= c + 1, "n={n} c={c} chunks={}", chunks.len());
        assert_eq!(chunks.concat(), ids(n));
    }
}

#[test]
fn partition_exceeds_bound_when_remainder_is_large() {
    // 19 identifiers over 10 workers: chunks of one, nineteen of them.
    let chunks = partition_ids(&ids(19), 10);
    assert_eq!(chunks.len(), 19);
}

#[test]
fn partition_of_nothing_is_empty() {
    assert!(partition_ids(&Vec::new(), 10).is_empty());
}

#[test]
fn split_into_delete_sized_chunks() {
    let chunks = split_into_chunks(&ids(2500), 1000);
    let sizes: Vec<usize> = chunks.iter().map(|c| c.len()).collect();
    assert_eq!(sizes, vec![1000, 1000, 500]);
}

#[test]
fn parse_sender_prefers_angle_brackets() {
    let r = parse_sender(b"From: \"Bob\" <BOB@Example.com>\r\n");
    assert_eq!(r.as_deref(), Some("bob@example.com"));
}

#[test]
fn parse_sender_takes_bare_text() {
    let r = parse_sender(b"From: marketing-team\r\n");
    assert_eq!(r.as_deref(), Some("marketing-team"));
}

#[test]
fn parse_sender_without_from_line_is_none() {
    assert_eq!(parse_sender(b"Subject: hello\r\nTo: a@b.c\r\n"), None);
    assert_eq!(parse_sender(b""), None);
}

#[test]
fn parse_sender_empty_value_is_none() {
    assert_eq!(parse_sender(b"From:   \r\n"), None);
}

#[test]
fn parse_sender_is_case_insensitive_on_field_name() {
    assert_eq!(parse_sender(b"FROM: Ann <ANN@x.org>").as_deref(), Some("ann@x.org"));
    assert_eq!(parse_sender(b"from:bob@y.org").as_deref(), Some("bob@y.org"));
}

#[test]
fn parse_sender_skips_empty_brackets() {
    assert_eq!(parse_sender(b"From: <> <real@z.net>").as_deref(), Some("real@z.net"));
}

#[test]
fn parse_sender_reads_only_the_first_line() {
    let r = parse_sender(b"From: Carl <carl@q.io>\r\nFrom: other@q.io\r\n");
    assert_eq!(r.as_deref(), Some("carl@q.io"));
}

#[test]
fn parse_sender_replaces_invalid_bytes() {
    let r = parse_sender(b"From: ab\xffc\r\n");
    assert_eq!(r.as_deref(), Some("ab\u{fffd}c"));
}

#[test]
fn locate_sender_bounds() {
    let text: Vec<char> = "X: y\nFrom:  A <a@b>  \n".chars().collect();
    assert_eq!(locate_sender(&text), Some((15, 18)));
}

#[test]
fn senders_from_headers_drops_unknown() {
    let headers = vec![
        b"From: A <a@x.com>".to_vec(),
        b"Subject: none".to_vec(),
        b"From: b@x.com".to_vec(),
    ];
    let s = senders_from_headers(&headers);
    assert_eq!(s, vec!["a@x.com".to_string(), "b@x.com".to_string()]);
}

fn sender_of(id: u32) -> Option<String> {
    if id % 7 == 0 {
        None
    } else {
        Some(format!("s{}@mail.test", id % 3))
    }
}

fn run_scan_with(all: &[u32], concurrency: usize, reverse: bool) -> Vec<(String, usize)> {
    let chunks = partition_ids(&all.to_vec(), concurrency);
    let mut agg = ScanAggregator::new(chunks.len());
    let order: Vec<usize> = if reverse {
        (0..chunks.len()).rev().collect()
    } else {
        (0..chunks.len()).collect()
    };
    for k in order {
        let batch: Vec<String> = chunks[k].iter().filter_map(|&i| sender_of(i)).collect();
        agg.record_batch(&batch);
    }
    let mut out: Vec<(String, usize)> =
        agg.finish().into_iter().map(|s| (s.email, s.count)).collect();
    out.sort();
    out
}

#[test]
fn aggregation_same_for_any_concurrency() {
    let all = ids(200);
    let one = run_scan_with(&all, 1, false);
    let ten = run_scan_with(&all, 10, true);
    assert_eq!(one, ten);
    let total: usize = one.iter().map(|p| p.1).sum();
    assert_eq!(total, 200 - 200 / 7);
}

#[test]
fn aggregator_sorts_by_count_descending() {
    let mut agg = ScanAggregator::new(2);
    agg.record_batch(&vec!["a".to_string(), "b".to_string(), "b".to_string()]);
    agg.record_batch(&vec!["c".to_string(), "b".to_string(), "c".to_string(), "c".to_string()]);
    let r = agg.finish();
    assert_eq!(r.len(), 3);
    assert_eq!(r[2], SenderInfo { email: "a".to_string(), count: 1 });
    assert!(r[0].count == 3 && r[1].count == 3);
    let mut top = vec![r[0].email.clone(), r[1].email.clone()];
    top.sort();
    assert_eq!(top, vec!["b".to_string(), "c".to_string()]);
    assert_eq!(agg.total_received(), 7);
}

#[test]
fn scan_progress_rises_to_one() {
    let mut agg = ScanAggregator::new(4);
    let mut last = 0.05f64;
    let mut fracs = Vec::new();
    for _ in 0..4 {
        let f = agg.record_batch(&Vec::new());
        let v = f.num as f64 / f.den as f64;
        assert!(v >= last);
        last = v;
        fracs.push((f.num, f.den));
    }
    assert_eq!(fracs[0], (5 * 4 + 95, 400));
    assert_eq!(fracs[3], (400, 400));
}

#[test]
fn scan_depth_keeps_most_recent() {
    let plan = plan_scan(ids(10_000), 500);
    assert_eq!(plan.total_messages, 10_000);
    assert_eq!(plan.to_scan.len(), 500);
    assert_eq!(plan.to_scan[0], 9_501);
    assert_eq!(*plan.to_scan.last().unwrap(), 10_000);
}

#[test]
fn scan_depth_zero_or_too_large_scans_all() {
    assert_eq!(plan_scan(ids(30), 0).to_scan.len(), 30);
    assert_eq!(plan_scan(ids(30), 30).to_scan.len(), 30);
    assert_eq!(plan_scan(ids(30), 31).to_scan.len(), 30);
}

#[test]
fn order_ids_sorts_and_dedups() {
    assert_eq!(order_ids(vec![9, 3, 3, 7, 1, 9]), vec![1, 3, 7, 9]);
    assert_eq!(order_ids(Vec::new()), Vec::<u32>::new());
}
