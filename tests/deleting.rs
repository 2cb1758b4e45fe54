use email_assassin::deleter::{
    purge_plan, sanitize_address, search_query, DeleteBatch, PurgeCommand, PurgeRun,
};
use email_assassin::error::AppError;
use email_assassin::state::DeleteMode;

fn ids(n: u32) -> Vec<u32> {
    (1..=n).collect()
}

#[test]
fn sanitize_strips_quotes() {
    let s = sanitize_address("evil\"OR\"x");
    assert_eq!(s, "evilORx");
    assert!(!s.contains('"'));
}

#[test]
fn sanitize_keeps_plain_address() {
    assert_eq!(sanitize_address("news@shop.example"), "news@shop.example");
    assert_eq!(sanitize_address(""), "");
    assert_eq!(sanitize_address("\"\""), "");
}

#[test]
fn search_query_quotes_sanitized_address() {
    assert_eq!(search_query("evil\"OR\"x"), "FROM \"evilORx\"");
    assert_eq!(search_query("a@b.c"), "FROM \"a@b.c\"");
}

#[test]
fn permanent_purge_of_1500_is_two_pairs() {
    let plan = purge_plan(&ids(1500), DeleteMode::Permanent);
    assert_eq!(plan.len(), 2);
    match (&plan[0], &plan[1]) {
        (PurgeCommand::DeleteAndExpunge(a), PurgeCommand::DeleteAndExpunge(b)) => {
            assert_eq!(a.len(), 1000);
            assert_eq!(b.len(), 500);
            assert_eq!(a[0], 1);
            assert_eq!(b[0], 1001);
        }
        other => panic!("unexpected plan {:?}", other),
    }
}

#[test]
fn trash_purge_of_1500_is_two_moves() {
    let plan = purge_plan(&ids(1500), DeleteMode::Trash);
    assert_eq!(plan.len(), 2);
    assert!(plan.iter().all(|c| matches!(c, PurgeCommand::MoveToTrash(_))));
    assert_eq!(plan[0].ids().len(), 1000);
    assert_eq!(plan[1].ids().len(), 500);
}

#[test]
fn purge_of_nothing_reports_zero() {
    let run = PurgeRun::new(&Vec::new(), DeleteMode::Permanent);
    assert!(run.next_command().is_none());
    assert!(run.is_finished());
    assert_eq!(run.outcome().unwrap(), 0);
}

#[test]
fn purge_run_counts_all_found_on_success() {
    let mut run = PurgeRun::new(&ids(2001), DeleteMode::Trash);
    let mut seen = Vec::new();
    while let Some(cmd) = run.next_command() {
        seen.push(cmd.ids().len());
        run.record(Ok(()));
    }
    assert_eq!(seen, vec![1000, 1000, 1]);
    assert_eq!(run.outcome().unwrap(), 2001);
}

#[test]
fn purge_run_stops_at_first_failure() {
    let mut run = PurgeRun::new(&ids(3000), DeleteMode::Permanent);
    assert!(run.next_command().is_some());
    run.record(Ok(()));
    run.record(Err(AppError::Imap("store refused".to_string())));
    assert!(run.next_command().is_none());
    match run.outcome() {
        Err(AppError::Imap(m)) => assert_eq!(m, "store refused"),
        other => panic!("unexpected outcome {:?}", other),
    }
}

#[test]
fn purge_many_skips_failed_sender() {
    let senders = vec!["a@x".to_string(), "b@x".to_string(), "c@x".to_string()];
    let mut batch = DeleteBatch::new(senders);
    let mut progress = Vec::new();
    let outcomes = vec![Ok(4), Err(AppError::Connection("down".to_string())), Ok(6)];
    for o in outcomes {
        let who = batch.current().unwrap().clone();
        assert!(!who.is_empty());
        let f = batch.progress();
        progress.push((f.num, f.den));
        batch.record(o);
    }
    assert!(batch.current().is_none());
    let f = batch.progress();
    progress.push((f.num, f.den));
    assert_eq!(progress, vec![(0, 3), (1, 3), (2, 3), (3, 3)]);
    let (removed, total) = batch.finish();
    assert_eq!(removed, vec!["a@x".to_string(), "c@x".to_string()]);
    assert_eq!(total, 10);
}

#[test]
fn purge_many_of_nothing() {
    let batch = DeleteBatch::new(Vec::new());
    assert!(batch.current().is_none());
    assert_eq!(batch.total_removed(), 0);
    let (removed, total) = batch.finish();
    assert!(removed.is_empty());
    assert_eq!(total, 0);
}

#[test]
fn error_messages_name_their_kind() {
    assert_eq!(AppError::Imap("x".to_string()).message(), "IMAP error: x");
    assert_eq!(AppError::Tls("y".to_string()).message(), "TLS error: y");
    assert_eq!(AppError::Auth("z".to_string()).message(), "Authentication failed: z");
    assert_eq!(
        AppError::Connection("TCP connect timed out after 30s".to_string()).message(),
        "Connection failed: TCP connect timed out after 30s"
    );
}
