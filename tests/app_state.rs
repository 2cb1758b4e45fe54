use email_assassin::bridge::BackgroundEvent;
use email_assassin::provider::ImapProvider;
use email_assassin::state::{AppPhase, AppState, DeleteMode, Fraction, SenderInfo};

fn info(e: &str, c: usize) -> SenderInfo {
    SenderInfo { email: e.to_string(), count: c }
}

fn scanned() -> AppState {
    let mut st = AppState::default();
    st.apply_event(BackgroundEvent::ScanComplete {
        senders: vec![info("a@x", 5), info("b@x", 3), info("c@x", 1)],
        total_emails: 20,
    });
    st
}

#[test]
fn default_state() {
    let st = AppState::default();
    assert_eq!(st.folder, "INBOX");
    assert_eq!(st.phase, AppPhase::Idle);
    assert_eq!(st.delete_mode, DeleteMode::Trash);
    assert_eq!(st.scan_depth, 0);
    assert!(st.senders.is_empty());
    assert!(st.error_message.is_none());
}

#[test]
fn scan_complete_fills_state() {
    let st = scanned();
    assert_eq!(st.phase, AppPhase::ScanComplete);
    assert_eq!(st.total_emails, 20);
    assert_eq!(st.unique_senders(), 3);
    assert_eq!(st.total_scanned(), 9);
    assert_eq!(st.scan_progress, Fraction { num: 1, den: 1 });
    assert_eq!(st.scan_status, "Complete");
}

#[test]
fn selection_and_counts() {
    let mut st = scanned();
    st.set_selected(&"a@x".to_string(), true);
    st.set_selected(&"c@x".to_string(), true);
    st.set_selected(&"c@x".to_string(), true);
    assert!(st.is_selected(&"a@x".to_string()));
    assert!(!st.is_selected(&"b@x".to_string()));
    let sel: Vec<&str> = st.selected_senders().iter().map(|s| s.email.as_str()).collect();
    assert_eq!(sel, vec!["a@x", "c@x"]);
    assert_eq!(st.selected_email_count(), 6);
    st.set_selected(&"a@x".to_string(), false);
    assert_eq!(st.selected_email_count(), 1);
}

#[test]
fn delete_complete_keeps_failed_senders() {
    let mut st = scanned();
    st.set_selected(&"a@x".to_string(), true);
    st.set_selected(&"b@x".to_string(), true);
    st.apply_event(BackgroundEvent::DeleteError("Failed to purge b@x: down".to_string()));
    st.apply_event(BackgroundEvent::DeleteComplete {
        removed_senders: vec!["a@x".to_string()],
        total_removed: 5,
    });
    let left: Vec<&str> = st.senders.iter().map(|s| s.email.as_str()).collect();
    assert_eq!(left, vec!["b@x", "c@x"]);
    assert_eq!(st.sender_selected, vec!["b@x".to_string()]);
    assert_eq!(st.delete_status, "Removed 5 emails");
    assert_eq!(st.delete_progress, Fraction { num: 1, den: 1 });
    assert_eq!(st.error_message.as_deref(), Some("Failed to purge b@x: down"));
    assert_eq!(st.phase, AppPhase::ScanComplete);
}

#[test]
fn scan_error_returns_to_idle() {
    let mut st = AppState::default();
    st.phase = AppPhase::Scanning;
    st.apply_event(BackgroundEvent::ScanError("Authentication failed: no".to_string()));
    assert_eq!(st.phase, AppPhase::Idle);
    assert_eq!(st.error_message.as_deref(), Some("Authentication failed: no"));
}

#[test]
fn progress_events_update_status() {
    let mut st = AppState::default();
    st.apply_event(BackgroundEvent::ScanProgress {
        progress: Fraction { num: 5, den: 100 },
        status: "Found 10 emails, scanning 10...".to_string(),
    });
    assert_eq!(st.scan_progress, Fraction { num: 5, den: 100 });
    assert_eq!(st.scan_status, "Found 10 emails, scanning 10...");
    st.apply_event(BackgroundEvent::DeleteProgress {
        progress: Fraction { num: 1, den: 3 },
        status: "Completed 1/3".to_string(),
    });
    assert_eq!(st.delete_progress, Fraction { num: 1, den: 3 });
    assert_eq!(st.delete_status, "Completed 1/3");
}

#[test]
fn removed_status_counts_large_numbers() {
    let mut st = scanned();
    st.apply_event(BackgroundEvent::DeleteComplete {
        removed_senders: Vec::new(),
        total_removed: 1_234_500,
    });
    assert_eq!(st.delete_status, "Removed 1234500 emails");
    assert_eq!(st.unique_senders(), 3);
}

#[test]
fn provider_by_domain() {
    let g = ImapProvider::from_email("me@gmail.com");
    assert_eq!((g.host, g.port, g.trash_folder), ("imap.gmail.com", 993, "[Gmail]/Trash"));
    let o = ImapProvider::from_email("Me@HOTMAIL.com");
    assert_eq!((o.host, o.trash_folder), ("imap-mail.outlook.com", "Deleted"));
    let l = ImapProvider::from_email("x@live.com");
    assert_eq!(l.host, "imap-mail.outlook.com");
    let y = ImapProvider::from_email("x@Yahoo.co.uk");
    assert_eq!((y.host, y.trash_folder), ("imap.mail.yahoo.com", "Trash"));
    let i = ImapProvider::from_email("x@icloud.com");
    assert_eq!((i.host, i.trash_folder), ("imap.mail.me.com", "Deleted Messages"));
    let m = ImapProvider::from_email("x@mac.com");
    assert_eq!(m.host, "imap.mail.me.com");
}

#[test]
fn provider_uses_last_at_and_defaults() {
    let p = ImapProvider::from_email("odd@outlook@company.org");
    assert_eq!(p.host, "imap.gmail.com");
    let q = ImapProvider::from_email("no-at-sign-yahoo");
    assert_eq!(q.host, "imap.mail.yahoo.com");
    let r = ImapProvider::from_email("");
    assert_eq!(r.port, 993);
    assert_eq!(r.host, "imap.gmail.com");
}
