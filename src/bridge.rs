use vstd::prelude::*;
use crate::state::{DeleteMode, Fraction, SenderInfo};

verus! {

/// A request from the user interface to the background engine.
#[derive(Debug)]
pub enum UiCommand {
    StartScan { email: String, password: String, folder: String, scan_depth: u32 },
    StartDelete {
        email: String,
        password: String,
        folder: String,
        senders: Vec<String>,
        mode: DeleteMode,
    },
}

/// A report from the background engine to the user interface.
#[derive(Debug)]
pub enum BackgroundEvent {
    ScanProgress { progress: Fraction, status: String },
    ScanComplete { senders: Vec<SenderInfo>, total_emails: usize },
    ScanError(String),
    DeleteProgress { progress: Fraction, status: String },
    DeleteComplete { removed_senders: Vec<String>, total_removed: usize },
    DeleteError(String),
}

} // verus!
