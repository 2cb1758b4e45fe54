use vstd::prelude::*;
use crate::bridge::BackgroundEvent;
use crate::header::string_views;
use crate::text::{chars_of, decimal, push_all, push_decimal};

verus! {

/// Where the application stands in its scan / delete cycle.
#[derive(Debug, Clone, Copy, PartialEq, Eq, Structural)]
pub enum AppPhase {
    Idle,
    Scanning,
    ScanComplete,
    Deleting,
}

/// How the messages of a purged sender are removed.
#[derive(Debug, Clone, Copy, PartialEq, Eq, Structural)]
pub enum DeleteMode {
    /// Move them to the provider's trash folder.
    Trash,
    /// Flag them deleted and expunge them.
    Permanent,
}

/// One sender and the number of messages attributed to it.
#[derive(Debug, Clone)]
pub struct SenderInfo {
    pub email: String,
    pub count: usize,
}

impl PartialEq for SenderInfo {
    fn eq(&self, other: &SenderInfo) -> (r: bool)
        ensures
            r == (self.email@ == other.email@ && self.count == other.count),
    {
        self.email == other.email && self.count == other.count
    }
}

impl vstd::std_specs::cmp::PartialEqSpecImpl for SenderInfo {
    open spec fn obeys_eq_spec() -> bool {
        true
    }

    open spec fn eq_spec(&self, other: &SenderInfo) -> bool {
        self.email@ == other.email@ && self.count == other.count
    }
}

impl Eq for SenderInfo {}

/// A sender as a pair of its address and its count.
pub open spec fn pair_of(s: SenderInfo) -> (Seq<char>, nat) {
    (s.email@, s.count as nat)
}

pub open spec fn pairs(v: Seq<SenderInfo>) -> Seq<(Seq<char>, nat)> {
    v.map_values(|s: SenderInfo| pair_of(s))
}

/// An exact ratio; `den` is never zero where one is reported.
#[derive(Debug, Clone, Copy, PartialEq, Eq, Structural)]
pub struct Fraction {
    pub num: u64,
    pub den: u64,
}

} // verus!

verus! {

/// The senders of `senders` whose address `selected` holds, in order.
pub open spec fn spec_selected(senders: Seq<SenderInfo>, selected: Seq<Seq<char>>) -> Seq<
    SenderInfo,
>
    decreases senders.len(),
{
    if senders.len() == 0 {
        Seq::empty()
    } else {
        let rest = spec_selected(senders.drop_last(), selected);
        if selected.contains(senders.last().email@) {
            rest.push(senders.last())
        } else {
            rest
        }
    }
}

/// The senders of `senders` whose address `removed` does not hold, in order.
pub open spec fn spec_without(senders: Seq<SenderInfo>, removed: Seq<Seq<char>>) -> Seq<SenderInfo>
    decreases senders.len(),
{
    if senders.len() == 0 {
        Seq::empty()
    } else {
        let rest = spec_without(senders.drop_last(), removed);
        if removed.contains(senders.last().email@) {
            rest
        } else {
            rest.push(senders.last())
        }
    }
}

/// The addresses of `names` that `removed` does not hold, in order.
pub open spec fn spec_names_without(names: Seq<Seq<char>>, removed: Seq<Seq<char>>) -> Seq<
    Seq<char>,
>
    decreases names.len(),
{
    if names.len() == 0 {
        Seq::empty()
    } else {
        let rest = spec_names_without(names.drop_last(), removed);
        if removed.contains(names.last()) {
            rest
        } else {
            rest.push(names.last())
        }
    }
}

/// The sum of the counts.
pub open spec fn spec_count_sum(senders: Seq<SenderInfo>) -> nat
    decreases senders.len(),
{
    if senders.len() == 0 {
        0
    } else {
        spec_count_sum(senders.drop_last()) + senders.last().count as nat
    }
}

pub open spec fn ref_views(v: Seq<&SenderInfo>) -> Seq<SenderInfo> {
    v.map_values(|s: &SenderInfo| *s)
}

/// Whether `names` holds `name`.
pub fn holds_name(names: &Vec<String>, name: &String) -> (r: bool)
    ensures
        r == string_views(names@).contains(name@),
{
    let mut i: usize = 0;
    while i < names.len()
        invariant
            i <= names@.len(),
            forall|j: int| 0 <= j < i ==> names@[j]@ != name@,
        decreases names@.len() - i,
    {
        if names[i] == *name {
            proof {
                assert(string_views(names@)[i as int] == name@);
            }
            return true;
        }
        i = i + 1;
    }
    proof {
        if string_views(names@).contains(name@) {
            let j = choose|j: int| 0 <= j < names@.len() && #[trigger] string_views(names@)[j] == name@;
            assert(names@[j]@ == name@);
        }
    }
    false
}

/// Everything the user interface shows and edits.
#[derive(Debug)]
pub struct AppState {
    pub email: String,
    pub password: String,
    pub folder: String,
    pub scan_depth: u32,
    pub phase: AppPhase,
    pub delete_mode: DeleteMode,
    pub scan_progress: Fraction,
    pub scan_status: String,
    pub delete_progress: Fraction,
    pub delete_status: String,
    pub total_emails: usize,
    pub senders: Vec<SenderInfo>,
    /// Addresses of the senders ticked for removal.
    pub sender_selected: Vec<String>,
    pub error_message: Option<String>,
}

impl Default for AppState {
    fn default() -> (r: Self)
        ensures
            r.email@.len() == 0,
            r.password@.len() == 0,
            r.folder@ == "INBOX"@,
            r.scan_depth == 0,
            r.phase == AppPhase::Idle,
            r.delete_mode == DeleteMode::Trash,
            r.scan_progress == (Fraction { num: 0, den: 1 }),
            r.scan_status@.len() == 0,
            r.delete_progress == (Fraction { num: 0, den: 1 }),
            r.delete_status@.len() == 0,
            r.total_emails == 0,
            r.senders@.len() == 0,
            r.sender_selected@.len() == 0,
            r.error_message is None,
    {
        AppState {
            email: String::new(),
            password: String::new(),
            folder: "INBOX".to_owned(),
            scan_depth: 0,
            phase: AppPhase::Idle,
            delete_mode: DeleteMode::Trash,
            scan_progress: Fraction { num: 0, den: 1 },
            scan_status: String::new(),
            delete_progress: Fraction { num: 0, den: 1 },
            delete_status: String::new(),
            total_emails: 0,
            senders: Vec::new(),
            sender_selected: Vec::new(),
            error_message: None,
        }
    }
}

impl AppState {
    /// The senders ticked for removal, in list order.
    pub fn selected_senders(&self) -> (r: Vec<&SenderInfo>)
        ensures
            ref_views(r@) == spec_selected(self.senders@, string_views(self.sender_selected@)),
    {
        let ghost sel = string_views(self.sender_selected@);
        let mut out: Vec<&SenderInfo> = Vec::new();
        let mut i: usize = 0;
        while i < self.senders.len()
            invariant
                sel == string_views(self.sender_selected@),
                i <= self.senders@.len(),
                ref_views(out@) == spec_selected(self.senders@.subrange(0, i as int), sel),
            decreases self.senders@.len() - i,
        {
            let s = &self.senders[i];
            proof {
                assert(self.senders@.subrange(0, i + 1).drop_last() =~= self.senders@.subrange(
                    0,
                    i as int,
                ));
                assert(self.senders@.subrange(0, i + 1).last() == self.senders@[i as int]);
                assert(*s == self.senders@[i as int]);
            }
            let chosen = holds_name(&self.sender_selected, &s.email);
            proof {
                let cur = self.senders@.subrange(0, i + 1);
                assert(chosen == sel.contains(cur.last().email@));
                assert(spec_selected(cur, sel) == if sel.contains(cur.last().email@) {
                    spec_selected(cur.drop_last(), sel).push(cur.last())
                } else {
                    spec_selected(cur.drop_last(), sel)
                });
            }
            if chosen {
                let ghost pre = ref_views(out@);
                out.push(s);
                proof {
                    assert(ref_views(out@) =~= pre.push(*s));
                }
            }
            i = i + 1;
        }
        proof {
            assert(self.senders@.subrange(0, self.senders@.len() as int) =~= self.senders@);
        }
        out
    }

    /// The number of messages of the ticked senders.
    pub fn selected_email_count(&self) -> (r: usize)
        requires
            spec_count_sum(spec_selected(self.senders@, string_views(self.sender_selected@)))
                <= usize::MAX,
        ensures
            r == spec_count_sum(spec_selected(self.senders@, string_views(self.sender_selected@))),
    {
        let sel = self.selected_senders();
        let ghost all = ref_views(sel@);
        let mut sum: usize = 0;
        let mut i: usize = 0;
        while i < sel.len()
            invariant
                all == ref_views(sel@),
                i <= sel@.len(),
                spec_count_sum(all) <= usize::MAX,
                sum == spec_count_sum(all.subrange(0, i as int)),
            decreases sel@.len() - i,
        {
            proof {
                assert(all.subrange(0, i + 1).drop_last() =~= all.subrange(0, i as int));
                lemma_count_sum_prefix(all, i + 1);
            }
            sum = sum + sel[i].count;
            i = i + 1;
        }
        proof {
            assert(all.subrange(0, all.len() as int) =~= all);
        }
        sum
    }

    /// The number of distinct senders found.
    pub fn unique_senders(&self) -> (r: usize)
        ensures
            r == self.senders@.len(),
    {
        self.senders.len()
    }

    /// The number of messages attributed to some sender.
    pub fn total_scanned(&self) -> (r: usize)
        requires
            spec_count_sum(self.senders@) <= usize::MAX,
        ensures
            r == spec_count_sum(self.senders@),
    {
        let ghost all = self.senders@;
        let mut sum: usize = 0;
        let mut i: usize = 0;
        while i < self.senders.len()
            invariant
                all == self.senders@,
                i <= all.len(),
                spec_count_sum(all) <= usize::MAX,
                sum == spec_count_sum(all.subrange(0, i as int)),
            decreases all.len() - i,
        {
            proof {
                assert(all.subrange(0, i + 1).drop_last() =~= all.subrange(0, i as int));
                lemma_count_sum_prefix(all, i + 1);
            }
            sum = sum + self.senders[i].count;
            i = i + 1;
        }
        proof {
            assert(all.subrange(0, all.len() as int) =~= all);
        }
        sum
    }
}

proof fn lemma_count_sum_prefix(s: Seq<SenderInfo>, k: int)
    requires
        0 <= k <= s.len(),
    ensures
        spec_count_sum(s.subrange(0, k)) <= spec_count_sum(s),
    decreases s.len(),
{
    if k < s.len() {
        assert(s.drop_last().subrange(0, k) =~= s.subrange(0, k));
        lemma_count_sum_prefix(s.drop_last(), k);
    } else {
        assert(s.subrange(0, k) =~= s);
    }
}


/// The status line after a delete: `Removed <n> emails`.
pub open spec fn spec_removed_status(n: nat) -> Seq<char> {
    "Removed "@ + decimal(n) + " emails"@
}

/// `new` is `old` once `event` has been taken in: progress and status are
/// shown as reported; a finished scan replaces the sender list; a finished
/// delete drops the removed senders from the list and from the selection; an
/// error is kept for display, and a failed scan returns to idle while a failed
/// sender leaves the delete running.
pub open spec fn spec_apply(old: AppState, event: BackgroundEvent, new: AppState) -> bool {
    match event {
        BackgroundEvent::ScanProgress { progress, status } => new == (AppState {
            scan_progress: progress,
            scan_status: status,
            ..old
        }),
        BackgroundEvent::ScanComplete { senders, total_emails } => {
            &&& new.senders@ == senders@
            &&& new.scan_status@ == "Complete"@
            &&& new == (AppState {
                senders: new.senders,
                total_emails,
                phase: AppPhase::ScanComplete,
                scan_progress: Fraction { num: 1, den: 1 },
                scan_status: new.scan_status,
                ..old
            })
        },
        BackgroundEvent::ScanError(msg) => new == (AppState {
            error_message: Some(msg),
            phase: AppPhase::Idle,
            ..old
        }),
        BackgroundEvent::DeleteProgress { progress, status } => new == (AppState {
            delete_progress: progress,
            delete_status: status,
            ..old
        }),
        BackgroundEvent::DeleteComplete { removed_senders, total_removed } => {
            &&& new.senders@ == spec_without(old.senders@, string_views(removed_senders@))
            &&& string_views(new.sender_selected@) == spec_names_without(
                string_views(old.sender_selected@),
                string_views(removed_senders@),
            )
            &&& new.delete_status@ == spec_removed_status(total_removed as nat)
            &&& new == (AppState {
                senders: new.senders,
                sender_selected: new.sender_selected,
                phase: AppPhase::ScanComplete,
                delete_progress: Fraction { num: 1, den: 1 },
                delete_status: new.delete_status,
                ..old
            })
        },
        BackgroundEvent::DeleteError(msg) => new == (AppState { error_message: Some(msg), ..old }),
    }
}

fn senders_without(senders: &Vec<SenderInfo>, removed: &Vec<String>) -> (r: Vec<SenderInfo>)
    ensures
        r@ == spec_without(senders@, string_views(removed@)),
{
    let ghost rm = string_views(removed@);
    let mut out: Vec<SenderInfo> = Vec::new();
    let mut i: usize = 0;
    while i < senders.len()
        invariant
            rm == string_views(removed@),
            i <= senders@.len(),
            out@ == spec_without(senders@.subrange(0, i as int), rm),
        decreases senders@.len() - i,
    {
        let s = &senders[i];
        let gone = holds_name(removed, &s.email);
        proof {
            let cur = senders@.subrange(0, i + 1);
            assert(cur.drop_last() =~= senders@.subrange(0, i as int));
            assert(cur.last() == *s);
        }
        if !gone {
            let item = SenderInfo { email: s.email.clone(), count: s.count };
            proof {
                assert(item == *s);
            }
            out.push(item);
        }
        i = i + 1;
    }
    proof {
        assert(senders@.subrange(0, senders@.len() as int) =~= senders@);
    }
    out
}

fn names_without(names: &Vec<String>, removed: &Vec<String>) -> (r: Vec<String>)
    ensures
        string_views(r@) == spec_names_without(string_views(names@), string_views(removed@)),
{
    let ghost rm = string_views(removed@);
    let ghost all = string_views(names@);
    let mut out: Vec<String> = Vec::new();
    let mut i: usize = 0;
    while i < names.len()
        invariant
            rm == string_views(removed@),
            all == string_views(names@),
            i <= names@.len(),
            string_views(out@) == spec_names_without(all.subrange(0, i as int), rm),
        decreases names@.len() - i,
    {
        let gone = holds_name(removed, &names[i]);
        proof {
            let cur = all.subrange(0, i + 1);
            assert(cur.drop_last() =~= all.subrange(0, i as int));
            assert(cur.last() == names@[i as int]@);
        }
        if !gone {
            let ghost pre = string_views(out@);
            let n = names[i].clone();
            out.push(n);
            proof {
                assert(string_views(out@) =~= pre.push(names@[i as int]@));
            }
        }
        i = i + 1;
    }
    proof {
        assert(all.subrange(0, all.len() as int) =~= all);
    }
    out
}

impl AppState {
    /// Takes in one report of the background engine.
    pub fn apply_event(&mut self, event: BackgroundEvent)
        ensures
            spec_apply(*old(self), event, *final(self)),
    {
        match event {
            BackgroundEvent::ScanProgress { progress, status } => {
                self.scan_progress = progress;
                self.scan_status = status;
            },
            BackgroundEvent::ScanComplete { senders, total_emails } => {
                self.senders = senders;
                self.total_emails = total_emails;
                self.phase = AppPhase::ScanComplete;
                self.scan_progress = Fraction { num: 1, den: 1 };
                self.scan_status = "Complete".to_owned();
            },
            BackgroundEvent::ScanError(msg) => {
                self.error_message = Some(msg);
                self.phase = AppPhase::Idle;
            },
            BackgroundEvent::DeleteProgress { progress, status } => {
                self.delete_progress = progress;
                self.delete_status = status;
            },
            BackgroundEvent::DeleteComplete { removed_senders, total_removed } => {
                let kept = senders_without(&self.senders, &removed_senders);
                let still = names_without(&self.sender_selected, &removed_senders);
                self.senders = kept;
                self.sender_selected = still;
                self.phase = AppPhase::ScanComplete;
                self.delete_progress = Fraction { num: 1, den: 1 };
                let mut status = "Removed ".to_owned();
                push_decimal(&mut status, total_removed);
                let tail = chars_of(" emails");
                push_all(&mut status, tail.as_slice());
                self.delete_status = status;
            },
            BackgroundEvent::DeleteError(msg) => {
                self.error_message = Some(msg);
            },
        }
    }

    /// Ticks or unticks a sender for removal.
    pub fn set_selected(&mut self, email: &String, on: bool)
        ensures
            string_views(final(self).sender_selected@).contains(email@) == on,
            forall|k: Seq<char>|
                k != email@ ==> (string_views(final(self).sender_selected@).contains(k)
                    == string_views(old(self).sender_selected@).contains(k)),
    {
        let mut gone: Vec<String> = Vec::new();
        gone.push(email.clone());
        let mut kept = names_without(&self.sender_selected, &gone);
        proof {
            assert(string_views(gone@) =~= seq![email@]);
            assert(string_views(gone@)[0] == email@);
            assert(string_views(gone@).contains(email@));
            assert forall|k: Seq<char>| k != email@ implies !string_views(gone@).contains(k) by {}
            lemma_names_without_contains(
                string_views(self.sender_selected@),
                string_views(gone@),
            );
        }
        if on {
            let ghost pre = string_views(kept@);
            kept.push(email.clone());
            proof {
                assert(string_views(kept@) =~= pre.push(email@));
                assert(string_views(kept@)[pre.len() as int] == email@);
                assert forall|k: Seq<char>| #[trigger] string_views(kept@).contains(k) == (
                pre.contains(k) || k == email@) by {
                    if string_views(kept@).contains(k) {
                        let j = choose|j: int| 0 <= j < string_views(kept@).len() && string_views(kept@)[j] == k;
                        if j < pre.len() {
                            assert(pre[j] == k);
                        }
                    }
                    if pre.contains(k) {
                        let j = choose|j: int| 0 <= j < pre.len() && pre[j] == k;
                        assert(string_views(kept@)[j] == k);
                    }
                }
            }
        }
        self.sender_selected = kept;
    }

    /// Whether a sender is ticked for removal.
    pub fn is_selected(&self, email: &String) -> (r: bool)
        ensures
            r == string_views(self.sender_selected@).contains(email@),
    {
        holds_name(&self.sender_selected, email)
    }
}

proof fn lemma_names_without_contains(names: Seq<Seq<char>>, removed: Seq<Seq<char>>)
    ensures
        forall|k: Seq<char>|
            #[trigger] spec_names_without(names, removed).contains(k) == (names.contains(k)
                && !removed.contains(k)),
    decreases names.len(),
{
    if names.len() > 0 {
        lemma_names_without_contains(names.drop_last(), removed);
        let rest = spec_names_without(names.drop_last(), removed);
        assert forall|k: Seq<char>| #[trigger] spec_names_without(names, removed).contains(k) == (
        names.contains(k) && !removed.contains(k)) by {
            assert(names.drop_last().push(names.last()) =~= names);
            if names.contains(k) {
                let j = choose|j: int| 0 <= j < names.len() && names[j] == k;
                if j < names.len() - 1 {
                    assert(names.drop_last()[j] == k);
                }
            }
            if names.drop_last().contains(k) {
                let j = choose|j: int| 0 <= j < names.drop_last().len() && names.drop_last()[j] == k;
                assert(names[j] == k);
            }
            if !removed.contains(names.last()) {
                let r2 = rest.push(names.last());
                assert(r2[rest.len() as int] == names.last());
                if r2.contains(k) {
                    let j = choose|j: int| 0 <= j < r2.len() && r2[j] == k;
                    if j < rest.len() {
                        assert(rest[j] == k);
                    }
                }
                if rest.contains(k) {
                    let j = choose|j: int| 0 <= j < rest.len() && rest[j] == k;
                    assert(r2[j] == k);
                }
            }
        }
    }
}

} // verus!
