use vstd::prelude::*;
use crate::error::AppError;
use crate::header::string_views;
use crate::partition::{spec_chunks, split_into_chunks, views_of};
use crate::state::{DeleteMode, Fraction};
use crate::text::{chars_of, push_char};

verus! {

/// Largest number of identifiers named in one delete or move command.
pub const DELETE_CHUNK: usize = 1000;

/// `a` with every double quote taken out.
pub open spec fn spec_sanitize(a: Seq<char>) -> Seq<char> {
    a.filter(|c: char| c != '"')
}

/// The search that finds every message from `address`: `FROM "<address>"`,
/// with the quotes of the address taken out.
pub open spec fn spec_search_query(address: Seq<char>) -> Seq<char> {
    seq!['F', 'R', 'O', 'M', ' ', '"'] + spec_sanitize(address) + seq!['"']
}

/// Removes every double quote from `address`, so that it cannot close the
/// quoted term of a search.
pub fn sanitize_address(address: &str) -> (r: String)
    ensures
        r@ == spec_sanitize(address@),
{
    let chars = chars_of(address);
    let mut out = String::new();
    let mut i: usize = 0;
    while i < chars.len()
        invariant
            chars@ == address@,
            i <= chars@.len(),
            out@ == spec_sanitize(chars@.subrange(0, i as int)),
        decreases chars@.len() - i,
    {
        let c = chars[i];
        proof {
            let pre = chars@.subrange(0, i as int);
            reveal(Seq::filter);
            assert(chars@.subrange(0, i + 1).drop_last() =~= pre);
        }
        if c != '"' {
            push_char(&mut out, c);
        }
        i = i + 1;
    }
    proof {
        assert(chars@.subrange(0, chars@.len() as int) =~= chars@);
    }
    out
}

/// The search command's argument that finds every message from `address`.
pub fn search_query(address: &str) -> (r: String)
    ensures
        r@ == spec_search_query(address@),
{
    let clean = sanitize_address(address);
    let mut out = String::new();
    push_char(&mut out, 'F');
    push_char(&mut out, 'R');
    push_char(&mut out, 'O');
    push_char(&mut out, 'M');
    push_char(&mut out, ' ');
    push_char(&mut out, '"');
    let tail = chars_of(clean.as_str());
    crate::text::push_all(&mut out, tail.as_slice());
    push_char(&mut out, '"');
    proof {
        assert(out@ =~= spec_search_query(address@));
    }
    out
}

/// One bulk command of a purge.
#[derive(Debug, Clone)]
pub enum PurgeCommand {
    /// Move these messages to the provider's trash folder.
    MoveToTrash(Vec<u32>),
    /// Flag these messages deleted, then expunge them at once.
    DeleteAndExpunge(Vec<u32>),
}

impl PurgeCommand {
    pub open spec fn ids_view(&self) -> Seq<u32> {
        match self {
            PurgeCommand::MoveToTrash(v) => v@,
            PurgeCommand::DeleteAndExpunge(v) => v@,
        }
    }

    /// The identifiers that the command names.
    pub fn ids(&self) -> (r: &Vec<u32>)
        ensures
            r@ == self.ids_view(),
    {
        match self {
            PurgeCommand::MoveToTrash(v) => v,
            PurgeCommand::DeleteAndExpunge(v) => v,
        }
    }
}

/// `c` is the command that handles `chunk` in `mode`.
pub open spec fn command_matches(c: PurgeCommand, chunk: Seq<u32>, mode: DeleteMode) -> bool {
    match c {
        PurgeCommand::MoveToTrash(v) => mode == DeleteMode::Trash && v@ == chunk,
        PurgeCommand::DeleteAndExpunge(v) => mode == DeleteMode::Permanent && v@ == chunk,
    }
}

/// `cmds` handles the chunks of `ids`, in order, one command per chunk.
pub open spec fn is_purge_plan(cmds: Seq<PurgeCommand>, ids: Seq<u32>, mode: DeleteMode) -> bool {
    &&& cmds.len() == spec_chunks(ids, DELETE_CHUNK as int).len()
    &&& forall|k: int|
        0 <= k < cmds.len() ==> command_matches(
            #[trigger] cmds[k],
            spec_chunks(ids, DELETE_CHUNK as int)[k],
            mode,
        )
}

/// The commands that remove the messages `ids` in `mode`: one per chunk of
/// at most `DELETE_CHUNK` identifiers.
pub fn purge_plan(ids: &Vec<u32>, mode: DeleteMode) -> (r: Vec<PurgeCommand>)
    ensures
        is_purge_plan(r@, ids@, mode),
{
    let mut chunks = split_into_chunks(ids, DELETE_CHUNK);
    let ghost all = views_of(chunks@);
    let mut out: Vec<PurgeCommand> = Vec::new();
    while chunks.len() > 0
        invariant
            all == spec_chunks(ids@, DELETE_CHUNK as int),
            out@.len() + chunks@.len() == all.len(),
            views_of(chunks@) == all.subrange(out@.len() as int, all.len() as int),
            forall|k: int| 0 <= k < out@.len() ==> command_matches(#[trigger] out@[k], all[k], mode),
        decreases chunks@.len(),
    {
        let ghost k = out@.len() as int;
        let ghost before = chunks@;
        let c = chunks.remove(0);
        proof {
            assert(views_of(before)[0] == all[k]);
            assert(c@ == all[k]);
            assert(views_of(chunks@) =~= views_of(before).subrange(1, before.len() as int));
        }
        let cmd = match mode {
            DeleteMode::Trash => PurgeCommand::MoveToTrash(c),
            DeleteMode::Permanent => PurgeCommand::DeleteAndExpunge(c),
        };
        out.push(cmd);
        proof {
            assert(views_of(chunks@) =~= all.subrange(out@.len() as int, all.len() as int));
        }
    }
    out
}

/// The decisions of purging one sender, once the search has found `ids`:
/// which command comes next, and what the purge reports. The first failed
/// command ends it; the session is closed by the caller whatever the outcome.
pub struct PurgeRun {
    commands: Vec<PurgeCommand>,
    next: usize,
    found: usize,
    failure: Option<AppError>,
}

impl PurgeRun {
    pub closed spec fn commands(&self) -> Seq<PurgeCommand> {
        self.commands@
    }

    /// How many commands have succeeded.
    pub closed spec fn done(&self) -> nat {
        self.next as nat
    }

    pub closed spec fn found(&self) -> nat {
        self.found as nat
    }

    pub closed spec fn failure(&self) -> Option<AppError> {
        self.failure
    }

    pub closed spec fn wf(&self) -> bool {
        &&& self.next <= self.commands@.len()
        &&& self.failure is Some ==> self.next < self.commands@.len()
    }

    /// A purge of the messages `ids` in `mode`.
    pub fn new(ids: &Vec<u32>, mode: DeleteMode) -> (r: Self)
        ensures
            r.wf(),
            is_purge_plan(r.commands(), ids@, mode),
            r.done() == 0,
            r.found() == ids@.len(),
            r.failure() is None,
    {
        PurgeRun { commands: purge_plan(ids, mode), next: 0, found: ids.len(), failure: None }
    }

    /// The command to run now; none once all have succeeded or one has failed.
    pub fn next_command(&self) -> (r: Option<&PurgeCommand>)
        requires
            self.wf(),
        ensures
            r is Some <==> (self.failure() is None && self.done() < self.commands().len()),
            r is Some ==> *r->0 == self.commands()[self.done() as int],
    {
        if self.failure.is_none() && self.next < self.commands.len() {
            Some(&self.commands[self.next])
        } else {
            None
        }
    }

    /// Takes the outcome of the command that `next_command` gave.
    pub fn record(&mut self, outcome: Result<(), AppError>)
        requires
            old(self).wf(),
            old(self).failure() is None,
            old(self).done() < old(self).commands().len(),
        ensures
            final(self).wf(),
            final(self).commands() == old(self).commands(),
            final(self).found() == old(self).found(),
            match outcome {
                Ok(()) => final(self).done() == old(self).done() + 1 && final(self).failure() is None,
                Err(e) => final(self).done() == old(self).done() && final(self).failure() == Some(e),
            },
    {
        match outcome {
            Ok(()) => {
                let n = self.commands.len();
                assert(self.next < n);
                self.next = self.next + 1;
            },
            Err(e) => {
                self.failure = Some(e);
            },
        }
    }

    /// Whether nothing is left to run.
    pub fn is_finished(&self) -> (r: bool)
        requires
            self.wf(),
        ensures
            r == (self.failure() is Some || self.done() == self.commands().len()),
    {
        self.failure.is_some() || self.next == self.commands.len()
    }

    /// What the purge reports: the number of messages found, once every
    /// command has succeeded; else the first failure.
    pub fn outcome(self) -> (r: Result<usize, AppError>)
        requires
            self.wf(),
            self.failure() is Some || self.done() == self.commands().len(),
        ensures
            match self.failure() {
                Some(e) => r == Err::<usize, AppError>(e),
                None => r == Ok::<usize, AppError>(self.found() as usize),
            },
    {
        match self.failure {
            Some(e) => Err(e),
            None => Ok(self.found),
        }
    }
}

/// The senders whose purge succeeded, in order, given each purge's outcome
/// (the number of messages removed, or none on failure).
pub open spec fn spec_removed(senders: Seq<Seq<char>>, outcomes: Seq<Option<nat>>) -> Seq<
    Seq<char>,
>
    decreases outcomes.len(),
{
    if outcomes.len() == 0 {
        Seq::empty()
    } else {
        let rest = spec_removed(senders, outcomes.drop_last());
        match outcomes.last() {
            Some(_) => rest.push(senders[outcomes.len() - 1]),
            None => rest,
        }
    }
}

/// The number of messages removed over all successful purges.
pub open spec fn spec_total_removed(outcomes: Seq<Option<nat>>) -> nat
    decreases outcomes.len(),
{
    if outcomes.len() == 0 {
        0
    } else {
        spec_total_removed(outcomes.drop_last()) + match outcomes.last() {
            Some(n) => n,
            None => 0,
        }
    }
}

pub open spec fn outcome_view(o: Result<usize, AppError>) -> Option<nat> {
    match o {
        Ok(n) => Some(n as nat),
        Err(_) => None,
    }
}

/// The decisions of purging several senders one after the other: a failed
/// sender is reported and skipped, and only confirmed removals are counted.
pub struct DeleteBatch {
    senders: Vec<String>,
    index: usize,
    removed: Vec<String>,
    total_removed: usize,
    outcomes: Ghost<Seq<Option<nat>>>,
}

impl DeleteBatch {
    pub closed spec fn senders(&self) -> Seq<Seq<char>> {
        string_views(self.senders@)
    }

    /// The outcome of each sender handled so far.
    pub closed spec fn outcomes(&self) -> Seq<Option<nat>> {
        self.outcomes@
    }

    pub closed spec fn wf(&self) -> bool {
        &&& self.index as nat == self.outcomes@.len()
        &&& self.index <= self.senders@.len()
        &&& string_views(self.removed@) == spec_removed(string_views(self.senders@), self.outcomes@)
        &&& self.total_removed as nat == spec_total_removed(self.outcomes@)
    }

    /// A batch that purges `senders` in order.
    pub fn new(senders: Vec<String>) -> (r: Self)
        ensures
            r.wf(),
            r.senders() == string_views(senders@),
            r.outcomes() == Seq::<Option<nat>>::empty(),
    {
        let r = DeleteBatch {
            senders,
            index: 0,
            removed: Vec::new(),
            total_removed: 0,
            outcomes: Ghost(Seq::empty()),
        };
        proof {
            assert(string_views(r.removed@) =~= Seq::<Seq<char>>::empty());
        }
        r
    }

    /// The sender to purge now, if any is left.
    pub fn current(&self) -> (r: Option<&String>)
        requires
            self.wf(),
        ensures
            r is Some <==> self.outcomes().len() < self.senders().len(),
            r is Some ==> r->0@ == self.senders()[self.outcomes().len() as int],
    {
        if self.index < self.senders.len() {
            Some(&self.senders[self.index])
        } else {
            None
        }
    }

    /// Progress before the current sender: senders handled over all senders.
    pub fn progress(&self) -> (r: Fraction)
        requires
            self.wf(),
            self.senders().len() <= u64::MAX,
        ensures
            r.num as nat == self.outcomes().len(),
            r.den as nat == self.senders().len(),
    {
        Fraction { num: self.index as u64, den: self.senders.len() as u64 }
    }

    /// Number of messages removed so far.
    pub fn total_removed(&self) -> (r: usize)
        requires
            self.wf(),
        ensures
            r == spec_total_removed(self.outcomes()),
    {
        self.total_removed
    }

    /// Takes the outcome of purging the current sender.
    pub fn record(&mut self, outcome: Result<usize, AppError>)
        requires
            old(self).wf(),
            old(self).outcomes().len() < old(self).senders().len(),
            outcome is Ok ==> spec_total_removed(old(self).outcomes()) + outcome->Ok_0 <= usize::MAX,
        ensures
            final(self).wf(),
            final(self).senders() == old(self).senders(),
            final(self).outcomes() == old(self).outcomes().push(outcome_view(outcome)),
    {
        let ghost senders = string_views(self.senders@);
        let ghost before = self.outcomes@;
        let ghost new_outcomes = before.push(outcome_view(outcome));
        proof {
            assert(new_outcomes.drop_last() =~= before);
        }
        match outcome {
            Ok(n) => {
                let s = self.senders[self.index].clone();
                let ghost removed_before = string_views(self.removed@);
                self.removed.push(s);
                self.total_removed = self.total_removed + n;
                proof {
                    assert(string_views(self.removed@) =~= removed_before.push(
                        senders[before.len() as int],
                    ));
                }
            },
            Err(_) => {},
        }
        self.outcomes = Ghost(new_outcomes);
        let n = self.senders.len();
        assert(self.index < n);
        self.index = self.index + 1;
    }

    /// The senders whose purge succeeded, and the number of messages removed.
    pub fn finish(self) -> (r: (Vec<String>, usize))
        requires
            self.wf(),
        ensures
            string_views(r.0@) == spec_removed(self.senders(), self.outcomes()),
            r.1 == spec_total_removed(self.outcomes()),
    {
        (self.removed, self.total_removed)
    }
}


/// Over senders listed once each, a sender whose purge failed is never
/// reported as removed, and one whose purge succeeded always is.
pub proof fn lemma_removed_are_the_successful(
    senders: Seq<Seq<char>>,
    outcomes: Seq<Option<nat>>,
    i: int,
)
    requires
        senders.no_duplicates(),
        outcomes.len() <= senders.len(),
        0 <= i < outcomes.len(),
    ensures
        spec_removed(senders, outcomes).contains(senders[i]) <==> outcomes[i] is Some,
    decreases outcomes.len(),
{
    let n = outcomes.len() - 1;
    let rest = spec_removed(senders, outcomes.drop_last());
    assert forall|x: Seq<char>| #[trigger] rest.contains(x) implies exists|j: int|
        0 <= j < n && senders[j] == x by {
        lemma_removed_from_prefix(senders, outcomes.drop_last(), x);
    }
    if i < n {
        lemma_removed_are_the_successful(senders, outcomes.drop_last(), i);
        assert(outcomes.drop_last()[i] == outcomes[i]);
        if outcomes.last() is Some {
            let r2 = rest.push(senders[n]);
            assert(senders[n] != senders[i]);
            if r2.contains(senders[i]) {
                let k = choose|k: int| 0 <= k < r2.len() && r2[k] == senders[i];
                if k < rest.len() {
                    assert(rest[k] == senders[i]);
                }
            }
            if rest.contains(senders[i]) {
                let k = choose|k: int| 0 <= k < rest.len() && rest[k] == senders[i];
                assert(r2[k] == senders[i]);
            }
        }
    } else {
        if rest.contains(senders[n]) {
            let j = choose|j: int| 0 <= j < n && senders[j] == senders[n];
        }
        if outcomes.last() is Some {
            let r2 = rest.push(senders[n]);
            assert(r2[rest.len() as int] == senders[n]);
        }
    }
}

proof fn lemma_removed_from_prefix(senders: Seq<Seq<char>>, outcomes: Seq<Option<nat>>, x: Seq<char>)
    requires
        outcomes.len() <= senders.len(),
        spec_removed(senders, outcomes).contains(x),
    ensures
        exists|j: int| 0 <= j < outcomes.len() && senders[j] == x,
    decreases outcomes.len(),
{
    let n = outcomes.len() - 1;
    let rest = spec_removed(senders, outcomes.drop_last());
    if rest.contains(x) {
        lemma_removed_from_prefix(senders, outcomes.drop_last(), x);
        let j = choose|j: int| 0 <= j < outcomes.drop_last().len() && senders[j] == x;
        assert(0 <= j < outcomes.len() && senders[j] == x);
    } else {
        let r2 = rest.push(senders[n]);
        let k = choose|k: int| 0 <= k < r2.len() && r2[k] == x;
        if k < rest.len() {
            assert(rest[k] == x);
        }
        assert(senders[n] == x);
    }
}

} // verus!
