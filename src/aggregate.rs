use vstd::prelude::*;
use vstd::multiset::Multiset;
use crate::header::string_views;
use crate::partition::{spec_chunk, spec_chunk_count, spec_chunks, spec_partition, spec_chunk_len};
use crate::state::{Fraction, SenderInfo, pair_of, pairs};

verus! {

broadcast use vstd::multiset::group_multiset_axioms, vstd::seq_lib::group_to_multiset_ensures;

/// `e` lists every sender of `m` exactly once, each with the number of times
/// `m` holds it.
pub open spec fn tally_matches(e: Seq<(Seq<char>, nat)>, m: Multiset<Seq<char>>) -> bool {
    &&& forall|i: int, j: int| 0 <= i < j < e.len() ==> e[i].0 != e[j].0
    &&& forall|i: int| 0 <= i < e.len() ==> e[i].1 == m.count(e[i].0) && e[i].1 >= 1
    &&& forall|k: Seq<char>| m.count(k) > 0 ==> exists|i: int| 0 <= i < e.len() && e[i].0 == k
}

/// Counts never rise from one entry to the next.
pub open spec fn sorted_by_count(e: Seq<(Seq<char>, nat)>) -> bool {
    forall|i: int, j: int| 0 <= i < j < e.len() ==> e[i].1 >= e[j].1
}

/// Scan progress once `completed` of `chunks` chunks are in: five parts in a
/// hundred for the enumeration, the other ninety-five shared evenly among the
/// chunks. Numerator and denominator.
pub open spec fn spec_scan_progress(completed: int, chunks: int) -> (int, int) {
    (5 * chunks + 95 * completed, 100 * chunks)
}

pub open spec fn fraction_is(f: Fraction, v: (int, int)) -> bool {
    f.num as int == v.0 && f.den as int == v.1
}

/// The single consumer of scan results: it sums the senders of each finished
/// chunk, in whatever order the chunks finish, and reports progress.
pub struct ScanAggregator {
    entries: Vec<SenderInfo>,
    received: Ghost<Multiset<Seq<char>>>,
    total: usize,
    chunks: usize,
    completed: usize,
}

proof fn lemma_tally_permutation(
    a: Seq<(Seq<char>, nat)>,
    b: Seq<(Seq<char>, nat)>,
    m: Multiset<Seq<char>>,
)
    requires
        a.to_multiset() == b.to_multiset(),
        tally_matches(a, m),
    ensures
        tally_matches(b, m),
{
    assert(a.no_duplicates()) by {
        assert forall|i: int, j: int| 0 <= i < a.len() && 0 <= j < a.len() && i != j implies a[i]
            != a[j] by {
            if i < j {
                assert(a[i].0 != a[j].0);
            } else {
                assert(a[j].0 != a[i].0);
            }
        }
    }
    a.lemma_multiset_has_no_duplicates();
    b.lemma_multiset_has_no_duplicates_conv();
    assert forall|i: int| 0 <= i < b.len() implies exists|ia: int|
        0 <= ia < a.len() && a[ia] == #[trigger] b[i] by {
        assert(b.contains(b[i]));
        assert(a.to_multiset().count(b[i]) > 0);
        assert(a.contains(b[i]));
    }
    assert forall|i: int, j: int| 0 <= i < j < b.len() implies b[i].0 != b[j].0 by {
        let ia = choose|ia: int| 0 <= ia < a.len() && a[ia] == b[i];
        let ja = choose|ja: int| 0 <= ja < a.len() && a[ja] == b[j];
        if b[i].0 == b[j].0 {
            if ia < ja {
                assert(a[ia].0 != a[ja].0);
            } else if ja < ia {
                assert(a[ja].0 != a[ia].0);
            }
            assert(b[i] == b[j]);
        }
    }
    assert forall|i: int| 0 <= i < b.len() implies b[i].1 == m.count(b[i].0) && b[i].1 >= 1 by {
        let ia = choose|ia: int| 0 <= ia < a.len() && a[ia] == b[i];
    }
    assert forall|k: Seq<char>| m.count(k) > 0 implies exists|i: int|
        0 <= i < b.len() && b[i].0 == k by {
        let ia = choose|ia: int| 0 <= ia < a.len() && a[ia].0 == k;
        assert(a.contains(a[ia]));
        assert(b.to_multiset().count(a[ia]) > 0);
        assert(b.contains(a[ia]));
        let i = choose|i: int| 0 <= i < b.len() && b[i] == a[ia];
        assert(b[i].0 == k);
    }
}

impl ScanAggregator {
    /// Every sender received so far, once per message.
    pub closed spec fn received(&self) -> Multiset<Seq<char>> {
        self.received@
    }

    pub closed spec fn completed(&self) -> nat {
        self.completed as nat
    }

    pub closed spec fn chunks(&self) -> nat {
        self.chunks as nat
    }

    pub closed spec fn wf(&self) -> bool {
        &&& tally_matches(pairs(self.entries@), self.received@)
        &&& self.total as nat == self.received@.len()
        &&& self.completed <= self.chunks
        &&& 1 <= self.chunks
        &&& 100 * self.chunks <= u64::MAX
    }

    /// An aggregator for a scan cut into `chunks` chunks.
    pub fn new(chunks: usize) -> (r: Self)
        requires
            1 <= chunks,
            100 * chunks <= u64::MAX,
        ensures
            r.wf(),
            r.received() == Multiset::<Seq<char>>::empty(),
            r.completed() == 0,
            r.chunks() == chunks,
    {
        ScanAggregator {
            entries: Vec::new(),
            received: Ghost(Multiset::empty()),
            total: 0,
            chunks,
            completed: 0,
        }
    }

    /// Number of senders received so far, one per message.
    pub fn total_received(&self) -> (r: usize)
        requires
            self.wf(),
        ensures
            r == self.received().len(),
    {
        self.total
    }

    fn add_one(&mut self, s: String)
        requires
            old(self).wf(),
            old(self).received().len() < usize::MAX,
        ensures
            final(self).wf(),
            final(self).received() == old(self).received().insert(s@),
            final(self).completed() == old(self).completed(),
            final(self).chunks() == old(self).chunks(),
    {
        let ghost sv = s@;
        let ghost old_m = self.received@;
        let ghost old_e = pairs(self.entries@);
        let n = self.entries.len();
        let mut j: usize = 0;
        let mut found = false;
        while j < n && !found
            invariant
                n == self.entries@.len(),
                j <= n,
                sv == s@,
                forall|i: int| 0 <= i < j ==> self.entries@[i].email@ != sv,
                found ==> j < n && self.entries@[j as int].email@ == sv,
            decreases n - j + if found { 0int } else { 1int },
        {
            if self.entries[j].email == s {
                found = true;
            } else {
                j = j + 1;
            }
        }
        proof {
            assert(old_m.count(sv) <= old_m.len());
        }
        if found {
            let c = self.entries[j].count;
            proof {
                assert(old_e[j as int].0 == sv);
            }
            self.entries.set(j, SenderInfo { email: s, count: c + 1 });
            self.received = Ghost(old_m.insert(sv));
            self.total = self.total + 1;
            proof {
                let m = self.received@;
                let e = pairs(self.entries@);
                assert(e =~= old_e.update(j as int, (sv, (c + 1) as nat)));
                assert forall|k: Seq<char>| m.count(k) > 0 implies exists|i: int|
                    0 <= i < e.len() && e[i].0 == k by {
                    if k != sv {
                        assert(old_m.count(k) > 0);
                        let i = choose|i: int| 0 <= i < old_e.len() && old_e[i].0 == k;
                        assert(e[i].0 == k);
                    } else {
                        assert(e[j as int].0 == k);
                    }
                }
            }
        } else {
            proof {
                if old_m.count(sv) > 0 {
                    let i = choose|i: int| 0 <= i < old_e.len() && old_e[i].0 == sv;
                    assert(self.entries@[i].email@ == sv);
                }
            }
            self.entries.push(SenderInfo { email: s, count: 1 });
            self.received = Ghost(old_m.insert(sv));
            self.total = self.total + 1;
            proof {
                let m = self.received@;
                let e = pairs(self.entries@);
                assert(e =~= old_e.push((sv, 1nat)));
                assert forall|k: Seq<char>| m.count(k) > 0 implies exists|i: int|
                    0 <= i < e.len() && e[i].0 == k by {
                    if k != sv {
                        assert(old_m.count(k) > 0);
                        let i = choose|i: int| 0 <= i < old_e.len() && old_e[i].0 == k;
                        assert(e[i].0 == k);
                    } else {
                        assert(e[n as int].0 == k);
                    }
                }
            }
        }
    }

    /// Adds the senders of one finished chunk and returns the progress now
    /// reached.
    pub fn record_batch(&mut self, senders: &Vec<String>) -> (r: Fraction)
        requires
            old(self).wf(),
            old(self).completed() < old(self).chunks(),
            old(self).received().len() + senders@.len() <= usize::MAX,
        ensures
            final(self).wf(),
            final(self).received() == old(self).received().add(
                string_views(senders@).to_multiset(),
            ),
            final(self).completed() == old(self).completed() + 1,
            final(self).chunks() == old(self).chunks(),
            fraction_is(
                r,
                spec_scan_progress(final(self).completed() as int, final(self).chunks() as int),
            ),
    {
        let ghost start = self.received@;
        let mut i: usize = 0;
        while i < senders.len()
            invariant
                self.wf(),
                i <= senders@.len(),
                self.received() == start.add(
                    string_views(senders@.subrange(0, i as int)).to_multiset(),
                ),
                start.len() + senders@.len() <= usize::MAX,
                self.completed() == old(self).completed(),
                self.chunks() == old(self).chunks(),
            decreases senders@.len() - i,
        {
            let s = senders[i].clone();
            proof {
                let pre = string_views(senders@.subrange(0, i as int));
                assert(string_views(senders@.subrange(0, i + 1)) =~= pre.push(s@));
                assert(self.received().len() == start.len() + i);
            }
            self.add_one(s);
            i = i + 1;
            proof {
                let pre = string_views(senders@.subrange(0, i - 1));
                assert(start.add(pre.push(senders@[i - 1]@).to_multiset()) =~= start.add(
                    pre.to_multiset(),
                ).insert(senders@[i - 1]@));
            }
        }
        proof {
            assert(senders@.subrange(0, senders@.len() as int) =~= senders@);
        }
        self.completed = self.completed + 1;
        let num = 5 * (self.chunks as u64) + 95 * (self.completed as u64);
        let den = 100 * (self.chunks as u64);
        Fraction { num, den }
    }

    /// The senders with their counts, most messages first; the order among
    /// equal counts is not fixed.
    pub fn finish(&self) -> (r: Vec<SenderInfo>)
        requires
            self.wf(),
        ensures
            tally_matches(pairs(r@), self.received()),
            sorted_by_count(pairs(r@)),
    {
        let n = self.entries.len();
        let mut out: Vec<SenderInfo> = Vec::new();
        let mut i: usize = 0;
        while i < n
            invariant
                n == self.entries@.len(),
                i <= n,
                sorted_by_count(pairs(out@)),
                pairs(out@).to_multiset() == pairs(self.entries@).subrange(
                    0,
                    i as int,
                ).to_multiset(),
            decreases n - i,
        {
            let item = SenderInfo { email: self.entries[i].email.clone(), count: self.entries[i].count };
            let mut p: usize = 0;
            while p < out.len() && out[p].count >= item.count
                invariant
                    p <= out@.len(),
                    forall|q: int| 0 <= q < p ==> out@[q].count >= item.count,
                decreases out@.len() - p,
            {
                p = p + 1;
            }
            let ghost before = pairs(out@);
            let ghost it = pair_of(item);
            out.insert(p, item);
            proof {
                assert(pairs(out@) =~= before.insert(p as int, it));
                assert(pairs(self.entries@).subrange(0, i + 1) =~= pairs(self.entries@).subrange(
                    0,
                    i as int,
                ).push(it));
                let e = pairs(out@);
                assert forall|a: int, b: int| 0 <= a < b < e.len() implies e[a].1 >= e[b].1 by {
                    if a < p && b > p {
                        assert(before[a].1 >= it.1);
                    } else if b == p {
                        assert(before[a].1 >= it.1);
                    } else if a == p && b > p {
                        assert(before[p as int].1 < it.1);
                        assert(before[p as int].1 >= before[b - 1].1);
                    }
                }
            }
            i = i + 1;
        }
        proof {
            assert(pairs(self.entries@).subrange(0, n as int) =~= pairs(self.entries@));
            lemma_tally_permutation(pairs(self.entries@), pairs(out@), self.received@);
        }
        out
    }
}

/// Scan progress never moves back as chunks complete, starts from the part
/// reserved for the enumeration, and reaches exactly one when the last chunk
/// is in.
pub proof fn lemma_scan_progress_law(chunks: int, c1: int, c2: int)
    requires
        chunks >= 1,
        0 <= c1 <= c2 <= chunks,
    ensures
        spec_scan_progress(c1, chunks).1 == spec_scan_progress(c2, chunks).1,
        spec_scan_progress(c1, chunks).0 <= spec_scan_progress(c2, chunks).0,
        spec_scan_progress(c1, chunks).0 <= spec_scan_progress(c1, chunks).1,
        20 * spec_scan_progress(0, chunks).0 == spec_scan_progress(0, chunks).1,
        spec_scan_progress(chunks, chunks).0 == spec_scan_progress(chunks, chunks).1,
{
}

/// The senders that `sender_of` gives the identifiers of `chunk`, in order;
/// identifiers without a sender are left out.
pub open spec fn batch_senders(chunk: Seq<u32>, sender_of: spec_fn(u32) -> Option<Seq<char>>) -> Seq<
    Seq<char>,
>
    decreases chunk.len(),
{
    if chunk.len() == 0 {
        Seq::empty()
    } else {
        let rest = batch_senders(chunk.drop_last(), sender_of);
        match sender_of(chunk.last()) {
            Some(s) => rest.push(s),
            None => rest,
        }
    }
}

/// What an aggregator has received once the chunks have finished in the order
/// given.
pub open spec fn batches_tally(
    chunks: Seq<Seq<u32>>,
    sender_of: spec_fn(u32) -> Option<Seq<char>>,
) -> Multiset<Seq<char>>
    decreases chunks.len(),
{
    if chunks.len() == 0 {
        Multiset::empty()
    } else {
        batches_tally(chunks.drop_last(), sender_of).add(
            batch_senders(chunks.last(), sender_of).to_multiset(),
        )
    }
}

proof fn lemma_batch_senders_concat(
    a: Seq<u32>,
    b: Seq<u32>,
    sender_of: spec_fn(u32) -> Option<Seq<char>>,
)
    ensures
        batch_senders(a + b, sender_of) == batch_senders(a, sender_of) + batch_senders(
            b,
            sender_of,
        ),
    decreases b.len(),
{
    if b.len() == 0 {
        assert(a + b =~= a);
        assert(batch_senders(a, sender_of) + batch_senders(b, sender_of) =~= batch_senders(
            a,
            sender_of,
        ));
    } else {
        assert((a + b).drop_last() =~= a + b.drop_last());
        assert((a + b).last() == b.last());
        lemma_batch_senders_concat(a, b.drop_last(), sender_of);
        let x = batch_senders(a, sender_of);
        let y = batch_senders(b.drop_last(), sender_of);
        match sender_of(b.last()) {
            Some(s) => {
                assert((x + y).push(s) =~= x + y.push(s));
            },
            None => {},
        }
    }
}

proof fn lemma_tally_prefix(
    ids: Seq<u32>,
    size: int,
    m: int,
    sender_of: spec_fn(u32) -> Option<Seq<char>>,
)
    requires
        size >= 1,
        0 <= m <= spec_chunk_count(ids.len() as int, size),
    ensures
        m * size <= ids.len() ==> batches_tally(spec_chunks(ids, size).take(m), sender_of)
            == batch_senders(ids.take(m * size), sender_of).to_multiset(),
        m * size > ids.len() ==> batches_tally(spec_chunks(ids, size).take(m), sender_of)
            == batch_senders(ids, sender_of).to_multiset(),
    decreases m,
{
    let cs = spec_chunks(ids, size);
    if m == 0 {
        assert(cs.take(0) =~= Seq::<Seq<u32>>::empty());
        assert(ids.take(0) =~= Seq::<u32>::empty());
        assert(0 * size == 0);
    } else {
        lemma_tally_prefix(ids, size, m - 1, sender_of);
        assert(cs.take(m).drop_last() =~= cs.take(m - 1));
        assert(cs.take(m).last() == spec_chunk(ids, size, m - 1));
        assert((m - 1) * size + size == m * size) by (nonlinear_arith);
        assert((m - 1) * size < ids.len()) by {
            vstd::arithmetic::div_mod::lemma_div_is_ordered(
                ids.len() as int + size - 1,
                ids.len() as int + size - 1,
                size,
            );
            if (m - 1) * size >= ids.len() {
                assert(ids.len() + size - 1 < m * size);
                vstd::arithmetic::div_mod::lemma_div_is_ordered(
                    ids.len() as int + size - 1,
                    m * size - 1,
                    size,
                );
                vstd::arithmetic::div_mod::lemma_fundamental_div_mod_converse(
                    m * size - 1,
                    size,
                    m - 1,
                    size - 1,
                );
            }
        }
        let lo = (m - 1) * size;
        let c = spec_chunk(ids, size, m - 1);
        let hi = if m * size <= ids.len() {
            m * size
        } else {
            ids.len() as int
        };
        assert(ids.take(hi) =~= ids.take(lo) + c);
        lemma_batch_senders_concat(ids.take(lo), c, sender_of);
        vstd::seq_lib::lemma_multiset_commutative(
            batch_senders(ids.take(lo), sender_of),
            batch_senders(c, sender_of),
        );
        if m * size > ids.len() {
            assert(ids.take(ids.len() as int) =~= ids);
        }
    }
}

/// Everything that `sender_of` attributes to the identifiers, once per message.
pub proof fn lemma_tally_covers_all(
    ids: Seq<u32>,
    concurrency: int,
    sender_of: spec_fn(u32) -> Option<Seq<char>>,
)
    requires
        concurrency >= 1,
    ensures
        batches_tally(spec_partition(ids, concurrency), sender_of) == batch_senders(
            ids,
            sender_of,
        ).to_multiset(),
{
    let size = spec_chunk_len(ids.len() as int, concurrency);
    let cs = spec_chunks(ids, size);
    let m = spec_chunk_count(ids.len() as int, size);
    assert(m >= 0) by {
        vstd::arithmetic::div_mod::lemma_div_pos_is_pos(ids.len() + size - 1, size);
    }
    lemma_tally_prefix(ids, size, m, sender_of);
    assert(cs.take(m) =~= cs);
    if m * size <= ids.len() {
        assert(m * size >= ids.len()) by {
            vstd::arithmetic::div_mod::lemma_fundamental_div_mod(ids.len() + size - 1, size);
            vstd::arithmetic::div_mod::lemma_mod_bound(ids.len() + size - 1, size);
        }
        assert(ids.take(m * size) =~= ids);
    }
}

proof fn lemma_tally_remove(
    chunks: Seq<Seq<u32>>,
    j: int,
    sender_of: spec_fn(u32) -> Option<Seq<char>>,
)
    requires
        0 <= j < chunks.len(),
    ensures
        batches_tally(chunks, sender_of) == batches_tally(chunks.remove(j), sender_of).add(
            batch_senders(chunks[j], sender_of).to_multiset(),
        ),
    decreases chunks.len(),
{
    if j == chunks.len() - 1 {
        assert(chunks.remove(j) =~= chunks.drop_last());
    } else {
        lemma_tally_remove(chunks.drop_last(), j, sender_of);
        assert(chunks.remove(j).drop_last() =~= chunks.drop_last().remove(j));
        assert(chunks.remove(j).last() == chunks.last());
        let a = batches_tally(chunks.drop_last().remove(j), sender_of);
        let b = batch_senders(chunks[j], sender_of).to_multiset();
        let c = batch_senders(chunks.last(), sender_of).to_multiset();
        assert(a.add(b).add(c) =~= a.add(c).add(b));
    }
}

/// The tally does not depend on the order in which the chunks finish.
pub proof fn lemma_tally_order_independent(
    chunks: Seq<Seq<u32>>,
    finished: Seq<Seq<u32>>,
    sender_of: spec_fn(u32) -> Option<Seq<char>>,
)
    requires
        finished.to_multiset() == chunks.to_multiset(),
    ensures
        batches_tally(finished, sender_of) == batches_tally(chunks, sender_of),
    decreases chunks.len(),
{
    if chunks.len() == 0 {
        assert(finished.to_multiset().len() == 0);
        assert(finished.len() == 0);
    } else {
        let x = chunks.last();
        assert(chunks.contains(x)) by {
            assert(chunks[chunks.len() - 1] == x);
        }
        assert(finished.to_multiset().count(x) > 0);
        assert(finished.contains(x));
        let j = choose|j: int| 0 <= j < finished.len() && finished[j] == x;
        assert(chunks.drop_last().push(x) =~= chunks);
        assert(finished.remove(j).to_multiset() =~= chunks.drop_last().to_multiset()) by {
            vstd::seq_lib::to_multiset_remove(finished, j);
            vstd::seq_lib::to_multiset_build(chunks.drop_last(), x);
        }
        lemma_tally_order_independent(chunks.drop_last(), finished.remove(j), sender_of);
        lemma_tally_remove(finished, j, sender_of);
    }
}

/// Running the same messages through pools of different sizes, with the
/// chunks finishing in any order, gives the same sender counts.
pub proof fn lemma_scan_concurrency_independent(
    ids: Seq<u32>,
    c1: int,
    c2: int,
    finished1: Seq<Seq<u32>>,
    finished2: Seq<Seq<u32>>,
    sender_of: spec_fn(u32) -> Option<Seq<char>>,
)
    requires
        c1 >= 1,
        c2 >= 1,
        finished1.to_multiset() == spec_partition(ids, c1).to_multiset(),
        finished2.to_multiset() == spec_partition(ids, c2).to_multiset(),
    ensures
        batches_tally(finished1, sender_of) == batches_tally(finished2, sender_of),
{
    lemma_tally_order_independent(spec_partition(ids, c1), finished1, sender_of);
    lemma_tally_order_independent(spec_partition(ids, c2), finished2, sender_of);
    lemma_tally_covers_all(ids, c1, sender_of);
    lemma_tally_covers_all(ids, c2, sender_of);
}

} // verus!
