use vstd::prelude::*;

verus! {

broadcast use vstd::seq_lib::group_to_multiset_ensures;

/// Every identifier is smaller than the next.
pub open spec fn strictly_ascending(s: Seq<u32>) -> bool {
    forall|i: int, j: int| 0 <= i < j < s.len() ==> s[i] < s[j]
}

pub open spec fn ascending(s: Seq<u32>) -> bool {
    forall|i: int, j: int| 0 <= i < j < s.len() ==> s[i] <= s[j]
}

/// Relies on `slice::sort_unstable`: the same identifiers, in ascending order.
#[verifier::external_body]
fn sort_ids(v: &mut Vec<u32>)
    ensures
        final(v)@.to_multiset() == old(v)@.to_multiset(),
        ascending(final(v)@),
{
    v.sort_unstable()
}

/// The identifiers that a search returned, in ascending order, each once.
pub fn order_ids(found: Vec<u32>) -> (r: Vec<u32>)
    ensures
        strictly_ascending(r@),
        r@.to_set() == found@.to_set(),
{
    let mut v = found;
    sort_ids(&mut v);
    let ghost sorted = v@;
    proof {
        assert forall|x: u32| sorted.contains(x) <==> found@.contains(x) by {
            assert(sorted.to_multiset().count(x) == found@.to_multiset().count(x));
        }
    }
    let mut out: Vec<u32> = Vec::new();
    let mut i: usize = 0;
    while i < v.len()
        invariant
            v@ == sorted,
            ascending(sorted),
            i <= sorted.len(),
            strictly_ascending(out@),
            forall|x: u32| out@.contains(x) <==> sorted.subrange(0, i as int).contains(x),
            out@.len() > 0 ==> i > 0 && out@.last() == sorted[i - 1],
        decreases sorted.len() - i,
    {
        let x = v[i];
        let ghost pre = out@;
        if out.len() == 0 || out[out.len() - 1] != x {
            out.push(x);
            proof {
                assert forall|a: int, b: int| 0 <= a < b < out@.len() implies out@[a] < out@[b] by {
                    if b == out@.len() - 1 && a < b {
                        assert(pre.contains(pre[a]));
                        let t = choose|t: int| 0 <= t < i && #[trigger] sorted[t] == pre[a];
                        assert(sorted[t] <= sorted[i as int]);
                    }
                }
            }
        }
        proof {
            assert forall|y: u32| out@.contains(y) <==> sorted.subrange(0, i + 1).contains(y) by {
                if sorted.subrange(0, i + 1).contains(y) {
                    let t = choose|t: int| 0 <= t < i + 1 && #[trigger] sorted.subrange(0, i + 1)[t] == y;
                    if t < i {
                        assert(sorted.subrange(0, i as int)[t] == y);
                        assert(pre.contains(y));
                        let q = choose|q: int| 0 <= q < pre.len() && #[trigger] pre[q] == y;
                        assert(out@[q] == y);
                    } else {
                        assert(out@[out@.len() - 1] == y);
                    }
                }
                if out@.contains(y) {
                    let q = choose|q: int| 0 <= q < out@.len() && #[trigger] out@[q] == y;
                    if q < pre.len() {
                        assert(pre[q] == y);
                        assert(pre.contains(y));
                        let t = choose|t: int| 0 <= t < i && #[trigger] sorted.subrange(0, i as int)[t] == y;
                        assert(sorted.subrange(0, i + 1)[t] == y);
                    } else {
                        assert(sorted.subrange(0, i + 1)[i as int] == y);
                    }
                }
            }
        }
        i = i + 1;
    }
    proof {
        assert(sorted.subrange(0, sorted.len() as int) =~= sorted);
        assert(out@.to_set() =~= found@.to_set());
    }
    out
}

/// The identifiers that a scan of depth `depth` covers: the `depth` most
/// recent (the tail of the ascending list), or all of them where `depth` is
/// zero or reaches the whole folder.
pub open spec fn spec_scan_window(ids: Seq<u32>, depth: int) -> Seq<u32> {
    if depth > 0 && depth < ids.len() {
        ids.subrange(ids.len() - depth, ids.len() as int)
    } else {
        ids
    }
}

/// What a scan is about to do: the folder's size and the identifiers it reads.
pub struct ScanPlan {
    pub total_messages: usize,
    pub to_scan: Vec<u32>,
}

/// Chooses the identifiers to scan among all those of the folder.
pub fn plan_scan(ids: Vec<u32>, scan_depth: u32) -> (r: ScanPlan)
    ensures
        r.total_messages == ids@.len(),
        r.to_scan@ == spec_scan_window(ids@, scan_depth as int),
{
    let total = ids.len();
    if scan_depth > 0 && (scan_depth as usize) < total {
        let mut ids = ids;
        let tail = ids.split_off(total - scan_depth as usize);
        ScanPlan { total_messages: total, to_scan: tail }
    } else {
        ScanPlan { total_messages: total, to_scan: ids }
    }
}

} // verus!
