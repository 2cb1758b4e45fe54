use vstd::prelude::*;

verus! {

/// Number of workers that scan a folder side by side; kept below the
/// concurrent-session caps of common mail providers.
pub const MAX_CONCURRENT: usize = 10;

/// Chunk length used when `total` identifiers are shared among `concurrency` workers.
pub open spec fn spec_chunk_len(total: int, concurrency: int) -> int {
    if total / concurrency >= 1 {
        total / concurrency
    } else {
        1
    }
}

/// Number of chunks of length `size` needed to cover `total` identifiers.
pub open spec fn spec_chunk_count(total: int, size: int) -> int {
    (total + size - 1) / size
}

/// The `k`-th contiguous chunk of length `size` (the last one may be shorter).
pub open spec fn spec_chunk(ids: Seq<u32>, size: int, k: int) -> Seq<u32> {
    let lo = k * size;
    let hi = if (k + 1) * size <= ids.len() {
        (k + 1) * size
    } else {
        ids.len() as int
    };
    ids.subrange(lo, hi)
}

/// `ids` cut into consecutive chunks of length `size`.
pub open spec fn spec_chunks(ids: Seq<u32>, size: int) -> Seq<Seq<u32>> {
    Seq::new(spec_chunk_count(ids.len() as int, size) as nat, |k: int| spec_chunk(ids, size, k))
}

/// `ids` cut into chunks for a pool of `concurrency` workers.
pub open spec fn spec_partition(ids: Seq<u32>, concurrency: int) -> Seq<Seq<u32>> {
    spec_chunks(ids, spec_chunk_len(ids.len() as int, concurrency))
}

pub open spec fn views_of(chunks: Seq<Vec<u32>>) -> Seq<Seq<u32>> {
    chunks.map_values(|c: Vec<u32>| c@)
}

/// Chunk length for `total` identifiers and `concurrency` workers: `total / concurrency`,
/// but never below one.
pub fn chunk_len(total: usize, concurrency: usize) -> (r: usize)
    requires
        concurrency >= 1,
    ensures
        r == spec_chunk_len(total as int, concurrency as int),
        r >= 1,
{
    let q = total / concurrency;
    if q >= 1 {
        q
    } else {
        1
    }
}

proof fn lemma_count_exact(n: int, size: int, k: int)
    requires
        size >= 1,
        0 <= n <= k * size,
        k == 0 || (k - 1) * size < n,
        k >= 0,
    ensures
        spec_chunk_count(n, size) == k,
{
    if k == 0 {
        assert(n == 0) by (nonlinear_arith)
            requires
                0 <= n <= k * size,
                k == 0,
        ;
        assert((size - 1) / size == 0) by (nonlinear_arith)
            requires
                size >= 1,
        ;
    } else {
        assert((n + size - 1) / size == k) by (nonlinear_arith)
            requires
                size >= 1,
                n <= k * size,
                (k - 1) * size < n,
                k >= 1,
        {
            let m = n + size - 1;
            assert(k * size <= m < (k + 1) * size) by (nonlinear_arith)
                requires
                    m == n + size - 1,
                    n <= k * size,
                    (k - 1) * size < n,
            ;
            vstd::arithmetic::div_mod::lemma_div_is_ordered(k * size, m, size);
            vstd::arithmetic::div_mod::lemma_div_by_multiple(k, size);
            vstd::arithmetic::div_mod::lemma_div_is_ordered(m, (k + 1) * size - 1, size);
            vstd::arithmetic::div_mod::lemma_div_by_multiple(k + 1, size);
        };
    }
}

/// Cuts `ids` into consecutive chunks of `size` identifiers; only the last
/// chunk may be shorter.
pub fn split_into_chunks(ids: &Vec<u32>, size: usize) -> (r: Vec<Vec<u32>>)
    requires
        size >= 1,
    ensures
        views_of(r@) == spec_chunks(ids@, size as int),
{
    let n = ids.len();
    let mut out: Vec<Vec<u32>> = Vec::new();
    let mut start: usize = 0;
    proof {
        assert(out@.len() * size == 0) by (nonlinear_arith)
            requires
                out@.len() == 0,
        ;
    }
    while start < n
        invariant
            size >= 1,
            n == ids@.len(),
            start <= n,
            start == out@.len() * size || (start == n && n <= out@.len() * size),
            out@.len() == 0 || (out@.len() - 1) * size < start,
            forall|k: int| 0 <= k < out@.len() ==> #[trigger] out@[k]@ == spec_chunk(ids@, size as int, k),
        decreases n - start,
    {
        let k = out.len();
        proof {
            assert(start == k * size);
        }
        let end: usize = if n - start > size {
            start + size
        } else {
            n
        };
        let mut chunk: Vec<u32> = Vec::new();
        let mut i: usize = start;
        while i < end
            invariant
                start <= i <= end <= n,
                n == ids@.len(),
                chunk@ == ids@.subrange(start as int, i as int),
            decreases end - i,
        {
            chunk.push(ids[i]);
            proof {
                assert(chunk@ =~= ids@.subrange(start as int, i + 1));
            }
            i = i + 1;
        }
        proof {
            assert((k + 1) * size == k * size + size) by (nonlinear_arith);
            assert(chunk@ == spec_chunk(ids@, size as int, k as int));
        }
        out.push(chunk);
        proof {
            assert(out@.len() == k + 1);
            assert(end == (k + 1) * size || (end == n && n <= (k + 1) * size));
            assert(k * size < end);
        }
        start = end;
    }
    proof {
        lemma_count_exact(n as int, size as int, out@.len() as int);
        assert(views_of(out@) =~= spec_chunks(ids@, size as int));
    }
    out
}

/// Cuts the identifiers of one scan into the chunks handed to a pool of
/// `concurrency` workers.
pub fn partition_ids(ids: &Vec<u32>, concurrency: usize) -> (r: Vec<Vec<u32>>)
    requires
        concurrency >= 1,
    ensures
        views_of(r@) == spec_partition(ids@, concurrency as int),
{
    let size = chunk_len(ids.len(), concurrency);
    split_into_chunks(ids, size)
}

proof fn lemma_index_in_chunk(n: int, size: int, t: int)
    requires
        size >= 1,
        0 <= t < n,
    ensures
        0 <= t / size < spec_chunk_count(n, size),
        (t / size) * size <= t < (t / size) * size + size,
{
    vstd::arithmetic::div_mod::lemma_fundamental_div_mod(t, size);
    vstd::arithmetic::div_mod::lemma_div_pos_is_pos(t, size);
    vstd::arithmetic::div_mod::lemma_mod_bound(t, size);
    let k = t / size;
    assert(k * size == size * k) by (nonlinear_arith);
    assert((k + 1) * size == k * size + size) by (nonlinear_arith);
    assert((k + 1) * size <= n + size - 1);
    vstd::arithmetic::div_mod::lemma_div_is_ordered((k + 1) * size, n + size - 1, size);
    vstd::arithmetic::div_mod::lemma_div_by_multiple(k + 1, size);
}

proof fn lemma_chunk_bounds(n: int, size: int, k: int)
    requires
        size >= 1,
        0 <= k < spec_chunk_count(n, size),
        n >= 0,
    ensures
        0 <= k * size < n,
{
    assert(k * size >= 0) by (nonlinear_arith)
        requires
            k >= 0,
            size >= 1,
    ;
    if k * size >= n {
        assert((n + size - 1) / size <= k) by {
            assert(n + size - 1 < (k + 1) * size) by (nonlinear_arith)
                requires
                    k * size >= n,
            ;
            vstd::arithmetic::div_mod::lemma_div_is_ordered(n + size - 1, (k + 1) * size - 1, size);
            assert(((k + 1) * size - 1) / size == k) by {
                assert((k + 1) * size - 1 == k * size + (size - 1)) by (nonlinear_arith);
                vstd::arithmetic::div_mod::lemma_fundamental_div_mod_converse(
                    (k + 1) * size - 1,
                    size,
                    k,
                    size - 1,
                );
            }
        }
    }
}

proof fn lemma_same_chunk(k1: int, p1: int, k2: int, p2: int, size: int)
    requires
        size >= 1,
        0 <= p1 < size,
        0 <= p2 < size,
        k1 >= 0,
        k2 >= 0,
        k1 * size + p1 == k2 * size + p2,
    ensures
        k1 == k2,
{
    if k1 < k2 {
        assert(k1 * size + p1 < k2 * size + p2) by (nonlinear_arith)
            requires
                k1 < k2,
                0 <= p1 < size,
                p2 >= 0,
        ;
    } else if k2 < k1 {
        assert(k2 * size + p2 < k1 * size + p1) by (nonlinear_arith)
            requires
                k2 < k1,
                0 <= p2 < size,
                p1 >= 0,
        ;
    }
}

/// Partitioning the identifiers of a scan among `concurrency` workers loses
/// no identifier and invents none; on duplicate-free identifiers no
/// identifier lands in two chunks; and, wherever the remainder of
/// `total / concurrency` does not exceed the quotient, there is at most one
/// chunk more than there are workers.
pub proof fn lemma_partition_law(ids: Seq<u32>, concurrency: int)
    requires
        concurrency >= 1,
    ensures
        forall|x: u32|
            ids.contains(x) <==> exists|k: int|
                0 <= k < spec_partition(ids, concurrency).len()
                    && #[trigger] spec_partition(ids, concurrency)[k].contains(x),
        ids.no_duplicates() ==> forall|k1: int, k2: int, x: u32|
            0 <= k1 < spec_partition(ids, concurrency).len() && 0 <= k2
                < spec_partition(ids, concurrency).len() && k1 != k2 ==> !(
            #[trigger] spec_partition(ids, concurrency)[k1].contains(x)
                && #[trigger] spec_partition(ids, concurrency)[k2].contains(x)),
        (ids.len() < concurrency || (ids.len() as int) % concurrency <= (ids.len() as int) / concurrency)
            ==> spec_partition(ids, concurrency).len() <= concurrency + 1,
{
    let n = ids.len() as int;
    let size = spec_chunk_len(n, concurrency);
    let p = spec_partition(ids, concurrency);
    assert(size >= 1);
    assert forall|x: u32| ids.contains(x) implies exists|k: int|
        0 <= k < p.len() && #[trigger] p[k].contains(x) by {
        let t = choose|t: int| 0 <= t < n && ids[t] == x;
        lemma_index_in_chunk(n, size, t);
        let k = t / size;
        lemma_chunk_bounds(n, size, k);
        let c = spec_chunk(ids, size, k);
        assert((k + 1) * size == k * size + size) by (nonlinear_arith);
        assert(0 <= t - k * size < c.len());
        assert(c[t - k * size] == ids[t]);
        assert(p[k] == c);
        assert(p[k][t - k * size] == x);
        assert(p[k].contains(x));
        assert(0 <= k < p.len() && p[k].contains(x));
    }
    assert forall|x: u32| (exists|k: int| 0 <= k < p.len() && #[trigger] p[k].contains(x))
        implies ids.contains(x) by {
        let k = choose|k: int| 0 <= k < p.len() && #[trigger] p[k].contains(x);
        lemma_chunk_bounds(n, size, k);
        let c = spec_chunk(ids, size, k);
        assert(p[k] == c);
        let j = choose|j: int| 0 <= j < c.len() && c[j] == x;
        assert((k + 1) * size == k * size + size) by (nonlinear_arith);
        assert(c[j] == ids[k * size + j]);
        assert(0 <= k * size + j < n);
    }
    if ids.no_duplicates() {
        assert forall|k1: int, k2: int, x: u32|
            0 <= k1 < p.len() && 0 <= k2 < p.len() && k1 != k2 implies !(
            #[trigger] p[k1].contains(x) && #[trigger] p[k2].contains(x)) by {
            if p[k1].contains(x) && p[k2].contains(x) {
                lemma_chunk_bounds(n, size, k1);
                lemma_chunk_bounds(n, size, k2);
                assert((k1 + 1) * size == k1 * size + size) by (nonlinear_arith);
                assert((k2 + 1) * size == k2 * size + size) by (nonlinear_arith);
                let c1 = spec_chunk(ids, size, k1);
                let c2 = spec_chunk(ids, size, k2);
                let j1 = choose|j: int| 0 <= j < c1.len() && c1[j] == x;
                let j2 = choose|j: int| 0 <= j < c2.len() && c2[j] == x;
                assert(ids[k1 * size + j1] == ids[k2 * size + j2]);
                lemma_same_chunk(k1, j1, k2, j2, size);
            }
        }
    }
    if n < concurrency {
        assert(n / concurrency == 0) by {
            vstd::arithmetic::div_mod::lemma_basic_div(n, concurrency);
        }
        assert(size == 1);
        assert((n + 1 - 1) / 1 == n);
    } else if n % concurrency <= n / concurrency {
        let q = n / concurrency;
        let r = n % concurrency;
        vstd::arithmetic::div_mod::lemma_fundamental_div_mod(n, concurrency);
        assert(q >= 1) by {
            vstd::arithmetic::div_mod::lemma_div_is_ordered(concurrency, n, concurrency);
            vstd::arithmetic::div_mod::lemma_div_by_multiple(1, concurrency);
        }
        assert(size == q);
        assert(n + q - 1 <= (concurrency + 1) * q + q - 1) by (nonlinear_arith)
            requires
                n == concurrency * q + r,
                r <= q,
        ;
        vstd::arithmetic::div_mod::lemma_div_is_ordered(n + q - 1, (concurrency + 1) * q + q - 1, q);
        assert((concurrency + 1) * q + q - 1 == (concurrency + 1) * q + (q - 1));
        vstd::arithmetic::div_mod::lemma_fundamental_div_mod_converse(
            (concurrency + 1) * q + q - 1,
            q,
            concurrency + 1,
            q - 1,
        );
    }
}

} // verus!
