//! Counting decisions: the dimension of a flat list of values, the rows that
//! seed the clustering of an inverted-file index, the grouping of rows into
//! clusters, and how many clusters a search visits.

use vstd::prelude::*;

verus! {

/// The embedding dimensions tried, in order, when a flat list of values
/// comes without its dimension.
pub open spec fn dim_candidates() -> Seq<usize> {
    seq![1536, 1024, 768, 512, 384, 256, 128, 64, 8, 2048, 3072, 4096, 8192]
}

/// The first of `c` that divides `total` and is no larger than it.
pub open spec fn first_dividing(c: Seq<usize>, total: usize) -> Option<usize>
    decreases c.len(),
{
    if c.len() == 0 {
        None
    } else if c[0] > 0 && total % c[0] == 0 && total >= c[0] {
        Some(c[0])
    } else {
        first_dividing(c.drop_first(), total)
    }
}

fn candidate_list() -> (v: Vec<usize>)
    ensures
        v@ == dim_candidates(),
{
    let v: Vec<usize> = vec![1536, 1024, 768, 512, 384, 256, 128, 64, 8, 2048, 3072, 4096, 8192];
    assert(v@ =~= dim_candidates());
    v
}

/// Infers the dimension of `total` values: the first candidate dimension,
/// in the order of [`dim_candidates`], that divides `total` and is no
/// larger than it; `None` when there is none (always when `total` is 0).
pub fn auto_detect_dim(total: usize) -> (r: Option<usize>)
    ensures
        r == first_dividing(dim_candidates(), total),
{
    let c = candidate_list();
    let mut i: usize = 0;
    assert(c@.skip(0) =~= c@);
    while i < c.len()
        invariant
            0 <= i <= c@.len(),
            c@ == dim_candidates(),
            first_dividing(c@, total) == first_dividing(c@.skip(i as int), total),
        decreases c@.len() - i,
    {
        let d = c[i];
        assert(c@.skip(i as int)[0] == d);
        assert(c@.skip(i as int).drop_first() =~= c@.skip(i + 1));
        if d > 0 && total % d == 0 && total >= d {
            return Some(d);
        }
        i = i + 1;
    }
    None
}

/// A dimension inferred from a count divides the count, is no larger than
/// it and is one of the candidates; so a flat list is always cut into whole
/// vectors of the inferred dimension.
pub proof fn lemma_detected_dim_divides(total: usize)
    ensures
        first_dividing(dim_candidates(), total) matches Some(d) ==> d > 0 && total % d == 0
            && d <= total && dim_candidates().contains(d),
{
    lemma_first_dividing(dim_candidates(), total);
}

/// The dimension of a flat list of `total` values is the first of 1536,
/// 1024, 768, 512, 384, 256, 128, 64, 8, 2048, 3072, 4096 and 8192, in that
/// order, that divides `total` and is no larger than it; there is none
/// exactly when none of them does.
pub proof fn lemma_detection_order(total: usize)
    ensures
        ({
            let order = seq![
                1536usize,
                1024usize,
                768usize,
                512usize,
                384usize,
                256usize,
                128usize,
                64usize,
                8usize,
                2048usize,
                3072usize,
                4096usize,
                8192usize,
            ];
            &&& first_dividing(dim_candidates(), total) is None <==> forall|j: int|
                0 <= j < order.len() ==> !(total % #[trigger] order[j] == 0 && total >= order[j])
            &&& first_dividing(dim_candidates(), total) matches Some(d) ==> exists|i: int|
                0 <= i < order.len() && #[trigger] order[i] == d && total % d == 0 && total >= d
                    && forall|j: int|
                    0 <= j < i ==> !(total % #[trigger] order[j] == 0 && total >= order[j])
        }),
{
    let order = seq![
        1536usize,
        1024usize,
        768usize,
        512usize,
        384usize,
        256usize,
        128usize,
        64usize,
        8usize,
        2048usize,
        3072usize,
        4096usize,
        8192usize,
    ];
    assert(dim_candidates() =~= order);
    lemma_first_dividing_is_first(order, total);
}

/// [`first_dividing`] picks the first entry that divides `total` and is no
/// larger than it.
proof fn lemma_first_dividing_is_first(c: Seq<usize>, total: usize)
    requires
        forall|j: int| 0 <= j < c.len() ==> #[trigger] c[j] > 0,
    ensures
        first_dividing(c, total) is None <==> forall|j: int|
            0 <= j < c.len() ==> !(total % #[trigger] c[j] == 0 && total >= c[j]),
        first_dividing(c, total) matches Some(d) ==> exists|i: int|
            0 <= i < c.len() && #[trigger] c[i] == d && total % d == 0 && total >= d && forall|
                j: int,
            |
                0 <= j < i ==> !(total % #[trigger] c[j] == 0 && total >= c[j]),
    decreases c.len(),
{
    if c.len() > 0 {
        let rest = c.drop_first();
        assert forall|j: int| 0 <= j < rest.len() implies #[trigger] rest[j] > 0 by {
            assert(rest[j] == c[j + 1]);
        }
        lemma_first_dividing_is_first(rest, total);
        if c[0] > 0 && total % c[0] == 0 && total >= c[0] {
            assert(c[0] == c[0]);
        } else {
            if first_dividing(c, total) is None {
                assert forall|j: int| 0 <= j < c.len() implies !(total % #[trigger] c[j] == 0
                    && total >= c[j]) by {
                    if j > 0 {
                        assert(rest[j - 1] == c[j]);
                    }
                }
            } else {
                let d = first_dividing(c, total)->0;
                let i = choose|i: int|
                    0 <= i < rest.len() && #[trigger] rest[i] == d && total % d == 0 && total >= d
                        && forall|j: int|
                        0 <= j < i ==> !(total % #[trigger] rest[j] == 0 && total >= rest[j]);
                assert(c[i + 1] == d);
                assert forall|j: int| 0 <= j < i + 1 implies !(total % #[trigger] c[j] == 0
                    && total >= c[j]) by {
                    if j > 0 {
                        assert(rest[j - 1] == c[j]);
                    }
                }
            }
            if exists|j: int| 0 <= j < c.len() && (total % #[trigger] c[j] == 0 && total >= c[j]) {
                let j = choose|j: int| 0 <= j < c.len() && (total % #[trigger] c[j] == 0 && total >= c[j]);
                assert(j > 0);
                assert(rest[j - 1] == c[j]);
            }
        }
    }
}

proof fn lemma_first_dividing(c: Seq<usize>, total: usize)
    ensures
        first_dividing(c, total) matches Some(d) ==> d > 0 && total % d == 0 && d <= total
            && c.contains(d),
    decreases c.len(),
{
    if c.len() > 0 {
        lemma_first_dividing(c.drop_first(), total);
        if let Some(d) = first_dividing(c.drop_first(), total) {
            let j = choose|j: int| 0 <= j < c.drop_first().len() && c.drop_first()[j] == d;
            assert(c[j + 1] == d);
        }
        assert(c[0] == c[0]);
    }
}

/// The row that seeds cluster `ci` of `k` clusters over `n` rows: rows are
/// taken `max(n / k, 1)` apart, and never past the last row.
pub open spec fn seed_row(n: usize, k: usize, ci: int) -> int {
    let step = if n / k >= 1 { n / k } else { 1 };
    let at = ci * step;
    if at < n - 1 { at } else { n - 1 }
}

/// The rows that seed `k` clusters over `n` rows, one per cluster.
pub fn seed_rows(n: usize, k: usize) -> (rows: Vec<usize>)
    requires
        n >= 1,
        k >= 1,
    ensures
        rows@.len() == k,
        forall|ci: int| 0 <= ci < k ==> #[trigger] rows@[ci] as int == seed_row(n, k, ci),
        forall|ci: int| 0 <= ci < k ==> #[trigger] rows@[ci] < n,
{
    let q = n / k;
    let step: usize = if q >= 1 { q } else { 1 };
    let mut rows: Vec<usize> = Vec::new();
    let mut ci: usize = 0;
    while ci < k
        invariant
            0 <= ci <= k,
            n >= 1,
            k >= 1,
            q == n / k,
            step == (if q >= 1 { q } else { 1 }),
            rows@.len() == ci,
            forall|j: int| 0 <= j < ci ==> #[trigger] rows@[j] as int == seed_row(n, k, j),
            forall|j: int| 0 <= j < ci ==> #[trigger] rows@[j] < n,
        decreases k - ci,
    {
        proof {
            if q >= 1 {
                vstd::arithmetic::div_mod::lemma_fundamental_div_mod(n as int, k as int);
                vstd::arithmetic::mul::lemma_mul_inequality(ci as int, k as int, q as int);
                vstd::arithmetic::mul::lemma_mul_is_commutative(k as int, q as int);
                assert(ci * step <= n);
            } else {
                vstd::arithmetic::div_mod::lemma_fundamental_div_mod(n as int, k as int);
                assert(n < k);
                assert(ci * step <= n + k);
            }
        }
        let at = ci * step;
        let row = if at < n - 1 { at } else { n - 1 };
        rows.push(row);
        ci = ci + 1;
    }
    rows
}

/// The rows assigned to cluster `c`, in increasing order.
pub open spec fn members(assign: Seq<usize>, c: usize) -> Seq<usize>
    decreases assign.len(),
{
    if assign.len() == 0 {
        Seq::empty()
    } else {
        let before = members(assign.drop_last(), c);
        if assign.last() == c {
            before.push((assign.len() - 1) as usize)
        } else {
            before
        }
    }
}

/// Groups rows by the cluster that each is assigned to: group `c` lists,
/// in increasing order, the rows assigned to `c`.
pub fn group_by_cluster(assign: &Vec<usize>, lists: usize) -> (groups: Vec<Vec<usize>>)
    requires
        forall|i: int| 0 <= i < assign@.len() ==> #[trigger] assign@[i] < lists,
    ensures
        groups@.len() == lists,
        forall|c: int| 0 <= c < lists ==> #[trigger] groups@[c]@ == members(assign@, c as usize),
{
    let mut groups: Vec<Vec<usize>> = Vec::new();
    let mut c: usize = 0;
    while c < lists
        invariant
            0 <= c <= lists,
            groups@.len() == c,
            forall|j: int| 0 <= j < c ==> #[trigger] groups@[j]@ == Seq::<usize>::empty(),
        decreases lists - c,
    {
        groups.push(Vec::new());
        c = c + 1;
    }
    let mut vi: usize = 0;
    while vi < assign.len()
        invariant
            0 <= vi <= assign@.len(),
            groups@.len() == lists,
            forall|i: int| 0 <= i < assign@.len() ==> #[trigger] assign@[i] < lists,
            forall|j: int|
                0 <= j < lists ==> #[trigger] groups@[j]@ == members(
                    assign@.take(vi as int),
                    j as usize,
                ),
        decreases assign@.len() - vi,
    {
        let c = assign[vi];
        assert(assign@.take(vi + 1).drop_last() =~= assign@.take(vi as int));
        assert(assign@.take(vi + 1).last() == c);
        let ghost old_groups = groups@;
        groups[c].push(vi);
        assert forall|j: int| 0 <= j < lists implies #[trigger] groups@[j]@ == members(
            assign@.take(vi + 1),
            j as usize,
        ) by {
            if j != c as int {
                assert(groups@[j] == old_groups[j]);
            }
        }
        vi = vi + 1;
    }
    assert(assign@.take(assign@.len() as int) =~= assign@);
    groups
}

proof fn lemma_members_contains(assign: Seq<usize>, c: usize, i: int)
    requires
        0 <= i < assign.len(),
        assign.len() <= usize::MAX,
    ensures
        members(assign, c).contains(i as usize) <==> assign[i] == c,
    decreases assign.len(),
{
    lemma_members_below(assign, c);
    if i < assign.len() - 1 {
        lemma_members_contains(assign.drop_last(), c, i);
        if assign.last() == c {
            assert(members(assign, c) == members(assign.drop_last(), c).push(
                (assign.len() - 1) as usize,
            ));
            if members(assign, c).contains(i as usize) {
                let k = choose|k: int|
                    0 <= k < members(assign, c).len() && members(assign, c)[k] == i as usize;
                if k < members(assign.drop_last(), c).len() {
                    assert(members(assign.drop_last(), c).contains(i as usize));
                }
            }
            if members(assign.drop_last(), c).contains(i as usize) {
                let k = choose|k: int|
                    0 <= k < members(assign.drop_last(), c).len() && members(
                        assign.drop_last(),
                        c,
                    )[k] == i as usize;
                assert(members(assign, c)[k] == i as usize);
            }
        }
    } else {
        lemma_members_below(assign.drop_last(), c);
        if assign.last() == c {
            let m = members(assign, c);
            assert(m[m.len() - 1] == i as usize);
        } else {
            if members(assign, c).contains(i as usize) {
                let k = choose|k: int|
                    0 <= k < members(assign, c).len() && members(assign, c)[k] == i as usize;
                assert(members(assign.drop_last(), c)[k] < assign.drop_last().len());
            }
        }
    }
}

proof fn lemma_members_below(assign: Seq<usize>, c: usize)
    requires
        assign.len() <= usize::MAX,
    ensures
        forall|k: int|
            0 <= k < members(assign, c).len() ==> #[trigger] members(assign, c)[k] < assign.len(),
    decreases assign.len(),
{
    if assign.len() > 0 {
        let before = members(assign.drop_last(), c);
        lemma_members_below(assign.drop_last(), c);
        assert forall|k: int| 0 <= k < members(assign, c).len() implies #[trigger] members(
            assign,
            c,
        )[k] < assign.len() by {
            if k < before.len() {
                assert(members(assign, c)[k] == before[k]);
            }
        }
    }
}

/// Grouping rows by cluster places every row in exactly one group: the
/// group of the cluster it is assigned to.
pub proof fn lemma_groups_partition_rows(assign: Seq<usize>, lists: usize)
    requires
        assign.len() <= usize::MAX,
        forall|i: int| 0 <= i < assign.len() ==> #[trigger] assign[i] < lists,
    ensures
        forall|i: int, c: int|
            0 <= i < assign.len() && 0 <= c < lists ==> (#[trigger] members(
                assign,
                c as usize,
            ).contains(i as usize) <==> assign[i] == c),
{
    assert forall|i: int, c: int| 0 <= i < assign.len() && 0 <= c < lists implies (#[trigger] members(
        assign,
        c as usize,
    ).contains(i as usize) <==> assign[i] == c) by {
        lemma_members_contains(assign, c as usize, i);
    }
}

/// How many clusters a search visits: all of them when `probes` is 0 or
/// `usize::MAX`, else `probes` but no more than there are.
pub open spec fn probes_to_visit(probes: usize, num_lists: usize) -> usize {
    if probes == 0 || probes == usize::MAX {
        num_lists
    } else if probes < num_lists {
        probes
    } else {
        num_lists
    }
}

/// A search visits every cluster when asked for 0 probes; otherwise the
/// number of probes asked for, but never more clusters than there are.
/// Asking for more probes never visits fewer clusters.
pub proof fn lemma_probes_visited(probes: usize, more: usize, num_lists: usize)
    ensures
        probes_to_visit(probes, num_lists) <= num_lists,
        probes == 0 ==> probes_to_visit(probes, num_lists) == num_lists,
        0 < probes < num_lists ==> probes_to_visit(probes, num_lists) == probes,
        num_lists <= probes ==> probes_to_visit(probes, num_lists) == num_lists,
        0 < probes <= more ==> probes_to_visit(probes, num_lists) <= probes_to_visit(
            more,
            num_lists,
        ),
{
}

/// See [`probes_to_visit`].
pub fn effective_probes(probes: usize, num_lists: usize) -> (r: usize)
    ensures
        r == probes_to_visit(probes, num_lists),
        r <= num_lists,
        probes == 0 ==> r == num_lists,
        0 < probes < num_lists ==> r == probes,
        num_lists <= probes ==> r == num_lists,
{
    if probes == 0 || probes == usize::MAX {
        num_lists
    } else if probes < num_lists {
        probes
    } else {
        num_lists
    }
}

} // verus!
