//! Writing the cache back: the dirty sectors are put in LBA order and
//! consecutive ones are gathered into runs, each written in one request.
use vstd::prelude::*;
use crate::ext2::cache::DirtySector;

verus! {

/// A run of consecutive sectors to write: its first LBA and its bytes.
pub struct DiskRun {
    pub start: u64,
    pub data: Vec<u8>,
}

/// Whether `order` lists every index of `d` once, in nondecreasing LBA.
pub open spec fn sorts(d: Seq<DirtySector>, order: Seq<usize>) -> bool {
    &&& order.len() == d.len()
    &&& forall|k: int| 0 <= k < order.len() ==> #[trigger] order[k] < d.len()
    &&& forall|k: int, l: int| 0 <= k < l < order.len() ==> order[k] != order[l]
    &&& forall|i: int| 0 <= i < d.len() ==> #[trigger] order.contains(i as usize)
    &&& forall|k: int, l: int| 0 <= k <= l < order.len() ==> d[order[k] as int].lba <= d[order[l] as int].lba
}

/// The sectors in the given order, as (LBA, bytes).
pub open spec fn in_order(d: Seq<DirtySector>, order: Seq<usize>) -> Seq<(u64, Seq<u8>)> {
    order.map_values(|i: usize| (d[i as int].lba, d[i as int].data@))
}

/// Gathers sectors, in order, into runs: a sector whose LBA follows the
/// last run's last sector (the run's start plus its sectors) extends that
/// run; any other starts a new one.
pub open spec fn coalesce(items: Seq<(u64, Seq<u8>)>) -> Seq<(u64, Seq<u8>)>
    decreases items.len(),
{
    if items.len() == 0 {
        Seq::empty()
    } else {
        let prev = coalesce(items.drop_last());
        let (lba, data) = items.last();
        if prev.len() > 0 && prev.last().0 + prev.last().1.len() / 512 == lba {
            prev.update(prev.len() - 1, (prev.last().0, prev.last().1 + data))
        } else {
            prev.push((lba, data))
        }
    }
}

/// Whether `order` holds each index below `n` once.
pub open spec fn is_perm(order: Seq<usize>, n: int) -> bool {
    &&& order.len() == n
    &&& forall|k: int| 0 <= k < order.len() ==> #[trigger] order[k] < n
    &&& forall|k: int, l: int| 0 <= k < l < order.len() ==> order[k] != order[l]
    &&& forall|i: int| 0 <= i < n ==> #[trigger] order.contains(i as usize)
}

/// Swapping two neighbours keeps a permutation one.
proof fn lemma_swap_perm(o: Seq<usize>, n: int, j: int)
    requires
        is_perm(o, n),
        0 < j < n,
    ensures
        is_perm(o.update(j - 1, o[j]).update(j, o[j - 1]), n),
{
    let s = o.update(j - 1, o[j]).update(j, o[j - 1]);
    assert forall|i: int| 0 <= i < n implies #[trigger] s.contains(i as usize) by {
        assert(o.contains(i as usize));
        let k = choose|k: int| 0 <= k < o.len() && o[k] == i as usize;
        if k == j - 1 {
            assert(s[j] == i as usize);
        } else if k == j {
            assert(s[j - 1] == i as usize);
        } else {
            assert(s[k] == i as usize);
        }
    }
    assert forall|k: int, l: int| 0 <= k < l < s.len() implies s[k] != s[l] by {
        let ok = if k == j - 1 { j } else if k == j { j - 1 } else { k };
        let ol = if l == j - 1 { j } else if l == j { j - 1 } else { l };
        assert(s[k] == o[ok] && s[l] == o[ol]);
        assert(ok != ol);
        if ok < ol {
            assert(o[ok] != o[ol]);
        } else {
            assert(o[ol] != o[ok]);
        }
    }
}

/// The indices of the sectors in LBA order, by insertion sort.
pub fn sort_dirty(d: &[DirtySector]) -> (order: Vec<usize>)
    ensures
        sorts(d@, order@),
{
    let n = d.len();
    let mut order: Vec<usize> = Vec::new();
    let mut k: usize = 0;
    while k < n
        invariant
            k <= n,
            order@.len() == k,
            forall|a: int| 0 <= a < k ==> #[trigger] order@[a] == a,
        decreases n - k,
    {
        order.push(k);
        k = k + 1;
    }
    proof {
        assert forall|i: int| 0 <= i < n implies #[trigger] order@.contains(i as usize) by {
            assert(order@[i] == i);
        }
    }
    if n == 0 {
        return order;
    }
    let mut i: usize = 1;
    while i < n
        invariant
            n == d@.len(),
            1 <= i <= n,
            is_perm(order@, n as int),
            forall|a: int, b: int| 0 <= a <= b < i ==> d@[order@[a] as int].lba <= d@[order@[b] as int].lba,
        decreases n - i,
    {
        let mut j: usize = i;
        while j > 0 && d[order[j - 1]].lba > d[order[j]].lba
            invariant
                n == d@.len(),
                1 <= i < n,
                j <= i,
                is_perm(order@, n as int),
                forall|a: int, b: int| 0 <= a <= b < j ==> d@[order@[a] as int].lba <= d@[order@[b] as int].lba,
                forall|a: int, b: int| j <= a <= b <= i ==> d@[order@[a] as int].lba <= d@[order@[b] as int].lba,
                forall|a: int, b: int| 0 <= a < j && j < b <= i ==> d@[order@[a] as int].lba <= d@[order@[b] as int].lba,
            decreases j,
        {
            let ghost o = order@;
            let x = order[j - 1];
            let y = order[j];
            order.set(j - 1, y);
            order.set(j, x);
            proof {
                lemma_swap_perm(o, n as int, j as int);
                assert(order@ == o.update(j - 1, o[j as int]).update(j as int, o[j - 1]));
            }
            j = j - 1;
        }
        i = i + 1;
    }
    order
}

/// The runs as (first LBA, bytes).
pub open spec fn run_view(runs: Seq<DiskRun>) -> Seq<(u64, Seq<u8>)> {
    runs.map_values(|r: DiskRun| (r.start, r.data@))
}

/// Appends `s` to `v`.
fn append_bytes(v: &mut Vec<u8>, s: &[u8])
    ensures
        final(v)@ == old(v)@ + s@,
{
    let mut k: usize = 0;
    while k < s.len()
        invariant
            k <= s@.len(),
            v@ == old(v)@ + s@.subrange(0, k as int),
        decreases s@.len() - k,
    {
        v.push(s[k]);
        k = k + 1;
        assert(v@ =~= old(v)@ + s@.subrange(0, k as int));
    }
    assert(s@.subrange(0, s@.len() as int) =~= s@);
}

/// Puts the dirty sectors in LBA order and gathers consecutive ones into
/// runs, each to be written in one request.
pub fn plan_flush(d: &[DirtySector]) -> (runs: Vec<DiskRun>)
    ensures
        exists|order: Seq<usize>| #[trigger] sorts(d@, order) && run_view(runs@) == coalesce(in_order(d@, order)),
{
    let order = sort_dirty(d);
    let ghost items = in_order(d@, order@);
    let mut runs: Vec<DiskRun> = Vec::new();
    let mut cur_start: u64 = 0;
    let mut cur_data: Vec<u8> = Vec::new();
    let mut k: usize = 0;
    while k < order.len()
        invariant
            sorts(d@, order@),
            items == in_order(d@, order@),
            k <= order@.len(),
            k == 0 ==> runs@.len() == 0,
            k > 0 ==> run_view(runs@).push((cur_start, cur_data@)) == coalesce(items.take(k as int)),
        decreases order@.len() - k,
    {
        let i = order[k];
        let lba = d[i].lba;
        let ghost prev = coalesce(items.take(k as int));
        proof {
            assert(items.take(k + 1).drop_last() =~= items.take(k as int));
            assert(items.take(k + 1).last() == (lba, d@[i as int].data@));
        }
        if k > 0 && lba >= cur_start && lba - cur_start == (cur_data.len() / 512) as u64 {
            append_bytes(&mut cur_data, d[i].data.as_slice());
            proof {
                assert(run_view(runs@).push((cur_start, cur_data@)) =~= prev.update(prev.len() - 1, (prev.last().0, prev.last().1 + d@[i as int].data@)));
            }
        } else {
            if k > 0 {
                let ghost before = runs@;
                runs.push(DiskRun { start: cur_start, data: cur_data });
                proof {
                    assert(run_view(runs@) =~= run_view(before).push((cur_start, prev.last().1)));
                }
            }
            cur_start = lba;
            cur_data = vstd::slice::slice_to_vec(d[i].data.as_slice());
            proof {
                if k > 0 {
                    assert(run_view(runs@).push((cur_start, cur_data@)) =~= prev.push((lba, d@[i as int].data@)));
                } else {
                    assert(coalesce(items.take(0)) =~= Seq::<(u64, Seq<u8>)>::empty());
                    assert(run_view(runs@).push((cur_start, cur_data@)) =~= seq![(lba, d@[i as int].data@)]);
                }
            }
        }
        k = k + 1;
    }
    if k > 0 {
        runs.push(DiskRun { start: cur_start, data: cur_data });
    }
    proof {
        assert(items.take(order@.len() as int) =~= items);
        if k == 0 {
            assert(items =~= Seq::<(u64, Seq<u8>)>::empty());
        }
        assert(sorts(d@, order@));
    }
    runs
}

} // verus!
