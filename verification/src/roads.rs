//! Bucketing the boundary ring into road runs.
//!
//! The generator samples the arena boundary at evenly spaced angles, asks
//! the terrain for each sample whether it is grass, and then walks the ring
//! once to group consecutive road samples into runs.  To avoid splitting a
//! run across the wrap point, the walk starts at the first grass sample and
//! goes one full circle (plus one step, which closes a run that ends exactly
//! where the walk began).  One road ribbon is later grown from each run, so
//! the number of runs found here is the number of road roots.

use vstd::prelude::*;

verus! {

use vstd::pervasive::arbitrary;

/// The position of the first grass flag at or after `i`; 0 when no flag
/// from `i` on is grass.
pub open spec fn first_grass_from(flags: Seq<bool>, i: int) -> int
    decreases flags.len() - i,
{
    if i >= flags.len() {
        0
    } else if flags[i] {
        i
    } else {
        first_grass_from(flags, i + 1)
    }
}

/// A run as a pair of ring positions: the first and last road sample seen.
pub open spec fn run_as_ints(p: (usize, usize)) -> (int, int) {
    (p.0 as int, p.1 as int)
}

/// A possibly still-open run, as ring positions.
pub open spec fn pending_as_ints(p: Option<(usize, usize)>) -> Option<(int, int)> {
    match p {
        Option::None => Option::None,
        Option::Some(q) => Option::Some(run_as_ints(q)),
    }
}

/// A list of runs, as ring positions.
pub open spec fn runs_as_ints(s: Seq<(usize, usize)>) -> Seq<(int, int)> {
    s.map(|k: int, p: (usize, usize)| run_as_ints(p))
}

/// The rest of the ring walk: `i` steps are already taken from `start`,
/// `pending` is the run currently open, and `acc` holds the runs closed so
/// far.  A road sample opens or extends the pending run; a grass sample
/// closes it.  The walk takes `flags.len() + 1` steps in all.
pub open spec fn scan_runs(
    flags: Seq<bool>,
    start: int,
    i: int,
    pending: Option<(int, int)>,
    acc: Seq<(int, int)>,
) -> Seq<(int, int)>
    decreases flags.len() + 1 - i,
{
    if flags.len() == 0 || i > flags.len() {
        acc
    } else {
        let idx = (start + i) % (flags.len() as int);
        if !flags[idx] {
            let next = match pending {
                Option::None => (idx, idx),
                Option::Some(p) => (p.0, idx),
            };
            scan_runs(flags, start, i + 1, Option::Some(next), acc)
        } else {
            match pending {
                Option::Some(p) => scan_runs(flags, start, i + 1, Option::None, acc.push(p)),
                Option::None => scan_runs(flags, start, i + 1, Option::None, acc),
            }
        }
    }
}

/// Every road run of the ring `flags`, in the order the walk closes them.
pub open spec fn road_runs_spec(flags: Seq<bool>) -> Seq<(int, int)> {
    scan_runs(flags, first_grass_from(flags, 0), 0, Option::None, Seq::empty())
}

/// The ring position of the first grass sample; 0 when every sample is
/// road, so that the walk still has a fixed starting point.  No earlier
/// position is grass, so a road run never straddles the walk's start.
pub fn first_grass_index(is_grass: &Vec<bool>) -> (r: usize)
    ensures
        r == first_grass_from(is_grass@, 0),
        is_grass@.len() > 0 ==> r < is_grass@.len(),
        is_grass@.len() == 0 ==> r == 0,
        forall|k: int| 0 <= k < r ==> !is_grass@[k],
        is_grass@.len() > 0 ==> is_grass@[r as int] || (forall|k: int|
            0 <= k < is_grass@.len() ==> !is_grass@[k]),
{
    let mut j: usize = 0;
    while j < is_grass.len()
        invariant
            j <= is_grass@.len(),
            first_grass_from(is_grass@, 0) == first_grass_from(is_grass@, j as int),
            forall|k: int| 0 <= k < j ==> !is_grass@[k],
        decreases is_grass@.len() - j,
    {
        if is_grass[j] {
            return j;
        }
        j += 1;
    }
    0
}

/// Walks the boundary ring once, starting at the first grass sample, and
/// returns every contiguous road run as a `(first, last)` pair of ring
/// positions, in the order the walk closes them.
pub fn road_runs(is_grass: &Vec<bool>) -> (r: Vec<(usize, usize)>)
    requires
        1 <= is_grass@.len() <= 0x4000_0000,
    ensures
        runs_as_ints(r@) == road_runs_spec(is_grass@),
        r@.len() == road_runs_spec(is_grass@).len(),
        forall|k: int|
            0 <= k < r@.len() ==> (r@[k].0 as int, r@[k].1 as int) == road_runs_spec(is_grass@)[k],
{
    let flags = is_grass;
    let n: usize = flags.len();
    let start: usize = first_grass_index(flags);
    let mut acc: Vec<(usize, usize)> = Vec::new();
    let mut pending: Option<(usize, usize)> = None;
    let mut i: usize = 0;
    proof {
        assert(runs_as_ints(acc@) =~= Seq::<(int, int)>::empty());
    }
    while i <= n
        invariant
            n == is_grass@.len(),
            1 <= n <= 0x4000_0000,
            flags@ == is_grass@,
            start < n,
            i <= n + 1,
            scan_runs(
                is_grass@,
                start as int,
                i as int,
                pending_as_ints(pending),
                runs_as_ints(acc@),
            ) == road_runs_spec(is_grass@),
        decreases n + 1 - i,
    {
        let idx: usize = (start + i) % n;
        let ghost prev_pending = pending_as_ints(pending);
        let ghost prev_acc = runs_as_ints(acc@);
        if !flags[idx] {
            let next: (usize, usize) = match pending {
                None => (idx, idx),
                Some(q) => (q.0, idx),
            };
            pending = Some(next);
        } else {
            match pending {
                Some(q) => {
                    acc.push(q);
                    pending = None;
                    proof {
                        assert(runs_as_ints(acc@) =~= prev_acc.push(run_as_ints(q)));
                    }
                },
                None => {},
            }
        }
        proof {
            assert(scan_runs(is_grass@, start as int, i as int, prev_pending, prev_acc)
                == scan_runs(
                is_grass@,
                start as int,
                i as int + 1,
                pending_as_ints(pending),
                runs_as_ints(acc@),
            ));
        }
        i += 1;
    }
    proof {
        assert(road_runs_spec(is_grass@) == runs_as_ints(acc@));
        assert(forall|k: int|
            0 <= k < acc@.len() ==> (#[trigger] runs_as_ints(acc@)[k]) == run_as_ints(acc@[k]));
    }
    acc
}

/// Both ends of a run are road positions inside the ring.
pub open spec fn run_is_road(flags: Seq<bool>, p: (int, int)) -> bool {
    &&& 0 <= p.0 < flags.len() && !flags[p.0]
    &&& 0 <= p.1 < flags.len() && !flags[p.1]
}

proof fn lemma_scan_runs_road(
    flags: Seq<bool>,
    start: int,
    i: int,
    pending: Option<(int, int)>,
    acc: Seq<(int, int)>,
)
    requires
        forall|k: int| 0 <= k < acc.len() ==> run_is_road(flags, acc[k]),
        pending matches Option::Some(p) ==> run_is_road(flags, p),
    ensures
        forall|k: int|
            0 <= k < scan_runs(flags, start, i, pending, acc).len() ==> run_is_road(
                flags,
                scan_runs(flags, start, i, pending, acc)[k],
            ),
    decreases flags.len() + 1 - i,
{
    if flags.len() == 0 || i > flags.len() {
    } else {
        let idx = (start + i) % (flags.len() as int);
        vstd::arithmetic::div_mod::lemma_mod_bound(start + i, flags.len() as int);
        if !flags[idx] {
            let next = match pending {
                Option::None => (idx, idx),
                Option::Some(p) => (p.0, idx),
            };
            assert(run_is_road(flags, next));
            lemma_scan_runs_road(flags, start, i + 1, Option::Some(next), acc);
            assert(scan_runs(flags, start, i, pending, acc) == scan_runs(
                flags,
                start,
                i + 1,
                Option::Some(next),
                acc,
            ));
        } else {
            match pending {
                Option::Some(p) => {
                    assert(forall|k: int|
                        0 <= k < acc.push(p).len() ==> run_is_road(
                            flags,
                            #[trigger] acc.push(p)[k],
                        ));
                    lemma_scan_runs_road(flags, start, i + 1, Option::None, acc.push(p));
                    assert(scan_runs(flags, start, i, pending, acc) == scan_runs(
                        flags,
                        start,
                        i + 1,
                        Option::None,
                        acc.push(p),
                    ));
                },
                Option::None => {
                    lemma_scan_runs_road(flags, start, i + 1, Option::None, acc);
                    assert(scan_runs(flags, start, i, pending, acc) == scan_runs(
                        flags,
                        start,
                        i + 1,
                        Option::None,
                        acc,
                    ));
                },
            }
        }
    }
}

/// Law of the ring walk: every run it closes begins and ends on a road
/// position of the ring, whatever starting point the walk was given.
pub proof fn lemma_runs_are_road(flags: Seq<bool>)
    ensures
        forall|k: int|
            0 <= k < road_runs_spec(flags).len() ==> run_is_road(flags, road_runs_spec(flags)[k]),
{
    lemma_scan_runs_road(
        flags,
        first_grass_from(flags, 0),
        0,
        Option::None,
        Seq::empty(),
    );
}

/// Keys strictly ascend through the sequence.
pub open spec fn keys_sorted<A, B>(s: Seq<(i32, A, B)>) -> bool {
    forall|i: int, j: int| 0 <= i < j < s.len() ==> s[i].0 < s[j].0
}

/// Some entry of `s` carries key `k`.
pub open spec fn has_key<A, B>(s: Seq<(i32, A, B)>, k: i32) -> bool {
    exists|i: int| 0 <= i < s.len() && s[i].0 == k
}

/// The first entry of `s` whose key is `k`.
pub open spec fn first_with_key<A, B>(s: Seq<(i32, A, B)>, k: i32) -> (i32, A, B)
    decreases s.len(),
{
    if s.len() == 0 {
        arbitrary()
    } else if s[0].0 == k {
        s[0]
    } else {
        first_with_key(s.drop_first(), k)
    }
}

/// The last entry of `s` whose key is `k`.
pub open spec fn last_with_key<A, B>(s: Seq<(i32, A, B)>, k: i32) -> (i32, A, B)
    decreases s.len(),
{
    if s.len() == 0 {
        arbitrary()
    } else if s.last().0 == k {
        s.last()
    } else {
        last_with_key(s.drop_last(), k)
    }
}

proof fn lemma_first_with_key_push<A, B>(s: Seq<(i32, A, B)>, x: (i32, A, B), k: i32)
    ensures
        has_key(s, k) ==> first_with_key(s.push(x), k) == first_with_key(s, k),
        !has_key(s, k) && x.0 == k ==> first_with_key(s.push(x), k) == x,
    decreases s.len(),
{
    if s.len() == 0 {
        assert(s.push(x)[0] == x);
        assert(!has_key(s, k));
        if x.0 == k {
            assert(first_with_key(s.push(x), k) == x);
        }
    } else {
        assert(s.push(x)[0] == s[0]);
        if s[0].0 == k {
            assert(has_key(s, k));
            assert(first_with_key(s.push(x), k) == s.push(x)[0]);
        } else {
            assert(s.push(x).drop_first() =~= s.drop_first().push(x));
            lemma_first_with_key_push(s.drop_first(), x, k);
            assert(has_key(s.drop_first(), k) ==> has_key(s, k)) by {
                if has_key(s.drop_first(), k) {
                    let i = choose|i: int|
                        0 <= i < s.drop_first().len() && s.drop_first()[i].0 == k;
                    assert(s[i + 1].0 == k);
                }
            }
            assert(has_key(s, k) ==> has_key(s.drop_first(), k)) by {
                if has_key(s, k) {
                    let i = choose|i: int| 0 <= i < s.len() && s[i].0 == k;
                    assert(i != 0);
                    assert(s.drop_first()[i - 1].0 == k);
                }
            }
        }
    }
}

/// Buckets entries by key and hands the buckets back in ascending key
/// order: an entry falls into the bucket of its key, where it replaces the
/// payload but leaves the tag of the entry that opened the bucket -- the
/// way a hash map fed in input order and then sorted by key behaves.
pub fn sort_dedup_by_key<A: Copy, B: Copy>(entries: &Vec<(i32, A, B)>) -> (r: Vec<(i32, A, B)>)
    ensures
        keys_sorted(r@),
        forall|k: i32| has_key(r@, k) == has_key(entries@, k),
        forall|p: int|
            0 <= p < r@.len() ==> {
                &&& has_key(entries@, r@[p].0)
                &&& r@[p].1 == first_with_key(entries@, r@[p].0).1
                &&& r@[p].2 == last_with_key(entries@, r@[p].0).2
            },
{
    let ghost all = entries@;
    let mut r: Vec<(i32, A, B)> = Vec::new();
    let mut t: usize = 0;
    proof {
        assert(all.take(0) =~= Seq::<(i32, A, B)>::empty());
    }
    while t < entries.len()
        invariant
            all == entries@,
            t <= all.len(),
            keys_sorted(r@),
            forall|k: i32| has_key(r@, k) == has_key(all.take(t as int), k),
            forall|p: int|
                0 <= p < r@.len() ==> {
                    &&& has_key(all.take(t as int), r@[p].0)
                    &&& r@[p].1 == first_with_key(all.take(t as int), r@[p].0).1
                    &&& r@[p].2 == last_with_key(all.take(t as int), r@[p].0).2
                },
        decreases all.len() - t,
    {
        let e = entries[t];
        let mut pos: usize = 0;
        while pos < r.len() && r[pos].0 < e.0
            invariant
                pos <= r@.len(),
                forall|q: int| 0 <= q < pos ==> r@[q].0 < e.0,
            decreases r@.len() - pos,
        {
            pos += 1;
        }
        let ghost prev = r@;
        let ghost prefix = all.take(t as int);
        let ghost prefix1 = all.take(t as int + 1);
        proof {
            assert(prefix1.drop_last() =~= prefix);
            assert(prefix1.last() == e);
            assert(prefix1 =~= prefix.push(e));
            assert forall|k: i32| has_key(prefix1, k) == (has_key(prefix, k) || k == e.0) by {
                if has_key(prefix, k) {
                    let i = choose|i: int| 0 <= i < prefix.len() && prefix[i].0 == k;
                    assert(prefix1[i].0 == k);
                }
                if k == e.0 {
                    assert(prefix1[prefix1.len() - 1].0 == k);
                }
                if has_key(prefix1, k) && k != e.0 {
                    let i = choose|i: int| 0 <= i < prefix1.len() && prefix1[i].0 == k;
                    assert(i < prefix.len());
                    assert(prefix[i].0 == k);
                }
            }
        }
        if pos < r.len() && r[pos].0 == e.0 {
            let kept = r[pos].1;
            r.set(pos, (e.0, kept, e.2));
            proof {
                assert(has_key(prefix, e.0));
                assert forall|p: int| 0 <= p < r@.len() implies r@[p].0 == prev[p].0 by {}
                assert forall|k: i32| has_key(r@, k) == has_key(prefix1, k) by {
                    if has_key(prev, k) {
                        let i = choose|i: int| 0 <= i < prev.len() && prev[i].0 == k;
                        assert(r@[i].0 == k);
                    }
                    if has_key(r@, k) {
                        let i = choose|i: int| 0 <= i < r@.len() && r@[i].0 == k;
                        assert(prev[i].0 == k);
                    }
                }
                assert forall|p: int|
                    0 <= p < r@.len() implies {
                        &&& has_key(prefix1, r@[p].0)
                        &&& r@[p].1 == first_with_key(prefix1, r@[p].0).1
                        &&& r@[p].2 == last_with_key(prefix1, r@[p].0).2
                    } by {
                    lemma_first_with_key_push(prefix, e, r@[p].0);
                    if p == pos {
                        assert(last_with_key(prefix1, e.0) == e);
                    } else {
                        assert(r@[p] == prev[p]);
                        assert(prev[p].0 != e.0) by {
                            if p < pos {
                                assert(prev[p].0 < e.0);
                            } else {
                                assert(prev[pos as int].0 < prev[p].0);
                            }
                        }
                        assert(last_with_key(prefix1, r@[p].0) == last_with_key(
                            prefix,
                            r@[p].0,
                        ));
                    }
                }
            }
        } else {
            proof {
                assert(!has_key(prev, e.0)) by {
                    if has_key(prev, e.0) {
                        let i = choose|i: int| 0 <= i < prev.len() && prev[i].0 == e.0;
                        if i < pos {
                            assert(prev[i].0 < e.0);
                        } else if i == pos {
                        } else {
                            assert(pos < prev.len() ==> prev[pos as int].0 > e.0) by {
                                if pos < prev.len() {
                                    assert(prev[pos as int].0 >= e.0);
                                    assert(prev[pos as int].0 != e.0);
                                }
                            }
                            assert(prev[pos as int].0 < prev[i].0);
                        }
                    }
                }
                prev.insert_ensures(pos as int, e);
            }
            r.insert(pos, e);
            proof {
                assert(r@ == prev.insert(pos as int, e));
                assert(keys_sorted(r@)) by {
                    assert forall|i: int, j: int| 0 <= i < j < r@.len() implies r@[i].0 < r@[j].0 by {
                        if j < pos {
                            assert(r@[i] == prev[i] && r@[j] == prev[j]);
                        } else if j == pos {
                            assert(r@[i] == prev[i]);
                            assert(prev[i].0 < e.0);
                        } else {
                            assert(r@[j] == prev[j - 1]);
                            assert(prev[pos as int].0 > e.0) by {
                                assert(prev[pos as int].0 >= e.0);
                                assert(prev[pos as int].0 != e.0);
                            }
                            if i < pos {
                                assert(r@[i] == prev[i]);
                                assert(prev[i].0 < e.0);
                                assert(e.0 < prev[j - 1].0) by {
                                    if j - 1 > pos {
                                        assert(prev[pos as int].0 < prev[j - 1].0);
                                    }
                                }
                            } else if i == pos {
                                assert(r@[i] == e);
                                assert(e.0 < prev[j - 1].0) by {
                                    if j - 1 > pos {
                                        assert(prev[pos as int].0 < prev[j - 1].0);
                                    }
                                }
                            } else {
                                assert(r@[i] == prev[i - 1]);
                                assert(prev[i - 1].0 < prev[j - 1].0);
                            }
                        }
                    }
                }
                assert forall|k: i32| has_key(r@, k) == has_key(prefix1, k) by {
                    if has_key(prev, k) {
                        let i = choose|i: int| 0 <= i < prev.len() && prev[i].0 == k;
                        if i < pos {
                            assert(r@[i].0 == k);
                        } else {
                            assert(r@[i + 1].0 == k);
                        }
                    }
                    assert(r@[pos as int].0 == e.0);
                    if has_key(r@, k) && k != e.0 {
                        let i = choose|i: int| 0 <= i < r@.len() && r@[i].0 == k;
                        if i < pos {
                            assert(prev[i].0 == k);
                        } else if i == pos {
                        } else {
                            assert(prev[i - 1].0 == k);
                        }
                    }
                }
                assert forall|p: int|
                    0 <= p < r@.len() implies {
                        &&& has_key(prefix1, r@[p].0)
                        &&& r@[p].1 == first_with_key(prefix1, r@[p].0).1
                        &&& r@[p].2 == last_with_key(prefix1, r@[p].0).2
                    } by {
                    lemma_first_with_key_push(prefix, e, r@[p].0);
                    if p == pos {
                        assert(r@[p] == e);
                        assert(!has_key(prefix, e.0));
                        assert(last_with_key(prefix1, e.0) == e);
                    } else {
                        let q: int = if p < pos { p } else { p - 1 };
                        assert(r@[p] == prev[q]);
                        assert(prev[q].0 != e.0) by {
                            if prev[q].0 == e.0 {
                                assert(has_key(prev, e.0));
                            }
                        }
                        assert(last_with_key(prefix1, r@[p].0) == last_with_key(
                            prefix,
                            r@[p].0,
                        ));
                    }
                }
            }
        }
        t += 1;
    }
    proof {
        assert(all.take(all.len() as int) =~= all);
    }
    r
}

} // verus!
