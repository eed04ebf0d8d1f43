//! Regrouping reserved ids: the ids of a user's reservations, less the ids
//! that their published content now fills, stored again as maximal runs of
//! consecutive ids, each dated by the latest reservation among its ids.

use vstd::prelude::*;
use crate::reservation::{contains_i32, ReservationType};
use crate::models::{same_user_spec, User};

verus! {

/// A stored reservation and the time it was made (Unix time, nanoseconds).
#[derive(Clone, Copy, Debug, PartialEq, Eq, Structural)]
pub struct StampedSpan {
    pub range_start: i32,
    pub length: i32,
    pub time: i128,
}

/// A run of consecutive ids, to be stored as one reservation.
#[derive(Clone, Copy, Debug, PartialEq, Eq, Structural)]
pub struct IdRun {
    pub range_start: i32,
    pub length: i32,
    pub time: i128,
}

/// The time a reservation gives each of its ids.
pub open spec fn span_stamps(r: StampedSpan) -> Map<i32, i128> {
    Map::new(|id: i32| r.range_start <= id < r.range_start + r.length, |id: i32| r.time)
}

/// The time of each reserved id; where reservations overlap, the later row wins
/// (as collecting into a `BTreeMap` keeps the last value for a key).
pub open spec fn stamps(rows: Seq<StampedSpan>) -> Map<i32, i128>
    decreases rows.len(),
{
    if rows.len() == 0 {
        Map::empty()
    } else {
        stamps(rows.drop_last()).union_prefer_right(span_stamps(rows.last()))
    }
}

/// `x` lies in the run.
pub open spec fn in_run(r: IdRun, x: int) -> bool {
    r.range_start <= x < r.range_start + r.length
}

/// Some run holds `x`.
pub open spec fn covered(runs: Seq<IdRun>, x: int) -> bool {
    exists|j: int| 0 <= j < runs.len() && in_run(#[trigger] runs[j], x)
}

/// `runs` are the maximal runs of consecutive ids of `ids`, ascending, each
/// dated by the latest time among its ids.
pub open spec fn maximal_runs(runs: Seq<IdRun>, ids: Set<i32>, stamp: Map<i32, i128>) -> bool {
    &&& forall|j: int| 0 <= j < runs.len() ==> #[trigger] runs[j].length >= 1
    &&& forall|j: int| 0 <= j < runs.len() ==> #[trigger] runs[j].range_start + runs[j].length <= i32::MAX + 1
    &&& forall|j: int|
        0 <= j < runs.len() - 1 ==> #[trigger] runs[j].range_start + runs[j].length < runs[j
            + 1].range_start
    &&& forall|x: i32| ids.contains(x) <==> #[trigger] covered(runs, x as int)
    &&& forall|j: int, x: i32|
        0 <= j < runs.len() && #[trigger] in_run(runs[j], x as int) ==> stamp[x] <= runs[j].time
    &&& forall|j: int| 0 <= j < runs.len() ==> dated_by(#[trigger] runs[j], stamp)
}

/// The run's time is the time of one of its ids.
pub open spec fn dated_by(r: IdRun, stamp: Map<i32, i128>) -> bool {
    exists|x: i32| #[trigger] in_run(r, x as int) && stamp[x] == r.time
}

/// The reserved ids that are not excluded.
pub open spec fn kept_ids(rows: Seq<StampedSpan>, excluded: Seq<i32>) -> Set<i32> {
    stamps(rows).dom().difference(excluded.to_set())
}

/// `ids` holds no `i32::MAX + 1` consecutive ids (a run that long has no `i32` length).
pub open spec fn no_overlong_run(ids: Set<i32>) -> bool {
    !exists|x: int| i32::MIN <= x <= 0 && #[trigger] full_block(ids, x)
}

/// `ids` holds the `i32::MAX + 1` consecutive ids from `x`.
pub open spec fn full_block(ids: Set<i32>, x: int) -> bool {
    forall|y: int| x <= y <= x + i32::MAX ==> #[trigger] ids.contains(y as i32)
}

/// Every reservation ends within `i32`.
pub open spec fn spans_in_range(rows: Seq<StampedSpan>) -> bool {
    forall|k: int|
        0 <= k < rows.len() ==> i32::MIN <= #[trigger] rows[k].range_start + rows[k].length
            <= i32::MAX
}

pub open spec fn increasing_i32(s: Seq<i32>) -> bool {
    forall|i: int, j: int| 0 <= i < j < s.len() ==> s[i] < s[j]
}

/// `keys` and `vals` list the map `m` in ascending key order.
pub open spec fn lists(keys: Seq<i32>, vals: Seq<i128>, m: Map<i32, i128>) -> bool {
    &&& increasing_i32(keys)
    &&& keys.len() == vals.len()
    &&& keys.to_set() == m.dom()
    &&& forall|i: int| 0 <= i < keys.len() ==> m[#[trigger] keys[i]] == vals[i]
}

fn upsert(keys: &mut Vec<i32>, vals: &mut Vec<i128>, key: i32, val: i128, Ghost(m): Ghost<Map<i32, i128>>)
    requires
        lists(old(keys)@, old(vals)@, m),
    ensures
        lists(final(keys)@, final(vals)@, m.insert(key, val)),
{
    let mut p: usize = 0;
    while p < keys.len() && keys[p] < key
        invariant
            p <= keys.len(),
            forall|j: int| 0 <= j < p ==> keys@[j] < key,
        decreases keys.len() - p,
    {
        p = p + 1;
    }
    let ghost ok = keys@;
    let ghost ov = vals@;
    if p < keys.len() && keys[p] == key {
        vals.set(p, val);
        proof {
            assert(keys@.to_set().contains(key));
            assert(keys@.to_set() =~= m.insert(key, val).dom());
            assert forall|i: int| 0 <= i < keys@.len() implies m.insert(key, val)[#[trigger] keys@[i]] == vals@[i] by {
                if i != p {
                    assert(keys@[i] != key) by {
                        if i < p {
                        } else {
                            assert(keys@[p as int] < keys@[i]);
                        }
                    }
                }
            }
        }
        return;
    }
    keys.insert(p, key);
    vals.insert(p, val);
    proof {
        assert forall|i: int, j: int| 0 <= i < j < keys@.len() implies keys@[i] < keys@[j] by {
            if j < p {
            } else if i > p {
                assert(keys@[i] == ok[i - 1] && keys@[j] == ok[j - 1]);
            } else if i == p {
                assert(keys@[j] == ok[j - 1]);
                if j - 1 > p {
                    assert(ok[p as int] < ok[j - 1]);
                }
            } else if j > p {
                assert(keys@[j] == ok[j - 1]);
                if j - 1 > p {
                    assert(ok[p as int] < ok[j - 1]);
                }
            }
        }
        assert forall|y: i32| #[trigger] keys@.to_set().contains(y) <==> m.insert(key, val).dom().contains(y) by {
            if keys@.contains(y) {
                let k = choose|k: int| 0 <= k < keys@.len() && keys@[k] == y;
                if k < p {
                    assert(ok[k] == y);
                    assert(ok.to_set().contains(y));
                } else if k > p {
                    assert(ok[k - 1] == y);
                    assert(ok.to_set().contains(y));
                }
            }
            if m.dom().contains(y) {
                assert(ok.to_set().contains(y));
                let k = choose|k: int| 0 <= k < ok.len() && ok[k] == y;
                if k < p {
                    assert(keys@[k] == y);
                } else {
                    assert(keys@[k + 1] == y);
                }
            }
            if y == key {
                assert(keys@[p as int] == key);
            }
        }
        assert(keys@.to_set() =~= m.insert(key, val).dom());
        assert forall|i: int| 0 <= i < keys@.len() implies m.insert(key, val)[#[trigger] keys@[i]] == vals@[i] by {
            if i < p {
                assert(keys@[i] == ok[i] && vals@[i] == ov[i]);
                assert(ok[i] != key);
            } else if i > p {
                assert(keys@[i] == ok[i - 1] && vals@[i] == ov[i - 1]);
                assert(ok[i - 1] != key);
            }
        }
    }
}

/// The time of each reserved id, keys ascending.
fn collect_stamps(rows: &Vec<StampedSpan>) -> (r: (Vec<i32>, Vec<i128>))
    requires
        spans_in_range(rows@),
    ensures
        lists(r.0@, r.1@, stamps(rows@)),
{
    let mut keys: Vec<i32> = Vec::new();
    let mut vals: Vec<i128> = Vec::new();
    let mut k: usize = 0;
    assert(keys@.to_set() =~= Map::<i32, i128>::empty().dom());
    while k < rows.len()
        invariant
            k <= rows.len(),
            spans_in_range(rows@),
            lists(keys@, vals@, stamps(rows@.subrange(0, k as int))),
        decreases rows.len() - k,
    {
        let row = rows[k];
        assert(i32::MIN <= rows@[k as int].range_start + rows@[k as int].length <= i32::MAX);
        let end: i32 = row.range_start + row.length;
        let ghost before = stamps(rows@.subrange(0, k as int));
        let mut c: i32 = row.range_start;
        proof {
            assert(before.union_prefer_right(
                Map::new(|id: i32| row.range_start <= id < c, |id: i32| row.time),
            ) =~= before);
        }
        while c < end
            invariant
                row.range_start <= c,
                c <= end || row.length <= 0,
                row.length <= 0 ==> c == row.range_start,
                end == row.range_start + row.length,
                lists(keys@, vals@, before.union_prefer_right(
                    Map::new(|id: i32| row.range_start <= id < c, |id: i32| row.time),
                )),
            decreases end - c,
        {
            let ghost m = before.union_prefer_right(
                Map::new(|id: i32| row.range_start <= id < c, |id: i32| row.time),
            );
            upsert(&mut keys, &mut vals, c, row.time, Ghost(m));
            proof {
                assert(m.insert(c, row.time) =~= before.union_prefer_right(
                    Map::new(|id: i32| row.range_start <= id < c + 1, |id: i32| row.time),
                ));
            }
            c = c + 1;
        }
        proof {
            assert(rows@.subrange(0, k + 1).drop_last() =~= rows@.subrange(0, k as int));
            assert(rows@.subrange(0, k + 1).last() == row);
            assert(Map::new(|id: i32| row.range_start <= id < c, |id: i32| row.time) =~= span_stamps(row));
            assert(before.union_prefer_right(
                Map::new(|id: i32| row.range_start <= id < c, |id: i32| row.time),
            ) =~= stamps(rows@.subrange(0, k + 1)));
        }
        k = k + 1;
    }
    assert(rows@.subrange(0, rows.len() as int) =~= rows@);
    (keys, vals)
}


/// The keys of `keys[..i]` that are not excluded.
pub open spec fn kept_prefix(keys: Seq<i32>, i: int, excluded: Set<i32>) -> Set<i32> {
    keys.subrange(0, i).to_set().difference(excluded)
}

proof fn kept_prefix_step(keys: Seq<i32>, i: int, excluded: Set<i32>)
    requires
        0 <= i < keys.len(),
    ensures
        excluded.contains(keys[i]) ==> kept_prefix(keys, i + 1, excluded) == kept_prefix(keys, i, excluded),
        !excluded.contains(keys[i]) ==> kept_prefix(keys, i + 1, excluded) == kept_prefix(keys, i, excluded).insert(keys[i]),
{
    assert(keys.subrange(0, i + 1) =~= keys.subrange(0, i).push(keys[i]));
    keys.subrange(0, i).lemma_push_to_set_commute(keys[i]);
    assert(kept_prefix(keys, i + 1, excluded) =~= (if excluded.contains(keys[i]) {
        kept_prefix(keys, i, excluded)
    } else {
        kept_prefix(keys, i, excluded).insert(keys[i])
    }));
}

fn build_runs(keys: &Vec<i32>, vals: &Vec<i128>, excluded: &Vec<i32>, Ghost(m): Ghost<Map<i32, i128>>) -> (runs: Vec<IdRun>)
    requires
        lists(keys@, vals@, m),
        no_overlong_run(m.dom().difference(excluded@.to_set())),
    ensures
        maximal_runs(runs@, m.dom().difference(excluded@.to_set()), m),
{
    let ghost e = excluded@.to_set();
    let ghost full = m.dom().difference(e);
    let mut runs: Vec<IdRun> = Vec::new();
    let mut i: usize = 0;
    assert(kept_prefix(keys@, 0, e) =~= Set::<i32>::empty());
    while i < keys.len()
        invariant
            lists(keys@, vals@, m),
            e == excluded@.to_set(),
            full == m.dom().difference(e),
            no_overlong_run(full),
            i <= keys.len(),
            maximal_runs(runs@, kept_prefix(keys@, i as int, e), m),
            kept_prefix(keys@, i as int, e).subset_of(full),
            runs@.len() > 0 ==> i > 0 && runs@.last().range_start + runs@.last().length <= keys@[i - 1] + 1,
        decreases keys.len() - i,
    {
        let key = keys[i];
        let val = vals[i];
        proof {
            kept_prefix_step(keys@, i as int, e);
            assert(m[key] == val);
            assert(keys@.to_set().contains(key));
            if i > 0 {
                assert(keys@[i - 1] < key);
            }
        }
        let ghost old_runs = runs@;
        let ghost prefix = kept_prefix(keys@, i as int, e);
        if contains_i32(excluded, key) {
            assert(e.contains(key));
        } else {
            assert(!e.contains(key));
            assert(full.contains(key));
            let n = runs.len();
            if n > 0 && runs[n - 1].range_start + runs[n - 1].length == key {
                let last = runs[n - 1];
                proof {
                    if last.length == i32::MAX {
                        assert(full_block(full, last.range_start as int)) by {
                            assert forall|y: int| last.range_start <= y <= last.range_start + i32::MAX implies #[trigger] full.contains(y as i32) by {
                                if y < key {
                                    assert(in_run(old_runs[n - 1], (y as i32) as int));
                                    assert(covered(old_runs, (y as i32) as int));
                                    assert(prefix.contains(y as i32));
                                } else {
                                    assert(y as i32 == key);
                                }
                            }
                        }
                        assert(false);
                    }
                }
                let time = if val > last.time { val } else { last.time };
                let grown = IdRun { range_start: last.range_start, length: last.length + 1, time };
                runs.set(n - 1, grown);
                proof {
                    let nk = prefix.insert(key);
                    assert forall|x: i32| nk.contains(x) <==> #[trigger] covered(runs@, x as int) by {
                        if nk.contains(x) {
                            if x == key {
                                assert(in_run(runs@[n - 1], x as int));
                            } else {
                                assert(covered(old_runs, x as int));
                                let j = choose|j: int| 0 <= j < old_runs.len() && in_run(#[trigger] old_runs[j], x as int);
                                assert(in_run(runs@[j], x as int));
                            }
                        }
                        if covered(runs@, x as int) {
                            let j = choose|j: int| 0 <= j < runs@.len() && in_run(#[trigger] runs@[j], x as int);
                            if j < n - 1 {
                                assert(in_run(old_runs[j], x as int));
                                assert(covered(old_runs, x as int));
                            } else if x != key {
                                assert(in_run(old_runs[j], x as int));
                                assert(covered(old_runs, x as int));
                            }
                        }
                    }
                    assert forall|j: int, x: i32| 0 <= j < runs@.len() && #[trigger] in_run(runs@[j], x as int) implies m[x] <= runs@[j].time by {
                        if j < n - 1 {
                            assert(in_run(old_runs[j], x as int));
                        } else if x != key {
                            assert(in_run(old_runs[j], x as int));
                        }
                    }
                    assert forall|j: int| 0 <= j < runs@.len() implies dated_by(#[trigger] runs@[j], m) by {
                        if j < n - 1 {
                            assert(dated_by(old_runs[j], m));
                            let x = choose|x: i32| #[trigger] in_run(old_runs[j], x as int) && m[x] == old_runs[j].time;
                            assert(in_run(runs@[j], x as int));
                        } else if val > last.time {
                            assert(in_run(runs@[j], key as int));
                        } else {
                            assert(dated_by(old_runs[j], m));
                            let x = choose|x: i32| #[trigger] in_run(old_runs[j], x as int) && m[x] == old_runs[j].time;
                            assert(in_run(runs@[j], x as int));
                        }
                    }
                    assert forall|j: int| 0 <= j < runs@.len() - 1 implies #[trigger] runs@[j].range_start + runs@[j].length < runs@[j + 1].range_start by {
                        assert(old_runs[j].range_start + old_runs[j].length < old_runs[j + 1].range_start);
                    }
                    assert forall|j: int| 0 <= j < runs@.len() implies #[trigger] runs@[j].length >= 1 by {
                        assert(old_runs[j].length >= 1);
                    }
                    assert forall|j: int| 0 <= j < runs@.len() implies #[trigger] runs@[j].range_start + runs@[j].length <= i32::MAX + 1 by {
                        assert(old_runs[j].range_start + old_runs[j].length <= i32::MAX + 1);
                    }
                    assert(maximal_runs(runs@, nk, m));
                }
            } else {
                runs.push(IdRun { range_start: key, length: 1, time: val });
                proof {
                    let nk = prefix.insert(key);
                    if n > 0 {
                        assert(old_runs.last().range_start + old_runs.last().length < key);
                    }
                    assert forall|x: i32| nk.contains(x) <==> #[trigger] covered(runs@, x as int) by {
                        if nk.contains(x) {
                            if x == key {
                                assert(in_run(runs@[n as int], x as int));
                            } else {
                                assert(covered(old_runs, x as int));
                                let j = choose|j: int| 0 <= j < old_runs.len() && in_run(#[trigger] old_runs[j], x as int);
                                assert(in_run(runs@[j], x as int));
                            }
                        }
                        if covered(runs@, x as int) {
                            let j = choose|j: int| 0 <= j < runs@.len() && in_run(#[trigger] runs@[j], x as int);
                            if j < n {
                                assert(in_run(old_runs[j], x as int));
                                assert(covered(old_runs, x as int));
                            }
                        }
                    }
                    assert forall|j: int, x: i32| 0 <= j < runs@.len() && #[trigger] in_run(runs@[j], x as int) implies m[x] <= runs@[j].time by {
                        if j < n {
                            assert(in_run(old_runs[j], x as int));
                        }
                    }
                    assert forall|j: int| 0 <= j < runs@.len() implies dated_by(#[trigger] runs@[j], m) by {
                        if j < n {
                            assert(dated_by(old_runs[j], m));
                            let x = choose|x: i32| #[trigger] in_run(old_runs[j], x as int) && m[x] == old_runs[j].time;
                            assert(in_run(runs@[j], x as int));
                        } else {
                            assert(in_run(runs@[j], key as int));
                        }
                    }
                    assert forall|j: int| 0 <= j < runs@.len() - 1 implies #[trigger] runs@[j].range_start + runs@[j].length < runs@[j + 1].range_start by {
                        if j < n - 1 {
                            assert(old_runs[j].range_start + old_runs[j].length < old_runs[j + 1].range_start);
                        }
                    }
                    assert forall|j: int| 0 <= j < runs@.len() implies #[trigger] runs@[j].length >= 1 by {
                        if j < n {
                            assert(old_runs[j].length >= 1);
                        }
                    }
                    assert forall|j: int| 0 <= j < runs@.len() implies #[trigger] runs@[j].range_start + runs@[j].length <= i32::MAX + 1 by {
                        if j < n {
                            assert(old_runs[j].range_start + old_runs[j].length <= i32::MAX + 1);
                        }
                    }
                    assert(maximal_runs(runs@, nk, m));
                }
            }
        }
        i = i + 1;
    }
    proof {
        assert(keys@.subrange(0, keys.len() as int) =~= keys@);
        assert(kept_prefix(keys@, keys.len() as int, e) =~= full);
    }
    runs
}

/// The kept reserved ids, as maximal runs of consecutive ids, ascending, each
/// dated by the latest time among its ids.
pub fn regroup_reservations(rows: &Vec<StampedSpan>, excluded: &Vec<i32>) -> (runs: Vec<IdRun>)
    requires
        spans_in_range(rows@),
        no_overlong_run(kept_ids(rows@, excluded@)),
    ensures
        maximal_runs(runs@, kept_ids(rows@, excluded@), stamps(rows@)),
{
    let (keys, vals) = collect_stamps(rows);
    build_runs(&keys, &vals, excluded, Ghost(stamps(rows@)))
}


/// Regroups a user's reservations of one kind, leaving out the ids that the
/// user's published content of that kind fills.
pub fn plan_regroup(rows: &Vec<StampedSpan>, published: &Vec<i32>) -> (runs: Vec<IdRun>)
    requires
        spans_in_range(rows@),
        no_overlong_run(kept_ids(rows@, published@)),
    ensures
        maximal_runs(runs@, kept_ids(rows@, published@), stamps(rows@)),
{
    regroup_reservations(rows, published)
}

/// The ids `start as i32 .. start as i32 + length as i32`.
pub open spec fn window_ids(start: u32, length: u32) -> Seq<i32> {
    let lo = (start as i32) as int;
    let hi = lo + (length as i32) as int;
    if lo < hi {
        Seq::new((hi - lo) as nat, |k: int| (lo + k) as i32)
    } else {
        Seq::empty()
    }
}

fn window(start: u32, length: u32) -> (v: Vec<i32>)
    requires
        i32::MIN <= (start as i32) as int + (length as i32) as int <= i32::MAX,
    ensures
        v@ == window_ids(start, length),
{
    let lo: i32 = #[verifier::truncate] (start as i32);
    let hi: i32 = lo + #[verifier::truncate] (length as i32);
    let mut v: Vec<i32> = Vec::new();
    let mut x = lo;
    while x < hi
        invariant
            lo <= x,
            x <= hi || hi <= lo,
            hi <= lo ==> x == lo,
            v@ == Seq::new((x - lo) as nat, |k: int| (lo + k) as i32),
        decreases hi - x,
    {
        v.push(x);
        x = x + 1;
        assert(v@ =~= Seq::new((x - lo) as nat, |k: int| (lo + k) as i32));
    }
    assert(v@ =~= window_ids(start, length));
    v
}

/// The runs to store again when a user releases `length` ids from `start`,
/// given the user's reservations that meet that window: `None` when the
/// request is empty (`start` or `length` is 0) or asks to release more ids
/// than the user holds there; otherwise the held ids outside the window,
/// regrouped.
pub fn plan_release(start: u32, length: u32, rows: &Vec<StampedSpan>) -> (r: Option<Vec<IdRun>>)
    requires
        start != 0 && length != 0 ==> {
            &&& i32::MIN <= (start as i32) as int + (length as i32) as int <= i32::MAX
            &&& spans_in_range(rows@)
            &&& window_ids(start, length).len() <= stamps(rows@).dom().len() ==> no_overlong_run(
                kept_ids(rows@, window_ids(start, length)),
            )
        },
    ensures
        r is None <==> start == 0 || length == 0 || window_ids(start, length).len() > stamps(
            rows@,
        ).dom().len(),
        r matches Some(runs) ==> maximal_runs(
            runs@,
            kept_ids(rows@, window_ids(start, length)),
            stamps(rows@),
        ),
{
    if start == 0 || length == 0 {
        return None;
    }
    let ids = window(start, length);
    let (keys, vals) = collect_stamps(rows);
    proof {
        assert(keys@.no_duplicates()) by {
            assert forall|i: int, j: int| 0 <= i < keys@.len() && 0 <= j < keys@.len() && i != j implies keys@[i] != keys@[j] by {
                if i < j {
                    assert(keys@[i] < keys@[j]);
                } else {
                    assert(keys@[j] < keys@[i]);
                }
            }
        }
        keys@.unique_seq_to_set();
    }
    if ids.len() > keys.len() {
        return None;
    }
    Some(build_runs(&keys, &vals, &ids, Ghost(stamps(rows@))))
}

/// The runs to store when a user claims `length` ids from `start` at `time`,
/// leaving out the ids their own content or reservations already hold there.
pub fn plan_claim(start: u32, length: u32, held: &Vec<i32>, time: i128) -> (runs: Vec<IdRun>)
    requires
        i32::MIN <= (start as i32) as int + (length as i32) as int <= i32::MAX,
        no_overlong_run(
            kept_ids(
                seq![StampedSpan { range_start: start as i32, length: length as i32, time }],
                held@,
            ),
        ),
    ensures
        maximal_runs(
            runs@,
            kept_ids(
                seq![StampedSpan { range_start: start as i32, length: length as i32, time }],
                held@,
            ),
            stamps(seq![StampedSpan { range_start: start as i32, length: length as i32, time }]),
        ),
{
    let span = StampedSpan {
        range_start: #[verifier::truncate] (start as i32),
        length: #[verifier::truncate] (length as i32),
        time,
    };
    let mut rows: Vec<StampedSpan> = Vec::new();
    rows.push(span);
    assert(rows@ =~= seq![span]);
    regroup_reservations(&rows, held)
}


/// Runs in ascending order lie wholly before one another.
proof fn runs_ordered(a: Seq<IdRun>, ids: Set<i32>, stamp: Map<i32, i128>, i: int, j: int)
    requires
        maximal_runs(a, ids, stamp),
        0 <= i < j < a.len(),
    ensures
        a[i].range_start + a[i].length < a[j].range_start,
    decreases j - i,
{
    if j > i + 1 {
        runs_ordered(a, ids, stamp, i, j - 1);
        assert(a[j - 1].length >= 1);
        assert(a[j - 1].range_start + a[j - 1].length < a[j].range_start);
    }
}

/// Only run `j` holds an id of run `j`.
proof fn run_alone(a: Seq<IdRun>, ids: Set<i32>, stamp: Map<i32, i128>, i: int, j: int, x: int)
    requires
        maximal_runs(a, ids, stamp),
        0 <= i < a.len(),
        0 <= j < a.len(),
        in_run(a[i], x),
        in_run(a[j], x),
    ensures
        i == j,
{
    if i < j {
        runs_ordered(a, ids, stamp, i, j);
    } else if j < i {
        runs_ordered(a, ids, stamp, j, i);
    }
}

/// The id before a run and the id after it are not in the set.
proof fn run_bounds(a: Seq<IdRun>, ids: Set<i32>, stamp: Map<i32, i128>, j: int)
    requires
        maximal_runs(a, ids, stamp),
        0 <= j < a.len(),
    ensures
        ids.contains(a[j].range_start),
        a[j].range_start > i32::MIN ==> !ids.contains((a[j].range_start - 1) as i32),
        a[j].range_start + a[j].length <= i32::MAX ==> !ids.contains((a[j].range_start + a[j].length) as i32),
{
    let s = a[j].range_start;
    let e = a[j].range_start + a[j].length;
    assert(a[j].length >= 1);
    assert(in_run(a[j], s as int));
    assert(covered(a, (s as i32) as int));
    if s > i32::MIN && ids.contains((s - 1) as i32) {
        assert(covered(a, ((s - 1) as i32) as int));
        let i = choose|i: int| 0 <= i < a.len() && in_run(#[trigger] a[i], ((s - 1) as i32) as int);
        if i < j {
            runs_ordered(a, ids, stamp, i, j);
        } else if i > j {
            runs_ordered(a, ids, stamp, j, i);
        }
    }
    if e <= i32::MAX && ids.contains(e as i32) {
        assert(covered(a, (e as i32) as int));
        let i = choose|i: int| 0 <= i < a.len() && in_run(#[trigger] a[i], (e as i32) as int);
        if i < j {
            runs_ordered(a, ids, stamp, i, j);
        } else if i > j {
            runs_ordered(a, ids, stamp, j, i);
        }
    }
}

/// An id starts a run of the set: it is in the set and the id before it is not.
pub open spec fn run_start(ids: Set<i32>, x: i32) -> bool {
    ids.contains(x) && (x > i32::MIN ==> !ids.contains((x - 1) as i32))
}

/// The starts of the runs.
pub open spec fn starts(a: Seq<IdRun>) -> Seq<int> {
    a.map_values(|r: IdRun| r.range_start as int)
}

proof fn starts_are_run_starts(a: Seq<IdRun>, ids: Set<i32>, stamp: Map<i32, i128>)
    requires
        maximal_runs(a, ids, stamp),
    ensures
        forall|x: int| #[trigger] starts(a).contains(x) <==> (i32::MIN <= x <= i32::MAX && run_start(ids, x as i32)),
        forall|i: int, j: int| 0 <= i < j < a.len() ==> starts(a)[i] < starts(a)[j],
{
    assert forall|x: int| #[trigger] starts(a).contains(x) implies (i32::MIN <= x <= i32::MAX && run_start(ids, x as i32)) by {
        let j = choose|j: int| 0 <= j < starts(a).len() && starts(a)[j] == x;
        run_bounds(a, ids, stamp, j);
    }
    assert forall|x: int| (i32::MIN <= x <= i32::MAX && run_start(ids, x as i32)) implies #[trigger] starts(a).contains(x) by {
        let y = x as i32;
        assert(covered(a, y as int));
        let j = choose|j: int| 0 <= j < a.len() && in_run(#[trigger] a[j], y as int);
        if a[j].range_start != y {
            assert(in_run(a[j], (y - 1) as int));
            assert(covered(a, ((y - 1) as i32) as int));
        }
        assert(starts(a)[j] == x);
    }
    assert forall|i: int, j: int| 0 <= i < j < a.len() implies starts(a)[i] < starts(a)[j] by {
        runs_ordered(a, ids, stamp, i, j);
    }
}

proof fn increasing_unique(s: Seq<int>, t: Seq<int>)
    requires
        forall|i: int, j: int| 0 <= i < j < s.len() ==> s[i] < s[j],
        forall|i: int, j: int| 0 <= i < j < t.len() ==> t[i] < t[j],
        forall|x: int| s.contains(x) <==> t.contains(x),
    ensures
        s == t,
    decreases s.len() + t.len(),
{
    if s.len() == 0 || t.len() == 0 {
        if s.len() > 0 {
            assert(s.contains(s[0]));
        }
        if t.len() > 0 {
            assert(t.contains(t[0]));
        }
        assert(s =~= t);
    } else {
        assert(s.contains(s.last()));
        assert(t.contains(t.last()));
        let i = choose|i: int| 0 <= i < t.len() && t[i] == s.last();
        let j = choose|j: int| 0 <= j < s.len() && s[j] == t.last();
        if i < t.len() - 1 {
            assert(t[i] < t.last());
        }
        if j < s.len() - 1 {
            assert(s[j] < s.last());
        }
        let m = s.last();
        assert(t.last() == m);
        assert forall|y: int| s.drop_last().contains(y) <==> t.drop_last().contains(y) by {
            if s.drop_last().contains(y) {
                let k = choose|k: int| 0 <= k < s.len() - 1 && s[k] == y;
                assert(s.contains(y));
                let l = choose|l: int| 0 <= l < t.len() && t[l] == y;
                assert(y < m);
                assert(t.drop_last()[l] == y);
            }
            if t.drop_last().contains(y) {
                let k = choose|k: int| 0 <= k < t.len() - 1 && t[k] == y;
                assert(t.contains(y));
                let l = choose|l: int| 0 <= l < s.len() && s[l] == y;
                assert(y < m);
                assert(s.drop_last()[l] == y);
            }
        }
        increasing_unique(s.drop_last(), t.drop_last());
        assert(s =~= t.drop_last().push(m));
    }
}

/// A set has only one division into maximal runs: two divisions of the same
/// set, dated by the same times, are the same.
pub proof fn maximal_runs_unique(a: Seq<IdRun>, b: Seq<IdRun>, ids: Set<i32>, stamp: Map<i32, i128>)
    requires
        maximal_runs(a, ids, stamp),
        maximal_runs(b, ids, stamp),
    ensures
        a == b,
{
    starts_are_run_starts(a, ids, stamp);
    starts_are_run_starts(b, ids, stamp);
    assert forall|x: int| starts(a).contains(x) <==> starts(b).contains(x) by {
    }
    increasing_unique(starts(a), starts(b));
    assert(a.len() == starts(a).len() && b.len() == starts(b).len());
    assert forall|k: int| 0 <= k < a.len() implies a[k] == b[k] by {
        assert(starts(a)[k] == starts(b)[k]);
        let s = a[k].range_start;
        assert(b[k].range_start == s);
        run_bounds(a, ids, stamp, k);
        run_bounds(b, ids, stamp, k);
        if a[k].length < b[k].length {
            let e = s + a[k].length;
            assert(in_run(b[k], e));
            assert(covered(b, (e as i32) as int));
        } else if b[k].length < a[k].length {
            let e = s + b[k].length;
            assert(in_run(a[k], e));
            assert(covered(a, (e as i32) as int));
        }
        assert(a[k].length == b[k].length);
        assert(dated_by(a[k], stamp));
        assert(dated_by(b[k], stamp));
        let xa = choose|x: i32| #[trigger] in_run(a[k], x as int) && stamp[x] == a[k].time;
        let xb = choose|x: i32| #[trigger] in_run(b[k], x as int) && stamp[x] == b[k].time;
        assert(in_run(b[k], xa as int));
        assert(in_run(a[k], xb as int));
        assert(stamp[xa] <= b[k].time);
        assert(stamp[xb] <= a[k].time);
    }
    assert(a =~= b);
}

/// The reservations that store a division into runs, one per run.
pub open spec fn spans_of(runs: Seq<IdRun>) -> Seq<StampedSpan> {
    runs.map_values(|r: IdRun| StampedSpan { range_start: r.range_start, length: r.length, time: r.time })
}

proof fn stamps_of_runs(a: Seq<IdRun>, ids: Set<i32>, stamp: Map<i32, i128>, n: int)
    requires
        maximal_runs(a, ids, stamp),
        0 <= n <= a.len(),
    ensures
        forall|x: i32| #[trigger] stamps(spans_of(a.subrange(0, n))).dom().contains(x) <==> exists|j: int|
            0 <= j < n && in_run(#[trigger] a[j], x as int),
        forall|j: int, x: i32| 0 <= j < n && #[trigger] in_run(a[j], x as int) ==> stamps(spans_of(a.subrange(0, n)))[x] == a[j].time,
    decreases n,
{
    if n > 0 {
        stamps_of_runs(a, ids, stamp, n - 1);
        let prev = spans_of(a.subrange(0, n - 1));
        assert(spans_of(a.subrange(0, n)).drop_last() =~= prev);
        assert(spans_of(a.subrange(0, n)).last() == StampedSpan { range_start: a[n - 1].range_start, length: a[n - 1].length, time: a[n - 1].time });
        assert forall|x: i32| #[trigger] stamps(spans_of(a.subrange(0, n))).dom().contains(x) <==> exists|j: int|
            0 <= j < n && in_run(#[trigger] a[j], x as int) by {
            if stamps(spans_of(a.subrange(0, n))).dom().contains(x) {
                if stamps(prev).dom().contains(x) {
                    let j = choose|j: int| 0 <= j < n - 1 && in_run(#[trigger] a[j], x as int);
                    assert(in_run(a[j], x as int));
                } else {
                    assert(in_run(a[n - 1], x as int));
                }
            }
            if exists|j: int| 0 <= j < n && in_run(#[trigger] a[j], x as int) {
                let j = choose|j: int| 0 <= j < n && in_run(#[trigger] a[j], x as int);
                if j < n - 1 {
                    assert(stamps(prev).dom().contains(x));
                } else {
                    assert(span_stamps(spans_of(a.subrange(0, n)).last()).dom().contains(x));
                }
            }
        }
        assert forall|j: int, x: i32| 0 <= j < n && #[trigger] in_run(a[j], x as int) implies stamps(spans_of(a.subrange(0, n)))[x] == a[j].time by {
            if j < n - 1 && in_run(a[n - 1], x as int) {
                run_alone(a, ids, stamp, j, n - 1, x as int);
            }
        }
    } else {
        assert(spans_of(a.subrange(0, 0)) =~= Seq::<StampedSpan>::empty());
    }
}

/// Regrouping is stable: storing a division into maximal runs and regrouping
/// those reservations again (excluding nothing) gives back the same runs.
pub proof fn regroup_is_stable(runs: Seq<IdRun>, ids: Set<i32>, stamp: Map<i32, i128>, again: Seq<IdRun>)
    requires
        maximal_runs(runs, ids, stamp),
        maximal_runs(again, kept_ids(spans_of(runs), Seq::empty()), stamps(spans_of(runs))),
    ensures
        again == runs,
{
    stamps_of_runs(runs, ids, stamp, runs.len() as int);
    assert(runs.subrange(0, runs.len() as int) =~= runs);
    let st = stamps(spans_of(runs));
    let k = kept_ids(spans_of(runs), Seq::empty());
    assert(k =~= ids) by {
        assert forall|x: i32| #[trigger] k.contains(x) <==> ids.contains(x) by {
            assert(!Seq::<i32>::empty().to_set().contains(x));
            if covered(runs, x as int) {
                let j = choose|j: int| 0 <= j < runs.len() && in_run(#[trigger] runs[j], x as int);
                assert(st.dom().contains(x));
            }
            if st.dom().contains(x) {
                assert(covered(runs, x as int));
            }
        }
    }
    assert(maximal_runs(runs, k, st)) by {
        assert forall|j: int, x: i32| 0 <= j < runs.len() && #[trigger] in_run(runs[j], x as int) implies st[x] <= runs[j].time by {
        }
        assert forall|j: int| 0 <= j < runs.len() implies dated_by(#[trigger] runs[j], st) by {
            let s = runs[j].range_start;
            assert(runs[j].length >= 1);
            assert(in_run(runs[j], s as int));
        }
    }
    maximal_runs_unique(again, runs, k, st);
}

/// The second regrouping may run whenever the first could and every run
/// ends below `i32::MAX`: the stored runs end within `i32`, and the ids they
/// keep are those the first regrouping kept.
pub proof fn regroup_again_allowed(rows: Seq<StampedSpan>, published: Seq<i32>, runs: Seq<IdRun>)
    requires
        maximal_runs(runs, kept_ids(rows, published), stamps(rows)),
    ensures
        kept_ids(spans_of(runs), published) == kept_ids(rows, published),
        no_overlong_run(kept_ids(rows, published)) ==> no_overlong_run(kept_ids(spans_of(runs), published)),
        (forall|j: int| 0 <= j < runs.len() ==> #[trigger] runs[j].range_start + runs[j].length <= i32::MAX)
            ==> spans_in_range(spans_of(runs)),
{
    let ids = kept_ids(rows, published);
    stamps_of_runs(runs, ids, stamps(rows), runs.len() as int);
    assert(runs.subrange(0, runs.len() as int) =~= runs);
    let st = stamps(spans_of(runs));
    let k = kept_ids(spans_of(runs), published);
    assert(k =~= ids) by {
        assert forall|x: i32| #[trigger] k.contains(x) <==> ids.contains(x) by {
            if covered(runs, x as int) {
                let j = choose|j: int| 0 <= j < runs.len() && in_run(#[trigger] runs[j], x as int);
                assert(st.dom().contains(x));
            }
            if st.dom().contains(x) {
                assert(covered(runs, x as int));
            }
        }
    }
    if forall|j: int| 0 <= j < runs.len() ==> #[trigger] runs[j].range_start + runs[j].length <= i32::MAX {
        assert forall|k: int| 0 <= k < spans_of(runs).len() implies i32::MIN <= #[trigger] spans_of(runs)[k].range_start
            + spans_of(runs)[k].length <= i32::MAX by {
            assert(spans_of(runs)[k].range_start == runs[k].range_start);
            assert(runs[k].length >= 1);
        }
    }
}

/// Regrouping twice in a row changes nothing: when `runs` is what regrouping
/// `rows` without the `published` ids gives, regrouping the reservations that
/// store `runs`, again without the `published` ids, gives `runs` back.
pub proof fn regroup_twice_changes_nothing(
    rows: Seq<StampedSpan>,
    published: Seq<i32>,
    runs: Seq<IdRun>,
    again: Seq<IdRun>,
)
    requires
        maximal_runs(runs, kept_ids(rows, published), stamps(rows)),
        maximal_runs(again, kept_ids(spans_of(runs), published), stamps(spans_of(runs))),
    ensures
        again == runs,
{
    regroup_again_allowed(rows, published, runs);
    let ids = kept_ids(rows, published);
    stamps_of_runs(runs, ids, stamps(rows), runs.len() as int);
    assert(runs.subrange(0, runs.len() as int) =~= runs);
    let st = stamps(spans_of(runs));
    let k = kept_ids(spans_of(runs), published);
    assert(maximal_runs(runs, k, st)) by {
        assert forall|j: int, x: i32| 0 <= j < runs.len() && #[trigger] in_run(runs[j], x as int) implies st[x] <= runs[j].time by {
        }
        assert forall|j: int| 0 <= j < runs.len() implies dated_by(#[trigger] runs[j], st) by {
            let s = runs[j].range_start;
            assert(runs[j].length >= 1);
            assert(in_run(runs[j], s as int));
        }
    }
    maximal_runs_unique(again, runs, k, st);
}

/// After a claim of `length` ids from `start`, every id of the window is
/// held: by the user's content or reservations before, or by a new run; and
/// the new runs hold nothing else.
pub proof fn claim_fills_window(start: u32, length: u32, held: Seq<i32>, time: i128, runs: Seq<IdRun>)
    requires
        maximal_runs(
            runs,
            kept_ids(
                seq![StampedSpan { range_start: start as i32, length: length as i32, time }],
                held,
            ),
            stamps(seq![StampedSpan { range_start: start as i32, length: length as i32, time }]),
        ),
    ensures
        forall|x: i32|
            (start as i32) <= x < (start as i32) + (length as i32) ==> held.contains(x) || #[trigger] covered(runs, x as int),
        forall|x: i32|
            #[trigger] covered(runs, x as int) ==> (start as i32) <= x < (start as i32) + (length as i32) && !held.contains(x),
{
    let rows = seq![StampedSpan { range_start: start as i32, length: length as i32, time }];
    assert(rows.drop_last() =~= Seq::<StampedSpan>::empty());
    assert(stamps(rows.drop_last()) == Map::<i32, i128>::empty());
    assert(stamps(rows) == Map::<i32, i128>::empty().union_prefer_right(span_stamps(rows.last())));
    assert forall|x: i32| (start as i32) <= x < (start as i32) + (length as i32) implies held.contains(x) || #[trigger] covered(runs, x as int) by {
        if !held.contains(x) {
            assert(stamps(rows).dom().contains(x));
            assert(!held.to_set().contains(x));
            assert(kept_ids(rows, held).contains(x));
        }
    }
    assert forall|x: i32| #[trigger] covered(runs, x as int) implies (start as i32) <= x < (start as i32) + (length as i32) && !held.contains(x) by {
        assert(kept_ids(rows, held).contains(x));
        assert(!held.to_set().contains(x));
    }
}

/// After a release of the window `start .. start + length`, the runs stored
/// again hold exactly the user's reserved ids outside the window.
pub proof fn release_clears_window(start: u32, length: u32, rows: Seq<StampedSpan>, runs: Seq<IdRun>)
    requires
        maximal_runs(runs, kept_ids(rows, window_ids(start, length)), stamps(rows)),
    ensures
        forall|x: i32| #[trigger] covered(runs, x as int) <==> stamps(rows).dom().contains(x) && !window_ids(start, length).contains(x),
{
    assert forall|x: i32| #[trigger] covered(runs, x as int) <==> stamps(rows).dom().contains(x) && !window_ids(start, length).contains(x) by {
        assert(kept_ids(rows, window_ids(start, length)).contains(x) <==> covered(runs, x as int));
        assert(window_ids(start, length).to_set().contains(x) <==> window_ids(start, length).contains(x));
    }
}

/// A stored reservation of a range of ids.
#[derive(Clone, Debug, PartialEq)]
pub struct Reservation {
    pub user: User,
    pub reservation_type: ReservationType,
    pub range_start: i32,
    pub length: i32,
    /// Unix time in nanoseconds.
    pub time: i128,
}

fn copy_user(u: &User) -> (r: User)
    ensures
        same_user_spec(r, *u),
{
    User {
        id: u.id,
        name: u.name.clone(),
        avatar: u.avatar.clone(),
        display_name: match &u.display_name {
            Some(d) => Some(d.clone()),
            None => None,
        },
        public_likes: u.public_likes,
        show_explicit: u.show_explicit,
        theme: u.theme,
    }
}

/// The reservations to store for `runs`, held by `user`, of kind `t`.
pub fn reservations_for(runs: &Vec<IdRun>, user: &User, t: ReservationType) -> (r: Vec<Reservation>)
    ensures
        r@.len() == runs@.len(),
        forall|k: int|
            0 <= k < r@.len() ==> {
                let x = #[trigger] r@[k];
                &&& same_user_spec(x.user, *user)
                &&& x.reservation_type == t
                &&& x.range_start == runs@[k].range_start
                &&& x.length == runs@[k].length
                &&& x.time == runs@[k].time
            },
{
    let mut r: Vec<Reservation> = Vec::new();
    let mut i: usize = 0;
    while i < runs.len()
        invariant
            i <= runs.len(),
            r@.len() == i,
            forall|k: int|
                0 <= k < i ==> {
                    let x = #[trigger] r@[k];
                    &&& same_user_spec(x.user, *user)
                    &&& x.reservation_type == t
                    &&& x.range_start == runs@[k].range_start
                    &&& x.length == runs@[k].length
                    &&& x.time == runs@[k].time
                },
        decreases runs.len() - i,
    {
        let run = runs[i];
        r.push(Reservation {
            user: copy_user(user),
            reservation_type: t,
            range_start: run.range_start,
            length: run.length,
            time: run.time,
        });
        i = i + 1;
    }
    r
}

} // verus!
