//! Reserving ranges of content ids (song, module and customize-item ids):
//! alignment of a range, the verdict on a requested range, the allowance a
//! user has, the search for a free range, and the regrouping of reserved ids
//! into maximal runs.

use vstd::prelude::*;

verus! {

/// The three id spaces that can be reserved.
#[derive(Clone, Copy, Debug, PartialEq, Eq, Structural)]
pub enum ReservationType {
    Song,
    Module,
    CstmItem,
}

/// The variant a stored number stands for: 1 and 2 name modules and
/// customize items, every other number a song.
pub open spec fn reservation_type_of(value: i32) -> ReservationType {
    if value == 1 {
        ReservationType::Module
    } else if value == 2 {
        ReservationType::CstmItem
    } else {
        ReservationType::Song
    }
}

/// The number a variant is stored as.
pub open spec fn reservation_type_number(t: ReservationType) -> i32 {
    match t {
        ReservationType::Song => 0,
        ReservationType::Module => 1,
        ReservationType::CstmItem => 2,
    }
}

impl From<i32> for ReservationType {
    /// The variant stored as `value`.
    fn from(value: i32) -> (t: ReservationType) {
        if value == 1 {
            ReservationType::Module
        } else if value == 2 {
            ReservationType::CstmItem
        } else {
            ReservationType::Song
        }
    }
}

impl vstd::std_specs::convert::FromSpecImpl<i32> for ReservationType {
    open spec fn obeys_from_spec() -> bool {
        true
    }

    open spec fn from_spec(v: i32) -> ReservationType {
        reservation_type_of(v)
    }
}

impl ReservationType {
    /// The number this variant is stored as.
    pub fn as_i32(&self) -> (n: i32)
        ensures
            n == reservation_type_number(*self),
    {
        match self {
            ReservationType::Song => 0,
            ReservationType::Module => 1,
            ReservationType::CstmItem => 2,
        }
    }
}

/// Storing a variant and reading it back gives the same variant.
pub proof fn reservation_type_round_trip(t: ReservationType)
    ensures
        reservation_type_of(reservation_type_number(t)) == t,
{
}

/// The alignment a range of `length` ids must start on: the largest power of
/// ten not above `length` (1 for lengths below 10, and for 0).
pub open spec fn alignment_for(length: nat) -> nat
    decreases length,
{
    if length < 10 {
        1
    } else {
        10 * alignment_for(length / 10)
    }
}

/// `n` is a power of ten.
pub open spec fn power_of_ten(n: nat) -> bool
    decreases n,
{
    n == 1 || (n >= 10 && n % 10 == 0 && power_of_ten(n / 10))
}

/// The alignment of a non-empty range is a power of ten, at most its length,
/// and more than a tenth of it.
pub proof fn alignment_bounds(length: nat)
    requires
        length >= 1,
    ensures
        power_of_ten(alignment_for(length)),
        alignment_for(length) <= length < 10 * alignment_for(length),
    decreases length,
{
    if length >= 10 {
        alignment_bounds(length / 10);
        let a = alignment_for(length / 10);
        assert((10 * a) / 10 == a);
        assert((10 * a) % 10 == 0);
    }
}

/// `10u32.checked_pow(length.checked_ilog10().unwrap_or(0)).unwrap_or(1)`.
pub fn alignment(length: u32) -> (a: u32)
    ensures
        a == alignment_for(length as nat),
        a >= 1,
        length >= 1 ==> a <= length,
    decreases length,
{
    if length < 10 {
        1
    } else {
        proof {
            alignment_bounds(length as nat);
        }
        let inner = alignment(length / 10);
        10 * inner
    }
}

/// The smallest multiple of `a` that is at least `x` (`next_multiple_of`).
pub open spec fn round_up(x: nat, a: nat) -> nat
    recommends
        a > 0,
{
    if x % a == 0 {
        x
    } else {
        (x + (a - x % a)) as nat
    }
}

/// What `round_up` is: the least multiple of `a` at or above `x`.
pub proof fn round_up_is_least_multiple(x: nat, a: nat)
    requires
        a > 0,
    ensures
        round_up(x, a) % a == 0,
        x <= round_up(x, a) < x + a,
        forall|m: nat| x <= m && #[trigger] (m % a) == 0 ==> round_up(x, a) <= m,
{
    let r = round_up(x, a);
    assert(r % a == 0) by (nonlinear_arith)
        requires
            a > 0,
            r == (if x % a == 0 { x } else { (x + (a - x % a)) as nat }),
    {
        vstd::arithmetic::div_mod::lemma_fundamental_div_mod(x as int, a as int);
        if x % a != 0 {
            vstd::arithmetic::div_mod::lemma_mod_multiples_vanish((x / a + 1) as int, 0, a as int);
        }
    }
    assert forall|m: nat| x <= m && #[trigger] (m % a) == 0 implies r <= m by {
        vstd::arithmetic::div_mod::lemma_fundamental_div_mod(x as int, a as int);
        vstd::arithmetic::div_mod::lemma_fundamental_div_mod(m as int, a as int);
        if x % a != 0 && m < r {
            assert(false) by (nonlinear_arith)
                requires
                    a > 0,
                    x == a * (x / a) + x % a,
                    0 < x % a < a,
                    m == a * (m / a),
                    x <= m,
                    m < x + (a - x % a),
            {
                assert(a * (x / a) < m < a * (x / a + 1));
            }
        }
    }
}

/// `x.next_multiple_of(a)` for `u32`.
pub fn next_multiple_of(x: u32, a: u32) -> (r: u32)
    requires
        a > 0,
        round_up(x as nat, a as nat) <= u32::MAX,
    ensures
        r == round_up(x as nat, a as nat),
{
    let rem = x % a;
    if rem == 0 {
        x
    } else {
        x + (a - rem)
    }
}


/// The answer to a request for a range of ids.
#[derive(Debug, PartialEq)]
pub enum ReserveRangeResult {
    /// The range is completely empty.
    ValidRange,
    /// The range holds content or reservations of the user only; these are their ids.
    PartialValidRange(Vec<i32>),
    /// The range holds content or reservations of someone else.
    InvalidRange,
    /// The range is longer than the user's remaining allowance, which is given.
    InvalidLength(i32),
    /// The start is not a multiple of the required alignment, which is given.
    InvalidAlignment(u32),
}

/// The mathematical value of a `ReserveRangeResult`.
pub enum RangeVerdict {
    Valid,
    Partial(Seq<i32>),
    Invalid,
    Length(i32),
    Alignment(u32),
}

impl View for ReserveRangeResult {
    type V = RangeVerdict;

    open spec fn view(&self) -> RangeVerdict {
        match self {
            ReserveRangeResult::ValidRange => RangeVerdict::Valid,
            ReserveRangeResult::PartialValidRange(ids) => RangeVerdict::Partial(ids@),
            ReserveRangeResult::InvalidRange => RangeVerdict::Invalid,
            ReserveRangeResult::InvalidLength(m) => RangeVerdict::Length(*m),
            ReserveRangeResult::InvalidAlignment(a) => RangeVerdict::Alignment(*a),
        }
    }
}

/// Published content found at an id of the requested range.
#[derive(Clone, Copy, Debug, PartialEq, Eq, Structural)]
pub struct ContentConflict {
    /// The content's id.
    pub id: i32,
    /// Whether the requesting user is an author of the post holding the
    /// content; `None` when that post could not be loaded (such content is
    /// passed over, as base-game content is).
    pub authored: Option<bool>,
}

/// A stored reservation that meets the requested range.
#[derive(Clone, Copy, Debug, PartialEq, Eq, Structural)]
pub struct ReservedRange {
    /// The holder of the reservation (`None` when the holder is unknown).
    pub user_id: Option<i64>,
    pub range_start: i32,
    pub length: i32,
}

/// First bound of the requested window, as the service computes it (`start as i32`).
pub open spec fn window_low(start: u32) -> int {
    (start as i32) as int
}

/// Second bound of the requested window (`(start + length) as i32`).
pub open spec fn window_high(start: u32, length: u32) -> int {
    ((start + length) as i32) as int
}

/// Some conflicting content belongs to a post the user is not an author of.
pub open spec fn foreign_content(content: Seq<ContentConflict>) -> bool {
    exists|k: int| 0 <= k < content.len() && #[trigger] content[k].authored == Some(false)
}

/// Some conflicting reservation is held by someone other than `user_id`.
pub open spec fn foreign_reservation(rows: Seq<ReservedRange>, user_id: i64) -> bool {
    exists|k: int| 0 <= k < rows.len() && #[trigger] rows[k].user_id != Some(user_id)
}

/// The ids of the user's own conflicting content, in the order found.
pub open spec fn own_content_ids(content: Seq<ContentConflict>) -> Seq<i32>
    decreases content.len(),
{
    if content.len() == 0 {
        Seq::empty()
    } else {
        let rest = own_content_ids(content.drop_last());
        if content.last().authored == Some(true) {
            rest.push(content.last().id)
        } else {
            rest
        }
    }
}

/// The ids of `[from, to)` that lie in `[lo, hi)`, ascending.
pub open spec fn clamp_ids(from: int, to: int, lo: int, hi: int) -> Seq<i32> {
    let a = if from < lo { lo } else { from };
    let b = if to < hi { to } else { hi };
    if a < b {
        Seq::new((b - a) as nat, |k: int| (a + k) as i32)
    } else {
        Seq::empty()
    }
}

/// The ids of the user's reservations that fall in `[lo, hi)`, row by row.
pub open spec fn own_reserved_ids(rows: Seq<ReservedRange>, lo: int, hi: int) -> Seq<i32>
    decreases rows.len(),
{
    if rows.len() == 0 {
        Seq::empty()
    } else {
        let r = rows.last();
        own_reserved_ids(rows.drop_last(), lo, hi)
            + clamp_ids(r.range_start as int, r.range_start + r.length, lo, hi)
    }
}

/// Every id of the requested window, ascending (`start as i32 .. start as i32 + length as i32`).
pub open spec fn whole_window(start: u32, length: u32) -> Seq<i32> {
    let lo = window_low(start);
    let n = (length as i32) as int;
    if n > 0 {
        Seq::new(n as nat, |k: int| (lo + k) as i32)
    } else {
        Seq::empty()
    }
}

/// The verdict on a range that passed the length and alignment checks.
pub open spec fn conflict_verdict(
    start: u32,
    length: u32,
    user_id: i64,
    content: Seq<ContentConflict>,
    rows: Seq<ReservedRange>,
) -> RangeVerdict {
    if foreign_content(content) || foreign_reservation(rows, user_id) {
        RangeVerdict::Invalid
    } else {
        let found = own_content_ids(content) + own_reserved_ids(
            rows,
            window_low(start),
            window_high(start, length),
        );
        if found == whole_window(start, length) {
            RangeVerdict::Invalid
        } else if found.len() > 0 {
            RangeVerdict::Partial(found)
        } else {
            RangeVerdict::Valid
        }
    }
}

/// The verdict on a request for `length` ids from `start`, given the user's
/// remaining allowance and what the index and the stored reservations hold there.
pub open spec fn reserve_verdict(
    start: u32,
    length: u32,
    max: i32,
    user_id: i64,
    content: Seq<ContentConflict>,
    rows: Seq<ReservedRange>,
) -> RangeVerdict {
    if max < length as i32 {
        RangeVerdict::Length(max)
    } else if start as nat % alignment_for(length as nat) != 0 {
        RangeVerdict::Alignment(alignment_for(length as nat) as u32)
    } else {
        conflict_verdict(start, length, user_id, content, rows)
    }
}

/// Before the first reservation of someone else, none of the user's
/// reservations ends past `i32::MAX`.
pub open spec fn own_rows_in_range(rows: Seq<ReservedRange>, user_id: i64) -> bool {
    forall|k: int|
        0 <= k < rows.len() && (forall|j: int| 0 <= j <= k ==> #[trigger] rows[j].user_id == Some(user_id))
            ==> i32::MIN <= #[trigger] rows[k].range_start + rows[k].length <= i32::MAX
}

/// The arithmetic of a verdict on conflicts stays in range: `start + length`
/// fits in `u32`, the user's reservations met before a foreign one end
/// within `i32`, and the window end `start as i32 + length as i32` fits in
/// `i32` when no foreign content or reservation cuts the check short.
pub open spec fn conflict_check_in_range(
    start: u32,
    length: u32,
    user_id: i64,
    content: Seq<ContentConflict>,
    rows: Seq<ReservedRange>,
) -> bool {
    &&& start + length <= u32::MAX
    &&& !foreign_content(content) ==> own_rows_in_range(rows, user_id)
    &&& !foreign_content(content) && !foreign_reservation(rows, user_id) ==> i32::MIN <= window_low(start)
        + (length as i32) <= i32::MAX
}

fn push_clamped(out: &mut Vec<i32>, from: i32, to: i32, lo: i32, hi: i32)
    ensures
        final(out)@ == old(out)@ + clamp_ids(from as int, to as int, lo as int, hi as int),
{
    let a = if from < lo { lo } else { from };
    let b = if to < hi { to } else { hi };
    let ghost base = out@;
    if a < b {
        let mut x = a;
        while x < b
            invariant
                a <= x <= b,
                out@ == base + Seq::new((x - a) as nat, |k: int| (a + k) as i32),
            decreases b - x,
        {
            out.push(x);
            proof {
                assert(Seq::new((x + 1 - a) as nat, |k: int| (a + k) as i32) =~= Seq::new(
                    (x - a) as nat,
                    |k: int| (a + k) as i32,
                ).push(x));
            }
            x = x + 1;
        }
    } else {
        assert(out@ =~= base + Seq::<i32>::empty());
    }
}

/// Weighs the content and reservations found in the requested window.
pub fn classify_conflicts(
    start: u32,
    length: u32,
    user_id: i64,
    content: &Vec<ContentConflict>,
    rows: &Vec<ReservedRange>,
) -> (r: ReserveRangeResult)
    requires
        conflict_check_in_range(start, length, user_id, content@, rows@),
    ensures
        r@ == conflict_verdict(start, length, user_id, content@, rows@),
{
    let mut found: Vec<i32> = Vec::new();
    let mut i: usize = 0;
    while i < content.len()
        invariant
            i <= content.len(),
            found@ == own_content_ids(content@.subrange(0, i as int)),
            !foreign_content(content@.subrange(0, i as int)),
        decreases content.len() - i,
    {
        let c = content[i];
        proof {
            assert(content@.subrange(0, i + 1).drop_last() =~= content@.subrange(0, i as int));
        }
        match c.authored {
            Some(true) => {
                found.push(c.id);
            },
            Some(false) => {
                proof {
                    assert(content@[i as int].authored == Some(false));
                }
                return ReserveRangeResult::InvalidRange;
            },
            None => {},
        }
        proof {
            if foreign_content(content@.subrange(0, i + 1)) {
                let k = choose|k: int| 0 <= k < i + 1 && #[trigger] content@.subrange(0, i + 1)[k].authored == Some(false);
                if k < i {
                    assert(content@.subrange(0, i as int)[k] == content@.subrange(0, i + 1)[k]);
                }
            }
        }
        i = i + 1;
    }
    assert(content@.subrange(0, content.len() as int) =~= content@);
    let lo: i32 = #[verifier::truncate] (start as i32);
    let hi: i32 = #[verifier::truncate] ((start + length) as i32);
    let ghost own = found@;
    let mut k: usize = 0;
    while k < rows.len()
        invariant
            k <= rows.len(),
            lo as int == window_low(start),
            hi as int == window_high(start, length),
            !foreign_content(content@),
            own_rows_in_range(rows@, user_id),
            forall|j: int| 0 <= j < k ==> #[trigger] rows@[j].user_id == Some(user_id),
            found@ == own + own_reserved_ids(rows@.subrange(0, k as int), lo as int, hi as int),
        decreases rows.len() - k,
    {
        let row = rows[k];
        let mine = match row.user_id {
            Some(id) => id == user_id,
            None => false,
        };
        if !mine {
            proof {
                assert(rows@[k as int].user_id != Some(user_id));
            }
            return ReserveRangeResult::InvalidRange;
        }
        proof {
            assert(rows@[k as int].user_id == Some(user_id));
            assert forall|j: int| 0 <= j <= k implies #[trigger] rows@[j].user_id == Some(user_id) by {
            }
            assert(rows@.subrange(0, k + 1).drop_last() =~= rows@.subrange(0, k as int));
        }
        push_clamped(&mut found, row.range_start, row.range_start + row.length, lo, hi);
        proof {
            assert(found@ =~= own + own_reserved_ids(rows@.subrange(0, k + 1), lo as int, hi as int));
        }
        k = k + 1;
    }
    assert(rows@.subrange(0, rows.len() as int) =~= rows@);
    assert(!foreign_reservation(rows@, user_id));
    let n: i32 = #[verifier::truncate] (length as i32);
    let mut whole = true;
    if n > 0 {
        if found.len() != n as usize {
            whole = false;
        } else {
            let mut t: usize = 0;
            while t < found.len() && found[t] == lo + t as i32
                invariant
                    found.len() == n as usize,
                    n > 0,
                    t <= found.len(),
                    i32::MIN <= lo + n <= i32::MAX,
                    forall|u: int| 0 <= u < t ==> found@[u] == lo + u,
                decreases found.len() - t,
            {
                t = t + 1;
            }
            whole = t == found.len();
            proof {
                let w = whole_window(start, length);
                assert(w.len() == n);
                assert forall|u: int| 0 <= u < n implies w[u] == lo + u by {
                }
                if whole {
                    assert(found@ =~= w);
                } else {
                    assert(found@[t as int] != w[t as int]);
                }
            }
        }
    } else {
        whole = found.len() == 0;
        if whole {
            assert(found@ =~= whole_window(start, length));
        }
    }
    if whole {
        ReserveRangeResult::InvalidRange
    } else if found.len() > 0 {
        ReserveRangeResult::PartialValidRange(found)
    } else {
        ReserveRangeResult::ValidRange
    }
}

/// The checks made before any lookup: the length against the remaining
/// allowance, then the start against the alignment. `None` when both pass.
pub fn check_length_and_alignment(start: u32, length: u32, max: i32) -> (r: Option<ReserveRangeResult>)
    ensures
        r is None <==> !(max < length as i32) && start as nat % alignment_for(length as nat) == 0,
        r matches Some(v) ==> v@ == reserve_verdict(start, length, max, 0, Seq::empty(), Seq::empty()),
{
    if max < #[verifier::truncate] (length as i32) {
        return Some(ReserveRangeResult::InvalidLength(max));
    }
    let a = alignment(length);
    if start % a != 0 {
        return Some(ReserveRangeResult::InvalidAlignment(a));
    }
    None
}

/// The verdict on a request for `length` ids from `start` by `user_id`, whose
/// remaining allowance is `max`, given the content the search index holds in
/// the window (with whether the user authored it) and the stored
/// reservations that meet the window.
pub fn reserve_range_verdict(
    start: u32,
    length: u32,
    max: i32,
    user_id: i64,
    content: &Vec<ContentConflict>,
    rows: &Vec<ReservedRange>,
) -> (r: ReserveRangeResult)
    requires
        !(max < length as i32) && start as nat % alignment_for(length as nat) == 0
            ==> conflict_check_in_range(start, length, user_id, content@, rows@),
    ensures
        r@ == reserve_verdict(start, length, max, user_id, content@, rows@),
{
    match check_length_and_alignment(start, length, max) {
        Some(v) => v,
        None => classify_conflicts(start, length, user_id, content, rows),
    }
}


/// What each verdict means: a valid range holds nobody's content or
/// reservation; a partially valid range holds only the user's, and the ids
/// given are theirs; a range too long for the allowance reports the
/// allowance; a misaligned start reports the alignment, a power of ten at
/// most the length.
pub proof fn verdict_meanings(
    start: u32,
    length: u32,
    max: i32,
    user_id: i64,
    content: Seq<ContentConflict>,
    rows: Seq<ReservedRange>,
)
    ensures
        reserve_verdict(start, length, max, user_id, content, rows) == RangeVerdict::Valid ==> {
            &&& !foreign_content(content) && !foreign_reservation(rows, user_id)
            &&& own_content_ids(content).len() == 0
            &&& own_reserved_ids(rows, window_low(start), window_high(start, length)).len() == 0
        },
        reserve_verdict(start, length, max, user_id, content, rows) matches RangeVerdict::Partial(ids) ==> {
            &&& !foreign_content(content) && !foreign_reservation(rows, user_id)
            &&& ids.len() > 0
            &&& ids == own_content_ids(content) + own_reserved_ids(rows, window_low(start), window_high(start, length))
        },
        reserve_verdict(start, length, max, user_id, content, rows) matches RangeVerdict::Length(m) ==> m == max && max < length as i32,
        reserve_verdict(start, length, max, user_id, content, rows) matches RangeVerdict::Alignment(a) ==> {
            &&& length >= 1 ==> power_of_ten(a as nat) && a <= length
            &&& start as nat % (a as nat) != 0
        },
{
    if length >= 1 {
        alignment_bounds(length as nat);
    }
}

/// Some content of a post the user authors has id `x`.
pub open spec fn held_by_content(content: Seq<ContentConflict>, x: i32) -> bool {
    exists|k: int| 0 <= k < content.len() && #[trigger] content[k].authored == Some(true) && content[k].id == x
}

/// Some reservation of the user holds id `x`.
pub open spec fn held_by_rows(rows: Seq<ReservedRange>, user_id: i64, x: i32) -> bool {
    exists|k: int|
        0 <= k < rows.len() && #[trigger] rows[k].user_id == Some(user_id) && rows[k].range_start <= x
            < rows[k].range_start + rows[k].length
}

proof fn own_content_held(content: Seq<ContentConflict>)
    ensures
        forall|i: int| 0 <= i < own_content_ids(content).len() ==> held_by_content(content, #[trigger] own_content_ids(content)[i]),
    decreases content.len(),
{
    if content.len() > 0 {
        let prev = content.drop_last();
        own_content_held(prev);
        assert forall|i: int| 0 <= i < own_content_ids(content).len() implies held_by_content(
            content,
            #[trigger] own_content_ids(content)[i],
        ) by {
            if i < own_content_ids(prev).len() {
                assert(own_content_ids(content)[i] == own_content_ids(prev)[i]);
                let k = choose|k: int|
                    0 <= k < prev.len() && #[trigger] prev[k].authored == Some(true) && prev[k].id == own_content_ids(prev)[i];
                assert(content[k] == prev[k]);
            } else {
                assert(content[content.len() - 1].authored == Some(true));
            }
        }
    }
}

proof fn own_rows_held(rows: Seq<ReservedRange>, user_id: i64, lo: int, hi: int)
    requires
        !foreign_reservation(rows, user_id),
        i32::MIN <= lo,
        hi <= i32::MAX + 1,
    ensures
        forall|i: int|
            0 <= i < own_reserved_ids(rows, lo, hi).len() ==> lo <= #[trigger] own_reserved_ids(rows, lo, hi)[i] < hi
                && held_by_rows(rows, user_id, own_reserved_ids(rows, lo, hi)[i]),
    decreases rows.len(),
{
    if rows.len() > 0 {
        let prev = rows.drop_last();
        assert(!foreign_reservation(prev, user_id)) by {
            if foreign_reservation(prev, user_id) {
                let k = choose|k: int| 0 <= k < prev.len() && #[trigger] prev[k].user_id != Some(user_id);
                assert(rows[k] == prev[k]);
            }
        }
        own_rows_held(prev, user_id, lo, hi);
        let r = rows.last();
        let tail = clamp_ids(r.range_start as int, r.range_start + r.length, lo, hi);
        let whole = own_reserved_ids(rows, lo, hi);
        assert(whole == own_reserved_ids(prev, lo, hi) + tail);
        assert(rows[rows.len() - 1].user_id == Some(user_id));
        assert forall|i: int| 0 <= i < whole.len() implies lo <= #[trigger] whole[i] < hi && held_by_rows(
            rows,
            user_id,
            whole[i],
        ) by {
            let n = own_reserved_ids(prev, lo, hi).len();
            if i < n {
                assert(whole[i] == own_reserved_ids(prev, lo, hi)[i]);
                let k = choose|k: int|
                    0 <= k < prev.len() && #[trigger] prev[k].user_id == Some(user_id) && prev[k].range_start <= whole[i]
                        < prev[k].range_start + prev[k].length;
                assert(rows[k] == prev[k]);
            } else {
                assert(whole[i] == tail[i - n]);
                let a = if (r.range_start as int) < lo { lo } else { r.range_start as int };
                let b = if r.range_start + r.length < hi { r.range_start + r.length } else { hi };
                let v = a + (i - n);
                assert(a <= v < b);
                assert(i32::MIN <= v <= i32::MAX);
                assert((v as i32) as int == v);
                assert(tail[i - n] == v as i32);
                assert(rows[rows.len() - 1] == r);
                assert(lo <= v < hi);
                assert(held_by_rows(rows, user_id, whole[i]));
            }
        }
    }
}

/// The ids a partially valid answer lists are the user's and lie in the
/// requested window `[start, start + length)` (when the conflicting content
/// found lies in it): each is the id of content the user authors, or an id of
/// a reservation of the user.
pub proof fn partial_ids_are_the_users_in_window(
    start: u32,
    length: u32,
    max: i32,
    user_id: i64,
    content: Seq<ContentConflict>,
    rows: Seq<ReservedRange>,
)
    requires
        forall|k: int| 0 <= k < content.len() ==> window_low(start) <= #[trigger] content[k].id < window_high(start, length),
    ensures
        reserve_verdict(start, length, max, user_id, content, rows) matches RangeVerdict::Partial(ids) ==> forall|i: int|
            0 <= i < ids.len() ==> window_low(start) <= #[trigger] ids[i] < window_high(start, length) && (held_by_content(
                content,
                ids[i],
            ) || held_by_rows(rows, user_id, ids[i])),
{
    if reserve_verdict(start, length, max, user_id, content, rows) is Partial {
        let lo = window_low(start);
        let hi = window_high(start, length);
        own_content_held(content);
        own_rows_held(rows, user_id, lo, hi);
        let c = own_content_ids(content);
        let o = own_reserved_ids(rows, lo, hi);
        let ids = c + o;
        assert forall|i: int| 0 <= i < ids.len() implies lo <= #[trigger] ids[i] < hi && (held_by_content(content, ids[i])
            || held_by_rows(rows, user_id, ids[i])) by {
            if i < c.len() {
                assert(ids[i] == c[i]);
                assert(held_by_content(content, c[i]));
                let k = choose|k: int| 0 <= k < content.len() && #[trigger] content[k].authored == Some(true) && content[k].id == c[i];
            } else {
                assert(ids[i] == o[i - c.len()]);
            }
        }
    }
}

/// A window that one reservation of the user covers whole, with no content of
/// anyone in it, is answered invalid: there is nothing left in it to reserve.
pub proof fn window_held_whole_is_invalid(
    start: u32,
    length: u32,
    max: i32,
    user_id: i64,
    held: ReservedRange,
)
    requires
        !(max < length as i32),
        start as nat % alignment_for(length as nat) == 0,
        1 <= length,
        start as int + length as int <= i32::MAX,
        held.user_id == Some(user_id),
        held.range_start <= start,
        start + length <= held.range_start + held.length,
    ensures
        reserve_verdict(start, length, max, user_id, Seq::empty(), seq![held]) == RangeVerdict::Invalid,
{
    let rows = seq![held];
    let lo = window_low(start);
    let hi = window_high(start, length);
    assert(lo == start as int);
    assert(hi == start + length);
    assert(!foreign_content(Seq::<ContentConflict>::empty()));
    assert(!foreign_reservation(rows, user_id)) by {
        assert forall|k: int| 0 <= k < rows.len() implies #[trigger] rows[k].user_id == Some(user_id) by {}
    }
    assert(own_content_ids(Seq::<ContentConflict>::empty()) =~= Seq::<i32>::empty());
    assert(rows.drop_last() =~= Seq::<ReservedRange>::empty());
    assert(own_reserved_ids(rows.drop_last(), lo, hi) =~= Seq::<i32>::empty());
    assert(rows.last() == held);
    assert(own_reserved_ids(rows, lo, hi) == clamp_ids(held.range_start as int, held.range_start + held.length, lo, hi));
    assert((length as i32) as int == length as int);
    assert(clamp_ids(held.range_start as int, held.range_start + held.length, lo, hi) =~= whole_window(start, length));
    assert(own_reserved_ids(rows, lo, hi) =~= whole_window(start, length));
    assert(Seq::<i32>::empty() + own_reserved_ids(rows, lo, hi) =~= whole_window(start, length));
}

/// A stored reservation of the user, as the allowance counts it.
#[derive(Clone, Copy, Debug, PartialEq, Eq, Structural)]
pub struct ReservationSpan {
    pub range_start: i32,
    pub length: i32,
}

/// How many of the `n` ids from `from` are not in `owned`.
pub open spec fn count_outside(from: int, n: int, owned: Set<i32>) -> nat
    decreases n,
{
    if n <= 0 {
        0
    } else {
        count_outside(from, n - 1, owned) + if owned.contains((from + n - 1) as i32) {
            0nat
        } else {
            1nat
        }
    }
}

/// How many reserved ids, counted once per reservation that holds them, are not in `owned`.
pub open spec fn reserved_outside(rows: Seq<ReservationSpan>, owned: Set<i32>) -> nat
    decreases rows.len(),
{
    if rows.len() == 0 {
        0
    } else {
        reserved_outside(rows.drop_last(), owned) + count_outside(
            rows.last().range_start as int,
            rows.last().length as int,
            owned,
        )
    }
}

/// The ids a user may still reserve: 30, plus half the number of distinct
/// ids of the user's published content rounded up to a multiple of ten,
/// minus the reserved ids that are not already taken by the user's content.
pub open spec fn allowance(owned: Seq<i32>, rows: Seq<ReservationSpan>) -> int {
    let published = owned.to_set().len();
    30 + round_up((published + 1) / 2, 10) - reserved_outside(rows, owned.to_set())
}

proof fn count_outside_fresh(from: int, n: int, owned: Set<i32>)
    requires
        n >= 0,
        forall|x: int| from <= x < from + n ==> !owned.contains(#[trigger] (x as i32)),
    ensures
        count_outside(from, n, owned) == n,
    decreases n,
{
    if n > 0 {
        count_outside_fresh(from, n - 1, owned);
        assert(!owned.contains((from + n - 1) as i32));
    }
}

/// Storing one more reservation of the user lowers the allowance by the ids
/// of that reservation outside the published content; when none of its ids
/// is published, by exactly its length.
pub proof fn new_reservation_lowers_allowance(owned: Seq<i32>, rows: Seq<ReservationSpan>, row: ReservationSpan)
    ensures
        allowance(owned, rows.push(row)) == allowance(owned, rows) - count_outside(
            row.range_start as int,
            row.length as int,
            owned.to_set(),
        ),
        row.length >= 0 && (forall|x: int|
            row.range_start <= x < row.range_start + row.length ==> !owned.contains(#[trigger] (x as i32)))
            ==> allowance(owned, rows.push(row)) == allowance(owned, rows) - row.length,
{
    assert(rows.push(row).drop_last() =~= rows);
    assert(rows.push(row).last() == row);
    if row.length >= 0 && (forall|x: int|
        row.range_start <= x < row.range_start + row.length ==> !owned.contains(#[trigger] (x as i32))) {
        assert forall|x: int| row.range_start <= x < row.range_start + row.length implies !owned.to_set().contains(
            #[trigger] (x as i32),
        ) by {
            assert(!owned.contains(x as i32));
        }
        count_outside_fresh(row.range_start as int, row.length as int, owned.to_set());
    }
}

/// Each reservation ends within `i32`, the total counted fits in `i32`, and so
/// does the allowance before subtraction.
pub open spec fn allowance_in_range(owned: Seq<i32>, rows: Seq<ReservationSpan>) -> bool {
    &&& forall|k: int|
        0 <= k < rows.len() ==> i32::MIN <= #[trigger] rows[k].range_start + rows[k].length
            <= i32::MAX
    &&& reserved_outside(rows, owned.to_set()) <= i32::MAX
    &&& 30 + round_up((owned.to_set().len() + 1) / 2, 10) <= i32::MAX
}

proof fn reserved_outside_prefix(rows: Seq<ReservationSpan>, k: int, owned: Set<i32>)
    requires
        0 <= k <= rows.len(),
    ensures
        reserved_outside(rows.subrange(0, k), owned) <= reserved_outside(rows, owned),
    decreases rows.len() - k,
{
    if k < rows.len() {
        reserved_outside_prefix(rows, k + 1, owned);
        assert(rows.subrange(0, k + 1).drop_last() =~= rows.subrange(0, k));
    } else {
        assert(rows.subrange(0, k) =~= rows);
    }
}

/// Whether `v` holds `x`.
pub fn contains_i32(v: &Vec<i32>, x: i32) -> (b: bool)
    ensures
        b == v@.contains(x),
{
    let mut i: usize = 0;
    while i < v.len()
        invariant
            i <= v.len(),
            forall|j: int| 0 <= j < i ==> v@[j] != x,
        decreases v.len() - i,
    {
        if v[i] == x {
            assert(v@[i as int] == x);
            return true;
        }
        i = i + 1;
    }
    false
}

/// The number of distinct values in `v`.
pub fn distinct_count(v: &Vec<i32>) -> (n: usize)
    ensures
        n == v@.to_set().len(),
{
    broadcast use vstd::std_specs::btree::group_btree_axioms;
    proof {
        i32_keys_ordered();
    }
    let mut set: std::collections::BTreeSet<i32> = std::collections::BTreeSet::new();
    let mut i: usize = 0;
    while i < v.len()
        invariant
            i <= v.len(),
            set@ == v@.subrange(0, i as int).to_set(),
        decreases v.len() - i,
    {
        proof {
            assert(v@.subrange(0, i + 1) =~= v@.subrange(0, i as int).push(v@[i as int]));
            v@.subrange(0, i as int).lemma_push_to_set_commute(v@[i as int]);
        }
        set.insert(v[i]);
        i = i + 1;
    }
    assert(v@.subrange(0, v.len() as int) =~= v@);
    set.len()
}

/// `i32` keys are ordered as the numbers are.
proof fn i32_keys_ordered()
    ensures
        vstd::laws_cmp::obeys_cmp::<i32>(),
{
    broadcast use vstd::laws_cmp::group_laws_cmp;
}

fn round_up_ten(x: usize) -> (r: usize)
    requires
        round_up(x as nat, 10) <= usize::MAX,
    ensures
        r == round_up(x as nat, 10),
{
    let rem = x % 10;
    if rem == 0 {
        x
    } else {
        x + (10 - rem)
    }
}

/// The number of ids a user may still reserve of one kind, given the ids of
/// the content of that kind in the user's posts and the user's reservations
/// of that kind.
pub fn reservation_allowance(owned: &Vec<i32>, rows: &Vec<ReservationSpan>) -> (m: i32)
    requires
        allowance_in_range(owned@, rows@),
    ensures
        m == allowance(owned@, rows@),
{
    let ghost set = owned@.to_set();
    let mut outside: u64 = 0;
    let mut k: usize = 0;
    while k < rows.len()
        invariant
            k <= rows.len(),
            allowance_in_range(owned@, rows@),
            set == owned@.to_set(),
            outside == reserved_outside(rows@.subrange(0, k as int), set),
        decreases rows.len() - k,
    {
        let row = rows[k];
        assert(i32::MIN <= rows@[k as int].range_start + rows@[k as int].length <= i32::MAX);
        let end: i32 = row.range_start + row.length;
        proof {
            reserved_outside_prefix(rows@, k + 1, set);
            assert(rows@.subrange(0, k + 1).drop_last() =~= rows@.subrange(0, k as int));
        }
        let ghost before = outside;
        let mut c: i32 = row.range_start;
        while c < end
            invariant
                row.range_start <= c,
                c <= end || row.length <= 0,
                row.length <= 0 ==> c == row.range_start,
                end == row.range_start + row.length,
                set == owned@.to_set(),
                outside == before + count_outside(row.range_start as int, c - row.range_start, set),
                before + count_outside(row.range_start as int, row.length as int, set) <= i32::MAX,
            decreases end - c,
        {
            proof {
                count_outside_prefix(row.range_start as int, c - row.range_start, row.length as int, set);
            }
            if !contains_i32(owned, c) {
                outside = outside + 1;
            }
            c = c + 1;
        }
        proof {
            if row.length <= 0 {
                assert(count_outside(row.range_start as int, row.length as int, set) == 0);
                assert(count_outside(row.range_start as int, c - row.range_start, set) == 0);
            }
        }
        k = k + 1;
    }
    assert(rows@.subrange(0, rows.len() as int) =~= rows@);
    let published = distinct_count(owned);
    let half = published / 2 + published % 2;
    assert(half == (published + 1) / 2);
    let rounded = round_up_ten(half);
    30 + rounded as i32 - outside as i32
}

proof fn count_outside_prefix(from: int, i: int, n: int, owned: Set<i32>)
    requires
        0 <= i < n,
    ensures
        count_outside(from, i + 1, owned) <= count_outside(from, n, owned),
    decreases n - i,
{
    if i + 1 < n {
        count_outside_prefix(from, i + 1, n, owned);
    }
}


/// Strictly increasing: sorted with no repeats, as a `BTreeSet` iterates.
pub open spec fn strictly_increasing(s: Seq<u32>) -> bool {
    forall|i: int, j: int| 0 <= i < j < s.len() ==> s[i] < s[j]
}

/// The ids of a finite set in ascending order.
pub open spec fn ascending(set: Set<u32>) -> Seq<u32> {
    choose|s: Seq<u32>| strictly_increasing(s) && s.to_set() == set
}

/// The distinct values of `v`, ascending: collected in a `BTreeSet` and read
/// back in its order.
pub fn sorted_distinct(v: &Vec<u32>) -> (r: Vec<u32>)
    ensures
        strictly_increasing(r@),
        r@.to_set() == v@.to_set(),
{
    broadcast use vstd::std_specs::btree::group_btree_axioms;
    proof {
        u32_keys_ordered();
    }
    let mut set: std::collections::BTreeSet<u32> = std::collections::BTreeSet::new();
    let mut i: usize = 0;
    while i < v.len()
        invariant
            i <= v.len(),
            set@ == v@.subrange(0, i as int).to_set(),
        decreases v.len() - i,
    {
        proof {
            assert(v@.subrange(0, i + 1) =~= v@.subrange(0, i as int).push(v@[i as int]));
            v@.subrange(0, i as int).lemma_push_to_set_commute(v@[i as int]);
        }
        set.insert(v[i]);
        i = i + 1;
    }
    assert(v@.subrange(0, v.len() as int) =~= v@);
    let ghost keys = vstd::std_specs::iter::IteratorSpec::remaining(&vstd::std_specs::btree::spec_btree_keys_iter(&set));
    let mut r: Vec<u32> = Vec::new();
    for x in it: set.iter()
        invariant
            it.seq() == keys,
            r@ == keys.take(it.index()).map_values(|k: &u32| *k),
    {
        r.push(*x);
    }
    proof {
        assert(keys.take(keys.len() as int) =~= keys);
        assert(keys.unref() =~= r@);
        ascending_keys(keys);
    }
    r
}

/// `u32` keys are ordered as the numbers are.
proof fn u32_keys_ordered()
    ensures
        vstd::std_specs::btree::key_obeys_cmp_spec::<u32>(),
        vstd::laws_cmp::obeys_cmp::<u32>(),
{
    broadcast use vstd::std_specs::btree::group_btree_axioms;
    broadcast use vstd::laws_cmp::group_laws_cmp;
}

/// Keys handed out in increasing order are strictly increasing numbers.
proof fn ascending_keys(s: Seq<&u32>)
    requires
        vstd::std_specs::btree::increasing_seq(s),
    ensures
        strictly_increasing(s.unref()),
{
    broadcast use vstd::std_specs::btree::group_btree_axioms;
    broadcast use vstd::laws_cmp::group_laws_cmp;
    assert forall|i: int, j: int| 0 <= i < j < s.unref().len() implies s.unref()[i] < s.unref()[j] by {
        assert(vstd::std_specs::cmp::OrdSpec::cmp_spec(&s[i], &s[j]) is Less);
    }
}

/// The ascending order of a set is the only strictly increasing sequence of its values.
pub proof fn ascending_is_unique(s: Seq<u32>, t: Seq<u32>)
    requires
        strictly_increasing(s),
        strictly_increasing(t),
        s.to_set() == t.to_set(),
    ensures
        s == t,
    decreases s.len() + t.len(),
{
    if s.len() == 0 || t.len() == 0 {
        if s.len() > 0 {
            assert(s.to_set().contains(s[0]));
            assert(t.to_set().contains(s[0]));
        }
        if t.len() > 0 {
            assert(t.to_set().contains(t[0]));
            assert(s.to_set().contains(t[0]));
        }
        assert(s =~= t);
    } else {
        // the largest element of each is the largest of the common set
        assert(s.to_set().contains(s.last()));
        assert(t.to_set().contains(t.last()));
        let i = choose|i: int| 0 <= i < t.len() && t[i] == s.last();
        let j = choose|j: int| 0 <= j < s.len() && s[j] == t.last();
        if i < t.len() - 1 {
            assert(t[i] < t.last());
            assert(s[j] <= s.last());
        }
        assert(s.last() == t.last());
        let m = s.last();
        assert forall|y: u32| #[trigger] s.drop_last().to_set().contains(y) <==> t.drop_last().to_set().contains(y) by {
            if s.drop_last().contains(y) {
                let k = choose|k: int| 0 <= k < s.len() - 1 && s[k] == y;
                assert(s.to_set().contains(y));
                let l = choose|l: int| 0 <= l < t.len() && t[l] == y;
                assert(y < m);
                assert(l != t.len() - 1);
                assert(t.drop_last()[l] == y);
            }
            if t.drop_last().contains(y) {
                let k = choose|k: int| 0 <= k < t.len() - 1 && t[k] == y;
                assert(t.to_set().contains(y));
                let l = choose|l: int| 0 <= l < s.len() && s[l] == y;
                assert(y < m);
                assert(l != s.len() - 1);
                assert(s.drop_last()[l] == y);
            }
        }
        assert(s.drop_last().to_set() =~= t.drop_last().to_set());
        ascending_is_unique(s.drop_last(), t.drop_last());
        assert(s =~= t.drop_last().push(m));
    }
}

/// A strictly increasing sequence is the ascending order of its values.
pub proof fn ascending_of(s: Seq<u32>)
    requires
        strictly_increasing(s),
    ensures
        ascending(s.to_set()) == s,
{
    assert(strictly_increasing(s) && s.to_set() == s.to_set());
    let t = ascending(s.to_set());
    ascending_is_unique(t, s);
}

proof fn concat_to_set<A>(a: Seq<A>, b: Seq<A>)
    ensures
        (a + b).to_set() == a.to_set() + b.to_set(),
{
    assert forall|x: A| #[trigger] (a + b).to_set().contains(x) <==> (a.to_set() + b.to_set()).contains(x) by {
        if (a + b).contains(x) {
            let k = choose|k: int| 0 <= k < (a + b).len() && (a + b)[k] == x;
            if k < a.len() {
                assert(a[k] == x);
            } else {
                assert(b[k - a.len()] == x);
            }
        }
        if a.contains(x) {
            let k = choose|k: int| 0 <= k < a.len() && a[k] == x;
            assert((a + b)[k] == x);
        }
        if b.contains(x) {
            let k = choose|k: int| 0 <= k < b.len() && b[k] == x;
            assert((a + b)[k + a.len()] == x);
        }
    }
    assert((a + b).to_set() =~= a.to_set() + b.to_set());
}

/// Where the search for free ids, scanning neighbouring used ids from
/// position `i` of the ascending `s`, settles: the first gap between
/// neighbours that holds an aligned run of `len` ids, else the first aligned
/// id after the last used one (0 when nothing is used).
pub open spec fn gap_from(s: Seq<u32>, i: nat, a: nat, len: nat) -> nat
    decreases s.len() - i,
{
    if i + 1 < s.len() {
        let r = round_up((s[i as int] + 1) as nat, a);
        if r + len <= s[(i + 1) as int] {
            r
        } else {
            gap_from(s, i + 1, a, len)
        }
    } else if s.len() == 0 {
        0
    } else {
        round_up((s.last() + 1) as nat, a)
    }
}

/// The search from position `i` computes within `u32`.
pub open spec fn gap_from_in_range(s: Seq<u32>, i: nat, a: nat, len: nat) -> bool
    decreases s.len() - i,
{
    if i + 1 < s.len() {
        let r = round_up((s[i as int] + 1) as nat, a);
        &&& s[i as int] + 1 <= u32::MAX
        &&& r <= u32::MAX
        &&& r + len <= u32::MAX
        &&& (r + len <= s[(i + 1) as int] || gap_from_in_range(s, i + 1, a, len))
    } else if s.len() == 0 {
        true
    } else {
        s.last() + 1 <= u32::MAX && round_up((s.last() + 1) as nat, a) <= u32::MAX
    }
}

/// The start of the first free, aligned run of `len` ids found among the used ids.
pub open spec fn free_start(used: Set<u32>, len: u32) -> nat {
    gap_from(ascending(used), 0, alignment_for(len as nat), len as nat)
}

/// No aligned start after `s[i]` whose run of `len` ids misses every used id
/// from position `i` on comes before the one the search settles on.
proof fn gap_from_is_least(s: Seq<u32>, i: nat, a: nat, len: nat, x: nat)
    requires
        strictly_increasing(s),
        a > 0,
        i < s.len(),
        x > s[i as int],
        x % a == 0,
        forall|j: int| i <= j < s.len() ==> !(x <= #[trigger] s[j] < x + len),
    ensures
        gap_from(s, i, a, len) <= x,
    decreases s.len() - i,
{
    round_up_is_least_multiple((s[i as int] + 1) as nat, a);
    if i + 1 < s.len() {
        let r = round_up((s[i as int] + 1) as nat, a);
        if r + len > s[(i + 1) as int] {
            if x <= s[(i + 1) as int] {
                assert(x <= s[(i + 1) as int] < x + len);
                assert(false);
            }
            gap_from_is_least(s, i + 1, a, len, x);
        }
    }
}

/// `x` is aligned for runs of `len` ids, and its run holds no id of `used`.
pub open spec fn aligned_free(used: Set<u32>, len: u32, x: nat) -> bool {
    &&& x % alignment_for(len as nat) == 0
    &&& forall|u: u32| #[trigger] used.contains(u) ==> !(x <= u < x + len)
}

/// The search settles on the least aligned start after the smallest used id
/// whose run of `len` ids holds no used id; with nothing used, on 0.
pub proof fn free_start_is_least(s: Seq<u32>, len: u32)
    requires
        strictly_increasing(s),
    ensures
        s.len() == 0 ==> free_start(s.to_set(), len) == 0,
        forall|x: nat|
            s.len() > 0 && x > s[0] && #[trigger] aligned_free(s.to_set(), len, x) ==> free_start(s.to_set(), len) <= x,
{
    ascending_of(s);
    alignment_bounds(if len == 0 { 1 } else { len as nat });
    let a = alignment_for(len as nat);
    assert(a > 0);
    assert forall|x: nat|
        s.len() > 0 && x > s[0] && #[trigger] aligned_free(s.to_set(), len, x) implies free_start(s.to_set(), len) <= x by {
        assert forall|j: int| 0 <= j < s.len() implies !(x <= #[trigger] s[j] < x + len) by {
            assert(s.to_set().contains(s[j]));
        }
        gap_from_is_least(s, 0, a, len as nat, x);
    }
}

/// The run offered by the search is aligned and holds no used id.
pub proof fn free_start_is_free(s: Seq<u32>, i: nat, a: nat, len: nat)
    requires
        strictly_increasing(s),
        a > 0,
        i <= s.len(),
        gap_from_in_range(s, i, a, len),
    ensures
        gap_from(s, i, a, len) % a == 0,
        forall|j: int|
            i <= j < s.len() ==> !(gap_from(s, i, a, len) <= #[trigger] s[j] < gap_from(s, i, a, len)
                + len),
        i < s.len() ==> gap_from(s, i, a, len) > s[i as int],
    decreases s.len() - i,
{
    if i + 1 < s.len() {
        let r = round_up((s[i as int] + 1) as nat, a);
        round_up_is_least_multiple((s[i as int] + 1) as nat, a);
        if r + len <= s[(i + 1) as int] {
            assert forall|j: int| i <= j < s.len() implies !(r <= #[trigger] s[j] < r + len) by {
                if j > i + 1 {
                    assert(s[(i + 1) as int] < s[j]);
                }
            }
        } else {
            free_start_is_free(s, i + 1, a, len);
        }
    } else if s.len() == 0 {
        assert(0nat % a == 0) by (nonlinear_arith)
            requires
                a > 0,
        ;
    } else {
        round_up_is_least_multiple((s.last() + 1) as nat, a);
        assert forall|j: int| i <= j < s.len() implies !(round_up((s.last() + 1) as nat, a) <= #[trigger] s[j]) by {
            if j < s.len() - 1 {
                assert(s[j] < s.last());
            }
        }
    }
}

/// Neighbouring pairs of a sequence.
pub open spec fn windows(s: Seq<u32>) -> Seq<(u32, u32)> {
    if s.len() == 0 {
        Seq::empty()
    } else {
        Seq::new((s.len() - 1) as nat, |i: int| (s[i], s[i + 1]))
    }
}

/// The neighbouring pairs of `v`, in order.
///
/// Trusted: `Itertools::tuple_windows` over pairs yields `(v[i], v[i + 1])`
/// for each `i` in turn (itertools documents `(1..5).tuple_windows()` as
/// `(1, 2), (2, 3), (3, 4)`).
#[verifier::external_body]
fn tuple_windows(v: &Vec<u32>) -> (r: Vec<(u32, u32)>)
    ensures
        r@ == windows(v@),
{
    itertools::Itertools::tuple_windows::<(u32, u32)>(v.iter().copied()).collect()
}

/// The first aligned start of `length` free ids after some used id, scanning
/// the used ids in ascending order.
pub fn free_range_start(used: &Vec<u32>, length: u32) -> (r: u32)
    requires
        gap_from_in_range(ascending(used@.to_set()), 0, alignment_for(length as nat), length as nat),
    ensures
        r == free_start(used@.to_set(), length),
        r as nat % alignment_for(length as nat) == 0,
        forall|x: u32| #[trigger] used@.contains(x) ==> !(r <= x < r + length),
{
    let ids = sorted_distinct(used);
    proof {
        ascending_of(ids@);
    }
    let ghost s = ids@;
    assert(s == ascending(used@.to_set()));
    let a = alignment(length);
    proof {
        free_start_is_free(s, 0, a as nat, length as nat);
        assert forall|x: u32| #[trigger] used@.contains(x) implies s.contains(x) by {
            assert(used@.to_set().contains(x));
        }
    }
    let pairs = tuple_windows(&ids);
    let mut i: usize = 0;
    while i < pairs.len()
        invariant
            pairs@ == windows(s),
            ids@ == s,
            i <= pairs.len(),
            a == alignment_for(length as nat),
            a >= 1,
            gap_from_in_range(s, i as nat, a as nat, length as nat),
            gap_from(s, i as nat, a as nat, length as nat) == free_start(used@.to_set(), length),
            free_start(used@.to_set(), length) % alignment_for(length as nat) == 0,
            forall|x: u32| #[trigger] used@.contains(x) ==> !(free_start(used@.to_set(), length) <= x
                < free_start(used@.to_set(), length) + length),
        decreases pairs.len() - i,
    {
        let (id, next) = pairs[i];
        assert(id == s[i as int] && next == s[i + 1]);
        let res = next_multiple_of(id + 1, a);
        if res + length <= next {
            return res;
        }
        i = i + 1;
    }
    if ids.len() == 0 {
        0
    } else {
        let last = ids[ids.len() - 1];
        next_multiple_of(last + 1, a)
    }
}

/// Every id of the given reservations (`range_start as u32 .. range_start as u32 + length as u32`).
pub open spec fn reserved_ids_u32(rows: Seq<ReservationSpan>) -> Seq<u32>
    decreases rows.len(),
{
    if rows.len() == 0 {
        Seq::empty()
    } else {
        let r = rows.last();
        let from = (r.range_start as u32) as int;
        let to = from + (r.length as u32) as int;
        reserved_ids_u32(rows.drop_last()) + Seq::new((to - from) as nat, |k: int| (from + k) as u32)
    }
}

/// Every reservation's end, `range_start as u32 + length as u32`, fits in `u32`.
pub open spec fn reserved_ids_u32_in_range(rows: Seq<ReservationSpan>) -> bool {
    forall|k: int|
        0 <= k < rows.len() ==> (#[trigger] rows[k].range_start as u32) + (rows[k].length as u32)
            <= u32::MAX
}

/// The ids held by published content (read as `u32`) or by any reservation.
pub open spec fn used_ids(content: Seq<i32>, rows: Seq<ReservationSpan>) -> Set<u32> {
    content.map_values(|c: i32| c as u32).to_set() + reserved_ids_u32(rows).to_set()
}

/// The start the service offers for `length` free ids: -1 when `length`
/// exceeds the user's allowance `max`, else the first aligned free run after
/// a used id, as `i32`.
pub open spec fn offered_start(max: i32, length: u32, content: Seq<i32>, rows: Seq<ReservationSpan>) -> i32 {
    if max < length as i32 {
        -1i32
    } else {
        free_start(used_ids(content, rows), length) as i32
    }
}

/// Offers a start for `length` ids, given the user's allowance, the ids of
/// all published content of the kind and all reservations of the kind.
pub fn reservable_range_start(
    max: i32,
    length: u32,
    content: &Vec<i32>,
    rows: &Vec<ReservationSpan>,
) -> (r: i32)
    requires
        !(max < length as i32) ==> reserved_ids_u32_in_range(rows@) && gap_from_in_range(
            ascending(used_ids(content@, rows@)),
            0,
            alignment_for(length as nat),
            length as nat,
        ),
    ensures
        r == offered_start(max, length, content@, rows@),
{
    if max < #[verifier::truncate] (length as i32) {
        return -1;
    }
    let mut used: Vec<u32> = Vec::new();
    let mut i: usize = 0;
    while i < content.len()
        invariant
            i <= content.len(),
            used@ == content@.subrange(0, i as int).map_values(|c: i32| c as u32),
        decreases content.len() - i,
    {
        used.push(#[verifier::truncate] (content[i] as u32));
        i = i + 1;
        assert(used@ =~= content@.subrange(0, i as int).map_values(|c: i32| c as u32));
    }
    assert(content@.subrange(0, content.len() as int) =~= content@);
    let ghost from_content = used@;
    let mut k: usize = 0;
    while k < rows.len()
        invariant
            k <= rows.len(),
            reserved_ids_u32_in_range(rows@),
            used@ == from_content + reserved_ids_u32(rows@.subrange(0, k as int)),
        decreases rows.len() - k,
    {
        let row = rows[k];
        let from: u32 = #[verifier::truncate] (row.range_start as u32);
        let n: u32 = #[verifier::truncate] (row.length as u32);
        assert(rows@[k as int].range_start as u32 + rows@[k as int].length as u32 <= u32::MAX);
        let to: u32 = from + n;
        let ghost before = used@;
        let mut x = from;
        while x < to
            invariant
                from <= x <= to,
                used@ == before + Seq::new((x - from) as nat, |j: int| (from + j) as u32),
            decreases to - x,
        {
            used.push(x);
            x = x + 1;
            assert(used@ =~= before + Seq::new((x - from) as nat, |j: int| (from + j) as u32));
        }
        proof {
            assert(rows@.subrange(0, k + 1).drop_last() =~= rows@.subrange(0, k as int));
            assert(used@ =~= from_content + reserved_ids_u32(rows@.subrange(0, k + 1)));
        }
        k = k + 1;
    }
    assert(rows@.subrange(0, rows.len() as int) =~= rows@);
    proof {
        concat_to_set(from_content, reserved_ids_u32(rows@));
    }
    assert(used@.to_set() =~= used_ids(content@, rows@));
    let start = free_range_start(&used, length);
    #[verifier::truncate] (start as i32)
}


proof fn ascending_exists(set: Set<u32>)
    requires
        set.finite(),
    ensures
        exists|q: Seq<u32>| strictly_increasing(q) && q.to_set() == set,
    decreases set.len(),
{
    if set.len() == 0 {
        assert(Seq::<u32>::empty().to_set() =~= set);
        assert(strictly_increasing(Seq::<u32>::empty()));
    } else {
        let leq = |a: u32, b: u32| a <= b;
        assert(vstd::relations::total_ordering(leq));
        set.find_unique_maximal_ensures(leq);
        let m = set.find_unique_maximal(leq);
        let rest = set.remove(m);
        ascending_exists(rest);
        let q = choose|q: Seq<u32>| strictly_increasing(q) && q.to_set() == rest;
        let q2 = q.push(m);
        assert forall|i: int| 0 <= i < q.len() implies #[trigger] q[i] < m by {
            assert(q.to_set().contains(q[i]));
            assert(leq(q[i], m) || leq(m, q[i]));
        }
        assert(strictly_increasing(q2)) by {
            assert forall|i: int, j: int| 0 <= i < j < q2.len() implies q2[i] < q2[j] by {
                if j < q.len() {
                    assert(q2[i] == q[i] && q2[j] == q[j]);
                } else {
                    assert(q2[i] == q[i]);
                }
            }
        }
        assert(q2.to_set() =~= set) by {
            q.lemma_push_to_set_commute(m);
        }
    }
}

/// The ascending order of a finite set is strictly increasing and holds its values.
pub proof fn ascending_holds(set: Set<u32>)
    requires
        set.finite(),
    ensures
        strictly_increasing(ascending(set)),
        ascending(set).to_set() == set,
{
    ascending_exists(set);
}

/// The reservation holds id `x` (its ids read as `u32`).
pub open spec fn reserves(r: ReservationSpan, x: u32) -> bool {
    r.range_start as u32 <= x < (r.range_start as u32) + (r.length as u32)
}

proof fn gap_from_bounded(s: Seq<u32>, i: nat, a: nat, len: nat)
    requires
        a > 0,
        gap_from_in_range(s, i, a, len),
    ensures
        gap_from(s, i, a, len) <= u32::MAX,
    decreases s.len() - i,
{
    if i + 1 < s.len() {
        let r = round_up((s[i as int] + 1) as nat, a);
        if !(r + len <= s[(i + 1) as int]) {
            gap_from_bounded(s, i + 1, a, len);
        }
    }
}

proof fn reserved_ids_cover(rows: Seq<ReservationSpan>, k: int, x: u32)
    requires
        0 <= k < rows.len(),
        rows[k].range_start as u32 <= x < (rows[k].range_start as u32) + (rows[k].length as u32),
    ensures
        reserved_ids_u32(rows).contains(x),
    decreases rows.len(),
{
    let last = rows.len() - 1;
    let r = rows[last];
    let from = (r.range_start as u32) as int;
    let to = from + (r.length as u32) as int;
    let tail = Seq::new((to - from) as nat, |j: int| (from + j) as u32);
    if k == last {
        assert(tail[x - from] == x);
        assert((reserved_ids_u32(rows.drop_last()) + tail)[reserved_ids_u32(rows.drop_last()).len() + (x - from)] == x);
    } else {
        assert(rows.drop_last()[k] == rows[k]);
        reserved_ids_cover(rows.drop_last(), k, x);
        let j = choose|j: int| 0 <= j < reserved_ids_u32(rows.drop_last()).len() && reserved_ids_u32(rows.drop_last())[j] == x;
        assert((reserved_ids_u32(rows.drop_last()) + tail)[j] == x);
    }
}

/// The start offered for `length` ids, when the allowance admits them, is
/// aligned, and its run of `length` ids holds no id of published content and
/// no id of any stored reservation.
pub proof fn offered_range_is_free(max: i32, length: u32, content: Seq<i32>, rows: Seq<ReservationSpan>)
    requires
        !(max < length as i32),
        reserved_ids_u32_in_range(rows),
        gap_from_in_range(ascending(used_ids(content, rows)), 0, alignment_for(length as nat), length as nat),
    ensures
        (offered_start(max, length, content, rows) as u32) as nat % alignment_for(length as nat) == 0,
        forall|k: int, x: u32|
            0 <= k < rows.len() && #[trigger] reserves(rows[k], x) ==> !((offered_start(max, length, content, rows)
                as u32) <= x < (offered_start(max, length, content, rows) as u32) + length),
        forall|k: int|
            0 <= k < content.len() ==> !((offered_start(max, length, content, rows) as u32) <= #[trigger] (
            content[k] as u32) < (offered_start(max, length, content, rows) as u32) + length),
{
    let used = used_ids(content, rows);
    let a = alignment_for(length as nat);
    alignment_bounds(if length == 0 { 1 } else { length as nat });
    ascending_holds(used);
    let sq = ascending(used);
    free_start_is_free(sq, 0, a, length as nat);
    gap_from_bounded(sq, 0, a, length as nat);
    let g = free_start(used, length);
    let gu: u32 = g as u32;
    assert(gu == g);
    assert(((gu as i32) as u32) == gu) by (bit_vector);
    assert(offered_start(max, length, content, rows) as u32 == gu);
    assert forall|x: u32| #[trigger] used.contains(x) implies !(gu <= x < gu + length) by {
        assert(sq.to_set().contains(x));
        let j = choose|j: int| 0 <= j < sq.len() && sq[j] == x;
        assert(!(g <= sq[j] < g + length));
    }
    assert forall|k: int, x: u32| 0 <= k < rows.len() && #[trigger] reserves(rows[k], x) implies !(gu <= x < gu
        + length) by {
        reserved_ids_cover(rows, k, x);
        assert(reserved_ids_u32(rows).to_set().contains(x));
        assert(used.contains(x));
    }
    assert forall|k: int| 0 <= k < content.len() implies !(gu <= #[trigger] (content[k] as u32) < gu + length) by {
        let m = content.map_values(|c: i32| c as u32);
        assert(m[k] == content[k] as u32);
        assert(m.to_set().contains(m[k]));
        assert(used.contains(content[k] as u32));
    }
}

/// A request about a range of ids.
#[derive(Clone, Copy, Debug, PartialEq, Eq, Structural)]
pub struct ReserveRangeArgs {
    pub reservation_type: ReservationType,
    pub start: u32,
    pub length: u32,
}

/// Whether a request to reserve may go on to the checks: only song ids are
/// reserved this way, and the range must start above 0 and not be empty.
/// A request that may not is answered `InvalidRange`.
pub fn claim_request_allowed(args: &ReserveRangeArgs) -> (b: bool)
    ensures
        b == (args.reservation_type == ReservationType::Song && args.start != 0 && args.length != 0),
{
    args.reservation_type == ReservationType::Song && args.start != 0 && args.length != 0
}

/// Whether a request to check a range may go on: the range must start above
/// 0 and not be empty. A request that may not is answered `InvalidRange`.
pub fn check_request_allowed(args: &ReserveRangeArgs) -> (b: bool)
    ensures
        b == (args.start != 0 && args.length != 0),
{
    args.start != 0 && args.length != 0
}

/// Whether a request to find a free range may go on: it must give no start
/// and a length above 0. A request that may not is answered 0.
pub fn find_request_allowed(args: &ReserveRangeArgs) -> (b: bool)
    ensures
        b == (args.start == 0 && args.length != 0),
{
    args.start == 0 && args.length != 0
}

} // verus!
