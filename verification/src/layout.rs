//! Grid layout: splits a screen area into rows and columns by size constraints.
//!
//! A percentage is held in hundredths of a percent (`10000` is the whole space), so
//! that every size is computed in exact integer arithmetic: the ideal size of a
//! percentage is `available * p / 100`, rounded half up.

use vstd::prelude::*;

verus! {

/// Defines a constraint for sizing elements within a layout.
#[derive(Debug, Clone, Copy, PartialEq, Eq, Structural)]
pub enum Constraint {
    /// A share of the available space, in hundredths of a percent (0 to 10000).
    /// It shrinks proportionally when it does not fit beside the fixed sizes.
    Percentage(u32),
    /// A fixed amount of space in units (characters or rows).
    Fixed(u16),
    /// Space between `min` and `max`; never below `min`, grown up to `max`.
    Range { min: u16, max: u16 },
    /// Takes up the space left after the other constraints are resolved; several
    /// flexible constraints share it.
    Flexible,
}

/// The errors that can occur during layout calculation.
#[derive(Debug, Clone, Copy, PartialEq, Eq, Structural)]
pub enum LayoutError {
    /// At least one constraint (a `Fixed`, or a `Range` minimum) cannot fit.
    InsufficientSpace,
    /// The percentages sum to more than 100%, or one lies outside 0% to 100%.
    InvalidPercentages,
    /// Reserved for constraints that are logically impossible to satisfy together.
    ConstraintConflict,
}

/// A rectangular area, given by its top-left corner and its dimensions.
#[derive(Debug, Clone, Copy, PartialEq, Eq, Structural)]
pub struct Rect {
    pub x: u16,
    pub y: u16,
    pub width: u16,
    pub height: u16,
}

impl Rect {
    /// Creates a new `Rect` with the given position and dimensions.
    pub fn new(x: u16, y: u16, width: u16, height: u16) -> (r: Rect)
        ensures
            r == (Rect { x, y, width, height }),
    {
        Rect { x, y, width, height }
    }
}

/// A percentage constraint, given in hundredths of a percent.
pub fn percent(hundredths: u32) -> (c: Constraint)
    ensures
        c == Constraint::Percentage(hundredths),
{
    Constraint::Percentage(hundredths)
}

/// A fixed-size constraint.
pub fn fixed(value: u16) -> (c: Constraint)
    ensures
        c == Constraint::Fixed(value),
{
    Constraint::Fixed(value)
}

/// A constraint between `min_val` and `max_val`.
pub fn range(min_val: u16, max_val: u16) -> (c: Constraint)
    ensures
        c == (Constraint::Range { min: min_val, max: max_val }),
{
    Constraint::Range { min: min_val, max: max_val }
}

/// A flexible constraint.
pub fn flexible() -> (c: Constraint)
    ensures
        c == Constraint::Flexible,
{
    Constraint::Flexible
}

// ---------------------------------------------------------------------------
// The meaning of constraint resolution.
// ---------------------------------------------------------------------------

/// The whole space, in hundredths of a percent.
pub open spec fn whole() -> int {
    10000
}

/// Sum of a sequence of sizes.
pub open spec fn sum(s: Seq<u16>) -> int
    decreases s.len(),
{
    if s.len() == 0 {
        0
    } else {
        sum(s.drop_last()) + s.last()
    }
}

/// The hundredths of the percentage constraints among the first `k`.
pub open spec fn pct_sum(cs: Seq<Constraint>, k: int) -> int
    decreases k,
{
    if k <= 0 {
        0
    } else {
        pct_sum(cs, k - 1) + match cs[k - 1] {
            Constraint::Percentage(h) => h as int,
            _ => 0,
        }
    }
}

/// Every percentage lies in 0% to 100%, and together they do not exceed 100%.
pub open spec fn pct_valid(cs: Seq<Constraint>) -> bool {
    &&& forall|i: int|
        0 <= i < cs.len() ==> (#[trigger] cs[i] matches Constraint::Percentage(h) ==> h <= whole())
    &&& pct_sum(cs, cs.len() as int) <= whole()
}

/// Sum of the fixed sizes among the first `k` constraints.
pub open spec fn fixed_sum(cs: Seq<Constraint>, k: int) -> int
    decreases k,
{
    if k <= 0 {
        0
    } else {
        fixed_sum(cs, k - 1) + match cs[k - 1] {
            Constraint::Fixed(s) => s as int,
            _ => 0,
        }
    }
}

/// The ideal size of a percentage `h` (in hundredths) of `avail`, rounded half up.
pub open spec fn ideal(avail: int, h: int) -> int {
    (avail * h + 5000) / 10000
}

/// Sum of the ideal percentage sizes among the first `k` constraints.
pub open spec fn ideal_sum(cs: Seq<Constraint>, avail: int, k: int) -> int
    decreases k,
{
    if k <= 0 {
        0
    } else {
        ideal_sum(cs, avail, k - 1) + match cs[k - 1] {
            Constraint::Percentage(h) => ideal(avail, h as int),
            _ => 0,
        }
    }
}

/// `a * num / den`, rounded half up.
pub open spec fn scaled(a: int, num: int, den: int) -> int {
    (2 * a * num + den) / (2 * den)
}

/// The size a percentage constraint receives: its ideal size, shrunk in proportion
/// when the fixed sizes and the ideal percentage sizes together exceed `avail`.
pub open spec fn pct_size(avail: int, h: int, fixed_total: int, ideal_total: int) -> int {
    if fixed_total + ideal_total > avail {
        scaled(ideal(avail, h), avail - fixed_total, ideal_total)
    } else {
        ideal(avail, h)
    }
}

/// The size of each constraint before the leftover space is handed out: fixed sizes,
/// percentage sizes, range minimums, and zero for flexible constraints.
pub open spec fn base_size(cs: Seq<Constraint>, avail: int, i: int) -> u16 {
    match cs[i] {
        Constraint::Fixed(s) => s,
        Constraint::Percentage(h) => pct_size(
            avail,
            h as int,
            fixed_sum(cs, cs.len() as int),
            ideal_sum(cs, avail, cs.len() as int),
        ) as u16,
        Constraint::Range { min, .. } => min,
        Constraint::Flexible => 0,
    }
}

pub open spec fn base_sizes(cs: Seq<Constraint>, avail: int) -> Seq<u16> {
    Seq::new(cs.len(), |i: int| base_size(cs, avail, i))
}

/// Flexible constraints take part in handing out leftover space.
pub open spec fn is_flexible(c: Constraint) -> bool {
    c is Flexible
}

pub open spec fn is_range(c: Constraint) -> bool {
    c is Range
}

/// The indices below `k` of the constraints satisfying `p`, in increasing order.
pub open spec fn indices_where(cs: Seq<Constraint>, p: spec_fn(Constraint) -> bool, k: int) -> Seq<
    usize,
>
    decreases k,
{
    if k <= 0 {
        Seq::empty()
    } else if p(cs[k - 1]) {
        indices_where(cs, p, k - 1).push((k - 1) as usize)
    } else {
        indices_where(cs, p, k - 1)
    }
}

/// The order in which leftover space is handed out: flexible constraints first,
/// then ranges, each group in index order.
pub open spec fn expansion_order(cs: Seq<Constraint>) -> Seq<usize> {
    indices_where(cs, |c: Constraint| is_flexible(c), cs.len() as int) + indices_where(
        cs,
        |c: Constraint| is_range(c),
        cs.len() as int,
    )
}

/// How large a constraint may grow while leftover space is handed out.
pub open spec fn cap(c: Constraint) -> int {
    match c {
        Constraint::Range { max, .. } => max as int,
        Constraint::Flexible => u16::MAX as int,
        _ => 0,
    }
}

/// How many of the constraints in `order[k..]` can still grow.
pub open spec fn eligible_from(sizes: Seq<u16>, cs: Seq<Constraint>, order: Seq<usize>, k: int) -> int
    decreases order.len() - k,
{
    if k < 0 || k >= order.len() {
        0
    } else {
        eligible_from(sizes, cs, order, k + 1) + if sizes[order[k] as int] < cap(
            cs[order[k] as int],
        ) {
            1int
        } else {
            0int
        }
    }
}

pub open spec fn min_of(a: int, b: int) -> int {
    if a <= b {
        a
    } else {
        b
    }
}

/// One round of handing out: each constraint of `order[k..]` that can still grow
/// receives up to `per` units, as long as space remains. Returns the new sizes and
/// the space still left.
pub open spec fn round_from(
    sizes: Seq<u16>,
    cs: Seq<Constraint>,
    order: Seq<usize>,
    k: int,
    rem: int,
    per: int,
) -> (Seq<u16>, int)
    decreases order.len() - k,
{
    if k < 0 || k >= order.len() {
        (sizes, rem)
    } else {
        let idx = order[k] as int;
        if sizes[idx] < cap(cs[idx]) && rem > 0 {
            let add = min_of(cap(cs[idx]) - sizes[idx], min_of(per, rem));
            round_from(sizes.update(idx, (sizes[idx] + add) as u16), cs, order, k + 1, rem - add, per)
        } else {
            round_from(sizes, cs, order, k + 1, rem, per)
        }
    }
}

/// The share of the leftover space each growing constraint is offered in a round.
pub open spec fn per_item(rem: int, eligible: int) -> int {
    if rem / eligible >= 1 {
        rem / eligible
    } else {
        1
    }
}

/// Hands out `rem` units of leftover space in rounds, until it is used up, nothing
/// can grow any more, or a round hands out nothing.
pub open spec fn distribute(sizes: Seq<u16>, cs: Seq<Constraint>, order: Seq<usize>, rem: int) -> Seq<
    u16,
>
    decreases rem,
{
    if rem <= 0 {
        sizes
    } else {
        let e = eligible_from(sizes, cs, order, 0);
        if e <= 0 {
            sizes
        } else {
            let r = round_from(sizes, cs, order, 0, rem, per_item(rem, e));
            if r.1 >= rem || r.1 < 0 {
                r.0
            } else {
                distribute(r.0, cs, order, r.1)
            }
        }
    }
}

/// What resolving constraints `cs` against `avail` units of space yields.
pub open spec fn resolution(cs: Seq<Constraint>, avail: int) -> Result<Seq<u16>, LayoutError> {
    if cs.len() == 0 {
        Ok(Seq::empty())
    } else if !pct_valid(cs) {
        Err(LayoutError::InvalidPercentages)
    } else if fixed_sum(cs, cs.len() as int) > avail {
        Err(LayoutError::InsufficientSpace)
    } else if sum(base_sizes(cs, avail)) > avail {
        Err(LayoutError::InsufficientSpace)
    } else {
        Ok(
            distribute(
                base_sizes(cs, avail),
                cs,
                expansion_order(cs),
                avail - sum(base_sizes(cs, avail)),
            ),
        )
    }
}

// ---------------------------------------------------------------------------
// Lemmas
// ---------------------------------------------------------------------------

proof fn lemma_sum_push(s: Seq<u16>, v: u16)
    ensures
        sum(s.push(v)) == sum(s) + v,
{
    assert(s.push(v).drop_last() =~= s);
}

proof fn lemma_sum_nonneg(s: Seq<u16>)
    ensures
        sum(s) >= 0,
    decreases s.len(),
{
    if s.len() > 0 {
        lemma_sum_nonneg(s.drop_last());
    }
}

proof fn lemma_sum_update(s: Seq<u16>, i: int, v: u16)
    requires
        0 <= i < s.len(),
    ensures
        sum(s.update(i, v)) == sum(s) - s[i] + v,
    decreases s.len(),
{
    if i == s.len() - 1 {
        assert(s.update(i, v).drop_last() =~= s.drop_last());
    } else {
        lemma_sum_update(s.drop_last(), i, v);
        assert(s.update(i, v).drop_last() =~= s.drop_last().update(i, v));
    }
}

proof fn lemma_sum_ge_elem(s: Seq<u16>, i: int)
    requires
        0 <= i < s.len(),
    ensures
        sum(s) >= s[i],
    decreases s.len(),
{
    lemma_sum_nonneg(s.drop_last());
    if i < s.len() - 1 {
        lemma_sum_ge_elem(s.drop_last(), i);
    }
}

proof fn lemma_pct_sum_mono(cs: Seq<Constraint>, j: int, k: int)
    requires
        0 <= j <= k,
    ensures
        pct_sum(cs, j) <= pct_sum(cs, k),
    decreases k,
{
    if j < k {
        lemma_pct_sum_mono(cs, j, k - 1);
    }
}

proof fn lemma_fixed_sum_mono(cs: Seq<Constraint>, j: int, k: int)
    requires
        0 <= j <= k,
    ensures
        fixed_sum(cs, j) <= fixed_sum(cs, k),
    decreases k,
{
    if j < k {
        lemma_fixed_sum_mono(cs, j, k - 1);
    }
}

proof fn lemma_ideal_bounds(avail: int, h: int)
    requires
        0 <= avail <= u16::MAX,
        0 <= h <= 10000,
    ensures
        0 <= ideal(avail, h) <= avail,
        ideal(avail, h) <= 8 * h,
{
    assert(0 <= avail * h <= avail * 10000) by (nonlinear_arith)
        requires
            0 <= avail,
            0 <= h <= 10000,
    ;
    assert(ideal(avail, h) <= 8 * h) by (nonlinear_arith)
        requires
            0 <= avail <= 65535,
            0 <= h <= 10000,
    ;
}

proof fn lemma_ideal_sum_bound(cs: Seq<Constraint>, avail: int, k: int)
    requires
        0 <= avail <= u16::MAX,
        0 <= k <= cs.len(),
        forall|i: int|
            0 <= i < cs.len() ==> (#[trigger] cs[i] matches Constraint::Percentage(h) ==> h
                <= whole()),
    ensures
        0 <= ideal_sum(cs, avail, k) <= 8 * pct_sum(cs, k),
    decreases k,
{
    if k > 0 {
        lemma_ideal_sum_bound(cs, avail, k - 1);
        if let Constraint::Percentage(h) = cs[k - 1] {
            lemma_ideal_bounds(avail, h as int);
        }
    }
}

proof fn lemma_scaled_bound(a: int, num: int, den: int)
    requires
        0 <= a,
        0 <= num < den,
    ensures
        0 <= scaled(a, num, den) <= a,
{
    assert(0 <= scaled(a, num, den) <= a) by (nonlinear_arith)
        requires
            0 <= a,
            0 <= num < den,
    ;
}

proof fn lemma_indices_where_bounds(cs: Seq<Constraint>, p: spec_fn(Constraint) -> bool, k: int)
    requires
        0 <= k <= cs.len(),
        cs.len() <= usize::MAX,
    ensures
        forall|j: int|
            0 <= j < indices_where(cs, p, k).len() ==> #[trigger] indices_where(cs, p, k)[j] < k
                && p(cs[indices_where(cs, p, k)[j] as int]),
        indices_where(cs, p, k).len() <= k,
    decreases k,
{
    if k > 0 {
        lemma_indices_where_bounds(cs, p, k - 1);
        let prev = indices_where(cs, p, k - 1);
        if p(cs[k - 1]) {
            assert(indices_where(cs, p, k) == prev.push((k - 1) as usize));
            assert forall|j: int| 0 <= j < indices_where(cs, p, k).len() implies #[trigger] indices_where(cs, p, k)[j] < k
                && p(cs[indices_where(cs, p, k)[j] as int]) by {
                if j < prev.len() {
                    assert(indices_where(cs, p, k)[j] == prev[j]);
                } else {
                    assert(indices_where(cs, p, k)[j] == (k - 1) as usize);
                }
            }
        }
    }
}

proof fn lemma_order_bounds(cs: Seq<Constraint>)
    requires
        cs.len() <= usize::MAX,
    ensures
        forall|j: int|
            0 <= j < expansion_order(cs).len() ==> #[trigger] expansion_order(cs)[j] < cs.len()
                && (is_flexible(cs[expansion_order(cs)[j] as int]) || is_range(
                cs[expansion_order(cs)[j] as int],
            )),
{
    let f = |c: Constraint| is_flexible(c);
    let r = |c: Constraint| is_range(c);
    lemma_indices_where_bounds(cs, f, cs.len() as int);
    lemma_indices_where_bounds(cs, r, cs.len() as int);
    let a = indices_where(cs, f, cs.len() as int);
    let b = indices_where(cs, r, cs.len() as int);
    assert forall|j: int| 0 <= j < expansion_order(cs).len() implies #[trigger] expansion_order(
        cs,
    )[j] < cs.len() && (is_flexible(cs[expansion_order(cs)[j] as int]) || is_range(
        cs[expansion_order(cs)[j] as int],
    )) by {
        if j < a.len() {
            assert(expansion_order(cs)[j] == a[j]);
        } else {
            assert(expansion_order(cs)[j] == b[j - a.len()]);
        }
    }
}

/// One round keeps `sum(sizes) + rem` and never lets `rem` grow or go negative.
proof fn lemma_round_conserves(
    sizes: Seq<u16>,
    cs: Seq<Constraint>,
    order: Seq<usize>,
    k: int,
    rem: int,
    per: int,
)
    requires
        sizes.len() == cs.len(),
        forall|j: int| 0 <= j < order.len() ==> #[trigger] order[j] < cs.len(),
        forall|i: int| 0 <= i < cs.len() ==> cap(#[trigger] cs[i]) <= u16::MAX,
        0 <= k <= order.len(),
        rem >= 0,
        per >= 1,
    ensures
        round_from(sizes, cs, order, k, rem, per).0.len() == sizes.len(),
        0 <= round_from(sizes, cs, order, k, rem, per).1 <= rem,
        sum(round_from(sizes, cs, order, k, rem, per).0) + round_from(
            sizes,
            cs,
            order,
            k,
            rem,
            per,
        ).1 == sum(sizes) + rem,
        forall|i: int|
            0 <= i < sizes.len() ==> #[trigger] round_from(sizes, cs, order, k, rem, per).0[i]
                >= sizes[i],
        forall|i: int|
            0 <= i < sizes.len() && round_from(sizes, cs, order, k, rem, per).0[i] != sizes[i]
                ==> #[trigger] round_from(sizes, cs, order, k, rem, per).0[i] <= cap(cs[i]),
    decreases order.len() - k,
{
    if k < order.len() {
        let idx = order[k] as int;
        if sizes[idx] < cap(cs[idx]) && rem > 0 {
            let add = min_of(cap(cs[idx]) - sizes[idx], min_of(per, rem));
            let s2 = sizes.update(idx, (sizes[idx] + add) as u16);
            lemma_sum_update(sizes, idx, (sizes[idx] + add) as u16);
            lemma_round_conserves(s2, cs, order, k + 1, rem - add, per);
            let res = round_from(s2, cs, order, k + 1, rem - add, per);
            assert forall|i: int|
                0 <= i < sizes.len() && res.0[i] != sizes[i] implies #[trigger] res.0[i] <= cap(
                cs[i],
            ) by {
                if res.0[i] == s2[i] {
                    assert(i == idx);
                    assert(s2[idx] == sizes[idx] + add);
                }
            }
        } else {
            lemma_round_conserves(sizes, cs, order, k + 1, rem, per);
        }
    }
}

/// Handing out keeps `sum(sizes) + rem` once the result is settled: what is not
/// handed out is still free.
proof fn lemma_distribute_bounds(sizes: Seq<u16>, cs: Seq<Constraint>, order: Seq<usize>, rem: int)
    requires
        sizes.len() == cs.len(),
        forall|j: int| 0 <= j < order.len() ==> #[trigger] order[j] < cs.len(),
        forall|i: int| 0 <= i < cs.len() ==> cap(#[trigger] cs[i]) <= u16::MAX,
        rem >= 0,
    ensures
        distribute(sizes, cs, order, rem).len() == sizes.len(),
        sum(sizes) <= sum(distribute(sizes, cs, order, rem)) <= sum(sizes) + rem,
        forall|i: int|
            0 <= i < sizes.len() ==> #[trigger] distribute(sizes, cs, order, rem)[i] >= sizes[i],
        forall|i: int|
            0 <= i < sizes.len() && distribute(sizes, cs, order, rem)[i] != sizes[i]
                ==> #[trigger] distribute(sizes, cs, order, rem)[i] <= cap(cs[i]),
    decreases rem,
{
    if rem > 0 {
        let e = eligible_from(sizes, cs, order, 0);
        if e > 0 {
            let per = per_item(rem, e);
            lemma_round_conserves(sizes, cs, order, 0, rem, per);
            let r = round_from(sizes, cs, order, 0, rem, per);
            if !(r.1 >= rem || r.1 < 0) {
                lemma_distribute_bounds(r.0, cs, order, r.1);
                let d = distribute(r.0, cs, order, r.1);
                assert forall|i: int|
                    0 <= i < sizes.len() && d[i] != sizes[i] implies #[trigger] d[i] <= cap(
                    cs[i],
                ) by {
                    if d[i] == r.0[i] {
                    } else {
                    }
                }
            }
        }
    }
}

// ---------------------------------------------------------------------------
// Executable resolution
// ---------------------------------------------------------------------------

fn ideal_exec(avail: u16, h: u32) -> (r: u16)
    requires
        h <= 10000,
    ensures
        r as int == ideal(avail as int, h as int),
{
    proof {
        lemma_ideal_bounds(avail as int, h as int);
        assert((avail as int) * (h as int) <= 65535 * 10000) by (nonlinear_arith)
            requires
                avail <= 65535,
                h <= 10000,
        ;
    }
    let prod: u64 = (avail as u64) * (h as u64);
    ((prod + 5000) / 10000) as u16
}

fn scaled_exec(a: u16, num: u16, den: u64) -> (r: u16)
    requires
        (num as int) < den,
        den <= u32::MAX,
    ensures
        r as int == scaled(a as int, num as int, den as int),
{
    proof {
        lemma_scaled_bound(a as int, num as int, den as int);
        assert(2 * (a as int) * (num as int) <= 2 * 65535 * 65535) by (nonlinear_arith)
            requires
                a <= 65535,
                num <= 65535,
        ;
    }
    let t: u64 = 2 * (a as u64) * (num as u64) + den;
    (t / (2 * den)) as u16
}

/// Whether constraint `c` may take part in handing out leftover space.
fn is_expandable(c: &Constraint, want_flexible: bool) -> (b: bool)
    ensures
        b == if want_flexible {
            is_flexible(*c)
        } else {
            is_range(*c)
        },
{
    match c {
        Constraint::Flexible => want_flexible,
        Constraint::Range { .. } => !want_flexible,
        _ => false,
    }
}

fn cap_exec(c: &Constraint) -> (r: u16)
    ensures
        r as int == cap(*c),
{
    match c {
        Constraint::Range { max, .. } => *max,
        Constraint::Flexible => u16::MAX,
        _ => 0,
    }
}

/// Appends to `out` the indices of the constraints of one kind, in index order.
fn collect_indices(constraints: &[Constraint], want_flexible: bool, out: &mut Vec<usize>)
    ensures
        final(out)@ == old(out)@ + (if want_flexible {
            indices_where(constraints@, |c: Constraint| is_flexible(c), constraints@.len() as int)
        } else {
            indices_where(constraints@, |c: Constraint| is_range(c), constraints@.len() as int)
        }),
{
    let ghost p = if want_flexible {
        |c: Constraint| is_flexible(c)
    } else {
        |c: Constraint| is_range(c)
    };
    let ghost start = out@;
    let mut i: usize = 0;
    while i < constraints.len()
        invariant
            i <= constraints@.len(),
            out@ == start + indices_where(constraints@, p, i as int),
            p == (if want_flexible {
                |c: Constraint| is_flexible(c)
            } else {
                |c: Constraint| is_range(c)
            }),
        decreases constraints@.len() - i,
    {
        if is_expandable(&constraints[i], want_flexible) {
            out.push(i);
            assert(out@ =~= start + indices_where(constraints@, p, i + 1));
        } else {
            assert(out@ =~= start + indices_where(constraints@, p, i + 1));
        }
        i += 1;
    }
}

/// Counts the constraints of `order[k..]` that can still grow.
fn count_eligible(sizes: &Vec<u16>, constraints: &[Constraint], order: &Vec<usize>) -> (r: u64)
    requires
        sizes@.len() == constraints@.len(),
        forall|j: int| 0 <= j < order@.len() ==> #[trigger] order@[j] < constraints@.len(),
    ensures
        r as int == eligible_from(sizes@, constraints@, order@, 0),
{
    let mut count: usize = 0;
    let mut k: usize = order.len();
    while k > 0
        invariant
            k <= order@.len(),
            sizes@.len() == constraints@.len(),
            forall|j: int| 0 <= j < order@.len() ==> #[trigger] order@[j] < constraints@.len(),
            count as int == eligible_from(sizes@, constraints@, order@, k as int),
            count <= order.len() - k,
        decreases k,
    {
        k -= 1;
        let idx = order[k];
        if sizes[idx] < cap_exec(&constraints[idx]) {
            count += 1;
        }
    }
    count as u64
}

/// Resolves a list of constraints for one dimension (width or height) against the
/// `available` space.
///
/// Fixed sizes are taken as they are; percentages get their share of `available`,
/// shrunk proportionally when they do not fit beside the fixed sizes; ranges get at
/// least their minimum; then the space that is left is handed out in rounds to the
/// flexible constraints and to ranges below their maximum.
pub fn resolve_constraints(constraints: &[Constraint], available: u16) -> (r: Result<
    Vec<u16>,
    LayoutError,
>)
    ensures
        match resolution(constraints@, available as int) {
            Ok(s) => r matches Ok(v) && v@ == s,
            Err(e) => r == Err::<Vec<u16>, LayoutError>(e),
        },
{
    let ghost cs = constraints@;
    let ghost avail = available as int;
    let n = constraints.len();
    if n == 0 {
        return Ok(Vec::new());
    }
    // Validate the percentages.

    let mut total_pct: u64 = 0;
    let mut i: usize = 0;
    while i < n
        invariant
            n == cs.len(),
            cs == constraints@,
            i <= n,
            total_pct as int == pct_sum(cs, i as int),
            total_pct <= 10000,
            forall|j: int|
                0 <= j < i ==> (#[trigger] cs[j] matches Constraint::Percentage(h) ==> h
                    <= whole()),
        decreases n - i,
    {
        if let Constraint::Percentage(h) = constraints[i] {
            if h > 10000 {
                return Err(LayoutError::InvalidPercentages);
            }
            total_pct += h as u64;
            if total_pct > 10000 {
                proof {
                    assert(pct_sum(cs, (i + 1) as int) == total_pct);
                    lemma_pct_sum_mono(cs, i + 1, n as int);
                }
                return Err(LayoutError::InvalidPercentages);
            }
        }
        i += 1;
    }
    assert(pct_valid(cs));

    // Fixed sizes.
    let mut fixed_total: u16 = 0;
    let mut i: usize = 0;
    while i < n
        invariant
            n == cs.len(),
            cs == constraints@,
            avail == available as int,
            pct_valid(cs),
            i <= n,
            fixed_total as int == fixed_sum(cs, i as int),
            fixed_total <= available,
        decreases n - i,
    {
        if let Constraint::Fixed(size) = constraints[i] {
            if size > available - fixed_total {
                proof {
                    assert(fixed_sum(cs, (i + 1) as int) == fixed_total + size);
                    lemma_fixed_sum_mono(cs, i + 1, n as int);
                }
                return Err(LayoutError::InsufficientSpace);
            }
            fixed_total = fixed_total + size;
        }
        i += 1;
    }

    // Ideal percentage sizes.
    let mut ideal_total: u64 = 0;
    let mut i: usize = 0;
    while i < n
        invariant
            n == cs.len(),
            cs == constraints@,
            pct_valid(cs),
            avail == available as int,
            i <= n,
            ideal_total as int == ideal_sum(cs, avail, i as int),
            ideal_total <= 80000,
        decreases n - i,
    {
        if let Constraint::Percentage(h) = constraints[i] {
            let s = ideal_exec(available, h);
            ideal_total = ideal_total + s as u64;
        }
        assert(ideal_total as int == ideal_sum(cs, avail, (i + 1) as int));
        proof {
            lemma_ideal_sum_bound(cs, avail, i + 1);
            lemma_pct_sum_mono(cs, i + 1, n as int);
        }
        i += 1;
    }
    let shrink = (fixed_total as u64) + ideal_total > (available as u64);

    // Base sizes: fixed, percentage (possibly shrunk), range minimum, zero.
    let mut sizes: Vec<u16> = Vec::new();
    let mut used: u64 = 0;
    let mut i: usize = 0;
    while i < n
        invariant
            n == cs.len(),
            cs == constraints@,
            pct_valid(cs),
            avail == available as int,
            i <= n,
            fixed_total as int == fixed_sum(cs, n as int),
            ideal_total as int == ideal_sum(cs, avail, n as int),
            ideal_total <= 80000,
            fixed_total <= available,
            shrink == (fixed_total + ideal_total > available),
            sizes@.len() == i,
            forall|j: int| 0 <= j < i ==> #[trigger] sizes@[j] == base_size(cs, avail, j),
            used as int == sum(sizes@),
            used <= available,
        decreases n - i,
    {
        let s: u16 = match constraints[i] {
            Constraint::Fixed(size) => size,
            Constraint::Percentage(h) => {
                let id = ideal_exec(available, h);
                if shrink {
                    scaled_exec(id, available - fixed_total, ideal_total)
                } else {
                    id
                }
            },
            Constraint::Range { min, .. } => min,
            Constraint::Flexible => 0,
        };
        proof {
            lemma_sum_push(sizes@, s);
        }
        sizes.push(s);
        if s as u64 > available as u64 - used {
            proof {
                assert(sizes@ =~= base_sizes(cs, avail).subrange(0, i + 1));
                lemma_sum_prefix_le(base_sizes(cs, avail), i + 1);
            }
            return Err(LayoutError::InsufficientSpace);
        }
        used = used + s as u64;
        i += 1;
    }
    assert(sizes@ =~= base_sizes(cs, avail));

    // Hand out the remaining space: flexible constraints first, then ranges.
    let mut order: Vec<usize> = Vec::new();
    collect_indices(constraints, true, &mut order);
    collect_indices(constraints, false, &mut order);
    assert(order@ =~= expansion_order(cs));
    proof {
        lemma_order_bounds(cs);
    }
    let mut remaining: u64 = available as u64 - used;
    let ghost target = distribute(sizes@, cs, order@, remaining as int);
    loop
        invariant_except_break
            distribute(sizes@, cs, order@, remaining as int) == target,
        invariant
            n == cs.len(),
            cs == constraints@,
            sizes@.len() == n,
            forall|j: int| 0 <= j < order@.len() ==> #[trigger] order@[j] < n,
            remaining <= 65535,
        ensures
            sizes@ == target,
        decreases remaining,
    {
        if remaining == 0 {
            break;
        }
        let eligible = count_eligible(&sizes, constraints, &order);
        if eligible == 0 {
            break;
        }
        let per: u64 = if remaining / eligible >= 1 {
            remaining / eligible
        } else {
            1
        };
        let ghost start_sizes = sizes@;
        let start_rem = remaining;
        assert(per as int == per_item(start_rem as int, eligible as int));
        let mut k: usize = 0;
        while k < order.len()
            invariant
                n == cs.len(),
                cs == constraints@,
                sizes@.len() == n,
                forall|j: int| 0 <= j < order@.len() ==> #[trigger] order@[j] < n,
                k <= order@.len(),
                remaining <= start_rem,
                round_from(sizes@, cs, order@, k as int, remaining as int, per as int)
                    == round_from(start_sizes, cs, order@, 0, start_rem as int, per as int),
            decreases order@.len() - k,
        {
            let idx = order[k];
            let cap_v = cap_exec(&constraints[idx]);
            if sizes[idx] < cap_v && remaining > 0 {
                let room = (cap_v - sizes[idx]) as u64;
                let offer = if per <= remaining {
                    per
                } else {
                    remaining
                };
                let add = if room <= offer {
                    room
                } else {
                    offer
                };
                let new_size = sizes[idx] + add as u16;
                sizes.set(idx, new_size);
                remaining = remaining - add;
            }
            k += 1;
        }
        proof {
            assert(round_from(sizes@, cs, order@, k as int, remaining as int, per as int) == (
            sizes@, remaining as int));
        }
        if remaining == start_rem {
            assert(distribute(start_sizes, cs, order@, start_rem as int) == sizes@);
            break;
        }
        assert(distribute(start_sizes, cs, order@, start_rem as int) == distribute(
            sizes@,
            cs,
            order@,
            remaining as int,
        ));
    }
    Ok(sizes)
}

proof fn lemma_sum_prefix_le(s: Seq<u16>, k: int)
    requires
        0 <= k <= s.len(),
    ensures
        sum(s.subrange(0, k)) <= sum(s),
    decreases s.len(),
{
    if k < s.len() {
        lemma_sum_prefix_le(s.drop_last(), k);
        assert(s.drop_last().subrange(0, k) =~= s.subrange(0, k));
        assert(s.last() >= 0);
    } else {
        assert(s.subrange(0, k) =~= s);
    }
}


proof fn lemma_indices_where_complete(cs: Seq<Constraint>, p: spec_fn(Constraint) -> bool, k: int, i: int)
    requires
        0 <= i < k <= cs.len(),
        cs.len() <= usize::MAX,
        p(cs[i]),
    ensures
        exists|j: int| 0 <= j < indices_where(cs, p, k).len() && indices_where(cs, p, k)[j] == i,
    decreases k,
{
    let prev = indices_where(cs, p, k - 1);
    if i == k - 1 {
        assert(indices_where(cs, p, k) == prev.push((k - 1) as usize));
        assert(indices_where(cs, p, k)[prev.len() as int] == i);
    } else {
        lemma_indices_where_complete(cs, p, k - 1, i);
        let j = choose|j: int| 0 <= j < prev.len() && prev[j] == i;
        if p(cs[k - 1]) {
            assert(indices_where(cs, p, k) == prev.push((k - 1) as usize));
            assert(indices_where(cs, p, k)[j] == i);
        }
    }
}

proof fn lemma_eligible_positive(sizes: Seq<u16>, cs: Seq<Constraint>, order: Seq<usize>, k: int, j: int)
    requires
        0 <= k <= j < order.len(),
        sizes[order[j] as int] < cap(cs[order[j] as int]),
    ensures
        eligible_from(sizes, cs, order, k) >= 1,
    decreases j - k,
{
    if k < j {
        lemma_eligible_positive(sizes, cs, order, k + 1, j);
        lemma_eligible_nonneg(sizes, cs, order, k + 1);
    } else {
        lemma_eligible_nonneg(sizes, cs, order, k + 1);
    }
}

proof fn lemma_eligible_nonneg(sizes: Seq<u16>, cs: Seq<Constraint>, order: Seq<usize>, k: int)
    ensures
        eligible_from(sizes, cs, order, k) >= 0,
    decreases order.len() - k,
{
    if 0 <= k < order.len() {
        lemma_eligible_nonneg(sizes, cs, order, k + 1);
    }
}

/// A round in which some constraint can still grow hands out at least one unit.
proof fn lemma_round_progress(
    sizes: Seq<u16>,
    cs: Seq<Constraint>,
    order: Seq<usize>,
    k: int,
    rem: int,
    per: int,
    j: int,
)
    requires
        sizes.len() == cs.len(),
        forall|t: int| 0 <= t < order.len() ==> #[trigger] order[t] < cs.len(),
        forall|i: int| 0 <= i < cs.len() ==> cap(#[trigger] cs[i]) <= u16::MAX,
        0 <= k <= j < order.len(),
        sizes[order[j] as int] < cap(cs[order[j] as int]),
        rem > 0,
        per >= 1,
    ensures
        round_from(sizes, cs, order, k, rem, per).1 < rem,
    decreases order.len() - k,
{
    let idx = order[k] as int;
    if sizes[idx] < cap(cs[idx]) && rem > 0 {
        let add = min_of(cap(cs[idx]) - sizes[idx], min_of(per, rem));
        let s2 = sizes.update(idx, (sizes[idx] + add) as u16);
        lemma_round_conserves(s2, cs, order, k + 1, rem - add, per);
    } else {
        lemma_round_progress(sizes, cs, order, k + 1, rem, per, j);
    }
}

/// While a flexible constraint takes part, handing out uses up all the space.
proof fn lemma_distribute_fills(
    sizes: Seq<u16>,
    cs: Seq<Constraint>,
    order: Seq<usize>,
    rem: int,
    j: int,
)
    requires
        sizes.len() == cs.len(),
        forall|t: int| 0 <= t < order.len() ==> #[trigger] order[t] < cs.len(),
        forall|i: int| 0 <= i < cs.len() ==> cap(#[trigger] cs[i]) <= u16::MAX,
        0 <= j < order.len(),
        cs[order[j] as int] is Flexible,
        rem >= 0,
        sum(sizes) + rem <= u16::MAX,
    ensures
        sum(distribute(sizes, cs, order, rem)) == sum(sizes) + rem,
    decreases rem,
{
    if rem > 0 {
        let f = order[j] as int;
        lemma_sum_ge_elem(sizes, f);
        lemma_eligible_positive(sizes, cs, order, 0, j);
        let e = eligible_from(sizes, cs, order, 0);
        let per = per_item(rem, e);
        lemma_round_conserves(sizes, cs, order, 0, rem, per);
        lemma_round_progress(sizes, cs, order, 0, rem, per, j);
        let r = round_from(sizes, cs, order, 0, rem, per);
        lemma_distribute_fills(r.0, cs, order, r.1, j);
    }
}

/// Resolved sizes stay within the available space; fixed sizes and percentage sizes
/// are kept as computed; ranges and flexible constraints never get less than their
/// base size, and a range that grows stops at its maximum.
pub proof fn lemma_resolution_sizes(cs: Seq<Constraint>, avail: int)
    requires
        0 <= avail <= u16::MAX,
        cs.len() <= usize::MAX,
        resolution(cs, avail) is Ok,
    ensures
        ({
            let s = resolution(cs, avail)->Ok_0;
            &&& s.len() == cs.len()
            &&& sum(s) <= avail
            &&& forall|i: int|
                0 <= i < cs.len() ==> #[trigger] s[i] >= base_size(cs, avail, i)
            &&& forall|i: int|
                0 <= i < cs.len() && !(cs[i] is Range) && !(cs[i] is Flexible) ==> #[trigger] s[i]
                    == base_size(cs, avail, i)
            &&& forall|i: int|
                0 <= i < cs.len() && #[trigger] cs[i] is Range ==> s[i] == cs[i]->min || s[i]
                    <= cs[i]->max
        }),
{
    if cs.len() > 0 {
        let b = base_sizes(cs, avail);
        lemma_order_bounds(cs);
        lemma_sum_nonneg(b);
        lemma_distribute_bounds(b, cs, expansion_order(cs), avail - sum(b));
        let s = distribute(b, cs, expansion_order(cs), avail - sum(b));
        assert forall|i: int|
            0 <= i < cs.len() && !(cs[i] is Range) && !(cs[i] is Flexible) implies #[trigger] s[i]
            == base_size(cs, avail, i) by {
            assert(cap(cs[i]) == 0);
        }
    }
}

/// When a flexible constraint is present, the resolved sizes use up exactly the
/// available space.
pub proof fn lemma_resolution_fills_space(cs: Seq<Constraint>, avail: int, i: int)
    requires
        0 <= avail <= u16::MAX,
        cs.len() <= usize::MAX,
        0 <= i < cs.len(),
        cs[i] is Flexible,
        resolution(cs, avail) is Ok,
    ensures
        sum(resolution(cs, avail)->Ok_0) == avail,
{
    let b = base_sizes(cs, avail);
    let order = expansion_order(cs);
    lemma_order_bounds(cs);
    lemma_sum_nonneg(b);
    let f = |c: Constraint| is_flexible(c);
    lemma_indices_where_complete(cs, f, cs.len() as int, i);
    let a = indices_where(cs, f, cs.len() as int);
    let j = choose|j: int| 0 <= j < a.len() && a[j] == i;
    assert(order[j] == a[j]);
    lemma_distribute_fills(b, cs, order, avail - sum(b), j);
}


// ---------------------------------------------------------------------------
// Grid layout
// ---------------------------------------------------------------------------

/// The height constraints of the rows.
pub open spec fn heights_of(rows: Seq<(Constraint, Vec<Constraint>)>) -> Seq<Constraint> {
    rows.map_values(|r: (Constraint, Vec<Constraint>)| r.0)
}

/// The column-width constraints of each row.
pub open spec fn widths_of(rows: Seq<(Constraint, Vec<Constraint>)>) -> Seq<Seq<Constraint>> {
    rows.map_values(|r: (Constraint, Vec<Constraint>)| r.1@)
}

/// The first error among the width resolutions of rows `k..`.
pub open spec fn first_error(ws: Seq<Seq<Constraint>>, avail: int, k: int) -> Option<LayoutError>
    decreases ws.len() - k,
{
    if k < 0 || k >= ws.len() {
        None
    } else {
        match resolution(ws[k], avail) {
            Err(e) => Some(e),
            Ok(_) => first_error(ws, avail, k + 1),
        }
    }
}

/// The cell in row `r`, column `c`: cells are laid side by side from the left, rows
/// one below the other from the top.
pub open spec fn cell(heights: Seq<u16>, widths: Seq<u16>, r: int, c: int) -> Rect {
    Rect {
        x: sum(widths.subrange(0, c)) as u16,
        y: sum(heights.subrange(0, r)) as u16,
        width: widths[c],
        height: heights[r],
    }
}

/// What laying out `rows` on a `width` by `height` area yields: the heights are
/// resolved first, then the widths of each row in turn; the first error stops it.
pub open spec fn grid(rows: Seq<(Constraint, Vec<Constraint>)>, width: int, height: int) -> Result<
    Seq<Seq<Rect>>,
    LayoutError,
> {
    let ws = widths_of(rows);
    match resolution(heights_of(rows), height) {
        Err(e) => Err(e),
        Ok(hs) => match first_error(ws, width, 0) {
            Some(e) => Err(e),
            None => Ok(
                Seq::new(
                    ws.len(),
                    |r: int|
                        Seq::new(
                            resolution(ws[r], width)->Ok_0.len(),
                            |c: int| cell(hs, resolution(ws[r], width)->Ok_0, r, c),
                        ),
                ),
            ),
        },
    }
}

proof fn lemma_sum_prefix_step(s: Seq<u16>, k: int)
    requires
        0 <= k < s.len(),
    ensures
        sum(s.subrange(0, k + 1)) == sum(s.subrange(0, k)) + s[k],
{
    assert(s.subrange(0, k + 1).drop_last() =~= s.subrange(0, k));
}

/// Lays out the rows of a grid on a `width` by `height` area: row heights are
/// resolved from the rows' height constraints, then each row's column widths from
/// its width constraints.
pub fn calculate_layout(width: u16, height: u16, rows: Vec<(Constraint, Vec<Constraint>)>) -> (r:
    Result<Vec<Vec<Rect>>, LayoutError>)
    ensures
        match grid(rows@, width as int, height as int) {
            Ok(g) => r matches Ok(v) && v@.len() == g.len() && forall|i: int|
                0 <= i < g.len() ==> (#[trigger] v@[i])@ == g[i],
            Err(e) => r == Err::<Vec<Vec<Rect>>, LayoutError>(e),
        },
{
    let ghost ws = widths_of(rows@);
    let mut height_constraints: Vec<Constraint> = Vec::new();
    let mut i: usize = 0;
    while i < rows.len()
        invariant
            i <= rows@.len(),
            height_constraints@ =~= heights_of(rows@).subrange(0, i as int),
        decreases rows@.len() - i,
    {
        height_constraints.push(rows[i].0);
        i += 1;
    }
    assert(height_constraints@ =~= heights_of(rows@));
    let row_heights = match resolve_constraints(height_constraints.as_slice(), height) {
        Ok(v) => v,
        Err(e) => return Err(e),
    };
    proof {
        if rows@.len() > 0 {
            lemma_resolution_sizes(heights_of(rows@), height as int);
        }
    }
    let ghost hs = row_heights@;
    let mut result: Vec<Vec<Rect>> = Vec::new();
    let mut current_y: u16 = 0;
    let mut row_idx: usize = 0;
    while row_idx < rows.len()
        invariant
            ws == widths_of(rows@),
            hs == row_heights@,
            resolution(heights_of(rows@), height as int) == Ok::<Seq<u16>, LayoutError>(hs),
            hs.len() == rows@.len(),
            sum(hs) <= height,
            row_idx <= rows@.len(),
            first_error(ws, width as int, 0) == first_error(ws, width as int, row_idx as int),
            current_y as int == sum(hs.subrange(0, row_idx as int)),
            result@.len() == row_idx,
            forall|j: int|
                0 <= j < row_idx ==> (#[trigger] result@[j])@ == Seq::new(
                    resolution(ws[j], width as int)->Ok_0.len(),
                    |c: int| cell(hs, resolution(ws[j], width as int)->Ok_0, j, c),
                ),
        decreases rows@.len() - row_idx,
    {
        let row_height = row_heights[row_idx];
        let row_len = rows[row_idx].1.len();
        assert(rows@[row_idx as int].1@ == ws[row_idx as int]);
        assert(ws[row_idx as int].len() == row_len);
        let widths = match resolve_constraints(rows[row_idx].1.as_slice(), width) {
            Ok(v) => v,
            Err(e) => {
                assert(first_error(ws, width as int, row_idx as int) == Some(e));
                return Err(e);
            },
        };
        proof {
            if ws[row_idx as int].len() > 0 {
                lemma_resolution_sizes(ws[row_idx as int], width as int);
            }
            lemma_sum_prefix_step(hs, row_idx as int);
            lemma_sum_prefix_le(hs, (row_idx + 1) as int);
        }
        let ghost wr = widths@;
        let mut row_elements: Vec<Rect> = Vec::new();
        let mut current_x: u16 = 0;
        let mut c: usize = 0;
        while c < widths.len()
            invariant
                wr == widths@,
                sum(wr) <= width,
                c <= wr.len(),
                current_x as int == sum(wr.subrange(0, c as int)),
                current_y as int == sum(hs.subrange(0, row_idx as int)),
                row_idx < hs.len(),
                row_height == hs[row_idx as int],
                row_elements@.len() == c,
                forall|t: int|
                    0 <= t < c ==> #[trigger] row_elements@[t] == cell(hs, wr, row_idx as int, t),
            decreases wr.len() - c,
        {
            proof {
                lemma_sum_prefix_step(wr, c as int);
                lemma_sum_prefix_le(wr, (c + 1) as int);
            }
            let w = widths[c];
            row_elements.push(Rect::new(current_x, current_y, w, row_height));
            current_x = current_x + w;
            c += 1;
        }
        assert(row_elements@ =~= Seq::new(
            resolution(ws[row_idx as int], width as int)->Ok_0.len(),
            |t: int| cell(hs, resolution(ws[row_idx as int], width as int)->Ok_0, row_idx as int, t),
        ));
        result.push(row_elements);
        current_y = current_y + row_height;
        row_idx += 1;
    }
    Ok(result)
}

/// A grid layout: rows, each with a height constraint and the width constraints of
/// its columns.
pub struct Layout {
    rows: Vec<(Constraint, Vec<Constraint>)>,
}

impl Layout {
    /// The rows of the layout.
    pub closed spec fn rows(&self) -> Seq<(Constraint, Vec<Constraint>)> {
        self.rows@
    }

    /// Starts an empty layout.
    pub fn new() -> (l: Layout)
        ensures
            l.rows() == Seq::<(Constraint, Vec<Constraint>)>::empty(),
    {
        Layout { rows: Vec::new() }
    }

    /// Adds a row with a height constraint and its column-width constraints.
    pub fn row(self, height_constraint: Constraint, width_constraints: Vec<Constraint>) -> (l:
        Layout)
        ensures
            l.rows() == self.rows().push((height_constraint, width_constraints)),
    {
        let mut rows = self.rows;
        rows.push((height_constraint, width_constraints));
        Layout { rows }
    }

    /// Adds a row spanning the full width: a single flexible column.
    pub fn empty_row(self, constraint: Constraint) -> (l: Layout)
        ensures
            l.rows().len() == self.rows().len() + 1,
            l.rows().drop_last() == self.rows(),
            l.rows().last().0 == constraint,
            l.rows().last().1@ == seq![Constraint::Flexible],
    {
        let mut cols: Vec<Constraint> = Vec::new();
        cols.push(flexible());
        let l = self.row(constraint, cols);
        assert(l.rows().drop_last() =~= self.rows());
        l
    }

    /// Computes the cells of all rows on a `width` by `height` area.
    pub fn calculate(self, width: u16, height: u16) -> (r: Result<Vec<Vec<Rect>>, LayoutError>)
        ensures
            match grid(self.rows(), width as int, height as int) {
                Ok(g) => r matches Ok(v) && v@.len() == g.len() && forall|i: int|
                    0 <= i < g.len() ==> (#[trigger] v@[i])@ == g[i],
                Err(e) => r == Err::<Vec<Vec<Rect>>, LayoutError>(e),
            },
    {
        calculate_layout(width, height, self.rows)
    }
}

} // verus!
