//! Comparison operators of filters, and how a filter on times decides on a
//! single time and on the range of times that statistics give.

use vstd::prelude::*;
use vstd::string::StringSliceAdditionalSpecFns;

verus! {

/// A comparison of a left value with a right one.
#[derive(Debug, Clone, Copy, PartialEq, Eq, Structural)]
pub enum OperatorType {
    /// Equal.
    Eq,
    /// Not equal.
    NotEq,
    /// Greater.
    Gt,
    /// Greater or equal.
    GtEq,
    /// Less.
    Lt,
    /// Less or equal.
    LtEq,
}

/// Whether `left op right` holds.
pub open spec fn holds(left: int, op: OperatorType, right: int) -> bool {
    match op {
        OperatorType::Eq => left == right,
        OperatorType::NotEq => left != right,
        OperatorType::Gt => left > right,
        OperatorType::GtEq => left >= right,
        OperatorType::Lt => left < right,
        OperatorType::LtEq => left <= right,
    }
}

/// Whether statistics with the smallest value `min` and the largest `max` leave
/// room for a value `v` with `v op rhs`.
pub open spec fn range_may_hold(min: int, max: int, op: OperatorType, rhs: int) -> bool {
    match op {
        OperatorType::Eq => min <= rhs <= max,
        OperatorType::NotEq => min != max || min != rhs,
        OperatorType::Gt => max > rhs,
        OperatorType::GtEq => max >= rhs,
        OperatorType::Lt => min < rhs,
        OperatorType::LtEq => min <= rhs,
    }
}

/// Whether `left op right` holds.
pub fn compare_i64(left: i64, op: OperatorType, right: i64) -> (b: bool)
    ensures
        b == holds(left as int, op, right as int),
{
    match op {
        OperatorType::Eq => left == right,
        OperatorType::NotEq => left != right,
        OperatorType::Gt => left > right,
        OperatorType::GtEq => left >= right,
        OperatorType::Lt => left < right,
        OperatorType::LtEq => left <= right,
    }
}

/// Whether `left op right` holds for booleans, false counting as 0 and true as 1.
pub fn compare_bool(left: bool, op: OperatorType, right: bool) -> (b: bool)
    ensures
        b == holds(if left { 1 } else { 0 }, op, if right { 1 } else { 0 }),
{
    let l: i64 = if left { 1 } else { 0 };
    let r: i64 = if right { 1 } else { 0 };
    compare_i64(l, op, r)
}

/// How `a` compares with `b` in lexicographic order of bytes: -1, 0 or 1.
pub open spec fn lex_order(a: Seq<u8>, b: Seq<u8>) -> int
    decreases a.len(),
{
    if a.len() == 0 {
        if b.len() == 0 { 0 } else { -1 }
    } else if b.len() == 0 {
        1
    } else if a[0] < b[0] {
        -1
    } else if a[0] > b[0] {
        1
    } else {
        lex_order(a.drop_first(), b.drop_first())
    }
}

/// Whether `left op right` holds for texts, ordered as their UTF-8 bytes are in
/// lexicographic order.
pub fn compare_str(left: &str, op: OperatorType, right: &str) -> (b: bool)
    ensures
        b == holds(lex_order(left.spec_bytes(), right.spec_bytes()), op, 0),
{
    let x = left.as_bytes();
    let y = right.as_bytes();
    let mut i: usize = 0;
    assert(x@.skip(0) =~= x@);
    assert(y@.skip(0) =~= y@);
    let mut c: i64 = 0;
    while i < x.len() && i < y.len() && x[i] == y[i]
        invariant
            x@ == left.spec_bytes(),
            y@ == right.spec_bytes(),
            i <= x@.len(),
            i <= y@.len(),
            lex_order(x@, y@) == lex_order(x@.skip(i as int), y@.skip(i as int)),
        decreases x@.len() - i,
    {
        assert(x@.skip(i as int).drop_first() =~= x@.skip(i + 1));
        assert(y@.skip(i as int).drop_first() =~= y@.skip(i + 1));
        i = i + 1;
    }
    if i == x.len() {
        c = if i == y.len() { 0 } else { -1 };
    } else if i == y.len() {
        c = 1;
    } else {
        assert(x@.skip(i as int)[0] == x@[i as int]);
        assert(y@.skip(i as int)[0] == y@[i as int]);
        c = if x[i] < y[i] { -1 } else { 1 };
    }
    compare_i64(c, op, 0)
}

/// Whether some value between `min_value` and `max_value` may stand in
/// relation `op` to `rhs`.
pub fn compare_range_i64(min_value: i64, max_value: i64, op: OperatorType, rhs: i64) -> (b: bool)
    ensures
        b == range_may_hold(min_value as int, max_value as int, op, rhs as int),
{
    match op {
        OperatorType::Eq => rhs >= min_value && rhs <= max_value,
        OperatorType::NotEq => min_value != max_value || min_value != rhs,
        OperatorType::Gt => max_value > rhs,
        OperatorType::GtEq => max_value >= rhs,
        OperatorType::Lt => min_value < rhs,
        OperatorType::LtEq => min_value <= rhs,
    }
}

/// The test on a range of values is exact: for a range that is not empty, it
/// holds exactly when some value of the range satisfies the comparison. So
/// statistics never rule out a chunk that holds a matching value.
pub proof fn lemma_range_test_exact(min: int, max: int, op: OperatorType, rhs: int)
    requires
        min <= max,
    ensures
        range_may_hold(min, max, op, rhs) <==> exists|v: int| min <= v <= max && #[trigger] holds(v, op, rhs),
{
    if range_may_hold(min, max, op, rhs) {
        match op {
            OperatorType::Eq => assert(holds(rhs, op, rhs)),
            OperatorType::NotEq => {
                if min != rhs {
                    assert(holds(min, op, rhs));
                } else {
                    assert(holds(max, op, rhs));
                }
            },
            OperatorType::Gt => assert(holds(max, op, rhs)),
            OperatorType::GtEq => assert(holds(max, op, rhs)),
            OperatorType::Lt => assert(holds(min, op, rhs)),
            OperatorType::LtEq => assert(holds(min, op, rhs)),
        }
    }
}

/// Builds filters on times.
#[derive(Debug, Clone, Copy)]
pub struct TimeFilterApi;

/// Builds filters on values.
#[derive(Debug, Clone, Copy)]
pub struct ValueFilterApi;

} // verus!
