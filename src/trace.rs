//! Trace builders for the two computations, and the public inputs read off a trace.
use vstd::prelude::*;
use crate::field::{is_felt, fe, fadd, fsub, fmul, felt_from_u128, felt_add, felt_sub, felt_mul};

verus! {

/// The configuration of a trace: the start value and the number of rows.
#[derive(Clone, Copy, Debug)]
pub struct InputArg {
    pub start: u128,
    pub n: usize,
}

/// A configuration or constraint definition that cannot be used.
#[derive(Clone, Copy, Debug, PartialEq, Eq, Structural)]
pub enum ConfigError {
    /// The trace would have no rows.
    NoRows,
    /// The converging bounds leave the range of `u128`.
    BoundsOverflow,
    /// The trace width differs from the width of the computation.
    WidthMismatch,
}

/// A table of field elements, one `Vec` per row.
pub struct ExecutionTrace {
    pub width: usize,
    pub rows: Vec<Vec<u128>>,
}

/// A row as a sequence of integers.
pub open spec fn ints(r: Seq<u128>) -> Seq<int> {
    r.map_values(|x: u128| x as int)
}

impl View for ExecutionTrace {
    type V = Seq<Seq<int>>;

    open spec fn view(&self) -> Seq<Seq<int>> {
        self.rows@.map_values(|r: Vec<u128>| ints(r@))
    }
}

impl ExecutionTrace {
    /// Every row has the trace's width, and every cell is a canonical field element.
    pub open spec fn wf(&self) -> bool {
        &&& forall|i: int| 0 <= i < self.rows@.len() ==> #[trigger] self.rows@[i]@.len() == self.width
        &&& forall|i: int, j: int|
            0 <= i < self.rows@.len() && 0 <= j < self.width ==> is_felt(
                #[trigger] self.rows@[i]@[j] as int,
            )
    }

    pub fn width(&self) -> (r: usize)
        ensures
            r == self.width,
    {
        self.width
    }

    /// The number of rows.
    pub fn length(&self) -> (r: usize)
        ensures
            r == self.rows@.len(),
    {
        self.rows.len()
    }

    /// The cell in column `col` of row `step`.
    pub fn get(&self, col: usize, step: usize) -> (r: u128)
        requires
            step < self.rows@.len(),
            col < self.rows@[step as int]@.len(),
        ensures
            r == self.rows@[step as int]@[col as int],
    {
        self.rows[step][col]
    }
}

// Converging bounds: four columns |a - b|, lower bound, upper bound, crossed flag.

/// The lower bound of row `j`.
pub open spec fn bounds_lower(start: int, j: int) -> int {
    start + j + 1
}

/// The upper bound of row `j`.
pub open spec fn bounds_upper(n: int, j: int) -> int {
    n - j - 1
}

/// Whether the bounds of row `j` have crossed.
pub open spec fn bounds_crossed(start: int, n: int, j: int) -> bool {
    bounds_lower(start, j) > bounds_upper(n, j)
}

/// The distance `ind * (lo - up) + (1 - ind) * (up - lo)` in the field.
pub open spec fn converge(lo: int, up: int, ind: int) -> int {
    fadd(fmul(ind, fsub(lo, up)), fmul(fsub(1, ind), fsub(up, lo)))
}

/// Row `j` of the converging-bounds trace for `start` and `n` rows.
pub open spec fn bounds_row(start: int, n: int, j: int) -> Seq<int> {
    seq![
        if j == 0 {
            fe(if start > n { start - n } else { n - start })
        } else {
            converge(
                fe(bounds_lower(start, j - 1)),
                fe(bounds_upper(n, j - 1)),
                if bounds_crossed(start, n, j - 1) { 1int } else { 0int },
            )
        },
        fe(bounds_lower(start, j)),
        fe(bounds_upper(n, j)),
        if bounds_crossed(start, n, j) { 1int } else { 0int },
    ]
}

/// The whole converging-bounds trace.
pub open spec fn bounds_trace(start: int, n: int) -> Seq<Seq<int>> {
    Seq::new(n as nat, |j: int| bounds_row(start, n, j))
}

/// When the converging-bounds trace can be built: at least one row, and bounds within `u128`.
pub open spec fn bounds_config_ok(arg: InputArg) -> bool {
    arg.n >= 1 && arg.start + arg.n <= u128::MAX
}

/// The field distance of the crossed flag and the two bounds, computed in the field.
pub(crate) fn converge_exec(lo: u128, up: u128, ind: u128) -> (r: u128)
    requires
        is_felt(lo as int),
        is_felt(up as int),
        is_felt(ind as int),
    ensures
        r == converge(lo as int, up as int, ind as int),
{
    proof {
        crate::field::lemma_fe_is_felt(lo - up);
        crate::field::lemma_fe_is_felt(up - lo);
        crate::field::lemma_fe_is_felt(1 - ind);
    }
    let d1 = felt_sub(lo, up);
    let d2 = felt_sub(up, lo);
    let rest = felt_sub(1, ind);
    let t1 = felt_mul(ind, d1);
    let t2 = felt_mul(rest, d2);
    proof {
        crate::field::lemma_fe_is_felt(ind * d1);
        crate::field::lemma_fe_is_felt(rest * d2);
    }
    felt_add(t1, t2)
}

/// Builds the converging-bounds trace: four columns, `arg.n` rows.
pub fn build_trace(arg: &InputArg) -> (r: Result<ExecutionTrace, ConfigError>)
    ensures
        arg.n == 0 ==> r == Err::<ExecutionTrace, ConfigError>(ConfigError::NoRows),
        arg.n >= 1 && !bounds_config_ok(*arg) ==> r == Err::<ExecutionTrace, ConfigError>(
            ConfigError::BoundsOverflow,
        ),
        bounds_config_ok(*arg) ==> r is Ok,
        r matches Ok(t) ==> {
            &&& t.wf()
            &&& t.width == 4
            &&& t@ == bounds_trace(arg.start as int, arg.n as int)
        },
{
    if arg.n == 0 {
        return Err(ConfigError::NoRows);
    }
    if arg.start > u128::MAX - arg.n as u128 {
        return Err(ConfigError::BoundsOverflow);
    }
    let ghost start = arg.start as int;
    let ghost n = arg.n as int;
    let a = arg.start;
    let b = arg.n as u128;
    let diff = if a > b { a - b } else { b - a };
    let first = vec![
        felt_from_u128(diff),
        felt_from_u128(a + 1),
        felt_from_u128(b - 1),
        if a + 1 > b - 1 { 1u128 } else { 0u128 },
    ];
    let mut rows: Vec<Vec<u128>> = Vec::new();
    proof {
        crate::field::lemma_fe_is_felt(diff as int);
        crate::field::lemma_fe_is_felt(a + 1);
        crate::field::lemma_fe_is_felt(b - 1);
        assert(ints(first@) =~= bounds_row(start, n, 0));
    }
    rows.push(first);
    let mut i: usize = 1;
    while i < arg.n
        invariant
            1 <= i <= arg.n,
            start == arg.start,
            n == arg.n,
            bounds_config_ok(*arg),
            rows@.len() == i,
            forall|k: int| 0 <= k < i ==> #[trigger] rows@[k]@.len() == 4,
            forall|k: int, c: int| 0 <= k < i && 0 <= c < 4 ==> is_felt(#[trigger] rows@[k]@[c] as int),
            forall|k: int| 0 <= k < i ==> ints(#[trigger] rows@[k]@) == bounds_row(start, n, k),
        decreases arg.n - i,
    {
        let prev = &rows[i - 1];
        proof {
            assert(ints(prev@) == bounds_row(start, n, i - 1));
            assert(ints(prev@)[1] == prev@[1] as int);
            assert(ints(prev@)[2] == prev@[2] as int);
            assert(ints(prev@)[3] == prev@[3] as int);
        }
        let diff = converge_exec(prev[1], prev[2], prev[3]);
        let next: u128 = i as u128 + 1;
        let lo = arg.start + next;
        let up = arg.n as u128 - next;
        let row = vec![
            diff,
            felt_from_u128(lo),
            felt_from_u128(up),
            if lo > up { 1u128 } else { 0u128 },
        ];
        proof {
            crate::field::lemma_fe_is_felt(lo - up);
            crate::field::lemma_fe_is_felt(up - lo);
            crate::field::lemma_fe_is_felt(lo as int);
            crate::field::lemma_fe_is_felt(up as int);
            crate::field::lemma_fe_is_felt(diff as int);
            assert(ints(row@) =~= bounds_row(start, n, i as int));
        }
        rows.push(row);
        i = i + 1;
    }
    let t = ExecutionTrace { width: 4, rows };
    proof {
        assert(t@ =~= bounds_trace(start, n));
    }
    Ok(t)
}

// Cubic recurrence: one column, x -> x^3 + 42.

/// The step of the cubic recurrence in the field.
pub open spec fn cubic_step(x: int) -> int {
    fadd(fmul(fmul(x, x), x), 42)
}

/// Column 0 of row `j` of the cubic-recurrence trace.
pub open spec fn cubic_value(start: int, j: nat) -> int
    decreases j,
{
    if j == 0 {
        fe(start)
    } else {
        cubic_step(cubic_value(start, (j - 1) as nat))
    }
}

/// The whole cubic-recurrence trace.
pub open spec fn cubic_trace(start: int, n: int) -> Seq<Seq<int>> {
    Seq::new(n as nat, |j: int| seq![cubic_value(start, j as nat)])
}

/// The step of the cubic recurrence, computed in the field.
pub(crate) fn cubic_step_exec(x: u128) -> (r: u128)
    requires
        is_felt(x as int),
    ensures
        r == cubic_step(x as int),
{
    let sq = felt_mul(x, x);
    proof {
        crate::field::lemma_fe_is_felt(x * x);
    }
    let cube = felt_mul(sq, x);
    proof {
        crate::field::lemma_fe_is_felt(sq * x);
    }
    felt_add(cube, 42)
}

/// Builds the cubic-recurrence trace: one column, `arg.n` rows.
pub fn build_cubic_trace(arg: &InputArg) -> (r: Result<ExecutionTrace, ConfigError>)
    ensures
        arg.n == 0 ==> r == Err::<ExecutionTrace, ConfigError>(ConfigError::NoRows),
        arg.n >= 1 ==> r is Ok,
        r matches Ok(t) ==> {
            &&& t.wf()
            &&& t.width == 1
            &&& t@ == cubic_trace(arg.start as int, arg.n as int)
        },
{
    if arg.n == 0 {
        return Err(ConfigError::NoRows);
    }
    let ghost start = arg.start as int;
    let mut x = felt_from_u128(arg.start);
    let mut rows: Vec<Vec<u128>> = Vec::new();
    proof {
        crate::field::lemma_fe_is_felt(start);
    }
    let mut i: usize = 0;
    while i < arg.n
        invariant
            0 <= i <= arg.n,
            start == arg.start,
            rows@.len() == i,
            x == cubic_value(start, i as nat),
            is_felt(x as int),
            forall|k: int| 0 <= k < i ==> #[trigger] rows@[k]@.len() == 1,
            forall|k: int| 0 <= k < i ==> is_felt(#[trigger] rows@[k]@[0] as int),
            forall|k: int| 0 <= k < i ==> ints(#[trigger] rows@[k]@) == seq![cubic_value(start, k as nat)],
        decreases arg.n - i,
    {
        let row = vec![x];
        proof {
            assert(ints(row@) =~= seq![cubic_value(start, i as nat)]);
        }
        rows.push(row);
        x = cubic_step_exec(x);
        proof {
            crate::field::lemma_fe_is_felt(x as int);
            assert(cubic_value(start, (i + 1) as nat) == cubic_step(cubic_value(start, i as nat)));
        }
        i = i + 1;
    }
    let t = ExecutionTrace { width: 1, rows };
    proof {
        assert forall|k: int, c: int| 0 <= k < t.rows@.len() && 0 <= c < t.width implies is_felt(
            #[trigger] t.rows@[k]@[c] as int,
        ) by {
            assert(c == 0);
        }
        assert(t@ =~= cubic_trace(start, arg.n as int));
    }
    Ok(t)
}

/// The publicly known claim: the first and last values of column 0.
#[derive(Clone, Copy, Debug, PartialEq, Eq, Structural)]
pub struct PublicInputs {
    pub start: u128,
    pub result: u128,
}

impl PublicInputs {
    /// Both values are canonical field elements.
    pub open spec fn wf(&self) -> bool {
        is_felt(self.start as int) && is_felt(self.result as int)
    }
}

/// Reads column 0 of the first and of the last row.
pub fn get_pub_inputs(trace: &ExecutionTrace) -> (r: PublicInputs)
    requires
        trace.wf(),
        trace.rows@.len() >= 1,
        trace.width >= 1,
    ensures
        r.start as int == trace@[0][0],
        r.result as int == trace@[trace@.len() - 1][0],
        r.wf(),
{
    let last_step = trace.length() - 1;
    let r = PublicInputs { start: trace.get(0, 0), result: trace.get(0, last_step) };
    proof {
        assert(ints(trace.rows@[0]@)[0] == trace.rows@[0]@[0] as int);
        assert(ints(trace.rows@[last_step as int]@)[0] == trace.rows@[last_step as int]@[0] as int);
    }
    r
}

} // verus!
