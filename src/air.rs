//! The constraint definition of each computation: trace width, transition
//! constraint and its degree, and the two boundary assertions.
use vstd::prelude::*;
use crate::field::{is_felt, fsub, felt_sub, lemma_fe_is_felt, lemma_fsub_zero};
use crate::trace::{
    ConfigError, PublicInputs, InputArg, ints, converge, cubic_step, bounds_row, cubic_trace,
    converge_exec, cubic_step_exec,
};

verus! {

/// The two computations that a trace can record.
#[derive(Clone, Copy, Debug, PartialEq, Eq, Structural)]
pub enum Computation {
    /// Four columns: the distance of two bounds that move towards each other.
    ConvergingBounds,
    /// One column: `x -> x^3 + 42`.
    CubicRecurrence,
}

impl Computation {
    pub open spec fn spec_width(self) -> nat {
        match self {
            Computation::ConvergingBounds => 4,
            Computation::CubicRecurrence => 1,
        }
    }

    pub open spec fn spec_degree(self) -> nat {
        match self {
            Computation::ConvergingBounds => 2,
            Computation::CubicRecurrence => 3,
        }
    }

    /// The number of columns of the computation's trace.
    pub fn width(&self) -> (r: usize)
        ensures
            r == self.spec_width(),
    {
        match self {
            Computation::ConvergingBounds => 4,
            Computation::CubicRecurrence => 1,
        }
    }

    /// The degree of the transition constraint polynomial.
    pub fn constraint_degree(&self) -> (r: usize)
        ensures
            r == self.spec_degree(),
    {
        match self {
            Computation::ConvergingBounds => 2,
            Computation::CubicRecurrence => 3,
        }
    }
}

/// The value that the transition rule gives for column 0 of the next row.
pub open spec fn transition_next(c: Computation, cur: Seq<int>) -> int {
    match c {
        Computation::ConvergingBounds => converge(cur[1], cur[2], cur[3]),
        Computation::CubicRecurrence => cubic_step(cur[0]),
    }
}

/// The value that the transition rule gives for column 0 of the next row,
/// less the value that the next row holds.
pub open spec fn transition_residual(c: Computation, cur: Seq<int>, next: Seq<int>) -> int {
    fsub(transition_next(c, cur), next[0])
}

/// A row of the given width whose cells are canonical field elements.
pub open spec fn valid_row(r: Seq<u128>, width: nat) -> bool {
    r.len() == width && forall|j: int| 0 <= j < r.len() ==> is_felt(#[trigger] r[j] as int)
}

/// A declared equality between a trace cell and a public value.
#[derive(Clone, Copy, Debug, PartialEq, Eq, Structural)]
pub struct BoundaryAssertion {
    pub column: usize,
    pub step: usize,
    pub value: u128,
}

/// The number of boundary assertions of each computation.
pub const NUM_ASSERTIONS: usize = 2;

/// The constraint definition of a computation over a trace of a given length,
/// bound to the public inputs that the proof claims.
#[derive(Clone, Copy, Debug, PartialEq, Eq, Structural)]
pub struct FreshAir {
    pub computation: Computation,
    pub trace_length: usize,
    pub start: u128,
    pub result: u128,
}

impl FreshAir {
    /// Fails when the trace's width is not the computation's, or the trace has no rows.
    pub fn new(
        computation: Computation,
        trace_width: usize,
        trace_length: usize,
        pub_inputs: PublicInputs,
    ) -> (r: Result<FreshAir, ConfigError>)
        ensures
            trace_width != computation.spec_width() ==> r == Err::<FreshAir, ConfigError>(
                ConfigError::WidthMismatch,
            ),
            trace_width == computation.spec_width() && trace_length == 0 ==> r == Err::<
                FreshAir,
                ConfigError,
            >(ConfigError::NoRows),
            trace_width == computation.spec_width() && trace_length > 0 ==> r == Ok::<
                FreshAir,
                ConfigError,
            >(
                (FreshAir {
                    computation,
                    trace_length,
                    start: pub_inputs.start,
                    result: pub_inputs.result,
                }),
            ),
    {
        if trace_width != computation.width() {
            return Err(ConfigError::WidthMismatch);
        }
        if trace_length == 0 {
            return Err(ConfigError::NoRows);
        }
        Ok(FreshAir { computation, trace_length, start: pub_inputs.start, result: pub_inputs.result })
    }

    /// The degree of the single transition constraint.
    pub fn transition_degree(&self) -> (r: usize)
        ensures
            r == self.computation.spec_degree(),
    {
        self.computation.constraint_degree()
    }

    pub fn num_assertions(&self) -> (r: usize)
        ensures
            r == 2,
    {
        NUM_ASSERTIONS
    }

    /// The transition constraint evaluated on two adjacent rows; zero when the
    /// next row follows from the current one.
    pub fn evaluate_transition(&self, current: &Vec<u128>, next: &Vec<u128>) -> (r: u128)
        requires
            valid_row(current@, self.computation.spec_width()),
            valid_row(next@, self.computation.spec_width()),
        ensures
            r == transition_residual(self.computation, ints(current@), ints(next@)),
            is_felt(r as int),
            r == 0 <==> next@[0] == transition_next(self.computation, ints(current@)),
    {
        let claimed = match self.computation {
            Computation::ConvergingBounds => converge_exec(current[1], current[2], current[3]),
            Computation::CubicRecurrence => cubic_step_exec(current[0]),
        };
        proof {
            lemma_fe_is_felt(converge(current@[1] as int, current@[2] as int, current@[3] as int));
            lemma_fe_is_felt(cubic_step(current@[0] as int));
            lemma_fe_is_felt(claimed - next@[0]);
            lemma_fsub_zero(claimed as int, next@[0] as int);
        }
        felt_sub(claimed, next[0])
    }

    /// Column 0 holds `start` at the first row and `result` at the last.
    pub fn get_assertions(&self) -> (r: Vec<BoundaryAssertion>)
        requires
            self.trace_length >= 1,
        ensures
            r@ == seq![
                BoundaryAssertion { column: 0, step: 0, value: self.start },
                BoundaryAssertion { column: 0, step: (self.trace_length - 1) as usize, value: self.result },
            ],
    {
        let last_step = self.trace_length - 1;
        let r = vec![
            BoundaryAssertion { column: 0, step: 0, value: self.start },
            BoundaryAssertion { column: 0, step: last_step, value: self.result },
        ];
        r
    }
}

/// In the converging-bounds trace, every pair of adjacent rows meets the
/// transition constraint: its residual is zero.
pub proof fn lemma_bounds_rows_consistent(arg: InputArg, i: int)
    requires
        0 <= i,
        i + 1 < arg.n,
    ensures
        transition_residual(
            Computation::ConvergingBounds,
            bounds_row(arg.start as int, arg.n as int, i),
            bounds_row(arg.start as int, arg.n as int, i + 1),
        ) == 0,
{
}

/// In the cubic-recurrence trace, each row is the cube of the row before plus 42,
/// so every pair of adjacent rows meets the transition constraint.
pub proof fn lemma_cubic_rows_consistent(arg: InputArg, i: int)
    requires
        0 <= i,
        i + 1 < arg.n,
    ensures
        cubic_trace(arg.start as int, arg.n as int)[i + 1][0] == cubic_step(
            cubic_trace(arg.start as int, arg.n as int)[i][0],
        ),
        transition_residual(
            Computation::CubicRecurrence,
            cubic_trace(arg.start as int, arg.n as int)[i],
            cubic_trace(arg.start as int, arg.n as int)[i + 1],
        ) == 0,
{
    let t = cubic_trace(arg.start as int, arg.n as int);
    assert(t[i + 1][0] == crate::trace::cubic_value(arg.start as int, (i + 1) as nat));
}

} // verus!
