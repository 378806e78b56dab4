//! The calculator around the engine: one request in, one answer out.

use crate::determinant::determinant_of;
use crate::elimination::{rank_of, reduced};
use crate::grid::transposed;
use crate::inverse::inverse_of;
use crate::matrix::Matrix;
use crate::scalar::Scalar;
use vstd::prelude::*;

verus! {

/// A request: the operation to perform and the matrix to perform it on.
#[derive(Debug)]
pub enum Msg {
    Reduce(Matrix),
    Invert(Matrix),
    Determinant(Matrix),
    Transpose(Matrix),
    Rank(Matrix),
}

/// What the calculator currently shows.
#[derive(Debug)]
pub enum AnswerState {
    /// A matrix result.
    Exists(Matrix),
    /// A scalar result.
    Scalar(Scalar),
    /// A count.
    USize(usize),
    /// The request has no answer: the matrix is not square, or is singular.
    DoesNotExist,
    /// Nothing has been asked yet.
    Empty,
}

/// The calculator: it holds the answer to the latest request.
#[derive(Debug)]
pub struct MatrixCalc {
    pub state: AnswerState,
}

impl Msg {
    /// The matrix that the request is about.
    pub open spec fn operand(self) -> Matrix {
        match self {
            Msg::Reduce(m) => m,
            Msg::Invert(m) => m,
            Msg::Determinant(m) => m,
            Msg::Transpose(m) => m,
            Msg::Rank(m) => m,
        }
    }
}

/// Whether `state` is the answer to `msg`.
pub open spec fn answers(msg: Msg, state: AnswerState) -> bool {
    let m = msg.operand();
    let rows = m.rows as int;
    let cols = m.cols as int;
    match (msg, state) {
        (Msg::Reduce(_), AnswerState::Exists(r)) => {
            &&& r.wf()
            &&& r.rows == m.rows
            &&& r.cols == m.cols
            &&& r@ == reduced(m@, rows, cols)
        },
        (Msg::Transpose(_), AnswerState::Exists(r)) => {
            &&& r.wf()
            &&& r.rows == m.cols
            &&& r.cols == m.rows
            &&& r@ == transposed(m@, rows, cols)
        },
        (Msg::Invert(_), AnswerState::Exists(r)) => {
            &&& r.wf()
            &&& m.rows == m.cols
            &&& r.rows == m.rows
            &&& r.cols == m.cols
            &&& inverse_of(m@, rows) == Some(r@)
        },
        (Msg::Invert(_), AnswerState::DoesNotExist) => m.rows != m.cols || inverse_of(m@, rows)
            is None,
        (Msg::Determinant(_), AnswerState::Scalar(d)) => m.rows == m.cols && d == determinant_of(
            m@,
            rows,
        ),
        (Msg::Determinant(_), AnswerState::DoesNotExist) => m.rows != m.cols,
        (Msg::Rank(_), AnswerState::USize(n)) => n == rank_of(m@, rows, cols),
        _ => false,
    }
}

impl MatrixCalc {
    /// A calculator that has not been asked anything yet.
    pub fn create() -> (calc: MatrixCalc)
        ensures
            calc.state is Empty,
    {
        MatrixCalc { state: AnswerState::Empty }
    }

    /// Performs the request and stores its answer. Returns `true`: the
    /// answer has changed and should be shown again.
    pub fn update(&mut self, msg: Msg) -> (redraw: bool)
        requires
            msg.operand().wf(),
        ensures
            redraw,
            answers(msg, final(self).state),
    {
        match msg {
            Msg::Reduce(m) => {
                let mut reduced = m.clone();
                reduced.echelon_form();
                self.state = AnswerState::Exists(reduced);
            },
            Msg::Transpose(m) => {
                self.state = AnswerState::Exists(m.transpose());
            },
            Msg::Invert(m) => {
                match m.inverse() {
                    Some(inv) => {
                        self.state = AnswerState::Exists(inv);
                    },
                    None => {
                        self.state = AnswerState::DoesNotExist;
                    },
                }
            },
            Msg::Determinant(m) => {
                match m.determinant() {
                    Some(det) => {
                        self.state = AnswerState::Scalar(det);
                    },
                    None => {
                        self.state = AnswerState::DoesNotExist;
                    },
                }
            },
            Msg::Rank(m) => {
                self.state = AnswerState::USize(m.rank());
            },
        }
        true
    }
}

} // verus!
