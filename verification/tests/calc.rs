use matrix_engine::{AnswerState, Matrix, MatrixCalc, Msg, Scalar};

fn num_of(v: f64) -> Scalar {
    Scalar::from_bits(v.to_bits())
}

fn grid(rows: usize, cols: usize, values: &[f64]) -> Matrix {
    let mut m = Matrix::new(rows, cols);
    m.load_from_vector(values.iter().map(|v| num_of(*v)).collect());
    m
}

#[test]
fn a_new_calculator_is_empty() {
    let calc = MatrixCalc::create();
    assert!(matches!(calc.state, AnswerState::Empty));
}

#[test]
fn reduce_answers_with_the_reduced_matrix() {
    let mut calc = MatrixCalc::create();
    assert!(calc.update(Msg::Reduce(grid(2, 2, &[2.0, 4.0, 1.0, 3.0]))));
    match calc.state {
        AnswerState::Exists(m) => assert_eq!(m, Matrix::identity(2)),
        other => panic!("unexpected answer {:?}", other),
    }
}

#[test]
fn transpose_answers_with_the_transpose() {
    let mut calc = MatrixCalc::create();
    assert!(calc.update(Msg::Transpose(grid(1, 3, &[1.0, 2.0, 3.0]))));
    match calc.state {
        AnswerState::Exists(m) => assert_eq!(m, grid(3, 1, &[1.0, 2.0, 3.0])),
        other => panic!("unexpected answer {:?}", other),
    }
}

#[test]
fn invert_answers_with_the_inverse_or_its_absence() {
    let mut calc = MatrixCalc::create();
    assert!(calc.update(Msg::Invert(grid(2, 2, &[2.0, 0.0, 0.0, 4.0]))));
    match &calc.state {
        AnswerState::Exists(m) => assert_eq!(*m, grid(2, 2, &[0.5, 0.0, 0.0, 0.25])),
        other => panic!("unexpected answer {:?}", other),
    }
    assert!(calc.update(Msg::Invert(grid(2, 2, &[1.0, 1.0, 1.0, 1.0]))));
    assert!(matches!(calc.state, AnswerState::DoesNotExist));
    assert!(calc.update(Msg::Invert(grid(1, 2, &[1.0, 1.0]))));
    assert!(matches!(calc.state, AnswerState::DoesNotExist));
}

#[test]
fn determinant_answers_with_a_scalar_or_its_absence() {
    let mut calc = MatrixCalc::create();
    assert!(calc.update(Msg::Determinant(grid(2, 2, &[1.0, 2.0, 3.0, 4.0]))));
    match calc.state {
        AnswerState::Scalar(d) => assert_eq!(d, num_of(-2.0)),
        other => panic!("unexpected answer {:?}", other),
    }
    assert!(calc.update(Msg::Determinant(grid(1, 2, &[1.0, 1.0]))));
    assert!(matches!(calc.state, AnswerState::DoesNotExist));
}

#[test]
fn rank_answers_with_a_count() {
    let mut calc = MatrixCalc::create();
    assert!(calc.update(Msg::Rank(grid(2, 2, &[1.0, 1.0, 1.0, 1.0]))));
    assert!(matches!(calc.state, AnswerState::USize(1)));
    assert!(calc.update(Msg::Rank(Matrix::identity(3))));
    assert!(matches!(calc.state, AnswerState::USize(3)));
}
