use lala::error::LalaError;
use lala::error::ValueKind;
use lala::linalg::Matrix;
use lala::parser::AstNode;
use lala::parser::DyadicVerb;
use lala::parser::MonadicVerb;
use lala::scalar::Scalar;
use lala::types::construct_matrix;
use lala::types::matrix_text;
use lala::types::param_labels;
use lala::types::LalaType;

fn double(x: f64) -> AstNode {
    AstNode::DoublePrecisionFloat(Scalar::from_bits(x.to_bits()))
}

fn at(m: &Matrix, r: usize, c: usize) -> f64 {
    f64::from_bits(m.get(r, c).to_bits())
}

#[test]
fn literal_becomes_a_row_major_matrix() {
    let v = vec![
        vec![AstNode::Integer(1), double(2.5), AstNode::Integer(-3)],
        vec![double(-0.125), AstNode::Integer(i32::MAX), AstNode::Integer(i32::MIN)],
    ];
    let m = construct_matrix(&v).unwrap();
    assert_eq!(m.rows(), 2);
    assert_eq!(m.cols(), 3);
    assert_eq!(at(&m, 0, 0), 1.0);
    assert_eq!(at(&m, 0, 1), 2.5);
    assert_eq!(at(&m, 0, 2), -3.0);
    assert_eq!(at(&m, 1, 0), -0.125);
    assert_eq!(at(&m, 1, 1), 2147483647.0);
    assert_eq!(at(&m, 1, 2), -2147483648.0);
}

#[test]
fn literal_with_a_cell_that_is_no_number_fails() {
    let v = vec![vec![AstNode::Integer(1), AstNode::Ident("x".to_string())]];
    assert_eq!(construct_matrix(&v).unwrap_err(), LalaError::InvalidMatrixCell);
    let nested = vec![vec![AstNode::Matrix(vec![vec![AstNode::Integer(1)]])]];
    assert_eq!(construct_matrix(&nested).unwrap_err(), LalaError::InvalidMatrixCell);
}

#[test]
fn literal_without_a_shape_fails() {
    assert_eq!(construct_matrix(&vec![]).unwrap_err(), LalaError::DimensionMismatch);
    let short = vec![vec![AstNode::Integer(1), AstNode::Integer(2)], vec![AstNode::Integer(3)]];
    assert_eq!(construct_matrix(&short).unwrap_err(), LalaError::DimensionMismatch);
    let long = vec![vec![AstNode::Integer(1)], vec![AstNode::Integer(2), AstNode::Integer(3)]];
    assert_eq!(construct_matrix(&long).unwrap_err(), LalaError::DimensionMismatch);
}

#[test]
fn shape_is_looked_at_before_the_cells() {
    let v = vec![vec![AstNode::Ident("x".to_string())], vec![]];
    assert_eq!(construct_matrix(&v).unwrap_err(), LalaError::DimensionMismatch);
}

#[test]
fn literal_of_rows_without_cells() {
    let m = construct_matrix(&vec![vec![], vec![]]).unwrap();
    assert_eq!(m.rows(), 2);
    assert_eq!(m.cols(), 0);
}

#[test]
fn verbs_have_names() {
    assert_eq!(MonadicVerb::Rank.to_string(), "matrix rank");
    assert_eq!(MonadicVerb::Inverse.to_string(), "matrix inverse");
    assert_eq!(MonadicVerb::RREF.to_string(), "matrix rref");
    assert_eq!(MonadicVerb::Transpose.to_string(), "matrix transpose");
    assert_eq!(MonadicVerb::Determinant.to_string(), "matrix determinant");
    assert_eq!(DyadicVerb::Dot.to_string(), "dot product");
    assert_eq!(DyadicVerb::Plus.to_string(), "matrix addition");
    assert_eq!(DyadicVerb::Times.to_string(), "matrix multiplication");
}

#[test]
fn values_know_their_kind() {
    assert_eq!(LalaType::Integer(1).kind(), ValueKind::Integer);
    assert_eq!(LalaType::Double(Scalar::zero()).kind(), ValueKind::Double);
    assert_eq!(LalaType::Matrix(Matrix::new(1, 1)).kind(), ValueKind::Matrix);
    assert_eq!(LalaType::Fun(("f".to_string(), vec![], vec![])).kind(), ValueKind::Function);
}

#[test]
fn a_cloned_function_keeps_its_parts() {
    let value = LalaType::Fun((
        "f".to_string(),
        vec![AstNode::Ident("a".to_string())],
        vec![
            AstNode::Assignment {
                ident: "b".to_string(),
                expr: Box::new(AstNode::Matrix(vec![vec![AstNode::Integer(1), double(2.0)]])),
            },
            AstNode::Command(("link".to_string(), vec!["x".to_string()])),
            AstNode::Terms(vec![AstNode::Integer(1)]),
        ],
    ));
    assert_eq!(format!("{:?}", value.clone()), format!("{:?}", value));
}

#[test]
fn parameters_are_listed_by_name() {
    let params = vec![
        AstNode::Ident("a".to_string()),
        AstNode::Integer(1),
        AstNode::Ident("rows".to_string()),
    ];
    assert_eq!(
        param_labels(&params),
        vec!["a ".to_string(), "_".to_string(), "rows ".to_string()]
    );
    assert!(param_labels(&vec![]).is_empty());
}

#[test]
fn matrix_is_laid_out_row_by_row() {
    let cells: Vec<String> =
        ["1.00", "2.00", "3.00", "-4.50", "5.25", "6.00"].iter().map(|s| s.to_string()).collect();
    assert_eq!(
        matrix_text(2, 3, &cells).unwrap(),
        "[1.00 2.00 3.00]\n[-4.50 5.25 6.00]\n"
    );
    assert_eq!(matrix_text(3, 2, &cells).unwrap(), "[1.00 2.00]\n[3.00 -4.50]\n[5.25 6.00]\n");
    assert_eq!(matrix_text(1, 1, &vec!["7.00".to_string()]).unwrap(), "[7.00]\n");
    assert_eq!(matrix_text(0, 3, &vec![]).unwrap(), "");
    assert_eq!(matrix_text(2, 0, &vec![]).unwrap(), "[]\n[]\n");
}

#[test]
fn layout_wants_exactly_one_text_per_cell() {
    let cells: Vec<String> = ["1", "2", "3"].iter().map(|s| s.to_string()).collect();
    assert!(matrix_text(2, 2, &cells).is_none());
    assert!(matrix_text(usize::MAX, 2, &cells).is_none());
}

#[test]
fn integers_are_written_in_decimal() {
    for &i in [0, 7, -7, 10, 99, 100, -1203, 2147483647, -2147483647, i32::MIN].iter() {
        assert_eq!(lala::types::integer_text(i), i.to_string());
    }
    assert_eq!(lala::types::integer_text(-2147483648), "-2147483648");
}

#[test]
fn values_show_with_their_doubles_written_out() {
    assert_eq!(LalaType::Integer(-42).fmt(&vec![]).unwrap(), "-42");
    assert_eq!(LalaType::Integer(5).fmt(&vec!["ignored".to_string()]).unwrap(), "5");
    let half = LalaType::Double(Scalar::from_bits(0.5f64.to_bits()));
    assert_eq!(half.fmt(&vec!["0.5".to_string()]).unwrap(), "0.5");
    assert!(half.fmt(&vec![]).is_none());
    assert!(half.fmt(&vec!["0.5".to_string(), "1".to_string()]).is_none());
    let m = LalaType::Matrix(Matrix::new(2, 2));
    let cells: Vec<String> = vec!["0.00".to_string(); 4];
    assert_eq!(m.fmt(&cells).unwrap(), "[0.00 0.00]\n[0.00 0.00]\n");
    assert!(m.fmt(&vec![]).is_none());
}

#[test]
fn a_function_shows_its_name_and_parameters() {
    let fun = LalaType::Fun((
        "f".to_string(),
        vec![AstNode::Ident("a".to_string()), AstNode::Ident("b".to_string())],
        vec![AstNode::Ident("a".to_string())],
    ));
    let expected = format!("FUN f\nparams: [{:?}]\n", vec!["a ".to_string(), "b ".to_string()]);
    assert_eq!(fun.fmt(&vec![]).unwrap(), expected);
    assert_eq!(fun.fmt(&vec![]).unwrap(), "FUN f\nparams: [[\"a \", \"b \"]]\n");
    let odd = LalaType::Fun(("g".to_string(), vec![AstNode::Integer(1)], vec![]));
    assert_eq!(odd.fmt(&vec![]).unwrap(), "FUN g\nparams: [[\"_\"]]\n");
}
