//! The values of the language, and how a matrix literal becomes a matrix.

use crate::error::ErrorModel;
use crate::error::LalaError;
use crate::error::ValueKind;
use crate::linalg::Matrix;
use crate::linalg::MatrixModel;
use crate::parser::clone_nodes;
use crate::parser::node_models;
use crate::parser::row_models;
use crate::parser::AstNode;
use crate::parser::DyadicVerb;
use crate::parser::MonadicVerb;
use crate::parser::NodeModel;
use crate::scalar::Scalar;
use vstd::prelude::*;

verus! {

/// A value: an integer, a double, a matrix, or a function with its name,
/// its parameters and its body.
#[derive(Debug)]
pub enum LalaType {
    Integer(i32),
    Double(Scalar),
    Matrix(Matrix),
    Fun((String, Vec<AstNode>, Vec<AstNode>)),
}

/// What a value is, over mathematical sequences.
pub enum ValueModel {
    Integer(int),
    Double(Scalar),
    Matrix(MatrixModel),
    Fun(Seq<char>, Seq<NodeModel>, Seq<NodeModel>),
}

impl View for LalaType {
    type V = ValueModel;

    open spec fn view(&self) -> ValueModel {
        match self {
            LalaType::Integer(i) => ValueModel::Integer(*i as int),
            LalaType::Double(d) => ValueModel::Double(*d),
            LalaType::Matrix(m) => ValueModel::Matrix(m@),
            LalaType::Fun(fun) => ValueModel::Fun(fun.0@, node_models(fun.1), node_models(fun.2)),
        }
    }
}

impl ValueModel {
    /// The dynamic type of the value.
    pub open spec fn kind(self) -> ValueKind {
        match self {
            ValueModel::Integer(_) => ValueKind::Integer,
            ValueModel::Double(_) => ValueKind::Double,
            ValueModel::Matrix(_) => ValueKind::Matrix,
            ValueModel::Fun(_, _, _) => ValueKind::Function,
        }
    }
}

impl LalaType {
    /// The dynamic type of the value.
    pub fn kind(&self) -> (k: ValueKind)
        ensures
            k == self@.kind(),
    {
        match self {
            LalaType::Integer(_) => ValueKind::Integer,
            LalaType::Double(_) => ValueKind::Double,
            LalaType::Matrix(_) => ValueKind::Matrix,
            LalaType::Fun(_) => ValueKind::Function,
        }
    }
}

impl Clone for LalaType {
    /// A copy that is the same value.
    fn clone(&self) -> (copy: LalaType)
        ensures
            copy@ == self@,
    {
        match self {
            LalaType::Integer(i) => LalaType::Integer(*i),
            LalaType::Double(d) => LalaType::Double(*d),
            LalaType::Matrix(m) => LalaType::Matrix(m.clone()),
            LalaType::Fun(fun) => LalaType::Fun(
                (fun.0.clone(), clone_nodes(&fun.1), clone_nodes(&fun.2)),
            ),
        }
    }
}

impl MonadicVerb {
    /// The name of the operation in words.
    pub open spec fn spec_name(self) -> Seq<char> {
        match self {
            MonadicVerb::Rank => "matrix rank"@,
            MonadicVerb::Inverse => "matrix inverse"@,
            MonadicVerb::RREF => "matrix rref"@,
            MonadicVerb::Transpose => "matrix transpose"@,
            MonadicVerb::Determinant => "matrix determinant"@,
        }
    }

    /// The name of the operation in words.
    pub fn to_string(&self) -> (name: String)
        ensures
            name@ == self.spec_name(),
    {
        match self {
            MonadicVerb::Rank => "matrix rank".to_owned(),
            MonadicVerb::Inverse => "matrix inverse".to_owned(),
            MonadicVerb::RREF => "matrix rref".to_owned(),
            MonadicVerb::Transpose => "matrix transpose".to_owned(),
            MonadicVerb::Determinant => "matrix determinant".to_owned(),
        }
    }
}

impl DyadicVerb {
    /// The name of the operation in words.
    pub open spec fn spec_name(self) -> Seq<char> {
        match self {
            DyadicVerb::Dot => "dot product"@,
            DyadicVerb::Plus => "matrix addition"@,
            DyadicVerb::Times => "matrix multiplication"@,
        }
    }

    /// The name of the operation in words.
    pub fn to_string(&self) -> (name: String)
        ensures
            name@ == self.spec_name(),
    {
        match self {
            DyadicVerb::Dot => "dot product".to_owned(),
            DyadicVerb::Plus => "matrix addition".to_owned(),
            DyadicVerb::Times => "matrix multiplication".to_owned(),
        }
    }
}

/// The number that a cell of a matrix literal stands for: an integer
/// literal converts to the nearest double, a double literal is itself, and
/// nothing else is a number.
pub open spec fn cell_value(cell: NodeModel) -> Option<Scalar> {
    match cell {
        NodeModel::Integer(i) => Some(Scalar::spec_from_int(i)),
        NodeModel::Double(d) => Some(d),
        _ => None,
    }
}

/// A literal has at least one row, and all its rows have one length.
pub open spec fn literal_is_rectangular(rows: Seq<Seq<NodeModel>>) -> bool {
    &&& rows.len() > 0
    &&& forall|r: int| 0 <= r < rows.len() ==> (#[trigger] rows[r]).len() == rows[0].len()
}

/// Every cell of the literal is a number.
pub open spec fn literal_is_numeric(rows: Seq<Seq<NodeModel>>) -> bool {
    forall|r: int, c: int|
        0 <= r < rows.len() && 0 <= c < rows[r].len() ==> cell_value(#[trigger] rows[r][c]) is Some
}

/// The matrix that a rectangular, numeric literal denotes.
pub open spec fn literal_matrix(rows: Seq<Seq<NodeModel>>) -> MatrixModel {
    MatrixModel::tabulate(
        rows.len(),
        rows[0].len(),
        |r: int, c: int| cell_value(rows[r][c]).unwrap(),
    )
}

/// What a matrix literal evaluates to. A literal without rows, with rows of
/// different lengths, or with more cells than can be addressed has no shape;
/// otherwise a cell that is not a number literal is an error; otherwise the
/// literal denotes its matrix.
pub open spec fn construct(rows: Seq<Seq<NodeModel>>) -> Result<MatrixModel, ErrorModel> {
    if !literal_is_rectangular(rows) || rows.len() * rows[0].len() > usize::MAX {
        Err(ErrorModel::DimensionMismatch)
    } else if !literal_is_numeric(rows) {
        Err(ErrorModel::InvalidMatrixCell)
    } else {
        Ok(literal_matrix(rows))
    }
}

/// The number that a cell stands for, if it is a number literal.
fn cell_number(cell: &AstNode) -> (value: Option<Scalar>)
    ensures
        value == cell_value(cell@),
{
    match cell {
        AstNode::Integer(i) => Some(Scalar::from_i32(*i)),
        AstNode::DoublePrecisionFloat(d) => Some(*d),
        _ => None,
    }
}

/// Builds the matrix that a matrix literal denotes.
pub fn construct_matrix(v: &Vec<Vec<AstNode>>) -> (r: Result<Matrix, LalaError>)
    ensures
        match r {
            Ok(m) => construct(row_models(*v)) == Ok::<MatrixModel, ErrorModel>(m@),
            Err(e) => construct(row_models(*v)) == Err::<MatrixModel, ErrorModel>(e@),
        },
{
    let ghost model = row_models(*v);
    let rows: usize = v.len();
    if rows == 0 {
        return Err(LalaError::DimensionMismatch);
    }
    let cols: usize = v[0].len();
    let mut r: usize = 0;
    while r < rows
        invariant
            r <= rows,
            rows == v.len(),
            rows > 0,
            cols == v@[0]@.len(),
            model == row_models(*v),
            forall|k: int| 0 <= k < r ==> (#[trigger] model[k]).len() == cols,
        decreases rows - r,
    {
        if v[r].len() != cols {
            assert(model[r as int].len() != model[0].len());
            return Err(LalaError::DimensionMismatch);
        }
        r += 1;
    }
    assert(literal_is_rectangular(model));
    if rows.checked_mul(cols).is_none() {
        return Err(LalaError::DimensionMismatch);
    }
    let mut r: usize = 0;
    while r < rows
        invariant
            r <= rows,
            rows == v.len(),
            model == row_models(*v),
            literal_is_rectangular(model),
            cols == model[0].len(),
            rows * cols <= usize::MAX,
            forall|k: int| 0 <= k < rows ==> (#[trigger] model[k]).len() == cols,
            forall|k: int, c: int|
                0 <= k < r && 0 <= c < cols ==> cell_value(#[trigger] model[k][c]) is Some,
        decreases rows - r,
    {
        let row = &v[r];
        let mut c: usize = 0;
        while c < cols
            invariant
                c <= cols,
                r < rows,
                rows == v.len(),
                row == v@[r as int],
                row@.len() == cols,
                model == row_models(*v),
                literal_is_rectangular(model),
                cols == model[0].len(),
                rows * cols <= usize::MAX,
                forall|k: int| 0 <= k < rows ==> (#[trigger] model[k]).len() == cols,
                forall|k: int, j: int|
                    0 <= k < r && 0 <= j < cols ==> cell_value(#[trigger] model[k][j]) is Some,
                forall|j: int| 0 <= j < c ==> cell_value(#[trigger] model[r as int][j]) is Some,
            decreases cols - c,
        {
            if cell_number(&row[c]).is_none() {
                assert(cell_value(model[r as int][c as int]) is None);
                assert(!literal_is_numeric(model));
                return Err(LalaError::InvalidMatrixCell);
            }
            c += 1;
        }
        r += 1;
    }
    assert(literal_is_numeric(model));
    let entry = |r: usize, c: usize| -> (value: Scalar)
        requires
            r < v.len(),
            c < v@[r as int]@.len(),
            cell_value(v@[r as int]@[c as int]@) is Some,
        ensures
            value == cell_value(v@[r as int]@[c as int]@).unwrap(),
        {
            match cell_number(&v[r][c]) {
                Some(value) => value,
                None => Scalar::zero(),
            }
        };
    assert forall|r: usize, c: usize| r < rows && c < cols implies call_requires(entry, (r, c)) by {
        assert(model[r as int].len() == cols);
        assert(cell_value(model[r as int][c as int]) is Some);
    }
    let m = Matrix::tabulate(rows, cols, entry);
    proof {
        let expected = literal_matrix(model);
        assert forall|r: int, c: int| 0 <= r < m@.rows && 0 <= c < m@.cols implies m@.cells[r][c]
            == expected.cells[r][c] by {
            let ru = r as usize;
            let cu = c as usize;
            assert(call_ensures(entry, (ru, cu), m@.cells[ru as int][cu as int]));
        }
        m@.lemma_ext(expected);
    }
    Ok(m)
}

/// The label under which a parameter is listed: a name followed by a
/// space, or an underscore for what is no name.
pub open spec fn param_label(param: NodeModel) -> Seq<char> {
    match param {
        NodeModel::Ident(name) => name + " "@,
        _ => "_"@,
    }
}

/// The labels of a function's parameters, in order.
pub fn param_labels(params: &Vec<AstNode>) -> (labels: Vec<String>)
    ensures
        labels@.len() == params@.len(),
        forall|i: int|
            0 <= i < params@.len() ==> (#[trigger] labels@[i])@ == param_label(params@[i]@),
{
    let mut labels: Vec<String> = Vec::new();
    let mut i: usize = 0;
    while i < params.len()
        invariant
            i <= params.len(),
            labels@.len() == i,
            forall|k: int| 0 <= k < i ==> (#[trigger] labels@[k])@ == param_label(params@[k]@),
        decreases params.len() - i,
    {
        let label = match &params[i] {
            AstNode::Ident(id) => {
                let mut label = id.clone();
                label.append(" ");
                label
            },
            _ => "_".to_owned(),
        };
        labels.push(label);
        i += 1;
    }
    labels
}

/// The first `k` cells of a row, each but the first with a space before it.
pub open spec fn row_text(cells: Seq<Seq<char>>, k: nat) -> Seq<char>
    decreases k,
{
    if k == 0 {
        Seq::empty()
    } else if k == 1 {
        cells[0]
    } else {
        row_text(cells, (k - 1) as nat) + " "@ + cells[k - 1]
    }
}

/// The first `r` rows of a matrix with `cols` columns whose cells are
/// written out row by row in `cells`: each row between square brackets on a
/// line of its own.
pub open spec fn grid_text(cells: Seq<Seq<char>>, cols: nat, r: nat) -> Seq<char>
    decreases r,
{
    if r == 0 {
        Seq::empty()
    } else {
        grid_text(cells, cols, (r - 1) as nat) + "["@ + row_text(
            cells.subrange((r - 1) * cols, (r * cols) as int),
            cols,
        ) + "]\n"@
    }
}

/// The character sequences of a list of strings.
pub open spec fn string_views(strings: Seq<String>) -> Seq<Seq<char>> {
    Seq::new(strings.len(), |i: int| strings[i]@)
}

/// Lays out a matrix of `rows` by `cols` cells that are already written out,
/// one bracketed row per line, the cells of a row separated by one space.
/// Gives nothing when `cells` does not hold exactly `rows * cols` texts.
pub fn matrix_text(rows: usize, cols: usize, cells: &Vec<String>) -> (text: Option<String>)
    ensures
        text is Some <==> cells@.len() == rows * cols,
        text matches Some(t) ==> t@ == grid_text(string_views(cells@), cols as nat, rows as nat),
{
    match rows.checked_mul(cols) {
        Some(n) => {
            if cells.len() != n {
                return None;
            }
        },
        None => {
            assert(cells.len() == cells@.len());
            return None;
        },
    }
    let ghost views = string_views(cells@);
    let mut out = String::new();
    let mut r: usize = 0;
    while r < rows
        invariant
            r <= rows,
            cells@.len() == rows * cols,
            rows * cols <= usize::MAX,
            views == string_views(cells@),
            out@ == grid_text(views, cols as nat, r as nat),
        decreases rows - r,
    {
        proof {
            assert(r * cols + cols == (r + 1) * cols) by (nonlinear_arith);
            assert((r + 1) * cols <= rows * cols) by (nonlinear_arith)
                requires
                    r + 1 <= rows,
            ;
            assert(0 <= r * cols <= (r + 1) * cols) by (nonlinear_arith);
        }
        let base: usize = r * cols;
        let ghost row = views.subrange(r * cols, (r + 1) * cols);
        let ghost before = out@;
        out.append("[");
        let mut c: usize = 0;
        while c < cols
            invariant
                c <= cols,
                base == r * cols,
                base + cols <= cells@.len(),
                cells@.len() <= usize::MAX,
                views == string_views(cells@),
                row == views.subrange(r * cols, (r + 1) * cols),
                r * cols + cols == (r + 1) * cols,
                out@ == before + "["@ + row_text(row, c as nat),
            decreases cols - c,
        {
            let ghost so_far = out@;
            if c > 0 {
                out.append(" ");
            }
            out.append(cells[base + c].as_str());
            proof {
                assert(row[c as int] == cells@[base + c]@);
                if c == 0 {
                    assert(so_far =~= before + "["@);
                    assert(out@ =~= before + "["@ + row_text(row, 1));
                } else {
                    assert(out@ =~= before + "["@ + row_text(row, (c + 1) as nat));
                }
            }
            c += 1;
        }
        out.append("]\n");
        r += 1;
    }
    Some(out)
}

/// The character that writes a decimal digit.
pub open spec fn digit_char(d: int) -> char {
    if d == 0 {
        '0'
    } else if d == 1 {
        '1'
    } else if d == 2 {
        '2'
    } else if d == 3 {
        '3'
    } else if d == 4 {
        '4'
    } else if d == 5 {
        '5'
    } else if d == 6 {
        '6'
    } else if d == 7 {
        '7'
    } else if d == 8 {
        '8'
    } else {
        '9'
    }
}

/// The decimal digits of a natural number, without leading zeros.
pub open spec fn digits_text(n: nat) -> Seq<char>
    decreases n,
{
    if n < 10 {
        seq![digit_char(n as int)]
    } else {
        digits_text(n / 10).push(digit_char((n % 10) as int))
    }
}

/// The decimal form of an integer: a minus sign where it is negative, then
/// its digits.
pub open spec fn int_text(i: int) -> Seq<char> {
    if i < 0 {
        seq!['-'] + digits_text((-i) as nat)
    } else {
        digits_text(i as nat)
    }
}

/// What `std`'s `Debug` writes for a list of strings.
pub uninterp spec fn debug_text(strings: Seq<Seq<char>>) -> Seq<char>;

/// Formats a list of strings with `std`'s `Debug`, through `format!`. The
/// text that comes back is named `debug_text`; nothing else is claimed of
/// it.
#[verifier::external_body]
fn debug_list(strings: &Vec<String>) -> (text: String)
    ensures
        text@ == debug_text(string_views(strings@)),
{
    format!("{:?}", strings)
}

/// The labels of a function's parameters, in order.
pub open spec fn param_label_texts(params: Seq<NodeModel>) -> Seq<Seq<char>> {
    Seq::new(params.len(), |i: int| param_label(params[i]))
}

/// What a value shows as, where `numbers` holds its doubles written out.
///
/// An integer shows in decimal. A double shows as the one text in
/// `numbers`. A matrix shows its cells, which `numbers` holds row by row,
/// one bracketed row per line. A function shows its name and the list of
/// its parameters. Where `numbers` does not hold one text for each double
/// of the value, there is nothing to show.
pub open spec fn value_text(value: ValueModel, numbers: Seq<Seq<char>>) -> Option<Seq<char>> {
    match value {
        ValueModel::Integer(i) => Some(int_text(i)),
        ValueModel::Double(_) => if numbers.len() == 1 {
            Some(numbers[0])
        } else {
            None
        },
        ValueModel::Matrix(m) => if numbers.len() == m.rows * m.cols {
            Some(grid_text(numbers, m.cols, m.rows))
        } else {
            None
        },
        ValueModel::Fun(name, params, _) => Some(
            "FUN "@ + name + "\nparams: ["@ + debug_text(param_label_texts(params)) + "]\n"@,
        ),
    }
}

/// The text of one decimal digit.
fn digit_str(d: u32) -> (text: &'static str)
    requires
        d < 10,
    ensures
        text@ == seq![digit_char(d as int)],
{
    proof {
        reveal_strlit("0");
        reveal_strlit("1");
        reveal_strlit("2");
        reveal_strlit("3");
        reveal_strlit("4");
        reveal_strlit("5");
        reveal_strlit("6");
        reveal_strlit("7");
        reveal_strlit("8");
        reveal_strlit("9");
    }
    let text = if d == 0 {
        "0"
    } else if d == 1 {
        "1"
    } else if d == 2 {
        "2"
    } else if d == 3 {
        "3"
    } else if d == 4 {
        "4"
    } else if d == 5 {
        "5"
    } else if d == 6 {
        "6"
    } else if d == 7 {
        "7"
    } else if d == 8 {
        "8"
    } else {
        "9"
    };
    assert(text@ =~= seq![digit_char(d as int)]);
    text
}

/// Writes the decimal digits of `n` behind what `out` holds.
fn append_digits(out: &mut String, n: u32)
    ensures
        final(out)@ == old(out)@ + digits_text(n as nat),
    decreases n,
{
    if n >= 10 {
        append_digits(out, n / 10);
    }
    out.append(digit_str(n % 10));
    assert(out@ =~= old(out)@ + digits_text(n as nat));
}

/// The decimal form of an integer.
pub fn integer_text(i: i32) -> (text: String)
    ensures
        text@ == int_text(i as int),
{
    let mut out = String::new();
    if i < 0 {
        proof {
            reveal_strlit("-");
        }
        out.append("-");
        assert(out@ =~= seq!['-']);
        let magnitude: u32 = if i == -0x8000_0000 {
            0x8000_0000
        } else {
            (-i) as u32
        };
        append_digits(&mut out, magnitude);
    } else {
        append_digits(&mut out, i as u32);
        assert(out@ =~= digits_text(i as nat));
    }
    out
}

impl LalaType {
    /// What the value shows as, where `numbers` holds its doubles written
    /// out: the one double of a `Double`, the cells of a `Matrix` row by
    /// row. Gives nothing where `numbers` does not hold exactly those.
    pub fn fmt(&self, numbers: &Vec<String>) -> (text: Option<String>)
        ensures
            match text {
                Some(t) => value_text(self@, string_views(numbers@)) == Some(t@),
                None => value_text(self@, string_views(numbers@)) is None,
            },
    {
        match self {
            LalaType::Integer(i) => Some(integer_text(*i)),
            LalaType::Double(_) => {
                if numbers.len() == 1 {
                    Some(numbers[0].clone())
                } else {
                    None
                }
            },
            LalaType::Matrix(m) => matrix_text(m.rows(), m.cols(), numbers),
            LalaType::Fun(fun) => {
                let labels = param_labels(&fun.1);
                assert(string_views(labels@) =~= param_label_texts(node_models(fun.1)));
                let mut out = "FUN ".to_owned();
                out.append(fun.0.as_str());
                out.append("\nparams: [");
                out.append(debug_list(&labels).as_str());
                out.append("]\n");
                Some(out)
            },
        }
    }
}

} // verus!
