//! From the tree of grammar matches to the syntax tree.
//!
//! A `Pair` is one match of a grammar rule: the rule, the text it spans and
//! the matches inside it. The functions here turn such a tree into an
//! `AstNode`, or into nothing where the tree has a shape that the grammar
//! does not give.

use crate::error::LalaError;
use crate::parser::node_models;
use crate::parser::row_models;
use crate::parser::AstNode;
use crate::parser::DyadicVerb;
use crate::parser::MonadicVerb;
use crate::parser::NodeModel;
use crate::scalar::Scalar;
use vstd::prelude::*;

verus! {

/// The rules of the grammar.
#[derive(PartialEq, Eq, Debug, Clone, Copy, Structural)]
pub enum Rule {
    Program,
    Expr,
    Command,
    Monadic,
    Dyadic,
    Assn,
    Ident,
    Terms,
    Matrix,
    FunDecl,
    App,
    Integer,
    Decimal,
    /// Any rule that stands for no node of its own.
    Other,
}

/// One match of a rule.
#[derive(Debug)]
pub struct Pair {
    /// The rule that matched.
    pub rule: Rule,
    /// The text that the match spans.
    pub text: String,
    /// Where the rule is `Decimal`: the double nearest to the number that
    /// the text writes, or nothing if it writes none.
    pub number: Option<Scalar>,
    /// The matches inside this one, in order.
    pub inner: Vec<Pair>,
}

/// What a `Pair` says, over mathematical sequences.
pub struct PairModel {
    pub rule: Rule,
    pub text: Seq<char>,
    pub number: Option<Scalar>,
    pub inner: Seq<PairModel>,
}

/// The model of a match.
pub open spec fn pair_model(pair: Pair) -> PairModel
    decreases pair,
{
    PairModel {
        rule: pair.rule,
        text: pair.text@,
        number: pair.number,
        inner: pair_models(pair.inner),
    }
}

/// The models of a list of matches, in order.
pub open spec fn pair_models(pairs: Vec<Pair>) -> Seq<PairModel>
    decreases pairs,
{
    Seq::new(
        pairs.len() as nat,
        |i: int|
            if 0 <= i < pairs.len() {
                pair_model(pairs[i])
            } else {
                PairModel { rule: Rule::Other, text: Seq::empty(), number: None, inner: Seq::empty() }
            },
    )
}

impl View for Pair {
    type V = PairModel;

    open spec fn view(&self) -> PairModel {
        pair_model(*self)
    }
}

/// The value of a decimal digit.
pub open spec fn digit_value(c: char) -> Option<int> {
    if '0' <= c && c <= '9' {
        Some(c as int - '0' as int)
    } else {
        None
    }
}

/// The number that a string of decimal digits writes; the empty string
/// writes zero.
pub open spec fn digits_value(digits: Seq<char>) -> Option<int>
    decreases digits.len(),
{
    if digits.len() == 0 {
        Some(0)
    } else {
        match (digits_value(digits.drop_last()), digit_value(digits.last())) {
            (Some(front), Some(last)) => Some(10 * front + last),
            _ => None,
        }
    }
}

/// The integer that a literal writes: an optional minus sign, then at least
/// one digit, the digits writing a number no larger than `i32::MAX`.
pub open spec fn int_literal(text: Seq<char>) -> Option<int> {
    let negative = text.len() > 0 && text[0] == '-';
    let digits = if negative {
        text.subrange(1, text.len() as int)
    } else {
        text
    };
    if digits.len() == 0 {
        None
    } else {
        match digits_value(digits) {
            Some(value) => if value <= i32::MAX {
                Some(
                    if negative {
                        -value
                    } else {
                        value
                    },
                )
            } else {
                None
            },
            None => None,
        }
    }
}

/// The double that a decimal literal denotes: the number it writes, with a
/// zero always positive.
pub open spec fn decimal_literal(number: Option<Scalar>) -> Option<Scalar> {
    match number {
        Some(x) => Some(
            if x.spec_is_zero() {
                Scalar::spec_zero()
            } else {
                x
            },
        ),
        None => None,
    }
}

/// The unary operator that a symbol writes.
pub open spec fn monadic_verb(symbol: Seq<char>) -> Option<MonadicVerb> {
    if symbol == "#"@ {
        Some(MonadicVerb::Rank)
    } else if symbol == "?"@ {
        Some(MonadicVerb::Inverse)
    } else if symbol == "rref"@ {
        Some(MonadicVerb::RREF)
    } else if symbol == "%"@ {
        Some(MonadicVerb::Transpose)
    } else if symbol == "det"@ {
        Some(MonadicVerb::Determinant)
    } else {
        None
    }
}

/// The binary operator that a symbol writes.
pub open spec fn dyadic_verb(symbol: Seq<char>) -> Option<DyadicVerb> {
    if symbol == "@"@ {
        Some(DyadicVerb::Dot)
    } else if symbol == "++"@ {
        Some(DyadicVerb::Plus)
    } else if symbol == "**"@ {
        Some(DyadicVerb::Times)
    } else {
        None
    }
}

/// The texts of a list of matches, in order.
pub open spec fn texts(pairs: Seq<PairModel>) -> Seq<Seq<char>> {
    Seq::new(pairs.len(), |i: int| pairs[i].text)
}

/// The node of a term: an integer literal, a decimal literal, or an
/// expression.
pub open spec fn term_node(pair: PairModel) -> Option<NodeModel>
    decreases pair, 1nat,
{
    match pair.rule {
        Rule::Integer => match int_literal(pair.text) {
            Some(value) => Some(NodeModel::Integer(value)),
            None => None,
        },
        Rule::Decimal => match decimal_literal(pair.number) {
            Some(value) => Some(NodeModel::Double(value)),
            None => None,
        },
        Rule::Expr => expr_node(pair),
        _ => None,
    }
}

/// The nodes of the first `k` of a list of terms, if every one of them has
/// one.
pub open spec fn term_nodes(pairs: Seq<PairModel>, k: nat) -> Option<Seq<NodeModel>>
    decreases pairs, k,
{
    if k == 0 || k > pairs.len() {
        Some(Seq::empty())
    } else {
        match (term_nodes(pairs, (k - 1) as nat), term_node(pairs[k - 1])) {
            (Some(front), Some(node)) => Some(front.push(node)),
            _ => None,
        }
    }
}

/// The nodes of the first `k` of a list of expressions, if every one of
/// them has one.
pub open spec fn expr_nodes(pairs: Seq<PairModel>, k: nat) -> Option<Seq<NodeModel>>
    decreases pairs, k,
{
    if k == 0 || k > pairs.len() {
        Some(Seq::empty())
    } else {
        match (expr_nodes(pairs, (k - 1) as nat), expr_node(pairs[k - 1])) {
            (Some(front), Some(node)) => Some(front.push(node)),
            _ => None,
        }
    }
}

/// The rows of cells of the first `k` rows of a matrix, if every cell has a
/// node.
pub open spec fn row_nodes(rows: Seq<PairModel>, k: nat) -> Option<Seq<Seq<NodeModel>>>
    decreases rows, k,
{
    if k == 0 || k > rows.len() {
        Some(Seq::empty())
    } else {
        match (
            row_nodes(rows, (k - 1) as nat),
            term_nodes(rows[k - 1].inner, rows[k - 1].inner.len()),
        ) {
            (Some(front), Some(cells)) => Some(front.push(cells)),
            _ => None,
        }
    }
}

/// The parameters among the first `k` matches of a parameter list: those
/// that are names; anything else is passed over.
pub open spec fn param_nodes(pairs: Seq<PairModel>, k: nat) -> Seq<NodeModel>
    decreases pairs, k,
{
    if k == 0 || k > pairs.len() {
        Seq::empty()
    } else {
        let front = param_nodes(pairs, (k - 1) as nat);
        match expr_node(pairs[k - 1]) {
            Some(NodeModel::Ident(name)) => front.push(NodeModel::Ident(name)),
            _ => front,
        }
    }
}

/// The node of an expression, a command or a declaration.
pub open spec fn expr_node(pair: PairModel) -> Option<NodeModel>
    decreases pair, 0nat,
{
    let inner = pair.inner;
    match pair.rule {
        Rule::Expr => if inner.len() < 1 {
            None
        } else {
            expr_node(inner[0])
        },
        Rule::Command => if inner.len() < 1 {
            None
        } else if inner[0].text == "dbg"@ {
            Some(NodeModel::Command(inner[0].text, Seq::empty()))
        } else if inner.len() < 2 {
            None
        } else {
            Some(NodeModel::Command(inner[0].text, texts(inner[1].inner)))
        },
        Rule::Monadic => if inner.len() < 2 {
            None
        } else {
            match (expr_node(inner[1]), monadic_verb(inner[0].text)) {
                (Some(operand), Some(verb)) => Some(
                    NodeModel::MonadicOp { verb, expr: Box::new(operand) },
                ),
                _ => None,
            }
        },
        Rule::Dyadic => if inner.len() < 3 {
            None
        } else {
            match (expr_node(inner[0]), expr_node(inner[2]), dyadic_verb(inner[1].text)) {
                (Some(lhs), Some(rhs), Some(verb)) => Some(
                    NodeModel::DyadicOp { verb, lhs: Box::new(lhs), rhs: Box::new(rhs) },
                ),
                _ => None,
            }
        },
        Rule::Assn => if inner.len() < 2 {
            None
        } else {
            match expr_node(inner[1]) {
                Some(value) => Some(
                    NodeModel::Assignment { ident: inner[0].text, expr: Box::new(value) },
                ),
                None => None,
            }
        },
        Rule::Ident => Some(NodeModel::Ident(pair.text)),
        Rule::Terms => match term_nodes(inner, inner.len()) {
            Some(terms) => Some(
                if terms.len() == 1 {
                    terms[0]
                } else {
                    NodeModel::Terms(terms)
                },
            ),
            None => None,
        },
        Rule::Matrix => match row_nodes(inner, inner.len()) {
            Some(rows) => Some(NodeModel::Matrix(rows)),
            None => None,
        },
        Rule::FunDecl => if inner.len() < 3 {
            None
        } else {
            match expr_nodes(inner[2].inner, inner[2].inner.len()) {
                Some(body) => Some(
                    NodeModel::Fun(
                        inner[0].text,
                        param_nodes(inner[1].inner, inner[1].inner.len()),
                        body,
                    ),
                ),
                None => None,
            }
        },
        Rule::App => if inner.len() < 1 {
            None
        } else {
            match expr_nodes(inner.subrange(1, inner.len() as int), (inner.len() - 1) as nat) {
                Some(args) => Some(NodeModel::App(inner[0].text, args)),
                None => None,
            }
        },
        _ => None,
    }
}

/// The nodes of the first `k` matches of a program: declarations and
/// expressions give one node each, anything else gives none.
pub open spec fn program_nodes(pairs: Seq<PairModel>, k: nat) -> Option<Seq<NodeModel>>
    decreases k,
{
    if k == 0 || k > pairs.len() {
        Some(Seq::empty())
    } else {
        match program_nodes(pairs, (k - 1) as nat) {
            None => None,
            Some(front) => if pairs[k - 1].rule == Rule::FunDecl || pairs[k - 1].rule == Rule::Expr {
                match expr_node(pairs[k - 1]) {
                    Some(node) => Some(front.push(node)),
                    None => None,
                }
            } else {
                Some(front)
            },
        }
    }
}

/// A node, as a model.
pub open spec fn node_option(r: Option<AstNode>) -> Option<NodeModel> {
    match r {
        Some(node) => Some(node@),
        None => None,
    }
}

/// A list of nodes, as a model.
pub open spec fn nodes_option(r: Option<Vec<AstNode>>) -> Option<Seq<NodeModel>> {
    match r {
        Some(nodes) => Some(node_models(nodes)),
        None => None,
    }
}

/// A string of digits writes no negative number.
pub proof fn lemma_digits_nonnegative(digits: Seq<char>)
    ensures
        digits_value(digits) matches Some(v) ==> v >= 0,
    decreases digits.len(),
{
    if digits.len() > 0 {
        lemma_digits_nonnegative(digits.drop_last());
    }
}

/// Where a string of digits writes a number, each of its prefixes writes
/// one that is no larger; where a prefix writes none, neither does the
/// string.
pub proof fn lemma_digits_prefix(digits: Seq<char>, k: int)
    requires
        0 <= k <= digits.len(),
    ensures
        match digits_value(digits.subrange(0, k)) {
            Some(u) => digits_value(digits) matches Some(v) ==> u <= v,
            None => digits_value(digits) is None,
        },
    decreases digits.len() - k,
{
    if k == digits.len() {
        assert(digits.subrange(0, k) =~= digits);
    } else {
        let front = digits.drop_last();
        lemma_digits_prefix(front, k);
        assert(front.subrange(0, k) =~= digits.subrange(0, k));
        lemma_digits_nonnegative(front);
    }
}

/// Once a term has no node, the list has none.
pub proof fn lemma_term_failure_stays(pairs: Seq<PairModel>, k: nat, n: nat)
    requires
        k <= n <= pairs.len(),
        term_nodes(pairs, k) is None,
    ensures
        term_nodes(pairs, n) is None,
    decreases n - k,
{
    if k < n {
        lemma_term_failure_stays(pairs, k, (n - 1) as nat);
    }
}

/// Once an expression has no node, the list has none.
pub proof fn lemma_expr_failure_stays(pairs: Seq<PairModel>, k: nat, n: nat)
    requires
        k <= n <= pairs.len(),
        expr_nodes(pairs, k) is None,
    ensures
        expr_nodes(pairs, n) is None,
    decreases n - k,
{
    if k < n {
        lemma_expr_failure_stays(pairs, k, (n - 1) as nat);
    }
}

/// Once a row has no nodes, the matrix has none.
pub proof fn lemma_row_failure_stays(rows: Seq<PairModel>, k: nat, n: nat)
    requires
        k <= n <= rows.len(),
        row_nodes(rows, k) is None,
    ensures
        row_nodes(rows, n) is None,
    decreases n - k,
{
    if k < n {
        lemma_row_failure_stays(rows, k, (n - 1) as nat);
    }
}

/// Once a statement has no node, the program has none.
pub proof fn lemma_program_failure_stays(pairs: Seq<PairModel>, k: nat, n: nat)
    requires
        k <= n <= pairs.len(),
        program_nodes(pairs, k) is None,
    ensures
        program_nodes(pairs, n) is None,
    decreases n - k,
{
    if k < n {
        lemma_program_failure_stays(pairs, k, (n - 1) as nat);
    }
}

/// Reads an integer literal.
pub fn parse_integer(text: &String) -> (r: Option<i32>)
    ensures
        match r {
            Some(value) => int_literal(text@) == Some(value as int),
            None => int_literal(text@) is None,
        },
{
    let s = text.as_str();
    let n: usize = s.unicode_len();
    if n == 0 {
        return None;
    }
    let negative: bool = s.get_char(0) == '-';
    let start: usize = if negative {
        1
    } else {
        0
    };
    if start == n {
        return None;
    }
    let ghost digits = text@.subrange(start as int, n as int);
    let mut acc: i64 = 0;
    let mut i: usize = start;
    assert(text@.subrange(start as int, start as int) =~= Seq::<char>::empty());
    while i < n
        invariant
            start <= i <= n,
            n == text@.len(),
            s@ == text@,
            negative == (text@[0] == '-'),
            start == (if negative {
                1int
            } else {
                0int
            }),
            start < n,
            digits == text@.subrange(start as int, n as int),
            digits_value(text@.subrange(start as int, i as int)) == Some(acc as int),
            0 <= acc <= i32::MAX,
        decreases n - i,
    {
        let c = s.get_char(i);
        let ghost next = text@.subrange(start as int, i + 1);
        proof {
            assert(text@.subrange(0, n as int) =~= text@);
            assert(next.drop_last() =~= text@.subrange(start as int, i as int));
            assert(next.last() == c);
            assert(next =~= digits.subrange(0, i + 1 - start));
            lemma_digits_prefix(digits, i + 1 - start);
        }
        if c < '0' || c > '9' {
            return None;
        }
        let d: i64 = (c as u32 - '0' as u32) as i64;
        acc = acc * 10 + d;
        if acc > 0x7fff_ffff {
            return None;
        }
        i += 1;
    }
    assert(text@.subrange(start as int, n as int) =~= digits);
    assert(text@.subrange(0, n as int) =~= text@);
    if negative {
        Some((-acc) as i32)
    } else {
        Some(acc as i32)
    }
}

/// The node of a term.
pub fn build_ast_from_term(pair: &Pair) -> (r: Option<AstNode>)
    ensures
        node_option(r) == term_node(pair@),
    decreases pair, 1nat,
{
    match pair.rule {
        Rule::Integer => match parse_integer(&pair.text) {
            Some(value) => Some(AstNode::Integer(value)),
            None => None,
        },
        Rule::Decimal => match pair.number {
            Some(x) => Some(
                AstNode::DoublePrecisionFloat(
                    if x.is_zero() {
                        Scalar::zero()
                    } else {
                        x
                    },
                ),
            ),
            None => None,
        },
        Rule::Expr => build_ast_from_expr(pair),
        _ => None,
    }
}

/// The operator node that a symbol and an operand make.
pub fn parse_monadic_verb(pair: &Pair, expr: AstNode) -> (r: Option<AstNode>)
    ensures
        node_option(r) == match monadic_verb(pair@.text) {
            Some(verb) => Some(NodeModel::MonadicOp { verb, expr: Box::new(expr@) }),
            None => None,
        },
{
    let verb = if pair.text == "#".to_owned() {
        MonadicVerb::Rank
    } else if pair.text == "?".to_owned() {
        MonadicVerb::Inverse
    } else if pair.text == "rref".to_owned() {
        MonadicVerb::RREF
    } else if pair.text == "%".to_owned() {
        MonadicVerb::Transpose
    } else if pair.text == "det".to_owned() {
        MonadicVerb::Determinant
    } else {
        return None;
    };
    Some(AstNode::MonadicOp { verb, expr: Box::new(expr) })
}

/// The operator node that a symbol and two operands make.
pub fn parse_dyadic_verb(pair: &Pair, lhs: AstNode, rhs: AstNode) -> (r: Option<AstNode>)
    ensures
        node_option(r) == match dyadic_verb(pair@.text) {
            Some(verb) => Some(
                NodeModel::DyadicOp { verb, lhs: Box::new(lhs@), rhs: Box::new(rhs@) },
            ),
            None => None,
        },
{
    let verb = if pair.text == "@".to_owned() {
        DyadicVerb::Dot
    } else if pair.text == "++".to_owned() {
        DyadicVerb::Plus
    } else if pair.text == "**".to_owned() {
        DyadicVerb::Times
    } else {
        return None;
    };
    Some(AstNode::DyadicOp { lhs: Box::new(lhs), rhs: Box::new(rhs), verb })
}

/// The command node that a command's name and its parameters make.
pub fn parse_cmd(cmd: &Pair, cmd_params: Option<&Vec<Pair>>) -> (r: Option<AstNode>)
    ensures
        node_option(r) == Some(
            NodeModel::Command(
                cmd@.text,
                match cmd_params {
                    Some(params) => texts(pair_models(*params)),
                    None => Seq::empty(),
                },
            ),
        ),
{
    let mut params: Vec<String> = Vec::new();
    match cmd_params {
        Some(given) => {
            let mut i: usize = 0;
            while i < given.len()
                invariant
                    i <= given.len(),
                    params@.len() == i,
                    forall|k: int| 0 <= k < i ==> (#[trigger] params@[k])@ == given@[k].text@,
                decreases given.len() - i,
            {
                params.push(given[i].text.clone());
                i += 1;
            }
            assert(crate::parser::names_model(params) =~= texts(pair_models(*given)));
        },
        None => {
            assert(crate::parser::names_model(params) =~= Seq::<Seq<char>>::empty());
        },
    }
    Some(AstNode::Command((cmd.text.clone(), params)))
}

/// The nodes of a list of terms.
fn build_terms(pairs: &Vec<Pair>) -> (r: Option<Vec<AstNode>>)
    ensures
        nodes_option(r) == term_nodes(pair_models(*pairs), pairs.len() as nat),
    decreases pairs, 2nat,
{
    let ghost models = pair_models(*pairs);
    let mut terms: Vec<AstNode> = Vec::new();
    let mut i: usize = 0;
    assert(node_models(terms) =~= Seq::<NodeModel>::empty());
    while i < pairs.len()
        invariant
            i <= pairs.len(),
            models == pair_models(*pairs),
            term_nodes(models, i as nat) == Some(node_models(terms)),
        decreases pairs.len() - i,
    {
        assert(decreases_to!(*pairs => pairs[i as int]));
        let ghost before = node_models(terms);
        match build_ast_from_term(&pairs[i]) {
            Some(term) => {
                terms.push(term);
                assert(node_models(terms) =~= before.push(term@));
            },
            None => {
                proof {
                    assert(term_nodes(models, (i + 1) as nat) is None);
                    lemma_term_failure_stays(models, (i + 1) as nat, pairs.len() as nat);
                }
                return None;
            },
        }
        i += 1;
    }
    Some(terms)
}

/// The nodes of the expressions in a list from index `from` on.
fn build_exprs(pairs: &Vec<Pair>, from: usize) -> (r: Option<Vec<AstNode>>)
    requires
        from <= pairs.len(),
    ensures
        nodes_option(r) == expr_nodes(
            pair_models(*pairs).subrange(from as int, pairs.len() as int),
            (pairs.len() - from) as nat,
        ),
    decreases pairs, 2nat,
{
    let ghost models = pair_models(*pairs).subrange(from as int, pairs.len() as int);
    let mut nodes: Vec<AstNode> = Vec::new();
    let mut i: usize = from;
    assert(node_models(nodes) =~= Seq::<NodeModel>::empty());
    while i < pairs.len()
        invariant
            from <= i <= pairs.len(),
            models == pair_models(*pairs).subrange(from as int, pairs.len() as int),
            expr_nodes(models, (i - from) as nat) == Some(node_models(nodes)),
        decreases pairs.len() - i,
    {
        assert(decreases_to!(*pairs => pairs[i as int]));
        assert(models[i - from] == pairs[i as int]@);
        let ghost before = node_models(nodes);
        match build_ast_from_expr(&pairs[i]) {
            Some(node) => {
                nodes.push(node);
                assert(node_models(nodes) =~= before.push(node@));
            },
            None => {
                proof {
                    assert(expr_nodes(models, (i + 1 - from) as nat) is None);
                    lemma_expr_failure_stays(
                        models,
                        (i + 1 - from) as nat,
                        (pairs.len() - from) as nat,
                    );
                }
                return None;
            },
        }
        i += 1;
    }
    Some(nodes)
}

/// The names among the matches of a parameter list.
fn build_params(pairs: &Vec<Pair>) -> (params: Vec<AstNode>)
    ensures
        node_models(params) == param_nodes(pair_models(*pairs), pairs.len() as nat),
    decreases pairs, 2nat,
{
    let ghost models = pair_models(*pairs);
    let mut params: Vec<AstNode> = Vec::new();
    let mut i: usize = 0;
    assert(node_models(params) =~= Seq::<NodeModel>::empty());
    while i < pairs.len()
        invariant
            i <= pairs.len(),
            models == pair_models(*pairs),
            param_nodes(models, i as nat) == node_models(params),
        decreases pairs.len() - i,
    {
        assert(decreases_to!(*pairs => pairs[i as int]));
        let ghost before = node_models(params);
        match build_ast_from_expr(&pairs[i]) {
            Some(AstNode::Ident(id)) => {
                let param = AstNode::Ident(id);
                params.push(param);
                assert(node_models(params) =~= before.push(param@));
            },
            _ => {},
        }
        i += 1;
    }
    params
}

/// The rows of cells of a matrix.
fn build_rows(rows: &Vec<Pair>) -> (r: Option<Vec<Vec<AstNode>>>)
    ensures
        match r {
            Some(mat) => row_nodes(pair_models(*rows), rows.len() as nat) == Some(row_models(mat)),
            None => row_nodes(pair_models(*rows), rows.len() as nat) is None,
        },
    decreases rows, 3nat,
{
    let ghost models = pair_models(*rows);
    let mut mat: Vec<Vec<AstNode>> = Vec::new();
    let mut i: usize = 0;
    assert(row_models(mat) =~= Seq::<Seq<NodeModel>>::empty());
    while i < rows.len()
        invariant
            i <= rows.len(),
            models == pair_models(*rows),
            row_nodes(models, i as nat) == Some(row_models(mat)),
        decreases rows.len() - i,
    {
        assert(decreases_to!(*rows => rows[i as int]));
        let row = &rows[i];
        assert(decreases_to!(*row => row.inner));
        let ghost before = row_models(mat);
        match build_terms(&row.inner) {
            Some(terms) => {
                mat.push(terms);
                assert(row_models(mat) =~= before.push(node_models(terms)));
            },
            None => {
                proof {
                    assert(row_nodes(models, (i + 1) as nat) is None);
                    lemma_row_failure_stays(models, (i + 1) as nat, rows.len() as nat);
                }
                return None;
            },
        }
        i += 1;
    }
    Some(mat)
}

/// The node of an expression, a command or a declaration.
pub fn build_ast_from_expr(pair: &Pair) -> (r: Option<AstNode>)
    ensures
        node_option(r) == expr_node(pair@),
    decreases pair, 0nat,
{
    let inner = &pair.inner;
    let ghost models = pair_models(*inner);
    assert(pair@.inner == models);
    match pair.rule {
        Rule::Expr => {
            if inner.len() < 1 {
                return None;
            }
            build_ast_from_expr(&inner[0])
        },
        Rule::Command => {
            if inner.len() < 1 {
                return None;
            }
            let cmd = &inner[0];
            if cmd.text == "dbg".to_owned() {
                return parse_cmd(cmd, None);
            }
            if inner.len() < 2 {
                return None;
            }
            parse_cmd(cmd, Some(&inner[1].inner))
        },
        Rule::Monadic => {
            if inner.len() < 2 {
                return None;
            }
            let op = match build_ast_from_expr(&inner[1]) {
                Some(op) => op,
                None => {
                    return None;
                },
            };
            parse_monadic_verb(&inner[0], op)
        },
        Rule::Dyadic => {
            if inner.len() < 3 {
                return None;
            }
            let lhs = match build_ast_from_expr(&inner[0]) {
                Some(lhs) => lhs,
                None => {
                    return None;
                },
            };
            let rhs = match build_ast_from_expr(&inner[2]) {
                Some(rhs) => rhs,
                None => {
                    return None;
                },
            };
            parse_dyadic_verb(&inner[1], lhs, rhs)
        },
        Rule::Assn => {
            if inner.len() < 2 {
                return None;
            }
            let expr = match build_ast_from_expr(&inner[1]) {
                Some(expr) => expr,
                None => {
                    return None;
                },
            };
            Some(AstNode::Assignment { ident: inner[0].text.clone(), expr: Box::new(expr) })
        },
        Rule::Ident => Some(AstNode::Ident(pair.text.clone())),
        Rule::Terms => {
            let mut terms = match build_terms(inner) {
                Some(terms) => terms,
                None => {
                    return None;
                },
            };
            if terms.len() == 1 {
                terms.pop()
            } else {
                Some(AstNode::Terms(terms))
            }
        },
        Rule::Matrix => match build_rows(inner) {
            Some(mat) => Some(AstNode::Matrix(mat)),
            None => None,
        },
        Rule::FunDecl => {
            if inner.len() < 3 {
                return None;
            }
            let params = build_params(&inner[1].inner);
            assert(pair_models(inner[2].inner).subrange(0, inner[2].inner.len() as int)
                =~= pair_models(inner[2].inner));
            let parsed_body = match build_exprs(&inner[2].inner, 0) {
                Some(body) => body,
                None => {
                    return None;
                },
            };
            Some(AstNode::Fun((inner[0].text.clone(), params, parsed_body)))
        },
        Rule::App => {
            if inner.len() < 1 {
                return None;
            }
            match build_exprs(inner, 1) {
                Some(parsed_params) => Some(AstNode::App((inner[0].text.clone(), parsed_params))),
                None => None,
            }
        },
        _ => None,
    }
}

/// The statements of a program: one node for each declaration and each
/// expression among the matches, in order.
pub fn parse(pairs: &Vec<Pair>) -> (r: Result<Vec<AstNode>, LalaError>)
    ensures
        match r {
            Ok(ast) => program_nodes(pair_models(*pairs), pairs.len() as nat) == Some(
                node_models(ast),
            ),
            Err(e) => e == LalaError::ParseFailure && program_nodes(
                pair_models(*pairs),
                pairs.len() as nat,
            ) is None,
        },
{
    let ghost models = pair_models(*pairs);
    let mut ast: Vec<AstNode> = Vec::new();
    let mut i: usize = 0;
    assert(node_models(ast) =~= Seq::<NodeModel>::empty());
    while i < pairs.len()
        invariant
            i <= pairs.len(),
            models == pair_models(*pairs),
            program_nodes(models, i as nat) == Some(node_models(ast)),
        decreases pairs.len() - i,
    {
        let pair = &pairs[i];
        let ghost before = node_models(ast);
        match pair.rule {
            Rule::FunDecl | Rule::Expr => {
                match build_ast_from_expr(pair) {
                    Some(node) => {
                        ast.push(node);
                        assert(node_models(ast) =~= before.push(node@));
                    },
                    None => {
                        proof {
                            assert(program_nodes(models, (i + 1) as nat) is None);
                            lemma_program_failure_stays(
                                models,
                                (i + 1) as nat,
                                pairs.len() as nat,
                            );
                        }
                        return Err(LalaError::ParseFailure);
                    },
                }
            },
            _ => {},
        }
        i += 1;
    }
    Ok(ast)
}

} // verus!
