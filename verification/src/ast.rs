//! The parse tree of the markup language. Each node kind has an executable
//! form (with byte vectors) and a mathematical mirror (with byte sequences);
//! the view functions relate the two.

use vstd::prelude::*;

verus! {

/// A mathematical expression, as the grammar's precedence chain produces it:
/// sums contain products, products contain powers, powers contain primaries.
/// A parenthesized subexpression appears directly as its inner sum.
pub enum MathExpr {
    Sum(Vec<MathExpr>),
    Product(Vec<MathExpr>),
    Power(Vec<MathExpr>),
    Number(Vec<u8>),
    Ident(Vec<u8>),
    MatrixUse(Vec<u8>),
    Fraction(Vec<Vec<u8>>),
}

/// The mathematical mirror of `MathExpr`.
pub enum SpecMathExpr {
    Sum(Seq<SpecMathExpr>),
    Product(Seq<SpecMathExpr>),
    Power(Seq<SpecMathExpr>),
    Number(Seq<u8>),
    Ident(Seq<u8>),
    MatrixUse(Seq<u8>),
    Fraction(Seq<Seq<u8>>),
}

pub open spec fn view_math(e: MathExpr) -> SpecMathExpr
    decreases e,
{
    match e {
        MathExpr::Sum(v) => SpecMathExpr::Sum(view_math_list(v@)),
        MathExpr::Product(v) => SpecMathExpr::Product(view_math_list(v@)),
        MathExpr::Power(v) => SpecMathExpr::Power(view_math_list(v@)),
        MathExpr::Number(t) => SpecMathExpr::Number(t@),
        MathExpr::Ident(t) => SpecMathExpr::Ident(t@),
        MathExpr::MatrixUse(t) => SpecMathExpr::MatrixUse(t@),
        MathExpr::Fraction(ts) => SpecMathExpr::Fraction(ts.deep_view()),
    }
}

pub open spec fn view_math_list(v: Seq<MathExpr>) -> Seq<SpecMathExpr>
    decreases v,
{
    if v.len() == 0 {
        Seq::<SpecMathExpr>::empty()
    } else {
        seq![view_math(v[0])] + view_math_list(v.drop_first())
    }
}

impl View for MathExpr {
    type V = SpecMathExpr;

    open spec fn view(&self) -> SpecMathExpr {
        view_math(*self)
    }
}

pub proof fn lemma_view_math_list_push(v: Seq<MathExpr>, e: MathExpr)
    ensures
        view_math_list(v.push(e)) == view_math_list(v).push(view_math(e)),
    decreases v.len(),
{
    let w = v.push(e);
    assert(w.len() == v.len() + 1);
    if v.len() == 0 {
        assert(w.drop_first() =~= Seq::<MathExpr>::empty());
        assert(view_math_list(w.drop_first()) =~= Seq::<SpecMathExpr>::empty());
        assert(w[0] == e);
        assert(view_math_list(w) == seq![view_math(e)] + Seq::<SpecMathExpr>::empty());
        assert(view_math_list(v) =~= Seq::<SpecMathExpr>::empty());
        assert(view_math_list(w) =~= view_math_list(v).push(view_math(e)));
    } else {
        assert(w.drop_first() =~= v.drop_first().push(e));
        lemma_view_math_list_push(v.drop_first(), e);
        assert(w[0] == v[0]);
        assert(view_math_list(w) == seq![view_math(v[0])] + view_math_list(v.drop_first()).push(
            view_math(e),
        ));
        assert(view_math_list(v) == seq![view_math(v[0])] + view_math_list(v.drop_first()));
        assert(view_math_list(w) =~= view_math_list(v).push(view_math(e)));
    }
}

pub proof fn lemma_view_math_list_len(v: Seq<MathExpr>)
    ensures
        view_math_list(v).len() == v.len(),
        forall|i: int| 0 <= i < v.len() ==> view_math_list(v)[i] == view_math(v[i]),
    decreases v.len(),
{
    if v.len() > 0 {
        lemma_view_math_list_len(v.drop_first());
    }
}

/// The body of a code-interpolation marker.
pub enum CodeExpr {
    /// A bare (possibly dotted) identifier reference.
    IdentRef(Vec<u8>),
    /// A call `name(arg, ...)`; the arguments are kept as trimmed raw texts.
    Call(Vec<u8>, Vec<Vec<u8>>),
    /// Any other expression, kept verbatim (trimmed).
    Raw(Vec<u8>),
}

pub enum SpecCodeExpr {
    IdentRef(Seq<u8>),
    Call(Seq<u8>, Seq<Seq<u8>>),
    Raw(Seq<u8>),
}

impl View for CodeExpr {
    type V = SpecCodeExpr;

    open spec fn view(&self) -> SpecCodeExpr {
        match self {
            CodeExpr::IdentRef(t) => SpecCodeExpr::IdentRef(t@),
            CodeExpr::Call(n, args) => SpecCodeExpr::Call(n@, args.deep_view()),
            CodeExpr::Raw(t) => SpecCodeExpr::Raw(t@),
        }
    }
}

/// One node of the document block, in document order.
pub enum DocNode {
    /// A raw prose span, kept untrimmed.
    Text(Vec<u8>),
    InlineMath(MathExpr),
    NewlineMath(MathExpr),
    CodeOutput(CodeExpr),
}

pub enum SpecDocNode {
    Text(Seq<u8>),
    InlineMath(SpecMathExpr),
    NewlineMath(SpecMathExpr),
    CodeOutput(SpecCodeExpr),
}

impl View for DocNode {
    type V = SpecDocNode;

    open spec fn view(&self) -> SpecDocNode {
        match self {
            DocNode::Text(t) => SpecDocNode::Text(t@),
            DocNode::InlineMath(e) => SpecDocNode::InlineMath(view_math(*e)),
            DocNode::NewlineMath(e) => SpecDocNode::NewlineMath(view_math(*e)),
            DocNode::CodeOutput(c) => SpecDocNode::CodeOutput(c@),
        }
    }
}

/// One item of the setup block.
pub enum SetupItem {
    /// The raw text of a `documentclass(...)` item, keyword included.
    DocumentClass(Vec<u8>),
    /// The raw text of a `title(...)` item.
    Title(Vec<u8>),
    /// The raw text of an `author(...)` item.
    Author(Vec<u8>),
    /// The verbatim body of an embedded code region.
    CodeRegion(Vec<u8>),
    /// A literal matrix definition: name and rows of element texts.
    MatrixDef(Vec<u8>, Vec<Vec<Vec<u8>>>),
    /// A scalar definition: name and trimmed value text.
    VarDef(Vec<u8>, Vec<u8>),
}

pub enum SpecSetupItem {
    DocumentClass(Seq<u8>),
    Title(Seq<u8>),
    Author(Seq<u8>),
    CodeRegion(Seq<u8>),
    MatrixDef(Seq<u8>, Seq<Seq<Seq<u8>>>),
    VarDef(Seq<u8>, Seq<u8>),
}

impl View for SetupItem {
    type V = SpecSetupItem;

    open spec fn view(&self) -> SpecSetupItem {
        match self {
            SetupItem::DocumentClass(t) => SpecSetupItem::DocumentClass(t@),
            SetupItem::Title(t) => SpecSetupItem::Title(t@),
            SetupItem::Author(t) => SpecSetupItem::Author(t@),
            SetupItem::CodeRegion(t) => SpecSetupItem::CodeRegion(t@),
            SetupItem::MatrixDef(n, rows) => SpecSetupItem::MatrixDef(n@, rows.deep_view()),
            SetupItem::VarDef(n, v) => SpecSetupItem::VarDef(n@, v@),
        }
    }
}

/// The whole parse tree: the setup items followed by the document nodes.
pub struct ParsedFile {
    pub setup: Vec<SetupItem>,
    pub document: Vec<DocNode>,
}

} // verus!
