use vstd::prelude::*;

verus! {

/// A lexeme of the language. Positions are byte offsets into the lexed text.
///
/// A number literal keeps its text (for instance `-1.5e3`); turning that text into a
/// floating-point value is left to the user of the library.
#[derive(Debug)]
pub enum Lexeme {
    LParen { index: usize },
    RParen { index: usize },
    Comma { index: usize },
    SemiColon { index: usize },
    Float { value: String, start: usize, end: usize },
    Symbol { value: String, start: usize, end: usize },
    ColonSymbol { value: String, start: usize, end: usize },
}

/// A top-level item: a function definition or an expression.
#[derive(Debug)]
pub enum DefOrExpr {
    Expr(Expr),
    FnDef(FnDef),
}

/// A function definition `fn name(p1, p2, ...) body;`.
#[derive(Debug)]
pub struct FnDef {
    pub name: String,
    pub params: Vec<String>,
    pub body: Expr,
    pub l_start: usize,
    pub l_end: usize,
}

/// An expression. `l_start` and `l_end` are positions in the lexeme sequence.
#[derive(Debug)]
pub enum Expr {
    TupleCons { params: Vec<Expr>, l_start: usize, l_end: usize },
    Float { value: String, l_start: usize, l_end: usize },
    Symbol { value: String, l_start: usize, l_end: usize },
    Var { value: String, l_start: usize, l_end: usize },
    Call { fn_expr: Box<Expr>, params: Vec<Expr>, l_start: usize, l_end: usize },
}

/// A pattern. `l_start` and `l_end` are positions in the lexeme sequence.
#[derive(Debug)]
pub enum Pat {
    Float { value: String, l_start: usize, l_end: usize },
    Symbol { value: String, l_start: usize, l_end: usize },
    UnboundVariable { value: String, l_start: usize, l_end: usize },
    Tuple { params: Vec<Pat>, l_start: usize, l_end: usize },
}

/// A value of the intermediate language.
#[derive(Debug)]
pub enum IlData {
    Float(String),
    Symbol(String),
    String(String),
    Tuple(Vec<IlData>),
    List(Vec<IlData>),
    Pattern(IlPat),
    Code(Vec<Il>),
}

/// A pattern of the intermediate language.
#[derive(Debug)]
pub enum IlPat {
    Float(String),
    Symbol(String),
    UnboundVariable(String),
    Tuple(Vec<IlPat>),
}

/// An instruction of the intermediate language.
#[derive(Debug)]
pub enum Il {
    Push(IlData),
    TupleCons(usize),
    Match,
    Print,
    Def,
}

/// Errors of compilation.
///
/// Compilation of the supported constructs never fails: no function of the library
/// produces a value of this type. It has one variant because an enum without variants
/// cannot be reasoned about here.
#[derive(Debug)]
pub enum CompileError {
    Unsupported,
}

/// Why a parser did not produce a result.
#[derive(Debug, PartialEq, Eq, Structural)]
pub enum ParseError {
    /// The input does not match at this point; the input is left where it was.
    Error,
    /// A step that had to succeed did not (the end of the text was not reached).
    Fatal,
}

// ----------------------------------------------------------------------------------------
// Mathematical models
// ----------------------------------------------------------------------------------------

pub enum SpecLexeme {
    LParen { index: usize },
    RParen { index: usize },
    Comma { index: usize },
    SemiColon { index: usize },
    Float { value: Seq<char>, start: usize, end: usize },
    Symbol { value: Seq<char>, start: usize, end: usize },
    ColonSymbol { value: Seq<char>, start: usize, end: usize },
}

pub enum SpecExpr {
    TupleCons { params: Seq<SpecExpr>, l_start: usize, l_end: usize },
    Float { value: Seq<char>, l_start: usize, l_end: usize },
    Symbol { value: Seq<char>, l_start: usize, l_end: usize },
    Var { value: Seq<char>, l_start: usize, l_end: usize },
    Call { fn_expr: Box<SpecExpr>, params: Seq<SpecExpr>, l_start: usize, l_end: usize },
}

pub struct SpecFnDef {
    pub name: Seq<char>,
    pub params: Seq<Seq<char>>,
    pub body: SpecExpr,
    pub l_start: usize,
    pub l_end: usize,
}

pub enum SpecDefOrExpr {
    Expr(SpecExpr),
    FnDef(SpecFnDef),
}

pub enum SpecPat {
    Float { value: Seq<char>, l_start: usize, l_end: usize },
    Symbol { value: Seq<char>, l_start: usize, l_end: usize },
    UnboundVariable { value: Seq<char>, l_start: usize, l_end: usize },
    Tuple { params: Seq<SpecPat>, l_start: usize, l_end: usize },
}

pub enum SpecIlData {
    Float(Seq<char>),
    Symbol(Seq<char>),
    String(Seq<char>),
    Tuple(Seq<SpecIlData>),
    List(Seq<SpecIlData>),
    Pattern(SpecIlPat),
    Code(Seq<SpecIl>),
}

pub enum SpecIlPat {
    Float(Seq<char>),
    Symbol(Seq<char>),
    UnboundVariable(Seq<char>),
    Tuple(Seq<SpecIlPat>),
}

pub enum SpecIl {
    Push(SpecIlData),
    TupleCons(nat),
    Match,
    Print,
    Def,
}

impl View for Lexeme {
    type V = SpecLexeme;

    open spec fn view(&self) -> SpecLexeme {
        match *self {
            Lexeme::LParen { index } => SpecLexeme::LParen { index },
            Lexeme::RParen { index } => SpecLexeme::RParen { index },
            Lexeme::Comma { index } => SpecLexeme::Comma { index },
            Lexeme::SemiColon { index } => SpecLexeme::SemiColon { index },
            Lexeme::Float { value, start, end } => SpecLexeme::Float { value: value@, start, end },
            Lexeme::Symbol { value, start, end } => SpecLexeme::Symbol { value: value@, start, end },
            Lexeme::ColonSymbol { value, start, end } => SpecLexeme::ColonSymbol {
                value: value@,
                start,
                end,
            },
        }
    }
}

/// The models of a sequence of lexemes.
pub open spec fn lexemes_view(s: Seq<Lexeme>) -> Seq<SpecLexeme> {
    s.map_values(|l: Lexeme| l@)
}

pub open spec fn expr_view(e: Expr) -> SpecExpr
    decreases e,
{
    match e {
        Expr::TupleCons { params, l_start, l_end } => SpecExpr::TupleCons {
            params: Seq::new(
                params@.len(),
                |i: int|
                    if 0 <= i < params@.len() {
                        expr_view(params@[i])
                    } else {
                        SpecExpr::TupleCons { params: seq![], l_start: 0, l_end: 0 }
                    },
            ),
            l_start,
            l_end,
        },
        Expr::Float { value, l_start, l_end } => SpecExpr::Float { value: value@, l_start, l_end },
        Expr::Symbol { value, l_start, l_end } => SpecExpr::Symbol { value: value@, l_start, l_end },
        Expr::Var { value, l_start, l_end } => SpecExpr::Var { value: value@, l_start, l_end },
        Expr::Call { fn_expr, params, l_start, l_end } => SpecExpr::Call {
            fn_expr: Box::new(expr_view(*fn_expr)),
            params: Seq::new(
                params@.len(),
                |i: int|
                    if 0 <= i < params@.len() {
                        expr_view(params@[i])
                    } else {
                        SpecExpr::TupleCons { params: seq![], l_start: 0, l_end: 0 }
                    },
            ),
            l_start,
            l_end,
        },
    }
}

impl View for Expr {
    type V = SpecExpr;

    open spec fn view(&self) -> SpecExpr {
        expr_view(*self)
    }
}

/// The models of a sequence of expressions.
pub open spec fn exprs_view(s: Seq<Expr>) -> Seq<SpecExpr> {
    s.map_values(|e: Expr| e@)
}

/// The models of a sequence of strings.
pub open spec fn strings_view(s: Seq<String>) -> Seq<Seq<char>> {
    s.map_values(|x: String| x@)
}

impl View for FnDef {
    type V = SpecFnDef;

    open spec fn view(&self) -> SpecFnDef {
        SpecFnDef {
            name: self.name@,
            params: strings_view(self.params@),
            body: self.body@,
            l_start: self.l_start,
            l_end: self.l_end,
        }
    }
}

impl View for DefOrExpr {
    type V = SpecDefOrExpr;

    open spec fn view(&self) -> SpecDefOrExpr {
        match *self {
            DefOrExpr::Expr(e) => SpecDefOrExpr::Expr(e@),
            DefOrExpr::FnDef(d) => SpecDefOrExpr::FnDef(d@),
        }
    }
}

/// The models of a sequence of top-level items.
pub open spec fn items_view(s: Seq<DefOrExpr>) -> Seq<SpecDefOrExpr> {
    s.map_values(|x: DefOrExpr| x@)
}

pub open spec fn pat_view(p: Pat) -> SpecPat
    decreases p,
{
    match p {
        Pat::Float { value, l_start, l_end } => SpecPat::Float { value: value@, l_start, l_end },
        Pat::Symbol { value, l_start, l_end } => SpecPat::Symbol { value: value@, l_start, l_end },
        Pat::UnboundVariable { value, l_start, l_end } => SpecPat::UnboundVariable {
            value: value@,
            l_start,
            l_end,
        },
        Pat::Tuple { params, l_start, l_end } => SpecPat::Tuple {
            params: Seq::new(
                params@.len(),
                |i: int|
                    if 0 <= i < params@.len() {
                        pat_view(params@[i])
                    } else {
                        SpecPat::Tuple { params: seq![], l_start: 0, l_end: 0 }
                    },
            ),
            l_start,
            l_end,
        },
    }
}

impl View for Pat {
    type V = SpecPat;

    open spec fn view(&self) -> SpecPat {
        pat_view(*self)
    }
}

/// The models of a sequence of patterns.
pub open spec fn pats_view(s: Seq<Pat>) -> Seq<SpecPat> {
    s.map_values(|p: Pat| p@)
}

pub open spec fn il_pat_view(p: IlPat) -> SpecIlPat
    decreases p,
{
    match p {
        IlPat::Float(v) => SpecIlPat::Float(v@),
        IlPat::Symbol(v) => SpecIlPat::Symbol(v@),
        IlPat::UnboundVariable(v) => SpecIlPat::UnboundVariable(v@),
        IlPat::Tuple(ps) => SpecIlPat::Tuple(
            Seq::new(
                ps@.len(),
                |i: int|
                    if 0 <= i < ps@.len() {
                        il_pat_view(ps@[i])
                    } else {
                        SpecIlPat::Tuple(seq![])
                    },
            ),
        ),
    }
}

impl View for IlPat {
    type V = SpecIlPat;

    open spec fn view(&self) -> SpecIlPat {
        il_pat_view(*self)
    }
}

pub open spec fn il_data_view(d: IlData) -> SpecIlData
    decreases d,
{
    match d {
        IlData::Float(v) => SpecIlData::Float(v@),
        IlData::Symbol(v) => SpecIlData::Symbol(v@),
        IlData::String(v) => SpecIlData::String(v@),
        IlData::Tuple(ds) => SpecIlData::Tuple(
            Seq::new(
                ds@.len(),
                |i: int|
                    if 0 <= i < ds@.len() {
                        il_data_view(ds@[i])
                    } else {
                        SpecIlData::Tuple(seq![])
                    },
            ),
        ),
        IlData::List(ds) => SpecIlData::List(
            Seq::new(
                ds@.len(),
                |i: int|
                    if 0 <= i < ds@.len() {
                        il_data_view(ds@[i])
                    } else {
                        SpecIlData::Tuple(seq![])
                    },
            ),
        ),
        IlData::Pattern(p) => SpecIlData::Pattern(p@),
        IlData::Code(is) => SpecIlData::Code(
            Seq::new(
                is@.len(),
                |i: int|
                    if 0 <= i < is@.len() {
                        il_view(is@[i])
                    } else {
                        SpecIl::Match
                    },
            ),
        ),
    }
}

pub open spec fn il_view(i: Il) -> SpecIl
    decreases i,
{
    match i {
        Il::Push(d) => SpecIl::Push(il_data_view(d)),
        Il::TupleCons(n) => SpecIl::TupleCons(n as nat),
        Il::Match => SpecIl::Match,
        Il::Print => SpecIl::Print,
        Il::Def => SpecIl::Def,
    }
}

impl View for IlData {
    type V = SpecIlData;

    open spec fn view(&self) -> SpecIlData {
        il_data_view(*self)
    }
}

impl View for Il {
    type V = SpecIl;

    open spec fn view(&self) -> SpecIl {
        il_view(*self)
    }
}

/// The models of a sequence of values.
pub open spec fn il_datas_view(s: Seq<IlData>) -> Seq<SpecIlData> {
    s.map_values(|d: IlData| d@)
}

/// The models of a sequence of instructions.
pub open spec fn ils_view(s: Seq<Il>) -> Seq<SpecIl> {
    s.map_values(|i: Il| i@)
}

/// The model of a tuple or a call holds the models of its parameters.
pub proof fn lemma_expr_view(e: Expr)
    ensures
        match e {
            Expr::TupleCons { params, l_start, l_end } => e@ == SpecExpr::TupleCons {
                params: exprs_view(params@),
                l_start,
                l_end,
            },
            Expr::Call { fn_expr, params, l_start, l_end } => e@ == SpecExpr::Call {
                fn_expr: Box::new(fn_expr@),
                params: exprs_view(params@),
                l_start,
                l_end,
            },
            _ => true,
        },
{
    match e {
        Expr::TupleCons { params, l_start, l_end } => {
            assert(e@->TupleCons_params =~= exprs_view(params@));
        },
        Expr::Call { fn_expr, params, l_start, l_end } => {
            assert(e@->Call_params =~= exprs_view(params@));
        },
        _ => {},
    }
}

/// The model of a tuple pattern holds the models of its parameters.
pub proof fn lemma_pat_view(p: Pat)
    ensures
        match p {
            Pat::Tuple { params, l_start, l_end } => p@ == SpecPat::Tuple {
                params: pats_view(params@),
                l_start,
                l_end,
            },
            _ => true,
        },
{
    match p {
        Pat::Tuple { params, l_start, l_end } => {
            assert(p@->Tuple_params =~= pats_view(params@));
        },
        _ => {},
    }
}

/// The model of a tuple, a list or code holds the models of its parts.
pub proof fn lemma_il_data_view(d: IlData)
    ensures
        match d {
            IlData::Tuple(ds) => d@ == SpecIlData::Tuple(il_datas_view(ds@)),
            IlData::List(ds) => d@ == SpecIlData::List(il_datas_view(ds@)),
            IlData::Code(is) => d@ == SpecIlData::Code(ils_view(is@)),
            _ => true,
        },
{
    match d {
        IlData::Tuple(ds) => {
            assert(d@->Tuple_0 =~= il_datas_view(ds@));
        },
        IlData::List(ds) => {
            assert(d@->List_0 =~= il_datas_view(ds@));
        },
        IlData::Code(is) => {
            assert(d@->Code_0 =~= ils_view(is@));
        },
        _ => {},
    }
}

} // verus!
