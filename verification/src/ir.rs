//! The intermediate representation of models: expressions, distributions, and declarations.

use vstd::prelude::*;

use crate::error::{malformed, Error};
#[allow(unused_imports)]
use crate::error::{malformed_fault, Fault};
use crate::number::{Number, NumberModel};

verus! {

/// The depth at which the nesting of an expression is refused.
pub const MAX_EXPR_DEPTH: usize = 512;

/// The failure that a too deeply nested expression gets.
pub open spec fn too_deep_fault() -> Fault {
    malformed_fault("expression nesting exceeds the supported depth of 512"@)
}

pub fn expr_too_deep() -> (r: Error)
    ensures
        r@ == too_deep_fault(),
{
    malformed("expression nesting exceeds the supported depth of 512".to_owned())
}

#[derive(Debug, Clone, Copy, PartialEq, Eq, Structural)]
pub enum BinOpKind {
    Add,
    Sub,
    Mul,
    Div,
}

#[derive(Debug, Clone, Copy, PartialEq, Eq, Structural)]
pub enum UnaryFn {
    Exp,
    Neg,
    Sigmoid,
}

/// A deterministic expression.
#[derive(Debug)]
pub enum Expr {
    Param(String),
    Data(String),
    Const(Number),
    Bin { op: BinOpKind, left: Box<Expr>, right: Box<Expr> },
    Unary { function: UnaryFn, operand: Box<Expr> },
    MatVec { matrix: Box<Expr>, vector: Box<Expr> },
    Index { base: Box<Expr>, index: IndexSpec },
    VectorScatter {
        length: Box<Expr>,
        observed_idx: Box<Expr>,
        observed_values: Box<Expr>,
        missing_idx: Box<Expr>,
        missing_values: Box<Expr>,
    },
}

/// How an expression is indexed.
#[derive(Debug)]
pub enum IndexSpec {
    Scalar(Box<Expr>),
    Full,
    Tuple(Vec<IndexSpec>),
}

/// The mathematical content of an [`Expr`].
#[verifier::ext_equal]
pub enum ExprModel {
    Param(Seq<char>),
    Data(Seq<char>),
    Const(NumberModel),
    Bin { op: BinOpKind, left: Box<ExprModel>, right: Box<ExprModel> },
    Unary { function: UnaryFn, operand: Box<ExprModel> },
    MatVec { matrix: Box<ExprModel>, vector: Box<ExprModel> },
    Index { base: Box<ExprModel>, index: IndexModel },
    VectorScatter {
        length: Box<ExprModel>,
        observed_idx: Box<ExprModel>,
        observed_values: Box<ExprModel>,
        missing_idx: Box<ExprModel>,
        missing_values: Box<ExprModel>,
    },
}

/// The mathematical content of an [`IndexSpec`].
#[verifier::ext_equal]
pub enum IndexModel {
    Scalar(Box<ExprModel>),
    Full,
    Tuple(Seq<IndexModel>),
}

pub open spec fn expr_view(e: Expr) -> ExprModel
    decreases e,
{
    match e {
        Expr::Param(name) => ExprModel::Param(name@),
        Expr::Data(name) => ExprModel::Data(name@),
        Expr::Const(value) => ExprModel::Const(value@),
        Expr::Bin { op, left, right } => ExprModel::Bin {
            op,
            left: Box::new(expr_view(*left)),
            right: Box::new(expr_view(*right)),
        },
        Expr::Unary { function, operand } => ExprModel::Unary {
            function,
            operand: Box::new(expr_view(*operand)),
        },
        Expr::MatVec { matrix, vector } => ExprModel::MatVec {
            matrix: Box::new(expr_view(*matrix)),
            vector: Box::new(expr_view(*vector)),
        },
        Expr::Index { base, index } => ExprModel::Index {
            base: Box::new(expr_view(*base)),
            index: index_view(index),
        },
        Expr::VectorScatter {
            length,
            observed_idx,
            observed_values,
            missing_idx,
            missing_values,
        } => ExprModel::VectorScatter {
            length: Box::new(expr_view(*length)),
            observed_idx: Box::new(expr_view(*observed_idx)),
            observed_values: Box::new(expr_view(*observed_values)),
            missing_idx: Box::new(expr_view(*missing_idx)),
            missing_values: Box::new(expr_view(*missing_values)),
        },
    }
}

pub open spec fn index_view(s: IndexSpec) -> IndexModel
    decreases s,
{
    match s {
        IndexSpec::Scalar(e) => IndexModel::Scalar(Box::new(expr_view(*e))),
        IndexSpec::Full => IndexModel::Full,
        IndexSpec::Tuple(items) => IndexModel::Tuple(indices_view(items@)),
    }
}

pub open spec fn indices_view(s: Seq<IndexSpec>) -> Seq<IndexModel>
    decreases s,
{
    if s.len() == 0 {
        Seq::empty()
    } else {
        indices_view(s.drop_last()).push(index_view(s.last()))
    }
}

pub broadcast proof fn lemma_indices_view_len(s: Seq<IndexSpec>)
    ensures
        #[trigger] indices_view(s).len() == s.len(),
    decreases s.len(),
{
    if s.len() > 0 {
        lemma_indices_view_len(s.drop_last());
    }
}

pub broadcast proof fn lemma_indices_view_index(s: Seq<IndexSpec>, i: int)
    requires
        0 <= i < s.len(),
    ensures
        #[trigger] indices_view(s)[i] == s[i]@,
    decreases s.len(),
{
    lemma_indices_view_len(s.drop_last());
    if i < s.len() - 1 {
        lemma_indices_view_index(s.drop_last(), i);
    }
}

pub broadcast group group_ir_views {
    lemma_indices_view_len,
    lemma_indices_view_index,
}

impl View for Expr {
    type V = ExprModel;

    open spec fn view(&self) -> ExprModel {
        expr_view(*self)
    }
}

impl View for IndexSpec {
    type V = IndexModel;

    open spec fn view(&self) -> IndexModel {
        index_view(*self)
    }
}

impl Expr {
    /// An expression with the same content.
    pub fn copy(&self) -> (r: Expr)
        ensures
            r@ == self@,
        decreases self,
    {
        match self {
            Expr::Param(name) => Expr::Param(name.clone()),
            Expr::Data(name) => Expr::Data(name.clone()),
            Expr::Const(value) => Expr::Const(value.copy()),
            Expr::Bin { op, left, right } => Expr::Bin {
                op: *op,
                left: Box::new(left.copy()),
                right: Box::new(right.copy()),
            },
            Expr::Unary { function, operand } => Expr::Unary {
                function: *function,
                operand: Box::new(operand.copy()),
            },
            Expr::MatVec { matrix, vector } => Expr::MatVec {
                matrix: Box::new(matrix.copy()),
                vector: Box::new(vector.copy()),
            },
            Expr::Index { base, index } => Expr::Index {
                base: Box::new(base.copy()),
                index: index.copy(),
            },
            Expr::VectorScatter {
                length,
                observed_idx,
                observed_values,
                missing_idx,
                missing_values,
            } => Expr::VectorScatter {
                length: Box::new(length.copy()),
                observed_idx: Box::new(observed_idx.copy()),
                observed_values: Box::new(observed_values.copy()),
                missing_idx: Box::new(missing_idx.copy()),
                missing_values: Box::new(missing_values.copy()),
            },
        }
    }
}

impl IndexSpec {
    pub fn copy(&self) -> (r: IndexSpec)
        ensures
            r@ == self@,
        decreases self,
    {
        broadcast use group_ir_views;

        match self {
            IndexSpec::Scalar(e) => IndexSpec::Scalar(Box::new(e.copy())),
            IndexSpec::Full => IndexSpec::Full,
            IndexSpec::Tuple(items) => {
                let mut out: Vec<IndexSpec> = Vec::new();
                let mut i: usize = 0;
                while i < items.len()
                    invariant
                        i <= items.len(),
                        out.len() == i,
                        *self == IndexSpec::Tuple(*items),
                        forall|j: int| 0 <= j < i ==> (#[trigger] out@[j])@ == items@[j]@,
                    decreases items.len() - i,
                {
                    proof {
                        assert(decreases_to!(*self => self->Tuple_0));
                        assert(decreases_to!(self->Tuple_0 => self->Tuple_0@));
                        assert(decreases_to!(items@ => items@[i as int]));
                    }
                    out.push(items[i].copy());
                    i += 1;
                }
                assert(indices_view(out@) =~= indices_view(items@));
                IndexSpec::Tuple(out)
            },
        }
    }
}

/// A distribution with its parameters.
#[derive(Debug)]
pub enum Distribution {
    Normal { loc: Expr, scale: Expr },
    HalfNormal { scale: Expr },
    StudentT { df: Expr, loc: Expr, scale: Expr },
    Exponential { rate: Expr },
    Uniform { low: Expr, high: Expr },
    Beta { alpha: Expr, beta: Expr },
    Bernoulli { probs: Expr },
    Poisson { rate: Expr },
    Binomial { total_count: Expr, probs: Expr },
    BetaBinomial { total_count: Expr, alpha: Expr, beta: Expr },
    NegativeBinomial { mean: Expr, overdispersion: Expr },
    MultivariateNormal { mean: Expr, scale_tril: Expr },
    OrderedLogistic { eta: Expr, cutpoints: Expr },
    Truncated { base: Box<Distribution>, lower: Option<Expr>, upper: Option<Expr> },
}

/// The mathematical content of a [`Distribution`].
#[verifier::ext_equal]
pub enum DistModel {
    Normal { loc: ExprModel, scale: ExprModel },
    HalfNormal { scale: ExprModel },
    StudentT { df: ExprModel, loc: ExprModel, scale: ExprModel },
    Exponential { rate: ExprModel },
    Uniform { low: ExprModel, high: ExprModel },
    Beta { alpha: ExprModel, beta: ExprModel },
    Bernoulli { probs: ExprModel },
    Poisson { rate: ExprModel },
    Binomial { total_count: ExprModel, probs: ExprModel },
    BetaBinomial { total_count: ExprModel, alpha: ExprModel, beta: ExprModel },
    NegativeBinomial { mean: ExprModel, overdispersion: ExprModel },
    MultivariateNormal { mean: ExprModel, scale_tril: ExprModel },
    OrderedLogistic { eta: ExprModel, cutpoints: ExprModel },
    Truncated { base: Box<DistModel>, lower: Option<ExprModel>, upper: Option<ExprModel> },
}

/// The view of an optional expression.
pub open spec fn optional_expr(e: Option<Expr>) -> Option<ExprModel> {
    match e {
        Some(found) => Some(found@),
        None => None,
    }
}

pub open spec fn dist_view(d: Distribution) -> DistModel
    decreases d,
{
    match d {
        Distribution::Normal { loc, scale } => DistModel::Normal { loc: loc@, scale: scale@ },
        Distribution::HalfNormal { scale } => DistModel::HalfNormal { scale: scale@ },
        Distribution::StudentT { df, loc, scale } => DistModel::StudentT { df: df@, loc: loc@, scale: scale@ },
        Distribution::Exponential { rate } => DistModel::Exponential { rate: rate@ },
        Distribution::Uniform { low, high } => DistModel::Uniform { low: low@, high: high@ },
        Distribution::Beta { alpha, beta } => DistModel::Beta { alpha: alpha@, beta: beta@ },
        Distribution::Bernoulli { probs } => DistModel::Bernoulli { probs: probs@ },
        Distribution::Poisson { rate } => DistModel::Poisson { rate: rate@ },
        Distribution::Binomial { total_count, probs } => DistModel::Binomial { total_count: total_count@, probs: probs@ },
        Distribution::BetaBinomial { total_count, alpha, beta } => DistModel::BetaBinomial { total_count: total_count@, alpha: alpha@, beta: beta@ },
        Distribution::NegativeBinomial { mean, overdispersion } => DistModel::NegativeBinomial { mean: mean@, overdispersion: overdispersion@ },
        Distribution::MultivariateNormal { mean, scale_tril } => DistModel::MultivariateNormal { mean: mean@, scale_tril: scale_tril@ },
        Distribution::OrderedLogistic { eta, cutpoints } => DistModel::OrderedLogistic { eta: eta@, cutpoints: cutpoints@ },
        Distribution::Truncated { base, lower, upper } => DistModel::Truncated {
            base: Box::new(dist_view(*base)),
            lower: optional_expr(lower),
            upper: optional_expr(upper),
        },
    }
}

impl View for Distribution {
    type V = DistModel;

    open spec fn view(&self) -> DistModel {
        dist_view(*self)
    }
}

/// The parameters of a distribution, in order; the bounds of a truncation follow those of its
/// base.
pub open spec fn dist_params(d: DistModel) -> Seq<ExprModel>
    decreases d,
{
    match d {
        DistModel::Normal { loc, scale } => seq![loc, scale],
        DistModel::HalfNormal { scale } => seq![scale],
        DistModel::StudentT { df, loc, scale } => seq![df, loc, scale],
        DistModel::Exponential { rate } => seq![rate],
        DistModel::Uniform { low, high } => seq![low, high],
        DistModel::Beta { alpha, beta } => seq![alpha, beta],
        DistModel::Bernoulli { probs } => seq![probs],
        DistModel::Poisson { rate } => seq![rate],
        DistModel::Binomial { total_count, probs } => seq![total_count, probs],
        DistModel::BetaBinomial { total_count, alpha, beta } => seq![total_count, alpha, beta],
        DistModel::NegativeBinomial { mean, overdispersion } => seq![mean, overdispersion],
        DistModel::MultivariateNormal { mean, scale_tril } => seq![mean, scale_tril],
        DistModel::OrderedLogistic { eta, cutpoints } => seq![eta, cutpoints],
        DistModel::Truncated { base, lower, upper } => dist_params(*base) + optional_param(lower)
            + optional_param(upper),
    }
}

pub open spec fn optional_param(e: Option<ExprModel>) -> Seq<ExprModel> {
    match e {
        Some(found) => seq![found],
        None => Seq::empty(),
    }
}

fn copy_optional(e: &Option<Expr>) -> (r: Option<Expr>)
    ensures
        optional_expr(r) == optional_expr(*e),
{
    match e {
        Some(found) => Some(found.copy()),
        None => None,
    }
}

impl Distribution {
    /// A distribution with the same content.
    pub fn copy(&self) -> (r: Distribution)
        ensures
            r@ == self@,
        decreases self,
    {
        match self {
            Distribution::Normal { loc, scale } => Distribution::Normal { loc: loc.copy(), scale: scale.copy() },
            Distribution::HalfNormal { scale } => Distribution::HalfNormal { scale: scale.copy() },
            Distribution::StudentT { df, loc, scale } => Distribution::StudentT { df: df.copy(), loc: loc.copy(), scale: scale.copy() },
            Distribution::Exponential { rate } => Distribution::Exponential { rate: rate.copy() },
            Distribution::Uniform { low, high } => Distribution::Uniform { low: low.copy(), high: high.copy() },
            Distribution::Beta { alpha, beta } => Distribution::Beta { alpha: alpha.copy(), beta: beta.copy() },
            Distribution::Bernoulli { probs } => Distribution::Bernoulli { probs: probs.copy() },
            Distribution::Poisson { rate } => Distribution::Poisson { rate: rate.copy() },
            Distribution::Binomial { total_count, probs } => Distribution::Binomial { total_count: total_count.copy(), probs: probs.copy() },
            Distribution::BetaBinomial { total_count, alpha, beta } => Distribution::BetaBinomial { total_count: total_count.copy(), alpha: alpha.copy(), beta: beta.copy() },
            Distribution::NegativeBinomial { mean, overdispersion } => Distribution::NegativeBinomial { mean: mean.copy(), overdispersion: overdispersion.copy() },
            Distribution::MultivariateNormal { mean, scale_tril } => Distribution::MultivariateNormal { mean: mean.copy(), scale_tril: scale_tril.copy() },
            Distribution::OrderedLogistic { eta, cutpoints } => Distribution::OrderedLogistic { eta: eta.copy(), cutpoints: cutpoints.copy() },
            Distribution::Truncated { base, lower, upper } => Distribution::Truncated {
                base: Box::new(base.copy()),
                lower: copy_optional(lower),
                upper: copy_optional(upper),
            },
        }
    }
}

/// The views of borrowed expressions.
pub open spec fn expr_views(s: Seq<&Expr>) -> Seq<ExprModel> {
    s.map_values(|e: &Expr| e@)
}

/// Parameter expressions of a distribution, for structural validation.
pub fn distribution_exprs(dist: &Distribution) -> (r: Vec<&Expr>)
    ensures
        expr_views(r@) == dist_params(dist@),
    decreases dist,
{
    match dist {
        Distribution::Normal { loc, scale } => {
            let out: Vec<&Expr> = vec![loc, scale];
            assert(expr_views(out@) =~= dist_params(dist@));
            out
        },
        Distribution::HalfNormal { scale } => {
            let out: Vec<&Expr> = vec![scale];
            assert(expr_views(out@) =~= dist_params(dist@));
            out
        },
        Distribution::StudentT { df, loc, scale } => {
            let out: Vec<&Expr> = vec![df, loc, scale];
            assert(expr_views(out@) =~= dist_params(dist@));
            out
        },
        Distribution::Exponential { rate } => {
            let out: Vec<&Expr> = vec![rate];
            assert(expr_views(out@) =~= dist_params(dist@));
            out
        },
        Distribution::Uniform { low, high } => {
            let out: Vec<&Expr> = vec![low, high];
            assert(expr_views(out@) =~= dist_params(dist@));
            out
        },
        Distribution::Beta { alpha, beta } => {
            let out: Vec<&Expr> = vec![alpha, beta];
            assert(expr_views(out@) =~= dist_params(dist@));
            out
        },
        Distribution::Bernoulli { probs } => {
            let out: Vec<&Expr> = vec![probs];
            assert(expr_views(out@) =~= dist_params(dist@));
            out
        },
        Distribution::Poisson { rate } => {
            let out: Vec<&Expr> = vec![rate];
            assert(expr_views(out@) =~= dist_params(dist@));
            out
        },
        Distribution::Binomial { total_count, probs } => {
            let out: Vec<&Expr> = vec![total_count, probs];
            assert(expr_views(out@) =~= dist_params(dist@));
            out
        },
        Distribution::BetaBinomial { total_count, alpha, beta } => {
            let out: Vec<&Expr> = vec![total_count, alpha, beta];
            assert(expr_views(out@) =~= dist_params(dist@));
            out
        },
        Distribution::NegativeBinomial { mean, overdispersion } => {
            let out: Vec<&Expr> = vec![mean, overdispersion];
            assert(expr_views(out@) =~= dist_params(dist@));
            out
        },
        Distribution::MultivariateNormal { mean, scale_tril } => {
            let out: Vec<&Expr> = vec![mean, scale_tril];
            assert(expr_views(out@) =~= dist_params(dist@));
            out
        },
        Distribution::OrderedLogistic { eta, cutpoints } => {
            let out: Vec<&Expr> = vec![eta, cutpoints];
            assert(expr_views(out@) =~= dist_params(dist@));
            out
        },
        Distribution::Truncated { base, lower, upper } => {
            let mut out: Vec<&Expr> = distribution_exprs(base);
            let ghost before = out@;
            if let Some(bound) = lower {
                out.push(bound);
            }
            assert(expr_views(out@) =~= expr_views(before) + optional_param(optional_expr(*lower)));
            let ghost middle = out@;
            if let Some(bound) = upper {
                out.push(bound);
            }
            assert(expr_views(out@) =~= expr_views(middle) + optional_param(optional_expr(*upper)));
            out
        },
    }
}

/// The support restriction of a free value.
#[derive(Debug)]
pub enum Constraint {
    Positive,
    Interval { lower: Number, upper: Number },
    UnitInterval,
    Ordered,
    VectorBounds { lower: Option<String>, upper: Option<String> },
}

/// The mathematical content of a [`Constraint`].
#[verifier::ext_equal]
pub enum ConstraintModel {
    Positive,
    Interval { lower: NumberModel, upper: NumberModel },
    UnitInterval,
    Ordered,
    VectorBounds { lower: Option<Seq<char>>, upper: Option<Seq<char>> },
}

/// The view of an optional name.
pub open spec fn optional_name(s: Option<String>) -> Option<Seq<char>> {
    match s {
        Some(found) => Some(found@),
        None => None,
    }
}

impl View for Constraint {
    type V = ConstraintModel;

    open spec fn view(&self) -> ConstraintModel {
        match *self {
            Constraint::Positive => ConstraintModel::Positive,
            Constraint::Interval { lower, upper } => ConstraintModel::Interval {
                lower: lower@,
                upper: upper@,
            },
            Constraint::UnitInterval => ConstraintModel::UnitInterval,
            Constraint::Ordered => ConstraintModel::Ordered,
            Constraint::VectorBounds { lower, upper } => ConstraintModel::VectorBounds {
                lower: optional_name(lower),
                upper: optional_name(upper),
            },
        }
    }
}

/// The view of an optional constraint.
pub open spec fn optional_constraint(c: Option<Constraint>) -> Option<ConstraintModel> {
    match c {
        Some(found) => Some(found@),
        None => None,
    }
}

fn copy_name(s: &Option<String>) -> (r: Option<String>)
    ensures
        optional_name(r) == optional_name(*s),
{
    match s {
        Some(found) => Some(found.clone()),
        None => None,
    }
}

impl Constraint {
    pub fn copy(&self) -> (r: Constraint)
        ensures
            r@ == self@,
    {
        match self {
            Constraint::Positive => Constraint::Positive,
            Constraint::Interval { lower, upper } => Constraint::Interval {
                lower: lower.copy(),
                upper: upper.copy(),
            },
            Constraint::UnitInterval => Constraint::UnitInterval,
            Constraint::Ordered => Constraint::Ordered,
            Constraint::VectorBounds { lower, upper } => Constraint::VectorBounds {
                lower: copy_name(lower),
                upper: copy_name(upper),
            },
        }
    }
}

pub fn copy_constraint(c: &Option<Constraint>) -> (r: Option<Constraint>)
    ensures
        optional_constraint(r) == optional_constraint(*c),
{
    match c {
        Some(found) => Some(found.copy()),
        None => None,
    }
}

/// How many coordinates a free value has.
#[derive(Debug)]
pub enum Size {
    Scalar,
    Fixed(i64),
    Data(String),
}

/// The mathematical content of a [`Size`].
#[verifier::ext_equal]
pub enum SizeModel {
    Scalar,
    Fixed(i64),
    Data(Seq<char>),
}

impl View for Size {
    type V = SizeModel;

    open spec fn view(&self) -> SizeModel {
        match *self {
            Size::Scalar => SizeModel::Scalar,
            Size::Fixed(k) => SizeModel::Fixed(k),
            Size::Data(name) => SizeModel::Data(name@),
        }
    }
}

impl Size {
    pub fn copy(&self) -> (r: Size)
        ensures
            r@ == self@,
    {
        match self {
            Size::Scalar => Size::Scalar,
            Size::Fixed(k) => Size::Fixed(*k),
            Size::Data(name) => Size::Data(name.clone()),
        }
    }
}

/// The length of one axis of declared data.
#[derive(Debug)]
pub enum Dim {
    Fixed(i64),
    DataDim(String),
}

/// The mathematical content of a [`Dim`].
#[verifier::ext_equal]
pub enum DimModel {
    Fixed(i64),
    DataDim(Seq<char>),
}

impl View for Dim {
    type V = DimModel;

    open spec fn view(&self) -> DimModel {
        match *self {
            Dim::Fixed(d) => DimModel::Fixed(d),
            Dim::DataDim(name) => DimModel::DataDim(name@),
        }
    }
}

/// What the shape of declared data must be.
#[derive(Debug)]
pub enum DataSchema {
    Rank(i64),
    Shape(Vec<Dim>),
}

/// The mathematical content of a [`DataSchema`].
#[verifier::ext_equal]
pub enum SchemaModel {
    Rank(i64),
    Shape(Seq<DimModel>),
}

impl View for DataSchema {
    type V = SchemaModel;

    open spec fn view(&self) -> SchemaModel {
        match *self {
            DataSchema::Rank(rank) => SchemaModel::Rank(rank),
            DataSchema::Shape(dims) => SchemaModel::Shape(dims@.map_values(|d: Dim| d@)),
        }
    }
}

/// A declared parameter.
#[derive(Debug)]
pub struct ResolvedParam {
    pub distribution: Distribution,
    pub constraint: Option<Constraint>,
    pub size: Size,
}

/// The mathematical content of a [`ResolvedParam`].
#[verifier::ext_equal]
pub struct ParamModel {
    pub distribution: DistModel,
    pub constraint: Option<ConstraintModel>,
    pub size: SizeModel,
}

impl View for ResolvedParam {
    type V = ParamModel;

    open spec fn view(&self) -> ParamModel {
        ParamModel {
            distribution: self.distribution@,
            constraint: optional_constraint(self.constraint),
            size: self.size@,
        }
    }
}

/// Declared data.
#[derive(Debug)]
pub struct ResolvedData {
    pub schema: DataSchema,
}

impl View for ResolvedData {
    type V = SchemaModel;

    open spec fn view(&self) -> SchemaModel {
        self.schema@
    }
}

/// An observed value and its distribution.
#[derive(Debug)]
pub struct ResolvedObserved {
    pub name: String,
    pub distribution: Distribution,
}

/// The mathematical content of a [`ResolvedObserved`].
#[verifier::ext_equal]
pub struct ObservedModel {
    pub name: Seq<char>,
    pub distribution: DistModel,
}

impl View for ResolvedObserved {
    type V = ObservedModel;

    open spec fn view(&self) -> ObservedModel {
        ObservedModel { name: self.name@, distribution: self.distribution@ }
    }
}

/// A value that is free in the posterior.
#[derive(Debug)]
pub struct ResolvedFreeValue {
    pub constraint: Option<Constraint>,
    pub size: Size,
}

/// The mathematical content of a [`ResolvedFreeValue`].
#[verifier::ext_equal]
pub struct FreeModel {
    pub constraint: Option<ConstraintModel>,
    pub size: SizeModel,
}

impl View for ResolvedFreeValue {
    type V = FreeModel;

    open spec fn view(&self) -> FreeModel {
        FreeModel { constraint: optional_constraint(self.constraint), size: self.size@ }
    }
}

impl ResolvedFreeValue {
    pub fn copy(&self) -> (r: ResolvedFreeValue)
        ensures
            r@ == self@,
    {
        ResolvedFreeValue { constraint: copy_constraint(&self.constraint), size: self.size.copy() }
    }
}

/// One factor of the joint density: a value and the distribution it follows.
#[derive(Debug)]
pub struct ResolvedStochasticSite {
    pub name: String,
    pub distribution: Distribution,
    pub value: Expr,
}

/// The mathematical content of a [`ResolvedStochasticSite`].
#[verifier::ext_equal]
pub struct SiteModel {
    pub name: Seq<char>,
    pub distribution: DistModel,
    pub value: ExprModel,
}

impl View for ResolvedStochasticSite {
    type V = SiteModel;

    open spec fn view(&self) -> SiteModel {
        SiteModel {
            name: self.name@,
            distribution: self.distribution@,
            value: self.value@,
        }
    }
}

impl ResolvedStochasticSite {
    pub fn copy(&self) -> (r: ResolvedStochasticSite)
        ensures
            r@ == self@,
    {
        ResolvedStochasticSite {
            name: self.name.clone(),
            distribution: self.distribution.copy(),
            value: self.value.copy(),
        }
    }
}

/// Named entries, each by its name and content.
pub open spec fn named_views<T: View>(s: Seq<(String, T)>) -> Seq<(Seq<char>, T::V)> {
    s.map_values(|entry: (String, T)| (entry.0@, entry.1@))
}

/// The contents of a list.
pub open spec fn list_views<T: View>(s: Seq<T>) -> Seq<T::V> {
    s.map_values(|item: T| item@)
}

/// A decoded model.
#[derive(Debug)]
pub struct ModelMeta {
    pub params: Vec<(String, ResolvedParam)>,
    pub data: Vec<(String, ResolvedData)>,
    pub observed_nodes: Vec<ResolvedObserved>,
    pub expressions: Vec<(String, Expr)>,
    pub free_values: Vec<(String, ResolvedFreeValue)>,
    pub stochastic_sites: Vec<ResolvedStochasticSite>,
}

/// The mathematical content of a [`ModelMeta`].
#[verifier::ext_equal]
pub struct MetaModel {
    pub params: Seq<(Seq<char>, ParamModel)>,
    pub data: Seq<(Seq<char>, SchemaModel)>,
    pub observed_nodes: Seq<ObservedModel>,
    pub expressions: Seq<(Seq<char>, ExprModel)>,
    pub free_values: Seq<(Seq<char>, FreeModel)>,
    pub stochastic_sites: Seq<SiteModel>,
}

impl View for ModelMeta {
    type V = MetaModel;

    open spec fn view(&self) -> MetaModel {
        MetaModel {
            params: named_views(self.params@),
            data: named_views(self.data@),
            observed_nodes: list_views(self.observed_nodes@),
            expressions: named_views(self.expressions@),
            free_values: named_views(self.free_values@),
            stochastic_sites: list_views(self.stochastic_sites@),
        }
    }
}

/// The factor that a declared parameter contributes.
pub open spec fn param_site(param: (Seq<char>, ParamModel)) -> SiteModel {
    SiteModel {
        name: param.0,
        distribution: param.1.distribution,
        value: ExprModel::Param(param.0),
    }
}

/// The factor that an observed value contributes.
pub open spec fn observed_site(observed: ObservedModel) -> SiteModel {
    SiteModel {
        name: observed.name,
        distribution: observed.distribution,
        value: ExprModel::Data(observed.name),
    }
}

/// The factors of the joint density: those that the model states, or else those of its
/// parameters followed by those of its observed values.
pub open spec fn resolved_sites(m: MetaModel) -> Seq<SiteModel> {
    if m.stochastic_sites.len() > 0 {
        m.stochastic_sites
    } else {
        m.params.map_values(|p: (Seq<char>, ParamModel)| param_site(p))
            + m.observed_nodes.map_values(|o: ObservedModel| observed_site(o))
    }
}

/// The free values: those that the model states, or else its parameters.
pub open spec fn resolved_free(m: MetaModel) -> Seq<(Seq<char>, FreeModel)> {
    if m.free_values.len() > 0 {
        m.free_values
    } else {
        m.params.map_values(
            |p: (Seq<char>, ParamModel)|
                (p.0, FreeModel { constraint: p.1.constraint, size: p.1.size }),
        )
    }
}

impl ModelMeta {
    pub fn resolved_stochastic_sites(&self) -> (r: Vec<ResolvedStochasticSite>)
        ensures
            list_views(r@) == resolved_sites(self@),
    {
        let mut out: Vec<ResolvedStochasticSite> = Vec::new();
        let mut i: usize = 0;
        if self.stochastic_sites.len() > 0 {
            while i < self.stochastic_sites.len()
                invariant
                    i <= self.stochastic_sites.len(),
                    out.len() == i,
                    forall|j: int|
                        0 <= j < i ==> (#[trigger] out@[j])@ == self.stochastic_sites@[j]@,
                decreases self.stochastic_sites.len() - i,
            {
                out.push(self.stochastic_sites[i].copy());
                i += 1;
            }
            assert(list_views(out@) =~= resolved_sites(self@));
            return out;
        }
        while i < self.params.len()
            invariant
                i <= self.params.len(),
                out.len() == i,
                forall|j: int|
                    0 <= j < i ==> (#[trigger] out@[j])@ == param_site(
                        (self.params@[j].0@, self.params@[j].1@),
                    ),
            decreases self.params.len() - i,
        {
            let name: &String = &self.params[i].0;
            out.push(
                ResolvedStochasticSite {
                    name: name.clone(),
                    distribution: self.params[i].1.distribution.copy(),
                    value: Expr::Param(name.clone()),
                },
            );
            i += 1;
        }
        let ghost declared = out@;
        let mut k: usize = 0;
        while k < self.observed_nodes.len()
            invariant
                k <= self.observed_nodes.len(),
                declared.len() == self.params.len(),
                out.len() == declared.len() + k,
                forall|j: int| 0 <= j < declared.len() ==> out@[j] == #[trigger] declared[j],
                forall|j: int|
                    declared.len() <= j < declared.len() + k ==> (#[trigger] out@[j])@
                        == observed_site(self.observed_nodes@[j - declared.len()]@),
            decreases self.observed_nodes.len() - k,
        {
            let name: &String = &self.observed_nodes[k].name;
            out.push(
                ResolvedStochasticSite {
                    name: name.clone(),
                    distribution: self.observed_nodes[k].distribution.copy(),
                    value: Expr::Data(name.clone()),
                },
            );
            k += 1;
        }
        assert(list_views(out@) =~= resolved_sites(self@)) by {
            let want = resolved_sites(self@);
            assert forall|j: int| 0 <= j < want.len() implies list_views(out@)[j] == want[j] by {
                if j < declared.len() {
                    assert(out@[j] == declared[j]);
                } else {
                    assert(out@[j]@ == observed_site(self.observed_nodes@[j - declared.len()]@));
                }
            }
        }
        out
    }

    pub fn resolved_free_values(&self) -> (r: Vec<(String, ResolvedFreeValue)>)
        ensures
            named_views(r@) == resolved_free(self@),
    {
        let mut out: Vec<(String, ResolvedFreeValue)> = Vec::new();
        let mut i: usize = 0;
        if self.free_values.len() > 0 {
            while i < self.free_values.len()
                invariant
                    i <= self.free_values.len(),
                    out.len() == i,
                    forall|j: int|
                        0 <= j < i ==> (#[trigger] out@[j]).0@ == self.free_values@[j].0@
                            && out@[j].1@ == self.free_values@[j].1@,
                decreases self.free_values.len() - i,
            {
                out.push((self.free_values[i].0.clone(), self.free_values[i].1.copy()));
                i += 1;
            }
            assert(named_views(out@) =~= resolved_free(self@));
            return out;
        }
        while i < self.params.len()
            invariant
                i <= self.params.len(),
                out.len() == i,
                forall|j: int|
                    0 <= j < i ==> (#[trigger] out@[j]).0@ == self.params@[j].0@ && out@[j].1@ == (
                    FreeModel {
                        constraint: optional_constraint(self.params@[j].1.constraint),
                        size: self.params@[j].1.size@,
                    }),
            decreases self.params.len() - i,
        {
            let param: &ResolvedParam = &self.params[i].1;
            out.push(
                (
                    self.params[i].0.clone(),
                    ResolvedFreeValue {
                        constraint: copy_constraint(&param.constraint),
                        size: param.size.copy(),
                    },
                ),
            );
            i += 1;
        }
        assert(named_views(out@) =~= resolved_free(self@));
        out
    }
}

} // verus!
