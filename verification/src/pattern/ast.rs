//! Abstract syntax tree for STIX 2.1 patterns, with the mathematical form of
//! each node (`Spec...`), in which strings are character sequences and lists
//! are `Seq`s.
//!
//! Floating-point numbers are carried as their IEEE-754 binary64 bit patterns
//! (`u64`), so that the library computes on them as integers.

use vstd::prelude::*;

verus! {

/// A primitive literal value, generic over its string representation.
#[derive(Debug, Clone, PartialEq)]
pub enum LiteralOf<S> {
    String(S),
    Integer(i64),
    /// A floating-point literal, as the bits of the nearest binary64 value.
    Float(u64),
    Boolean(bool),
    /// RFC3339 timestamp from a `t'...'` literal (kept as the inner string).
    Timestamp(S),
    /// Base64 payload from a `b'...'` literal (kept as the inner string).
    Binary(S),
    /// Hex payload from an `h'...'` literal (kept as the inner string).
    Hex(S),
}

/// A primitive literal value.
pub type Literal = LiteralOf<String>;

/// The mathematical form of a [`Literal`].
pub type SpecLiteral = LiteralOf<Seq<char>>;

impl View for LiteralOf<String> {
    type V = SpecLiteral;

    open spec fn view(&self) -> SpecLiteral {
        match self {
            LiteralOf::String(s) => LiteralOf::String(s@),
            LiteralOf::Integer(n) => LiteralOf::Integer(*n),
            LiteralOf::Float(b) => LiteralOf::Float(*b),
            LiteralOf::Boolean(b) => LiteralOf::Boolean(*b),
            LiteralOf::Timestamp(s) => LiteralOf::Timestamp(s@),
            LiteralOf::Binary(s) => LiteralOf::Binary(s@),
            LiteralOf::Hex(s) => LiteralOf::Hex(s@),
        }
    }
}

/// One step of an object path, generic over its string representation.
#[derive(Debug, Clone, PartialEq)]
pub enum PathStepOf<S> {
    /// `.key` or the first component after the colon.
    Key(S),
    /// `[n]`
    Index(u64),
    /// `[*]`
    AnyIndex,
}

/// One step of an object path.
pub type PathStep = PathStepOf<String>;

/// The mathematical form of a [`PathStep`].
pub type SpecPathStep = PathStepOf<Seq<char>>;

impl View for PathStepOf<String> {
    type V = SpecPathStep;

    open spec fn view(&self) -> SpecPathStep {
        match self {
            PathStepOf::Key(s) => PathStepOf::Key(s@),
            PathStepOf::Index(n) => PathStepOf::Index(*n),
            PathStepOf::AnyIndex => PathStepOf::AnyIndex,
        }
    }
}

/// An object path: `object-type:first.step[0].next`.
#[derive(Debug, Clone, PartialEq)]
pub struct ObjectPath {
    pub object_type: String,
    pub steps: Vec<PathStep>,
}

/// The mathematical form of an [`ObjectPath`].
pub struct SpecObjectPath {
    pub object_type: Seq<char>,
    pub steps: Seq<SpecPathStep>,
}

impl View for ObjectPath {
    type V = SpecObjectPath;

    open spec fn view(&self) -> SpecObjectPath {
        SpecObjectPath {
            object_type: self.object_type@,
            steps: self.steps@.map_values(|s: PathStep| s@),
        }
    }
}

/// The operator of a comparison.
#[derive(Debug, Clone, Copy, PartialEq, Eq, Structural)]
pub enum ComparisonOperator {
    Equal,
    NotEqual,
    GreaterThan,
    GreaterThanOrEqual,
    LessThan,
    LessThanOrEqual,
    In,
    Like,
    Matches,
    IsSubset,
    IsSuperset,
    /// `EXISTS objectPath`; for this operator the operand is ignored.
    Exists,
}

/// Right-hand side of a comparison: either a single literal or a set (for `IN`).
#[derive(Debug, Clone, PartialEq)]
pub enum ComparisonOperand {
    Literal(Literal),
    SetLiteral(Vec<Literal>),
}

/// The mathematical form of a [`ComparisonOperand`].
pub enum SpecComparisonOperand {
    Literal(SpecLiteral),
    SetLiteral(Seq<SpecLiteral>),
}

impl View for ComparisonOperand {
    type V = SpecComparisonOperand;

    open spec fn view(&self) -> SpecComparisonOperand {
        match self {
            ComparisonOperand::Literal(l) => SpecComparisonOperand::Literal(l@),
            ComparisonOperand::SetLiteral(v) => SpecComparisonOperand::SetLiteral(
                v@.map_values(|l: Literal| l@),
            ),
        }
    }
}

/// A single property test.
#[derive(Debug, Clone, PartialEq)]
pub struct Comparison {
    pub path: ObjectPath,
    pub operator: ComparisonOperator,
    /// `true` if a `NOT` preceded the operator.
    pub negated: bool,
    pub value: ComparisonOperand,
}

/// The mathematical form of a [`Comparison`].
pub struct SpecComparison {
    pub path: SpecObjectPath,
    pub operator: ComparisonOperator,
    pub negated: bool,
    pub value: SpecComparisonOperand,
}

impl View for Comparison {
    type V = SpecComparison;

    open spec fn view(&self) -> SpecComparison {
        SpecComparison {
            path: self.path@,
            operator: self.operator,
            negated: self.negated,
            value: self.value@,
        }
    }
}

/// Comparison-level expression tree (inside `[ ]`).
#[derive(Debug, PartialEq)]
pub enum ComparisonExpression {
    Test(Comparison),
    And(Box<ComparisonExpression>, Box<ComparisonExpression>),
    Or(Box<ComparisonExpression>, Box<ComparisonExpression>),
}

/// The mathematical form of a [`ComparisonExpression`].
pub enum SpecComparisonExpression {
    Test(SpecComparison),
    And(Box<SpecComparisonExpression>, Box<SpecComparisonExpression>),
    Or(Box<SpecComparisonExpression>, Box<SpecComparisonExpression>),
}

/// The mathematical form of a comparison expression tree.
pub open spec fn comparison_expression_view(e: ComparisonExpression) -> SpecComparisonExpression
    decreases e,
{
    match e {
        ComparisonExpression::Test(c) => SpecComparisonExpression::Test(c@),
        ComparisonExpression::And(a, b) => SpecComparisonExpression::And(
            Box::new(comparison_expression_view(*a)),
            Box::new(comparison_expression_view(*b)),
        ),
        ComparisonExpression::Or(a, b) => SpecComparisonExpression::Or(
            Box::new(comparison_expression_view(*a)),
            Box::new(comparison_expression_view(*b)),
        ),
    }
}

impl View for ComparisonExpression {
    type V = SpecComparisonExpression;

    open spec fn view(&self) -> SpecComparisonExpression {
        comparison_expression_view(*self)
    }
}

/// Postfix qualifier on an observation expression, generic over its string
/// representation.
#[derive(Debug, Clone, PartialEq)]
pub enum QualifierOf<S> {
    /// `WITHIN <seconds> SECONDS`, the seconds as binary64 bits.
    Within { seconds: u64 },
    /// `REPEATS <count> TIMES`
    Repeats { count: u64 },
    /// `START <start> STOP <stop>` (RFC3339 timestamps, kept as strings here)
    StartStop { start: S, stop: S },
}

/// Postfix qualifier on an observation expression.
pub type Qualifier = QualifierOf<String>;

/// The mathematical form of a [`Qualifier`].
pub type SpecQualifier = QualifierOf<Seq<char>>;

impl View for QualifierOf<String> {
    type V = SpecQualifier;

    open spec fn view(&self) -> SpecQualifier {
        match self {
            QualifierOf::Within { seconds } => QualifierOf::Within { seconds: *seconds },
            QualifierOf::Repeats { count } => QualifierOf::Repeats { count: *count },
            QualifierOf::StartStop { start, stop } => QualifierOf::StartStop {
                start: start@,
                stop: stop@,
            },
        }
    }
}

/// Observation-level expression tree.
/// `FOLLOWEDBY`/`AND`/`OR` combine observations; qualifiers attach to a sub-expression.
#[derive(Debug, PartialEq)]
pub enum ObservationExpression {
    /// A single `[ comparisonExpr ]` observation.
    Observation(Box<ComparisonExpression>),
    And(Box<ObservationExpression>, Box<ObservationExpression>),
    Or(Box<ObservationExpression>, Box<ObservationExpression>),
    FollowedBy(Box<ObservationExpression>, Box<ObservationExpression>),
    Qualified { expression: Box<ObservationExpression>, qualifier: Qualifier },
}

/// The mathematical form of an [`ObservationExpression`].
pub enum SpecObservationExpression {
    Observation(SpecComparisonExpression),
    And(Box<SpecObservationExpression>, Box<SpecObservationExpression>),
    Or(Box<SpecObservationExpression>, Box<SpecObservationExpression>),
    FollowedBy(Box<SpecObservationExpression>, Box<SpecObservationExpression>),
    Qualified { expression: Box<SpecObservationExpression>, qualifier: SpecQualifier },
}

/// The mathematical form of an observation expression tree.
pub open spec fn observation_expression_view(e: ObservationExpression) -> SpecObservationExpression
    decreases e,
{
    match e {
        ObservationExpression::Observation(c) => SpecObservationExpression::Observation(
            comparison_expression_view(*c),
        ),
        ObservationExpression::And(a, b) => SpecObservationExpression::And(
            Box::new(observation_expression_view(*a)),
            Box::new(observation_expression_view(*b)),
        ),
        ObservationExpression::Or(a, b) => SpecObservationExpression::Or(
            Box::new(observation_expression_view(*a)),
            Box::new(observation_expression_view(*b)),
        ),
        ObservationExpression::FollowedBy(a, b) => SpecObservationExpression::FollowedBy(
            Box::new(observation_expression_view(*a)),
            Box::new(observation_expression_view(*b)),
        ),
        ObservationExpression::Qualified { expression, qualifier } =>
            SpecObservationExpression::Qualified {
                expression: Box::new(observation_expression_view(*expression)),
                qualifier: qualifier@,
            },
    }
}

impl View for ObservationExpression {
    type V = SpecObservationExpression;

    open spec fn view(&self) -> SpecObservationExpression {
        observation_expression_view(*self)
    }
}

/// A complete parsed pattern.
#[derive(Debug, PartialEq)]
pub struct Pattern {
    pub expression: ObservationExpression,
}

/// The mathematical form of a [`Pattern`].
pub struct SpecPattern {
    pub expression: SpecObservationExpression,
}

impl View for Pattern {
    type V = SpecPattern;

    open spec fn view(&self) -> SpecPattern {
        SpecPattern { expression: self.expression@ }
    }
}

} // verus!
