//! The native operator kinds, their registry, and the priority-ordered
//! execution of the operators of a document.

use vstd::prelude::*;
use crate::expr::{StringLiteral, Reference, texts_view, Expr, ExprModel, ArgModel, Argument};
use crate::text::chars_of;

verus! {

/// Why an expression could not be made an operator.
#[derive(Debug, Clone, Copy, PartialEq, Eq, Structural)]
pub enum OperatorParsingErrorReason {
    NoneMatched,
    NameDoesNotMatch,
    ArgumentsLengthDoesNotMatch,
    ArgumentsTypesDoNotMatch,
    Unknown,
}

/// The kind that almost matched, if any, and why the expression was refused.
pub type OperatorParsingError = (Option<NativeOperator>, OperatorParsingErrorReason);

/// Why executing an operator failed.
#[derive(Debug, Clone, PartialEq)]
pub enum OperatorExecutionErrorReason {
    Unimplemented,
    ReferenceUnavailable,
    OtherError(String),
}

/// The mathematical form of an `OperatorExecutionErrorReason`.
pub enum ErrorModel {
    Unimplemented,
    ReferenceUnavailable,
    Other(Seq<char>),
}

impl View for OperatorExecutionErrorReason {
    type V = ErrorModel;

    open spec fn view(&self) -> ErrorModel {
        match self {
            OperatorExecutionErrorReason::Unimplemented => ErrorModel::Unimplemented,
            OperatorExecutionErrorReason::ReferenceUnavailable => ErrorModel::ReferenceUnavailable,
            OperatorExecutionErrorReason::OtherError(t) => ErrorModel::Other(t@),
        }
    }
}

/// The execution phases, in the order in which they run.
#[derive(Debug, Clone, Copy, PartialEq, Eq, Structural)]
pub enum OperatorPriorityRank {
    /// Reserved for operators that must run before all others.
    First,
    /// Setup operators: `param`, `grab`.
    AfterFirst,
    /// Reserved for most future operators.
    Middle,
    /// Reserved for sequence operators.
    BeforeLast,
    /// Assertions: `expect`.
    Last,
}

impl OperatorPriorityRank {
    /// The position of the phase in the order of execution.
    pub open spec fn order(self) -> nat {
        match self {
            OperatorPriorityRank::First => 0,
            OperatorPriorityRank::AfterFirst => 1,
            OperatorPriorityRank::Middle => 2,
            OperatorPriorityRank::BeforeLast => 3,
            OperatorPriorityRank::Last => 4,
        }
    }
}

/// The phase in which an operator kind runs.
pub trait OperatorPriority {
    spec fn rank(&self) -> OperatorPriorityRank;

    fn priority(&self) -> (r: OperatorPriorityRank)
        ensures
            r == self.rank(),
    ;
}

/// The native operator kinds, in the order in which the registry tries them.
#[derive(Debug, Clone, Copy, PartialEq, Eq, Structural)]
pub enum NativeOperator {
    Expect,
    Grab,
    Param,
}

/// `((expect "message"))`: fails whenever it is executed.
#[derive(Debug, Clone)]
pub struct ExpectOperator {
    pub error_msg: StringLiteral,
}

/// `((grab &a.b))`: replaces itself by a copy of the value at the reference.
#[derive(Debug, Clone)]
pub struct GrabOperator {
    pub reference: Reference,
}

/// `((param))`: a value that had to be overridden and was not.
#[derive(Debug, Clone)]
pub struct ParamOperator {}

impl OperatorPriority for ExpectOperator {
    open spec fn rank(&self) -> OperatorPriorityRank {
        OperatorPriorityRank::Last
    }

    fn priority(&self) -> (r: OperatorPriorityRank) {
        OperatorPriorityRank::Last
    }
}

impl OperatorPriority for GrabOperator {
    open spec fn rank(&self) -> OperatorPriorityRank {
        OperatorPriorityRank::AfterFirst
    }

    fn priority(&self) -> (r: OperatorPriorityRank) {
        OperatorPriorityRank::AfterFirst
    }
}

impl OperatorPriority for ParamOperator {
    open spec fn rank(&self) -> OperatorPriorityRank {
        OperatorPriorityRank::AfterFirst
    }

    fn priority(&self) -> (r: OperatorPriorityRank) {
        OperatorPriorityRank::AfterFirst
    }
}

/// Where an operator kind comes from.
#[derive(Debug, Clone, Copy, PartialEq, Eq, Structural)]
pub enum OperatorSource {
    Native(NativeOperator),
}

/// The validated arguments of an operator, by kind.
#[derive(Debug, Clone)]
pub enum NativePayload {
    Expect(ExpectOperator),
    Grab(GrabOperator),
    Param(ParamOperator),
}

/// The mathematical form of a `NativePayload`: the message of `expect`, the
/// reference of `grab`.
pub enum PayloadModel {
    Expect(Seq<char>),
    Grab(Seq<Seq<char>>),
    Param,
}

/// The mathematical form of an `Operator`.
pub struct OpModel {
    /// The kind that made the operator.
    pub source: OperatorSource,
    pub payload: PayloadModel,
    pub rank: OperatorPriorityRank,
}

/// An operator node of a document: its kind, its arguments and its phase.
#[derive(Debug, Clone)]
pub struct Operator {
    pub source: OperatorSource,
    pub payload: NativePayload,
    pub priority: OperatorPriorityRank,
}

impl View for Operator {
    type V = OpModel;

    open spec fn view(&self) -> OpModel {
        OpModel {
            source: self.source,
            payload: match self.payload {
                NativePayload::Expect(e) => PayloadModel::Expect(e.error_msg.0@),
                NativePayload::Grab(g) => PayloadModel::Grab(g.reference@),
                NativePayload::Param(_) => PayloadModel::Param,
            },
            rank: self.priority,
        }
    }
}

fn copy_texts(v: &Vec<String>) -> (r: Vec<String>)
    ensures
        texts_view(r@) == texts_view(v@),
{
    let mut r: Vec<String> = Vec::new();
    let mut i: usize = 0;
    while i < v.len()
        invariant
            i <= v.len(),
            r@.len() == i,
            forall|j: int| 0 <= j < i ==> #[trigger] r@[j]@ == v@[j]@,
        decreases v.len() - i,
    {
        r.push(v[i].clone());
        i = i + 1;
    }
    assert(texts_view(r@) =~= texts_view(v@));
    r
}

impl Operator {
    /// A copy of this operator.
    pub fn copy(&self) -> (r: Operator)
        ensures
            r@ == self@,
    {
        let payload = match &self.payload {
            NativePayload::Expect(e) => NativePayload::Expect(
                ExpectOperator { error_msg: StringLiteral(e.error_msg.0.clone()) },
            ),
            NativePayload::Grab(g) => NativePayload::Grab(
                GrabOperator { reference: Reference(copy_texts(&g.reference.0)) },
            ),
            NativePayload::Param(_) => NativePayload::Param(ParamOperator {  }),
        };
        Operator { source: self.source, payload, priority: self.priority }
    }
}

// ---------------------------------------------------------------------------
// The registry.
/// The name that calls an operator kind.
pub open spec fn kind_name(k: NativeOperator) -> Seq<char> {
    match k {
        NativeOperator::Expect => seq!['e', 'x', 'p', 'e', 'c', 't'],
        NativeOperator::Grab => seq!['g', 'r', 'a', 'b'],
        NativeOperator::Param => seq!['p', 'a', 'r', 'a', 'm'],
    }
}

/// The phase in which an operator kind runs.
pub open spec fn kind_rank(k: NativeOperator) -> OperatorPriorityRank {
    match k {
        NativeOperator::Expect => OperatorPriorityRank::Last,
        NativeOperator::Grab => OperatorPriorityRank::AfterFirst,
        NativeOperator::Param => OperatorPriorityRank::AfterFirst,
    }
}

/// What a kind makes of a call: its arguments, or why it refuses the call.
/// `expect` takes one string literal, `grab` one reference, `param` nothing.
pub open spec fn validate(k: NativeOperator, e: ExprModel) -> Result<
    PayloadModel,
    OperatorParsingErrorReason,
> {
    if e.name != kind_name(k) {
        Err(OperatorParsingErrorReason::NameDoesNotMatch)
    } else {
        match k {
            NativeOperator::Expect => if e.args.len() != 1 {
                Err(OperatorParsingErrorReason::ArgumentsLengthDoesNotMatch)
            } else {
                match e.args[0] {
                    ArgModel::Str(m) => Ok(PayloadModel::Expect(m)),
                    _ => Err(OperatorParsingErrorReason::ArgumentsTypesDoNotMatch),
                }
            },
            NativeOperator::Grab => if e.args.len() != 1 {
                Err(OperatorParsingErrorReason::ArgumentsLengthDoesNotMatch)
            } else {
                match e.args[0] {
                    ArgModel::Ref(r) => Ok(PayloadModel::Grab(r)),
                    _ => Err(OperatorParsingErrorReason::ArgumentsTypesDoNotMatch),
                }
            },
            NativeOperator::Param => if e.args.len() != 0 {
                Err(OperatorParsingErrorReason::ArgumentsLengthDoesNotMatch)
            } else {
                Ok(PayloadModel::Param)
            },
        }
    }
}

/// One kind's attempt: `None` where the name is not its own.
pub open spec fn attempt(k: NativeOperator, e: ExprModel) -> Option<
    Result<OpModel, OperatorParsingError>,
> {
    match validate(k, e) {
        Ok(p) => Some(
            Ok(OpModel { source: OperatorSource::Native(k), payload: p, rank: kind_rank(k) }),
        ),
        Err(OperatorParsingErrorReason::NameDoesNotMatch) => None,
        Err(reason) => Some(Err((Some(k), reason))),
    }
}

/// The operator that a call makes: the kinds are tried in the order `expect`,
/// `param`, `grab`; the first whose name matches decides, and a call that no
/// name matches fails with `NoneMatched`.
pub open spec fn dispatch(e: ExprModel) -> Result<OpModel, OperatorParsingError> {
    if attempt(NativeOperator::Expect, e) is Some {
        attempt(NativeOperator::Expect, e)->0
    } else if attempt(NativeOperator::Param, e) is Some {
        attempt(NativeOperator::Param, e)->0
    } else if attempt(NativeOperator::Grab, e) is Some {
        attempt(NativeOperator::Grab, e)->0
    } else {
        Err((None, OperatorParsingErrorReason::NoneMatched))
    }
}

/// Whether `t` is the text `lit`.
fn text_is(t: &String, lit: &str) -> (r: bool)
    ensures
        r == (t@ == lit@),
{
    let a = chars_of(t.as_str());
    let b = chars_of(lit);
    if a.len() != b.len() {
        return false;
    }
    let mut i: usize = 0;
    while i < a.len()
        invariant
            a.len() == b.len(),
            a@ == t@,
            b@ == lit@,
            i <= a.len(),
            forall|j: int| 0 <= j < i ==> a@[j] == b@[j],
        decreases a.len() - i,
    {
        if a[i] != b[i] {
            assert(a@[i as int] != b@[i as int]);
            return false;
        }
        i = i + 1;
    }
    assert(a@ =~= b@);
    true
}

fn name_is(e: &Expr, k: NativeOperator) -> (r: bool)
    ensures
        r == (e@.name == kind_name(k)),
{
    match k {
        NativeOperator::Expect => {
            let r = text_is(&e.name.0, "expect");
            proof {
                reveal_strlit("expect");
                assert("expect"@ =~= kind_name(NativeOperator::Expect));
            }
            r
        },
        NativeOperator::Grab => {
            let r = text_is(&e.name.0, "grab");
            proof {
                reveal_strlit("grab");
                assert("grab"@ =~= kind_name(NativeOperator::Grab));
            }
            r
        },
        NativeOperator::Param => {
            let r = text_is(&e.name.0, "param");
            proof {
                reveal_strlit("param");
                assert("param"@ =~= kind_name(NativeOperator::Param));
            }
            r
        },
    }
}

impl ExpectOperator {
    /// The `expect` operator of a call, or why the call is not one.
    pub fn try_from_expr(value: &Expr) -> (r: Result<ExpectOperator, OperatorParsingErrorReason>)
        ensures
            match r {
                Ok(op) => validate(NativeOperator::Expect, value@) == Ok::<
                    PayloadModel,
                    OperatorParsingErrorReason,
                >(PayloadModel::Expect(op.error_msg.0@)),
                Err(reason) => validate(NativeOperator::Expect, value@) == Err::<
                    PayloadModel,
                    OperatorParsingErrorReason,
                >(reason),
            },
    {
        if !name_is(value, NativeOperator::Expect) {
            return Err(OperatorParsingErrorReason::NameDoesNotMatch);
        }
        if value.arguments.len() != 1 {
            return Err(OperatorParsingErrorReason::ArgumentsLengthDoesNotMatch);
        }
        match &value.arguments[0] {
            Argument::StringLiteral(inner) => Ok(
                ExpectOperator { error_msg: StringLiteral(inner.0.clone()) },
            ),
            _ => Err(OperatorParsingErrorReason::ArgumentsTypesDoNotMatch),
        }
    }
}

impl GrabOperator {
    /// The `grab` operator of a call, or why the call is not one.
    pub fn try_from_expr(value: &Expr) -> (r: Result<GrabOperator, OperatorParsingErrorReason>)
        ensures
            match r {
                Ok(op) => validate(NativeOperator::Grab, value@) == Ok::<
                    PayloadModel,
                    OperatorParsingErrorReason,
                >(PayloadModel::Grab(op.reference@)),
                Err(reason) => validate(NativeOperator::Grab, value@) == Err::<
                    PayloadModel,
                    OperatorParsingErrorReason,
                >(reason),
            },
    {
        if !name_is(value, NativeOperator::Grab) {
            return Err(OperatorParsingErrorReason::NameDoesNotMatch);
        }
        if value.arguments.len() != 1 {
            return Err(OperatorParsingErrorReason::ArgumentsLengthDoesNotMatch);
        }
        match &value.arguments[0] {
            Argument::Reference(inner) => Ok(
                GrabOperator { reference: Reference(copy_texts(&inner.0)) },
            ),
            _ => Err(OperatorParsingErrorReason::ArgumentsTypesDoNotMatch),
        }
    }
}

impl ParamOperator {
    /// The `param` operator of a call, or why the call is not one.
    pub fn try_from_expr(value: &Expr) -> (r: Result<ParamOperator, OperatorParsingErrorReason>)
        ensures
            match r {
                Ok(op) => validate(NativeOperator::Param, value@) == Ok::<
                    PayloadModel,
                    OperatorParsingErrorReason,
                >(PayloadModel::Param),
                Err(reason) => validate(NativeOperator::Param, value@) == Err::<
                    PayloadModel,
                    OperatorParsingErrorReason,
                >(reason),
            },
    {
        if !name_is(value, NativeOperator::Param) {
            return Err(OperatorParsingErrorReason::NameDoesNotMatch);
        }
        if value.arguments.len() != 0 {
            return Err(OperatorParsingErrorReason::ArgumentsLengthDoesNotMatch);
        }
        Ok(ParamOperator {  })
    }
}

/// One kind's attempt at a call, as `attempt` states it.
fn try_parse_native(expr: &Expr, kind: NativeOperator) -> (r: Option<
    Result<Operator, OperatorParsingError>,
>)
    ensures
        match r {
            Some(Ok(op)) => attempt(kind, expr@) == Some(
                Ok::<OpModel, OperatorParsingError>(op@),
            ) && op.source == OperatorSource::Native(kind) && op.priority == kind_rank(kind),
            Some(Err(err)) => attempt(kind, expr@) == Some(Err::<OpModel, OperatorParsingError>(err)),
            None => attempt(kind, expr@) is None,
        },
{
    let made: Result<NativePayload, OperatorParsingErrorReason> = match kind {
        NativeOperator::Expect => match ExpectOperator::try_from_expr(expr) {
            Ok(op) => Ok(NativePayload::Expect(op)),
            Err(e) => Err(e),
        },
        NativeOperator::Grab => match GrabOperator::try_from_expr(expr) {
            Ok(op) => Ok(NativePayload::Grab(op)),
            Err(e) => Err(e),
        },
        NativeOperator::Param => match ParamOperator::try_from_expr(expr) {
            Ok(op) => Ok(NativePayload::Param(op)),
            Err(e) => Err(e),
        },
    };
    match made {
        Ok(payload) => {
            let priority = match &payload {
                NativePayload::Expect(op) => op.priority(),
                NativePayload::Grab(op) => op.priority(),
                NativePayload::Param(op) => op.priority(),
            };
            Some(Ok(Operator { source: OperatorSource::Native(kind), payload, priority }))
        },
        Err(OperatorParsingErrorReason::NameDoesNotMatch) => None,
        Err(reason) => Some(Err((Some(kind), reason))),
    }
}

impl NativeOperator {
    /// The operator that a call makes (see `dispatch`).
    pub fn try_parsing_operator(expr: &Expr) -> (r: Result<Operator, OperatorParsingError>)
        ensures
            match r {
                Ok(op) => dispatch(expr@) == Ok::<OpModel, OperatorParsingError>(op@) && match op.source {
                    OperatorSource::Native(k) => expr@.name == kind_name(k) && op.priority
                        == kind_rank(k),
                },
                Err(err) => dispatch(expr@) == Err::<OpModel, OperatorParsingError>(err),
            },
    {
        if let Some(operator) = try_parse_native(expr, NativeOperator::Expect) {
            return operator;
        }
        if let Some(operator) = try_parse_native(expr, NativeOperator::Param) {
            return operator;
        }
        if let Some(operator) = try_parse_native(expr, NativeOperator::Grab) {
            return operator;
        }
        Err((None, OperatorParsingErrorReason::NoneMatched))
    }
}

} // verus!
