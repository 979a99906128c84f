//! From a merged raw document to a resolved one: string scalars that spell an
//! operator call become operator nodes, then the operators run, one phase after
//! the other.

use vstd::prelude::*;
use vstd::std_specs::vec::axiom_vec_index_decreases;
use crate::data::{
    Doc, RawData, OperatorData, RawOperatorData, call_items_view, call_entries_view,
    lemma_call_items_view, lemma_call_entries_view, lemma_call_items_push, lemma_call_entries_push, DataKey, DataKeyPath, raw_items_view, raw_entries_view,
    op_items_view, op_entries_view, lemma_raw_items_view, lemma_raw_entries_view,
    lemma_op_items_view, lemma_op_entries_view, lemma_op_items_push, lemma_op_entries_push,
};
use crate::expr::{Expr, expr_of};
use crate::operators::{
    NativeOperator, OperatorParsingError, dispatch, OpModel, PayloadModel, ErrorModel, Operator,
    NativePayload, OperatorExecutionErrorReason, OperatorPriorityRank, OperatorPriority,
    ParamOperator, ExpectOperator, GrabOperator, OperatorSource,
};
use crate::data::{lookup, keys_view, find_op_key, merge, well_formed};
use crate::path::{decimal, display, index_value};
use crate::text::{chars_of, text_all};

verus! {

// ---------------------------------------------------------------------------
// Calls.
/// `d` with each string scalar that spells an operator call replaced by the
/// call; any other string stays as it is.
pub open spec fn parse_calls(d: Doc) -> Doc
    decreases d, 0int,
{
    match d {
        Doc::Text(t) => match expr_of(t) {
            Some(e) => Doc::Call(e),
            None => Doc::Text(t),
        },
        Doc::Sequence(xs) => Doc::Sequence(parse_items(xs, xs.len() as int)),
        Doc::Mapping(es) => Doc::Mapping(parse_entries(es, es.len() as int)),
        _ => d,
    }
}

pub open spec fn parse_items(xs: Seq<Doc>, n: int) -> Seq<Doc>
    decreases xs, n,
{
    if n <= 0 || n > xs.len() {
        Seq::empty()
    } else {
        parse_items(xs, n - 1).push(parse_calls(xs[n - 1]))
    }
}

pub open spec fn parse_entries(es: Seq<(Seq<char>, Doc)>, n: int) -> Seq<(Seq<char>, Doc)>
    decreases es, n,
{
    if n <= 0 || n > es.len() {
        Seq::empty()
    } else {
        parse_entries(es, n - 1).push((es[n - 1].0, parse_calls(es[n - 1].1)))
    }
}

fn parse_node(d: &RawData) -> (r: RawOperatorData)
    ensures
        r@ == parse_calls(d@),
    decreases d,
{
    match d {
        RawData::Null => RawOperatorData::Null,
        RawData::Boolean(b) => RawOperatorData::Boolean(*b),
        RawData::Number(n) => RawOperatorData::Number(*n),
        RawData::String(t) => match Expr::try_parse(t.as_str()) {
            Some(e) => RawOperatorData::RawOperator(e),
            None => RawOperatorData::String(t.clone()),
        },
        RawData::Sequence(v) => {
            let ghost xs = raw_items_view(v@);
            proof {
                lemma_raw_items_view(v@);
            }
            let mut out: Vec<RawOperatorData> = Vec::new();
            let mut i: usize = 0;
            while i < v.len()
                invariant
                    i <= v.len(),
                    *d == RawData::Sequence(*v),
                    xs == raw_items_view(v@),
                    xs.len() == v.len(),
                    forall|m: int| 0 <= m < v.len() ==> #[trigger] xs[m] == v@[m].view(),
                    call_items_view(out@) == parse_items(xs, i as int),
                decreases v.len() - i,
            {
                proof {
                    axiom_vec_index_decreases(*v, i as int);
                    assert(decreases_to!(*d => d->Sequence_0));
                }
                let y = parse_node(&v[i]);
                proof {
                    lemma_call_items_push(out@, y);
                }
                out.push(y);
                i = i + 1;
            }
            RawOperatorData::Sequence(out)
        },
        RawData::Mapping(v) => {
            let ghost es = raw_entries_view(v@);
            proof {
                lemma_raw_entries_view(v@);
            }
            let mut out: Vec<(DataKey, RawOperatorData)> = Vec::new();
            let mut i: usize = 0;
            while i < v.len()
                invariant
                    i <= v.len(),
                    *d == RawData::Mapping(*v),
                    es == raw_entries_view(v@),
                    es.len() == v.len(),
                    forall|m: int|
                        0 <= m < v.len() ==> #[trigger] es[m] == (v@[m].0@, v@[m].1.view()),
                    call_entries_view(out@) == parse_entries(es, i as int),
                decreases v.len() - i,
            {
                proof {
                    axiom_vec_index_decreases(*v, i as int);
                    assert(decreases_to!(*d => d->Mapping_0));
                    assert(decreases_to!(v@[i as int] => v@[i as int].1));
                }
                let c = (v[i].0.copy(), parse_node(&v[i].1));
                proof {
                    lemma_call_entries_push(out@, c);
                }
                out.push(c);
                i = i + 1;
            }
            RawOperatorData::Mapping(out)
        },
    }
}

// ---------------------------------------------------------------------------
// Operator nodes.
/// `d` with each call replaced by the operator that it makes; the first call,
/// in document order, that the registry refuses is the error.
pub open spec fn make_operators(d: Doc) -> Result<Doc, OperatorParsingError>
    decreases d, 0int,
{
    match d {
        Doc::Call(e) => match dispatch(e) {
            Ok(op) => Ok(Doc::Op(op)),
            Err(x) => Err(x),
        },
        Doc::Sequence(xs) => match make_items(xs, xs.len() as int) {
            Ok(ys) => Ok(Doc::Sequence(ys)),
            Err(x) => Err(x),
        },
        Doc::Mapping(es) => match make_entries(es, es.len() as int) {
            Ok(fs) => Ok(Doc::Mapping(fs)),
            Err(x) => Err(x),
        },
        _ => Ok(d),
    }
}

pub open spec fn make_items(xs: Seq<Doc>, n: int) -> Result<Seq<Doc>, OperatorParsingError>
    decreases xs, n,
{
    if n <= 0 || n > xs.len() {
        Ok(Seq::empty())
    } else {
        match make_items(xs, n - 1) {
            Ok(ys) => match make_operators(xs[n - 1]) {
                Ok(y) => Ok(ys.push(y)),
                Err(x) => Err(x),
            },
            Err(x) => Err(x),
        }
    }
}

pub open spec fn make_entries(es: Seq<(Seq<char>, Doc)>, n: int) -> Result<
    Seq<(Seq<char>, Doc)>,
    OperatorParsingError,
>
    decreases es, n,
{
    if n <= 0 || n > es.len() {
        Ok(Seq::empty())
    } else {
        match make_entries(es, n - 1) {
            Ok(fs) => match make_operators(es[n - 1].1) {
                Ok(y) => Ok(fs.push((es[n - 1].0, y))),
                Err(x) => Err(x),
            },
            Err(x) => Err(x),
        }
    }
}

/// A raw document made operator-aware: its calls parsed, then made operators.
pub open spec fn hydrate(d: Doc) -> Result<Doc, OperatorParsingError> {
    make_operators(parse_calls(d))
}

proof fn lemma_make_items_err(xs: Seq<Doc>, i: int, n: int)
    requires
        0 < i <= n <= xs.len(),
        make_items(xs, i) is Err,
    ensures
        make_items(xs, n) == make_items(xs, i),
    decreases n - i,
{
    if n > i {
        lemma_make_items_err(xs, i, n - 1);
    }
}

proof fn lemma_make_entries_err(es: Seq<(Seq<char>, Doc)>, i: int, n: int)
    requires
        0 < i <= n <= es.len(),
        make_entries(es, i) is Err,
    ensures
        make_entries(es, n) == make_entries(es, i),
    decreases n - i,
{
    if n > i {
        lemma_make_entries_err(es, i, n - 1);
    }
}

fn make_node(d: &RawOperatorData) -> (r: Result<OperatorData, OperatorParsingError>)
    ensures
        match r {
            Ok(o) => make_operators(d@) == Ok::<Doc, OperatorParsingError>(o@),
            Err(x) => make_operators(d@) == Err::<Doc, OperatorParsingError>(x),
        },
    decreases d,
{
    match d {
        RawOperatorData::Null => Ok(OperatorData::Null),
        RawOperatorData::Boolean(b) => Ok(OperatorData::Boolean(*b)),
        RawOperatorData::Number(n) => Ok(OperatorData::Number(*n)),
        RawOperatorData::String(t) => Ok(OperatorData::String(t.clone())),
        RawOperatorData::RawOperator(e) => match NativeOperator::try_parsing_operator(e) {
            Ok(op) => Ok(OperatorData::Operator(op)),
            Err(x) => Err(x),
        },
        RawOperatorData::Sequence(v) => {
            let ghost xs = call_items_view(v@);
            proof {
                lemma_call_items_view(v@);
            }
            let mut out: Vec<OperatorData> = Vec::new();
            let mut i: usize = 0;
            while i < v.len()
                invariant
                    i <= v.len(),
                    *d == RawOperatorData::Sequence(*v),
                    xs == call_items_view(v@),
                    xs.len() == v.len(),
                    forall|m: int| 0 <= m < v.len() ==> #[trigger] xs[m] == v@[m].view(),
                    make_items(xs, i as int) == Ok::<Seq<Doc>, OperatorParsingError>(
                        op_items_view(out@),
                    ),
                decreases v.len() - i,
            {
                proof {
                    axiom_vec_index_decreases(*v, i as int);
                    assert(decreases_to!(*d => d->Sequence_0));
                }
                match make_node(&v[i]) {
                    Ok(y) => {
                        proof {
                            lemma_op_items_push(out@, y);
                        }
                        out.push(y);
                    },
                    Err(x) => {
                        proof {
                            lemma_make_items_err(xs, i + 1, xs.len() as int);
                        }
                        return Err(x);
                    },
                }
                i = i + 1;
            }
            Ok(OperatorData::Sequence(out))
        },
        RawOperatorData::Mapping(v) => {
            let ghost es = call_entries_view(v@);
            proof {
                lemma_call_entries_view(v@);
            }
            let mut out: Vec<(DataKey, OperatorData)> = Vec::new();
            let mut i: usize = 0;
            while i < v.len()
                invariant
                    i <= v.len(),
                    *d == RawOperatorData::Mapping(*v),
                    es == call_entries_view(v@),
                    es.len() == v.len(),
                    forall|m: int|
                        0 <= m < v.len() ==> #[trigger] es[m] == (v@[m].0@, v@[m].1.view()),
                    make_entries(es, i as int) == Ok::<
                        Seq<(Seq<char>, Doc)>,
                        OperatorParsingError,
                    >(op_entries_view(out@)),
                decreases v.len() - i,
            {
                proof {
                    axiom_vec_index_decreases(*v, i as int);
                    assert(decreases_to!(*d => d->Mapping_0));
                    assert(decreases_to!(v@[i as int] => v@[i as int].1));
                }
                match make_node(&v[i].1) {
                    Ok(y) => {
                        let c = (v[i].0.copy(), y);
                        proof {
                            lemma_op_entries_push(out@, c);
                        }
                        out.push(c);
                    },
                    Err(x) => {
                        proof {
                            lemma_make_entries_err(es, i + 1, es.len() as int);
                        }
                        return Err(x);
                    },
                }
                i = i + 1;
            }
            Ok(OperatorData::Mapping(out))
        },
    }
}

impl RawData {
    /// This document with each string that spells an operator call parsed into
    /// the call (see `parse_calls`).
    pub fn into_raw_operator_data(self) -> (r: RawOperatorData)
        ensures
            r@ == parse_calls(self@),
    {
        parse_node(&self)
    }

    /// This document with its operator calls made operators (see `hydrate`).
    pub fn into_operator_data(self) -> (r: Result<OperatorData, OperatorParsingError>)
        ensures
            match r {
                Ok(o) => hydrate(self@) == Ok::<Doc, OperatorParsingError>(o@),
                Err(x) => hydrate(self@) == Err::<Doc, OperatorParsingError>(x),
            },
    {
        self.into_raw_operator_data().try_into_operator_data()
    }
}

impl RawOperatorData {
    /// This document with each call made the operator that it makes (see
    /// `make_operators`).
    pub fn try_into_operator_data(self) -> (r: Result<OperatorData, OperatorParsingError>)
        ensures
            match r {
                Ok(o) => make_operators(self@) == Ok::<Doc, OperatorParsingError>(o@),
                Err(x) => make_operators(self@) == Err::<Doc, OperatorParsingError>(x),
            },
    {
        make_node(&self)
    }
}

// ---------------------------------------------------------------------------
// Locations. A location is the list of child indices that lead from the root
// to a node: the index of an item in a sequence, of an entry in a mapping.
pub open spec fn child_count(d: Doc) -> int {
    match d {
        Doc::Sequence(xs) => xs.len() as int,
        Doc::Mapping(es) => es.len() as int,
        _ => 0,
    }
}

pub open spec fn child(d: Doc, i: int) -> Doc {
    match d {
        Doc::Sequence(xs) => xs[i],
        Doc::Mapping(es) => es[i].1,
        _ => d,
    }
}

/// The key that leads to a child: its mapping key, or its index in decimal.
pub open spec fn child_key(d: Doc, i: int) -> Seq<char> {
    match d {
        Doc::Mapping(es) => es[i].0,
        _ => decimal(i as nat),
    }
}

pub open spec fn with_child(d: Doc, i: int, c: Doc) -> Doc {
    match d {
        Doc::Sequence(xs) => Doc::Sequence(xs.update(i, c)),
        Doc::Mapping(es) => Doc::Mapping(es.update(i, (es[i].0, c))),
        _ => d,
    }
}

/// The node at a location.
pub open spec fn node_at(d: Doc, loc: Seq<usize>) -> Option<Doc>
    decreases loc.len(),
{
    if loc.len() == 0 {
        Some(d)
    } else if loc[0] < child_count(d) {
        node_at(child(d, loc[0] as int), loc.drop_first())
    } else {
        None
    }
}

/// The path of keys that leads to a location.
pub open spec fn keys_at(d: Doc, loc: Seq<usize>) -> Seq<Seq<char>>
    decreases loc.len(),
{
    if loc.len() > 0 && loc[0] < child_count(d) {
        seq![child_key(d, loc[0] as int)] + keys_at(child(d, loc[0] as int), loc.drop_first())
    } else {
        Seq::empty()
    }
}

/// `d` with the node at a location replaced by `v`.
pub open spec fn replace_at(d: Doc, loc: Seq<usize>, v: Doc) -> Doc
    decreases loc.len(),
{
    if loc.len() == 0 {
        v
    } else if loc[0] < child_count(d) {
        with_child(d, loc[0] as int, replace_at(child(d, loc[0] as int), loc.drop_first(), v))
    } else {
        d
    }
}

/// The value that a path of keys leads to: a key enters a mapping by its key,
/// a sequence by its index.
pub open spec fn get_at(d: Doc, p: Seq<Seq<char>>) -> Option<Doc>
    decreases p.len(),
{
    if p.len() == 0 {
        Some(d)
    } else {
        match d {
            Doc::Mapping(es) => match lookup(es, p[0]) {
                Some(v) => get_at(v, p.drop_first()),
                None => None,
            },
            Doc::Sequence(xs) => match index_value(p[0]) {
                Some(n) => if n < xs.len() {
                    get_at(xs[n as int], p.drop_first())
                } else {
                    None
                },
                None => None,
            },
            _ => None,
        }
    }
}

pub open spec fn under(i: usize, locs: Seq<Seq<usize>>) -> Seq<Seq<usize>> {
    locs.map_values(|l: Seq<usize>| seq![i] + l)
}

/// The locations of the operators of phase `r`, in pre-order: a node before
/// its children, children in their order (a mapping's in the order of its
/// entries).
pub open spec fn op_locations(d: Doc, r: OperatorPriorityRank) -> Seq<Seq<usize>>
    decreases d, 0int,
{
    match d {
        Doc::Op(op) => if op.rank == r {
            seq![Seq::empty()]
        } else {
            Seq::empty()
        },
        Doc::Sequence(xs) => item_locations(xs, r, xs.len() as int),
        Doc::Mapping(es) => entry_locations(es, r, es.len() as int),
        _ => Seq::empty(),
    }
}

pub open spec fn item_locations(xs: Seq<Doc>, r: OperatorPriorityRank, n: int) -> Seq<Seq<usize>>
    decreases xs, n,
{
    if n <= 0 || n > xs.len() {
        Seq::empty()
    } else {
        item_locations(xs, r, n - 1) + under((n - 1) as usize, op_locations(xs[n - 1], r))
    }
}

pub open spec fn entry_locations(
    es: Seq<(Seq<char>, Doc)>,
    r: OperatorPriorityRank,
    n: int,
) -> Seq<Seq<usize>>
    decreases es, n,
{
    if n <= 0 || n > es.len() {
        Seq::empty()
    } else {
        entry_locations(es, r, n - 1) + under((n - 1) as usize, op_locations(es[n - 1].1, r))
    }
}

// ---------------------------------------------------------------------------
// Execution.
pub open spec fn param_message(own: Seq<Seq<char>>) -> Seq<char> {
    "At path '"@ + display(own) + "', expected a parameter to be overriden"@
}

pub open spec fn expect_message(own: Seq<Seq<char>>, msg: Seq<char>) -> Seq<char> {
    "At path '"@ + display(own) + "', expected a value. Message: '"@ + msg + "'"@
}

/// What an operator at path `own` of `tree` does: the value that replaces it,
/// or why it fails. `param` and `expect` always fail; `grab` gives the value
/// at its reference.
pub open spec fn execute_op(op: OpModel, tree: Doc, own: Seq<Seq<char>>) -> Result<
    Doc,
    ErrorModel,
> {
    match op.payload {
        PayloadModel::Param => Err(ErrorModel::Other(param_message(own))),
        PayloadModel::Expect(m) => Err(ErrorModel::Other(expect_message(own, m))),
        PayloadModel::Grab(r) => match get_at(tree, r) {
            Some(v) => Ok(v),
            None => Err(ErrorModel::ReferenceUnavailable),
        },
    }
}

/// Runs the operators at `locs[k..]` in turn, each on the tree as the ones
/// before it left it; the first failure stops the run.
pub open spec fn run_from(d: Doc, locs: Seq<Seq<usize>>, k: int) -> Result<
    Doc,
    (Seq<Seq<char>>, ErrorModel),
>
    decreases locs.len() - k,
{
    if k < 0 || k >= locs.len() {
        Ok(d)
    } else {
        match node_at(d, locs[k]) {
            Some(Doc::Op(op)) => match execute_op(op, d, keys_at(d, locs[k])) {
                Ok(v) => run_from(replace_at(d, locs[k], v), locs, k + 1),
                Err(e) => Err((keys_at(d, locs[k]), e)),
            },
            _ => run_from(d, locs, k + 1),
        }
    }
}

/// One phase: the operators of rank `r` that the tree holds when it starts,
/// in pre-order. A node that an operator put in place is not visited.
pub open spec fn run_phase(d: Doc, r: OperatorPriorityRank) -> Result<
    Doc,
    (Seq<Seq<char>>, ErrorModel),
> {
    run_from(d, op_locations(d, r), 0)
}

pub open spec fn then_phase(
    prev: Result<Doc, (Seq<Seq<char>>, ErrorModel)>,
    r: OperatorPriorityRank,
) -> Result<Doc, (Seq<Seq<char>>, ErrorModel)> {
    match prev {
        Ok(d) => run_phase(d, r),
        Err(e) => Err(e),
    }
}

/// The resolved document: the five phases, from `First` to `Last`.
pub open spec fn resolve(d: Doc) -> Result<Doc, (Seq<Seq<char>>, ErrorModel)> {
    then_phase(
        then_phase(
            then_phase(
                then_phase(run_phase(d, OperatorPriorityRank::First), OperatorPriorityRank::AfterFirst),
                OperatorPriorityRank::Middle,
            ),
            OperatorPriorityRank::BeforeLast,
        ),
        OperatorPriorityRank::Last,
    )
}

// ---------------------------------------------------------------------------
// The engine.
/// Why a run failed: the path of the operator that failed, and its reason.
pub type OperatorExecutionError = (DataKeyPath, OperatorExecutionErrorReason);

pub proof fn lemma_children(d: OperatorData)
    ensures
        match d {
            OperatorData::Sequence(v) => child_count(d@) == v.len() && forall|i: int|
                0 <= i < v.len() ==> #[trigger] child(d@, i) == v@[i]@ && child_key(d@, i)
                    == decimal(i as nat),
            OperatorData::Mapping(v) => child_count(d@) == v.len() && forall|i: int|
                0 <= i < v.len() ==> #[trigger] child(d@, i) == v@[i].1@ && child_key(d@, i)
                    == v@[i].0@,
            _ => child_count(d@) == 0,
        },
{
    match d {
        OperatorData::Sequence(v) => lemma_op_items_view(v@),
        OperatorData::Mapping(v) => lemma_op_entries_view(v@),
        _ => {},
    }
}

/// A copy of the operator at a location, if an operator is there.
fn operator_at(d: &OperatorData, loc: &Vec<usize>) -> (r: Option<Operator>)
    ensures
        match r {
            Some(op) => node_at(d@, loc@) == Some(Doc::Op(op@)),
            None => !(node_at(d@, loc@) matches Some(Doc::Op(_))),
        },
{
    let mut cur: &OperatorData = d;
    let mut k: usize = 0;
    assert(loc@.subrange(0, loc.len() as int) =~= loc@);
    while k < loc.len()
        invariant
            k <= loc.len(),
            node_at(d@, loc@) == node_at(cur@, loc@.subrange(k as int, loc.len() as int)),
        decreases loc.len() - k,
    {
        let ghost sub = loc@.subrange(k as int, loc.len() as int);
        assert(sub.drop_first() =~= loc@.subrange(k + 1, loc.len() as int));
        proof {
            lemma_children(*cur);
        }
        let i = loc[k];
        match cur {
            OperatorData::Sequence(v) => {
                if i < v.len() {
                    cur = &v[i];
                } else {
                    return None;
                }
            },
            OperatorData::Mapping(v) => {
                if i < v.len() {
                    cur = &v[i].1;
                } else {
                    return None;
                }
            },
            _ => {
                return None;
            },
        }
        k = k + 1;
    }
    assert(loc@.subrange(k as int, loc.len() as int).len() == 0);
    match cur {
        OperatorData::Operator(op) => Some(op.copy()),
        _ => None,
    }
}

/// The path of keys that leads to a location.
fn key_path_at(d: &OperatorData, loc: &Vec<usize>) -> (r: DataKeyPath)
    ensures
        r@ == keys_at(d@, loc@),
{
    let mut out: Vec<DataKey> = Vec::new();
    let mut cur: &OperatorData = d;
    let mut k: usize = 0;
    assert(keys_view(out@) =~= Seq::<Seq<char>>::empty());
    assert(loc@.subrange(0, loc.len() as int) =~= loc@);
    while k < loc.len()
        invariant
            k <= loc.len(),
            keys_at(d@, loc@) == keys_view(out@) + keys_at(
                cur@,
                loc@.subrange(k as int, loc.len() as int),
            ),
        decreases loc.len() - k,
    {
        let ghost sub = loc@.subrange(k as int, loc.len() as int);
        let ghost before = out@;
        assert(sub.drop_first() =~= loc@.subrange(k + 1, loc.len() as int));
        proof {
            lemma_children(*cur);
        }
        let i = loc[k];
        match cur {
            OperatorData::Sequence(v) => {
                if i < v.len() {
                    out.push(DataKey::from_index(i));
                    cur = &v[i];
                } else {
                    assert(keys_view(out@) + Seq::<Seq<char>>::empty() =~= keys_view(out@));
                    return DataKeyPath(out);
                }
            },
            OperatorData::Mapping(v) => {
                if i < v.len() {
                    out.push(v[i].0.copy());
                    cur = &v[i].1;
                } else {
                    assert(keys_view(out@) + Seq::<Seq<char>>::empty() =~= keys_view(out@));
                    return DataKeyPath(out);
                }
            },
            _ => {
                assert(keys_view(out@) + Seq::<Seq<char>>::empty() =~= keys_view(out@));
                return DataKeyPath(out);
            },
        }
        assert(keys_view(out@) =~= keys_view(before).push(out@.last()@));
        k = k + 1;
    }
    assert(keys_view(out@) + Seq::<Seq<char>>::empty() =~= keys_view(out@));
    DataKeyPath(out)
}

/// `d` with the node at `loc[k..]` replaced by `v`.
fn replace_node(d: OperatorData, loc: &Vec<usize>, k: usize, v: OperatorData) -> (r: OperatorData)
    requires
        k <= loc.len(),
    ensures
        r@ == replace_at(d@, loc@.subrange(k as int, loc.len() as int), v@),
    decreases loc.len() - k,
{
    let ghost sub = loc@.subrange(k as int, loc.len() as int);
    if k == loc.len() {
        return v;
    }
    assert(sub.drop_first() =~= loc@.subrange(k + 1, loc.len() as int));
    proof {
        lemma_children(d);
    }
    let i = loc[k];
    match d {
        OperatorData::Sequence(mut xs) => {
            if i < xs.len() {
                let ghost old_xs = xs@;
                let c = xs.remove(i);
                let nc = replace_node(c, loc, k + 1, v);
                xs.insert(i, nc);
                assert(xs@ =~= old_xs.update(i as int, nc));
                proof {
                    lemma_op_items_view(xs@);
                    lemma_op_items_view(old_xs);
                }
                assert(op_items_view(xs@) =~= op_items_view(old_xs).update(i as int, nc@));
                OperatorData::Sequence(xs)
            } else {
                OperatorData::Sequence(xs)
            }
        },
        OperatorData::Mapping(mut es) => {
            if i < es.len() {
                let ghost old_es = es@;
                let (key, c) = es.remove(i);
                let nc = replace_node(c, loc, k + 1, v);
                xs_insert_entry(&mut es, i, key, nc);
                proof {
                    lemma_op_entries_view(es@);
                    lemma_op_entries_view(old_es);
                }
                assert(op_entries_view(es@) =~= op_entries_view(old_es).update(
                    i as int,
                    (op_entries_view(old_es)[i as int].0, nc@),
                ));
                OperatorData::Mapping(es)
            } else {
                OperatorData::Mapping(es)
            }
        },
        other => other,
    }
}

fn xs_insert_entry(es: &mut Vec<(DataKey, OperatorData)>, i: usize, key: DataKey, v: OperatorData)
    requires
        i <= old(es).len(),
    ensures
        final(es)@ == old(es)@.insert(i as int, (key, v)),
{
    es.insert(i, (key, v));
}

/// A copy of the value that a path of keys leads to.
fn value_at(d: &OperatorData, p: &DataKeyPath) -> (r: Option<OperatorData>)
    ensures
        match r {
            Some(v) => get_at(d@, p@) == Some(v@),
            None => get_at(d@, p@) is None,
        },
{
    let mut cur: &OperatorData = d;
    let mut k: usize = 0;
    assert(p@.subrange(0, p.0.len() as int) =~= p@);
    while k < p.0.len()
        invariant
            k <= p.0.len(),
            get_at(d@, p@) == get_at(cur@, p@.subrange(k as int, p.0.len() as int)),
        decreases p.0.len() - k,
    {
        let ghost sub = p@.subrange(k as int, p.0.len() as int);
        assert(sub.drop_first() =~= p@.subrange(k + 1, p.0.len() as int));
        assert(sub[0] == p.0@[k as int]@);
        match cur {
            OperatorData::Mapping(es) => {
                proof {
                    lemma_op_entries_view(es@);
                }
                match find_op_key(es, &p.0[k]) {
                    Some(j) => {
                        cur = &es[j].1;
                    },
                    None => {
                        return None;
                    },
                }
            },
            OperatorData::Sequence(xs) => {
                proof {
                    lemma_op_items_view(xs@);
                }
                match p.0[k].to_index() {
                    Ok(n) => {
                        if n < xs.len() {
                            cur = &xs[n];
                        } else {
                            return None;
                        }
                    },
                    Err(_) => {
                        return None;
                    },
                }
            },
            _ => {
                return None;
            },
        }
        k = k + 1;
    }
    assert(p@.subrange(k as int, p.0.len() as int).len() == 0);
    Some(cur.copy())
}

/// Appends the characters of `t` to `out`.
fn push_text(out: &mut Vec<char>, t: &str)
    ensures
        final(out)@ == old(out)@ + t@,
{
    let cs = chars_of(t);
    let mut j: usize = 0;
    while j < cs.len()
        invariant
            j <= cs.len(),
            cs@ == t@,
            out@ == old(out)@ + cs@.subrange(0, j as int),
        decreases cs.len() - j,
    {
        out.push(cs[j]);
        j = j + 1;
        assert(out@ =~= old(out)@ + cs@.subrange(0, j as int));
    }
    assert(cs@.subrange(0, cs.len() as int) =~= cs@);
}

/// The capability of an operator's arguments: what the operator does at path
/// `path` of `data`, the value that is to replace it or why it fails.
pub trait OperatorPayload {
    spec fn outcome(&self, tree: Doc, own: Seq<Seq<char>>) -> Result<Doc, ErrorModel>;

    fn execute(&self, data: &OperatorData, path: &DataKeyPath) -> (r: Result<
        OperatorData,
        OperatorExecutionErrorReason,
    >)
        ensures
            match r {
                Ok(v) => self.outcome(data@, path@) == Ok::<Doc, ErrorModel>(v@),
                Err(e) => self.outcome(data@, path@) == Err::<Doc, ErrorModel>(e@),
            },
    ;
}

impl OperatorPayload for ParamOperator {
    open spec fn outcome(&self, tree: Doc, own: Seq<Seq<char>>) -> Result<Doc, ErrorModel> {
        execute_op(OpModel {
                source: OperatorSource::Native(NativeOperator::Param),
                payload: PayloadModel::Param, rank: self.rank() }, tree, own)
    }

    fn execute(&self, data: &OperatorData, path: &DataKeyPath) -> (r: Result<
        OperatorData,
        OperatorExecutionErrorReason,
    >) {
        let mut out: Vec<char> = Vec::new();
        push_text(&mut out, "At path '");
        push_text(&mut out, path.to_string().as_str());
        push_text(&mut out, "', expected a parameter to be overriden");
        Err(OperatorExecutionErrorReason::OtherError(text_all(&out)))
    }
}

impl OperatorPayload for ExpectOperator {
    open spec fn outcome(&self, tree: Doc, own: Seq<Seq<char>>) -> Result<Doc, ErrorModel> {
        execute_op(
            OpModel {
                source: OperatorSource::Native(NativeOperator::Expect),
                payload: PayloadModel::Expect(self.error_msg.0@), rank: self.rank() },
            tree,
            own,
        )
    }

    fn execute(&self, data: &OperatorData, path: &DataKeyPath) -> (r: Result<
        OperatorData,
        OperatorExecutionErrorReason,
    >) {
        let mut out: Vec<char> = Vec::new();
        push_text(&mut out, "At path '");
        push_text(&mut out, path.to_string().as_str());
        push_text(&mut out, "', expected a value. Message: '");
        push_text(&mut out, self.error_msg.0.as_str());
        push_text(&mut out, "'");
        Err(OperatorExecutionErrorReason::OtherError(text_all(&out)))
    }
}

impl OperatorPayload for GrabOperator {
    open spec fn outcome(&self, tree: Doc, own: Seq<Seq<char>>) -> Result<Doc, ErrorModel> {
        execute_op(
            OpModel {
                source: OperatorSource::Native(NativeOperator::Grab),
                payload: PayloadModel::Grab(self.reference@), rank: self.rank() },
            tree,
            own,
        )
    }

    fn execute(&self, data: &OperatorData, path: &DataKeyPath) -> (r: Result<
        OperatorData,
        OperatorExecutionErrorReason,
    >) {
        let target = DataKeyPath::from_reference(&self.reference);
        match value_at(data, &target) {
            Some(v) => Ok(v),
            None => Err(OperatorExecutionErrorReason::ReferenceUnavailable),
        }
    }
}

impl Operator {
    /// What this operator, at path `path` of `data`, does (see `execute_op`):
    /// the value that is to replace it, or why it fails.
    pub fn execute(&self, data: &OperatorData, path: &DataKeyPath) -> (r: Result<
        OperatorData,
        OperatorExecutionErrorReason,
    >)
        ensures
            match r {
                Ok(v) => execute_op(self@, data@, path@) == Ok::<Doc, ErrorModel>(v@),
                Err(e) => execute_op(self@, data@, path@) == Err::<Doc, ErrorModel>(e@),
            },
    {
        match &self.payload {
            NativePayload::Param(op) => op.execute(data, path),
            NativePayload::Expect(op) => op.execute(data, path),
            NativePayload::Grab(op) => op.execute(data, path),
        }
    }
}

pub open spec fn locations_view(v: Seq<Vec<usize>>) -> Seq<Seq<usize>> {
    v.map_values(|l: Vec<usize>| l@)
}

/// `i`, then `l`.
fn prefixed(i: usize, l: &Vec<usize>) -> (r: Vec<usize>)
    ensures
        r@ == seq![i] + l@,
{
    let mut r: Vec<usize> = Vec::new();
    r.push(i);
    let mut j: usize = 0;
    while j < l.len()
        invariant
            j <= l.len(),
            r@ == seq![i] + l@.subrange(0, j as int),
        decreases l.len() - j,
    {
        r.push(l[j]);
        j = j + 1;
        assert(r@ =~= seq![i] + l@.subrange(0, j as int));
    }
    assert(l@.subrange(0, l.len() as int) =~= l@);
    r
}

/// Appends the locations `sub`, each under child `i`, to `out`.
fn push_under(out: &mut Vec<Vec<usize>>, i: usize, sub: &Vec<Vec<usize>>)
    ensures
        locations_view(final(out)@) == locations_view(old(out)@) + under(i, locations_view(sub@)),
{
    let mut j: usize = 0;
    while j < sub.len()
        invariant
            j <= sub.len(),
            locations_view(out@) == locations_view(old(out)@) + under(
                i,
                locations_view(sub@.subrange(0, j as int)),
            ),
        decreases sub.len() - j,
    {
        let ghost before = out@;
        out.push(prefixed(i, &sub[j]));
        assert(locations_view(out@) =~= locations_view(before).push(seq![i] + sub@[j as int]@));
        assert(under(i, locations_view(sub@.subrange(0, j + 1))) =~= under(
            i,
            locations_view(sub@.subrange(0, j as int)),
        ).push(seq![i] + sub@[j as int]@));
        j = j + 1;
    }
    assert(sub@.subrange(0, sub.len() as int) =~= sub@);
}

/// The locations of the operators of phase `rank`, in pre-order.
fn locations(d: &OperatorData, rank: OperatorPriorityRank) -> (r: Vec<Vec<usize>>)
    ensures
        locations_view(r@) == op_locations(d@, rank),
    decreases d,
{
    match d {
        OperatorData::Operator(op) => {
            let mut r: Vec<Vec<usize>> = Vec::new();
            if op.priority == rank {
                r.push(Vec::new());
                assert(locations_view(r@) =~= seq![Seq::<usize>::empty()]);
            } else {
                assert(locations_view(r@) =~= Seq::<Seq<usize>>::empty());
            }
            r
        },
        OperatorData::Sequence(v) => {
            let ghost xs = op_items_view(v@);
            proof {
                lemma_op_items_view(v@);
            }
            let mut out: Vec<Vec<usize>> = Vec::new();
            assert(locations_view(out@) =~= Seq::<Seq<usize>>::empty());
            let mut i: usize = 0;
            while i < v.len()
                invariant
                    i <= v.len(),
                    *d == OperatorData::Sequence(*v),
                    xs == op_items_view(v@),
                    xs.len() == v.len(),
                    forall|m: int| 0 <= m < v.len() ==> #[trigger] xs[m] == v@[m].view(),
                    locations_view(out@) == item_locations(xs, rank, i as int),
                decreases v.len() - i,
            {
                proof {
                    axiom_vec_index_decreases(*v, i as int);
                    assert(decreases_to!(*d => d->Sequence_0));
                }
                let sub = locations(&v[i], rank);
                push_under(&mut out, i, &sub);
                i = i + 1;
            }
            out
        },
        OperatorData::Mapping(v) => {
            let ghost es = op_entries_view(v@);
            proof {
                lemma_op_entries_view(v@);
            }
            let mut out: Vec<Vec<usize>> = Vec::new();
            assert(locations_view(out@) =~= Seq::<Seq<usize>>::empty());
            let mut i: usize = 0;
            while i < v.len()
                invariant
                    i <= v.len(),
                    *d == OperatorData::Mapping(*v),
                    es == op_entries_view(v@),
                    es.len() == v.len(),
                    forall|m: int|
                        0 <= m < v.len() ==> #[trigger] es[m] == (v@[m].0@, v@[m].1.view()),
                    locations_view(out@) == entry_locations(es, rank, i as int),
                decreases v.len() - i,
            {
                proof {
                    axiom_vec_index_decreases(*v, i as int);
                    assert(decreases_to!(*d => d->Mapping_0));
                    assert(decreases_to!(v@[i as int] => v@[i as int].1));
                }
                let sub = locations(&v[i].1, rank);
                push_under(&mut out, i, &sub);
                i = i + 1;
            }
            out
        },
        _ => {
            let r: Vec<Vec<usize>> = Vec::new();
            assert(locations_view(r@) =~= Seq::<Seq<usize>>::empty());
            r
        },
    }
}

/// One phase of a run (see `run_phase`).
fn run_phase_on(tree: OperatorData, rank: OperatorPriorityRank) -> (r: Result<
    OperatorData,
    OperatorExecutionError,
>)
    ensures
        match r {
            Ok(t) => run_phase(tree@, rank) == Ok::<Doc, (Seq<Seq<char>>, ErrorModel)>(t@),
            Err((p, e)) => run_phase(tree@, rank) == Err::<Doc, (Seq<Seq<char>>, ErrorModel)>(
                (p@, e@),
            ),
        },
{
    let locs = locations(&tree, rank);
    let ghost lv = locations_view(locs@);
    let ghost start = tree@;
    let mut t = tree;
    let mut k: usize = 0;
    while k < locs.len()
        invariant
            k <= locs.len(),
            lv == locations_view(locs@),
            lv.len() == locs.len(),
            run_phase(start, rank) == run_from(t@, lv, k as int),
            start == tree@,
        decreases locs.len() - k,
    {
        assert(lv[k as int] == locs@[k as int]@);
        assert(locs@[k as int]@.subrange(0, locs@[k as int]@.len() as int) =~= locs@[k as int]@);
        match operator_at(&t, &locs[k]) {
            Some(op) => {
                let own = key_path_at(&t, &locs[k]);
                match op.execute(&t, &own) {
                    Ok(v) => {
                        t = replace_node(t, &locs[k], 0, v);
                    },
                    Err(e) => {
                        return Err((own, e));
                    },
                }
            },
            None => {},
        }
        k = k + 1;
    }
    Ok(t)
}

impl OperatorData {
    /// This document resolved: the operators run phase by phase, from `First`
    /// to `Last` (see `resolve`). The first failure ends the run.
    pub fn resolve(self) -> (r: Result<OperatorData, OperatorExecutionError>)
        ensures
            match r {
                Ok(t) => resolve(self@) == Ok::<Doc, (Seq<Seq<char>>, ErrorModel)>(t@),
                Err((p, e)) => resolve(self@) == Err::<Doc, (Seq<Seq<char>>, ErrorModel)>(
                    (p@, e@),
                ),
            },
    {
        let t = run_phase_on(self, OperatorPriorityRank::First)?;
        let t = run_phase_on(t, OperatorPriorityRank::AfterFirst)?;
        let t = run_phase_on(t, OperatorPriorityRank::Middle)?;
        let t = run_phase_on(t, OperatorPriorityRank::BeforeLast)?;
        run_phase_on(t, OperatorPriorityRank::Last)
    }
}

// ---------------------------------------------------------------------------
// The whole pipeline.
/// `base` with each overlay merged on top, in order.
pub open spec fn merge_chain(base: Doc, overlays: Seq<Doc>) -> Doc
    decreases overlays.len(),
{
    if overlays.len() == 0 {
        base
    } else {
        merge(merge_chain(base, overlays.drop_last()), overlays.last())
    }
}

/// `base` with each overlay merged on top, in order (see `merge_chain`).
pub fn merge_all(base: RawData, overlays: &Vec<RawData>) -> (r: RawData)
    ensures
        r@ == merge_chain(base@, raw_items_view(overlays@)),
        well_formed(base@) && (forall|i: int|
            0 <= i < overlays.len() ==> well_formed(#[trigger] overlays@[i]@)) ==> well_formed(r@),
{
    let ghost ov = raw_items_view(overlays@);
    proof {
        lemma_raw_items_view(overlays@);
    }
    let mut acc = base;
    let mut i: usize = 0;
    assert(ov.subrange(0, 0).len() == 0);
    while i < overlays.len()
        invariant
            i <= overlays.len(),
            ov == raw_items_view(overlays@),
            ov.len() == overlays.len(),
            forall|m: int| 0 <= m < overlays.len() ==> #[trigger] ov[m] == overlays@[m].view(),
            acc@ == merge_chain(base@, ov.subrange(0, i as int)),
            well_formed(base@) && (forall|m: int|
                0 <= m < overlays.len() ==> well_formed(#[trigger] overlays@[m]@)) ==> well_formed(
                acc@,
            ),
        decreases overlays.len() - i,
    {
        let next = overlays[i].copy();
        assert(ov.subrange(0, i + 1).drop_last() =~= ov.subrange(0, i as int));
        acc = acc.recursive_merge(next);
        i = i + 1;
    }
    assert(ov.subrange(0, overlays.len() as int) =~= ov);
    acc
}

/// Why a document could not be resolved.
#[derive(Debug)]
pub enum RenderError {
    /// A call that the registry refused.
    Parsing(OperatorParsingError),
    /// An operator that failed.
    Execution(OperatorExecutionError),
}

/// What rendering a document gives: its operator calls made operators, then
/// resolved.
pub open spec fn render_spec(d: Doc) -> Result<Doc, Result<OperatorParsingError, (Seq<Seq<char>>, ErrorModel)>> {
    match hydrate(d) {
        Ok(h) => match resolve(h) {
            Ok(t) => Ok(t),
            Err(e) => Err(Err(e)),
        },
        Err(x) => Err(Ok(x)),
    }
}

/// The merged document `doc`, its operators made and run.
pub fn render(doc: RawData) -> (r: Result<OperatorData, RenderError>)
    ensures
        match r {
            Ok(t) => render_spec(doc@) == Ok::<
                Doc,
                Result<OperatorParsingError, (Seq<Seq<char>>, ErrorModel)>,
            >(t@),
            Err(RenderError::Parsing(x)) => render_spec(doc@) == Err::<
                Doc,
                Result<OperatorParsingError, (Seq<Seq<char>>, ErrorModel)>,
            >(Ok(x)),
            Err(RenderError::Execution((p, e))) => render_spec(doc@) == Err::<
                Doc,
                Result<OperatorParsingError, (Seq<Seq<char>>, ErrorModel)>,
            >(Err((p@, e@))),
        },
{
    match doc.into_operator_data() {
        Ok(h) => match h.resolve() {
            Ok(t) => Ok(t),
            Err(e) => Err(RenderError::Execution(e)),
        },
        Err(x) => Err(RenderError::Parsing(x)),
    }
}

} // verus!
