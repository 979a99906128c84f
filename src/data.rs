//! The document model: keys, paths, the raw and the operator-aware document
//! trees, and the deep merge of raw documents.

use vstd::prelude::*;
use vstd::std_specs::vec::axiom_vec_index_decreases;
use crate::operators::{Operator, OpModel};
use crate::expr::{Expr, ExprModel};

verus! {

/// A mapping key, or one step of a path.
#[derive(Debug, Clone, Hash, PartialEq, Eq)]
pub struct DataKey(pub String);

impl View for DataKey {
    type V = Seq<char>;

    open spec fn view(&self) -> Seq<char> {
        self.0@
    }
}

/// A location in a document: the keys to enter, from the root.
#[derive(Debug, Clone, PartialEq, Eq)]
pub struct DataKeyPath(pub Vec<DataKey>);

pub open spec fn keys_view(v: Seq<DataKey>) -> Seq<Seq<char>> {
    v.map_values(|k: DataKey| k@)
}

impl View for DataKeyPath {
    type V = Seq<Seq<char>>;

    open spec fn view(&self) -> Seq<Seq<char>> {
        keys_view(self.0@)
    }
}

impl DataKeyPath {
    /// The path of the root.
    pub fn empty() -> (r: DataKeyPath)
        ensures
            r@ == Seq::<Seq<char>>::empty(),
    {
        let r = DataKeyPath(Vec::new());
        assert(r@ =~= Seq::<Seq<char>>::empty());
        r
    }
}

/// The mathematical form of a document of either kind.
pub enum Doc {
    Null,
    Boolean(bool),
    /// The bit pattern of an IEEE 754 binary64 number.
    Number(u64),
    Text(Seq<char>),
    /// A call not yet checked against the operator kinds.
    Call(ExprModel),
    /// An operator node.
    Op(OpModel),
    Sequence(Seq<Doc>),
    Mapping(Seq<(Seq<char>, Doc)>),
}

/// A document as a format decoder produces it. Numbers are held as the bit
/// pattern of their IEEE 754 binary64 value (`f64::to_bits`); a mapping is a
/// list of entries whose keys are unique, kept in insertion order.
#[derive(Debug)]
pub enum RawData {
    Null,
    Boolean(bool),
    Number(u64),
    String(String),
    Sequence(Vec<RawData>),
    Mapping(Vec<(DataKey, RawData)>),
}

impl RawData {
    pub open spec fn view(&self) -> Doc
        decreases self,
    {
        match self {
            RawData::Null => Doc::Null,
            RawData::Boolean(b) => Doc::Boolean(*b),
            RawData::Number(n) => Doc::Number(*n),
            RawData::String(t) => Doc::Text(t@),
            RawData::Sequence(v) => Doc::Sequence(raw_items_view(v@)),
            RawData::Mapping(v) => Doc::Mapping(raw_entries_view(v@)),
        }
    }
}

pub open spec fn raw_items_view(s: Seq<RawData>) -> Seq<Doc>
    decreases s,
{
    if s.len() == 0 {
        Seq::empty()
    } else {
        raw_items_view(s.subrange(0, s.len() - 1)).push(s[s.len() - 1].view())
    }
}

pub open spec fn raw_entries_view(s: Seq<(DataKey, RawData)>) -> Seq<(Seq<char>, Doc)>
    decreases s,
{
    if s.len() == 0 {
        Seq::empty()
    } else {
        raw_entries_view(s.subrange(0, s.len() - 1)).push(
            (s[s.len() - 1].0@, s[s.len() - 1].1.view()),
        )
    }
}

/// A document whose string scalars that spell an operator call have become
/// calls, not yet checked against the operator kinds.
#[derive(Debug)]
pub enum RawOperatorData {
    Null,
    Boolean(bool),
    Number(u64),
    String(String),
    RawOperator(Expr),
    Sequence(Vec<RawOperatorData>),
    Mapping(Vec<(DataKey, RawOperatorData)>),
}

impl RawOperatorData {
    pub open spec fn view(&self) -> Doc
        decreases self,
    {
        match self {
            RawOperatorData::Null => Doc::Null,
            RawOperatorData::Boolean(b) => Doc::Boolean(*b),
            RawOperatorData::Number(n) => Doc::Number(*n),
            RawOperatorData::String(t) => Doc::Text(t@),
            RawOperatorData::RawOperator(e) => Doc::Call(e@),
            RawOperatorData::Sequence(v) => Doc::Sequence(call_items_view(v@)),
            RawOperatorData::Mapping(v) => Doc::Mapping(call_entries_view(v@)),
        }
    }
}

pub open spec fn call_items_view(s: Seq<RawOperatorData>) -> Seq<Doc>
    decreases s,
{
    if s.len() == 0 {
        Seq::empty()
    } else {
        call_items_view(s.subrange(0, s.len() - 1)).push(s[s.len() - 1].view())
    }
}

pub open spec fn call_entries_view(s: Seq<(DataKey, RawOperatorData)>) -> Seq<(Seq<char>, Doc)>
    decreases s,
{
    if s.len() == 0 {
        Seq::empty()
    } else {
        call_entries_view(s.subrange(0, s.len() - 1)).push(
            (s[s.len() - 1].0@, s[s.len() - 1].1.view()),
        )
    }
}

/// A document whose string scalars that spell an operator call have become
/// operator nodes.
#[derive(Debug)]
pub enum OperatorData {
    Null,
    Boolean(bool),
    Number(u64),
    String(String),
    Operator(Operator),
    Sequence(Vec<OperatorData>),
    Mapping(Vec<(DataKey, OperatorData)>),
}

impl OperatorData {
    pub open spec fn view(&self) -> Doc
        decreases self,
    {
        match self {
            OperatorData::Null => Doc::Null,
            OperatorData::Boolean(b) => Doc::Boolean(*b),
            OperatorData::Number(n) => Doc::Number(*n),
            OperatorData::String(t) => Doc::Text(t@),
            OperatorData::Operator(o) => Doc::Op(o@),
            OperatorData::Sequence(v) => Doc::Sequence(op_items_view(v@)),
            OperatorData::Mapping(v) => Doc::Mapping(op_entries_view(v@)),
        }
    }
}

pub open spec fn op_items_view(s: Seq<OperatorData>) -> Seq<Doc>
    decreases s,
{
    if s.len() == 0 {
        Seq::empty()
    } else {
        op_items_view(s.subrange(0, s.len() - 1)).push(s[s.len() - 1].view())
    }
}

pub open spec fn op_entries_view(s: Seq<(DataKey, OperatorData)>) -> Seq<(Seq<char>, Doc)>
    decreases s,
{
    if s.len() == 0 {
        Seq::empty()
    } else {
        op_entries_view(s.subrange(0, s.len() - 1)).push(
            (s[s.len() - 1].0@, s[s.len() - 1].1.view()),
        )
    }
}

pub proof fn lemma_raw_items_view(s: Seq<RawData>)
    ensures
        raw_items_view(s).len() == s.len(),
        forall|i: int| 0 <= i < s.len() ==> #[trigger] raw_items_view(s)[i] == s[i].view(),
    decreases s.len(),
{
    if s.len() > 0 {
        lemma_raw_items_view(s.subrange(0, s.len() - 1));
    }
}

pub proof fn lemma_raw_entries_view(s: Seq<(DataKey, RawData)>)
    ensures
        raw_entries_view(s).len() == s.len(),
        forall|i: int|
            0 <= i < s.len() ==> #[trigger] raw_entries_view(s)[i] == (s[i].0@, s[i].1.view()),
    decreases s.len(),
{
    if s.len() > 0 {
        lemma_raw_entries_view(s.subrange(0, s.len() - 1));
    }
}

pub proof fn lemma_raw_entries_push(s: Seq<(DataKey, RawData)>, x: (DataKey, RawData))
    ensures
        raw_entries_view(s.push(x)) == raw_entries_view(s).push((x.0@, x.1.view())),
{
    assert(s.push(x).subrange(0, s.len() as int) =~= s);
}

pub proof fn lemma_raw_items_push(s: Seq<RawData>, x: RawData)
    ensures
        raw_items_view(s.push(x)) == raw_items_view(s).push(x.view()),
{
    assert(s.push(x).subrange(0, s.len() as int) =~= s);
}

pub proof fn lemma_call_items_view(s: Seq<RawOperatorData>)
    ensures
        call_items_view(s).len() == s.len(),
        forall|i: int| 0 <= i < s.len() ==> #[trigger] call_items_view(s)[i] == s[i].view(),
    decreases s.len(),
{
    if s.len() > 0 {
        lemma_call_items_view(s.subrange(0, s.len() - 1));
    }
}

pub proof fn lemma_call_entries_view(s: Seq<(DataKey, RawOperatorData)>)
    ensures
        call_entries_view(s).len() == s.len(),
        forall|i: int|
            0 <= i < s.len() ==> #[trigger] call_entries_view(s)[i] == (s[i].0@, s[i].1.view()),
    decreases s.len(),
{
    if s.len() > 0 {
        lemma_call_entries_view(s.subrange(0, s.len() - 1));
    }
}

pub proof fn lemma_call_entries_push(
    s: Seq<(DataKey, RawOperatorData)>,
    x: (DataKey, RawOperatorData),
)
    ensures
        call_entries_view(s.push(x)) == call_entries_view(s).push((x.0@, x.1.view())),
{
    assert(s.push(x).subrange(0, s.len() as int) =~= s);
}

pub proof fn lemma_call_items_push(s: Seq<RawOperatorData>, x: RawOperatorData)
    ensures
        call_items_view(s.push(x)) == call_items_view(s).push(x.view()),
{
    assert(s.push(x).subrange(0, s.len() as int) =~= s);
}

pub proof fn lemma_op_items_view(s: Seq<OperatorData>)
    ensures
        op_items_view(s).len() == s.len(),
        forall|i: int| 0 <= i < s.len() ==> #[trigger] op_items_view(s)[i] == s[i].view(),
    decreases s.len(),
{
    if s.len() > 0 {
        lemma_op_items_view(s.subrange(0, s.len() - 1));
    }
}

pub proof fn lemma_op_entries_view(s: Seq<(DataKey, OperatorData)>)
    ensures
        op_entries_view(s).len() == s.len(),
        forall|i: int|
            0 <= i < s.len() ==> #[trigger] op_entries_view(s)[i] == (s[i].0@, s[i].1.view()),
    decreases s.len(),
{
    if s.len() > 0 {
        lemma_op_entries_view(s.subrange(0, s.len() - 1));
    }
}

pub proof fn lemma_op_entries_push(s: Seq<(DataKey, OperatorData)>, x: (DataKey, OperatorData))
    ensures
        op_entries_view(s.push(x)) == op_entries_view(s).push((x.0@, x.1.view())),
{
    assert(s.push(x).subrange(0, s.len() as int) =~= s);
}

pub proof fn lemma_op_items_push(s: Seq<OperatorData>, x: OperatorData)
    ensures
        op_items_view(s.push(x)) == op_items_view(s).push(x.view()),
{
    assert(s.push(x).subrange(0, s.len() as int) =~= s);
}

// ---------------------------------------------------------------------------
// Keys of a mapping.
/// The first index, from `i` on, of an entry with key `k`.
pub open spec fn position_from(es: Seq<(Seq<char>, Doc)>, k: Seq<char>, i: int) -> Option<int>
    decreases es.len() - i,
{
    if i < 0 || i >= es.len() {
        None
    } else if es[i].0 == k {
        Some(i)
    } else {
        position_from(es, k, i + 1)
    }
}

/// The index of the entry with key `k`, the first one should there be several.
pub open spec fn position(es: Seq<(Seq<char>, Doc)>, k: Seq<char>) -> Option<int> {
    position_from(es, k, 0)
}

/// The value at key `k` of a mapping.
pub open spec fn lookup(es: Seq<(Seq<char>, Doc)>, k: Seq<char>) -> Option<Doc> {
    match position(es, k) {
        Some(i) => Some(es[i].1),
        None => None,
    }
}

/// The keys of a mapping.
pub open spec fn key_set(es: Seq<(Seq<char>, Doc)>) -> Set<Seq<char>> {
    Set::new(|k: Seq<char>| exists|i: int| 0 <= i < es.len() && es[i].0 == k)
}

pub proof fn lemma_position_from(es: Seq<(Seq<char>, Doc)>, k: Seq<char>, i: int)
    requires
        0 <= i,
    ensures
        match position_from(es, k, i) {
            Some(j) => i <= j < es.len() && es[j].0 == k && forall|m: int|
                i <= m < j ==> es[m].0 != k,
            None => forall|m: int| i <= m < es.len() ==> es[m].0 != k,
        },
    decreases es.len() - i,
{
    if i < es.len() && es[i].0 != k {
        lemma_position_from(es, k, i + 1);
    }
}

/// `position` is the first index that holds `k`.
pub proof fn lemma_position(es: Seq<(Seq<char>, Doc)>, k: Seq<char>)
    ensures
        match position(es, k) {
            Some(j) => 0 <= j < es.len() && es[j].0 == k && forall|m: int|
                0 <= m < j ==> es[m].0 != k,
            None => forall|m: int| 0 <= m < es.len() ==> es[m].0 != k,
        },
        position(es, k) is Some <==> key_set(es).contains(k),
{
    lemma_position_from(es, k, 0);
}

/// Two lists with the same keys, index by index, place each key alike.
pub proof fn lemma_position_same_keys(
    a: Seq<(Seq<char>, Doc)>,
    b: Seq<(Seq<char>, Doc)>,
    k: Seq<char>,
)
    requires
        a.len() == b.len(),
        forall|i: int| 0 <= i < a.len() ==> a[i].0 == b[i].0,
    ensures
        position(a, k) == position(b, k),
{
    lemma_position(a, k);
    lemma_position(b, k);
}

/// A key of the front part of a list is found there.
pub proof fn lemma_position_prefix(a: Seq<(Seq<char>, Doc)>, b: Seq<(Seq<char>, Doc)>, k: Seq<char>)
    requires
        position(a, k) is Some,
    ensures
        position(a + b, k) == position(a, k),
{
    lemma_position(a, k);
    lemma_position(a + b, k);
    let j = position(a, k)->0;
    assert((a + b)[j] == a[j]);
    match position(a + b, k) {
        Some(j2) => {
            if j2 < j {
                assert((a + b)[j2] == a[j2]);
            }
        },
        None => {},
    }
}

/// Whether the keys of a mapping are unique, in this document and in all those
/// that it holds.
pub open spec fn well_formed(d: Doc) -> bool
    decreases d,
{
    match d {
        Doc::Sequence(items) => forall|i: int|
            0 <= i < items.len() ==> well_formed(#[trigger] items[i]),
        Doc::Mapping(es) => (forall|i: int, j: int|
            0 <= i < j < es.len() ==> es[i].0 != es[j].0) && (forall|i: int|
            0 <= i < es.len() ==> well_formed(#[trigger] es[i].1)),
        _ => true,
    }
}

proof fn lemma_item_not_well_formed(xs: Seq<Doc>, i: int)
    requires
        0 <= i < xs.len(),
        !well_formed(xs[i]),
    ensures
        !well_formed(Doc::Sequence(xs)),
{
    let d = Doc::Sequence(xs);
    assert(decreases_to!(d => d->Sequence_0));
    assert(decreases_to!(xs => xs[i]));
}

proof fn lemma_value_not_well_formed(es: Seq<(Seq<char>, Doc)>, i: int)
    requires
        0 <= i < es.len(),
        !well_formed(es[i].1),
    ensures
        !well_formed(Doc::Mapping(es)),
{
    let d = Doc::Mapping(es);
    assert(decreases_to!(d => d->Mapping_0));
    assert(decreases_to!(es => es[i]));
    assert(decreases_to!(es[i] => es[i].1));
}

proof fn lemma_keys_not_well_formed(es: Seq<(Seq<char>, Doc)>, i: int, j: int)
    requires
        0 <= i < j < es.len(),
        es[i].0 == es[j].0,
    ensures
        !well_formed(Doc::Mapping(es)),
{
    let d = Doc::Mapping(es);
    assert(d->Mapping_0[i].0 == d->Mapping_0[j].0);
}

// ---------------------------------------------------------------------------
// Merge.
/// `overlay` on top of `base`: two mappings merge key by key, recursively; in
/// any other case the overlay replaces the base. The result lists the keys of
/// the base in their order, then the keys found only in the overlay in theirs.
pub open spec fn merge(base: Doc, overlay: Doc) -> Doc
    decreases base, 0int,
{
    match base {
        Doc::Mapping(eb) => match overlay {
            Doc::Mapping(eo) => Doc::Mapping(
                merge_entries(eb, eo, eb.len() as int) + overlay_only(eo, eb, eo.len() as int),
            ),
            _ => overlay,
        },
        _ => overlay,
    }
}

/// The first `n` entries of the base, each merged with the overlay's entry of
/// the same key, if any.
pub open spec fn merge_entries(
    eb: Seq<(Seq<char>, Doc)>,
    eo: Seq<(Seq<char>, Doc)>,
    n: int,
) -> Seq<(Seq<char>, Doc)>
    decreases eb, n,
{
    if n <= 0 || n > eb.len() {
        Seq::empty()
    } else {
        merge_entries(eb, eo, n - 1).push(
            (
                eb[n - 1].0,
                match position(eo, eb[n - 1].0) {
                    Some(j) => merge(eb[n - 1].1, eo[j].1),
                    None => eb[n - 1].1,
                },
            ),
        )
    }
}

/// The entries among the first `n` of the overlay whose key the base lacks.
pub open spec fn overlay_only(
    eo: Seq<(Seq<char>, Doc)>,
    eb: Seq<(Seq<char>, Doc)>,
    n: int,
) -> Seq<(Seq<char>, Doc)>
    decreases n,
{
    if n <= 0 || n > eo.len() {
        Seq::empty()
    } else if position(eb, eo[n - 1].0) is None {
        overlay_only(eo, eb, n - 1).push(eo[n - 1])
    } else {
        overlay_only(eo, eb, n - 1)
    }
}

/// The index of the entry of `es` with key `k`.
fn find_raw_key(es: &Vec<(DataKey, RawData)>, k: &DataKey) -> (r: Option<usize>)
    ensures
        match r {
            Some(i) => position(raw_entries_view(es@), k@) == Some(i as int) && i < es.len(),
            None => position(raw_entries_view(es@), k@) is None,
        },
{
    let ghost v = raw_entries_view(es@);
    proof {
        lemma_raw_entries_view(es@);
        lemma_position(v, k@);
    }
    let mut i: usize = 0;
    while i < es.len()
        invariant
            i <= es.len(),
            v == raw_entries_view(es@),
            v.len() == es.len(),
            forall|m: int| 0 <= m < es.len() ==> #[trigger] v[m] == (es@[m].0@, es@[m].1.view()),
            forall|m: int| 0 <= m < i ==> v[m].0 != k@,
        decreases es.len() - i,
    {
        if es[i].0.0 == k.0 {
            proof {
                lemma_position(v, k@);
                assert(v[i as int].0 == k@);
            }
            return Some(i);
        }
        i = i + 1;
    }
    proof {
        lemma_position(v, k@);
    }
    None
}

impl DataKey {
    /// A copy of this key.
    pub fn copy(&self) -> (r: DataKey)
        ensures
            r@ == self@,
    {
        DataKey(self.0.clone())
    }
}

impl RawData {
    /// A deep copy of this document.
    pub fn copy(&self) -> (r: RawData)
        ensures
            r@ == self@,
        decreases self,
    {
        match self {
            RawData::Null => RawData::Null,
            RawData::Boolean(b) => RawData::Boolean(*b),
            RawData::Number(n) => RawData::Number(*n),
            RawData::String(t) => RawData::String(t.clone()),
            RawData::Sequence(v) => {
                let mut out: Vec<RawData> = Vec::new();
                let mut i: usize = 0;
                while i < v.len()
                    invariant
                        i <= v.len(),
                        raw_items_view(out@) == raw_items_view(v@.subrange(0, i as int)),
                        *self == RawData::Sequence(*v),
                    decreases v.len() - i,
                {
                    proof {
                        axiom_vec_index_decreases(*v, i as int);
                        assert(decreases_to!(*self => self->Sequence_0));
                    }
                    let c = v[i].copy();
                    proof {
                        lemma_raw_items_push(out@, c);
                        lemma_raw_items_push(v@.subrange(0, i as int), v@[i as int]);
                        assert(v@.subrange(0, i as int).push(v@[i as int]) =~= v@.subrange(
                            0,
                            i + 1,
                        ));
                    }
                    out.push(c);
                    i = i + 1;
                }
                assert(v@.subrange(0, v.len() as int) =~= v@);
                RawData::Sequence(out)
            },
            RawData::Mapping(v) => {
                let mut out: Vec<(DataKey, RawData)> = Vec::new();
                let mut i: usize = 0;
                while i < v.len()
                    invariant
                        i <= v.len(),
                        raw_entries_view(out@) == raw_entries_view(v@.subrange(0, i as int)),
                        *self == RawData::Mapping(*v),
                    decreases v.len() - i,
                {
                    proof {
                        axiom_vec_index_decreases(*v, i as int);
                        assert(decreases_to!(*self => self->Mapping_0));
                        assert(decreases_to!(v@[i as int] => v@[i as int].1));
                    }
                    let c = (v[i].0.copy(), v[i].1.copy());
                    proof {
                        lemma_raw_entries_push(out@, c);
                        lemma_raw_entries_push(v@.subrange(0, i as int), v@[i as int]);
                        assert(v@.subrange(0, i as int).push(v@[i as int]) =~= v@.subrange(
                            0,
                            i + 1,
                        ));
                    }
                    out.push(c);
                    i = i + 1;
                }
                assert(v@.subrange(0, v.len() as int) =~= v@);
                RawData::Mapping(out)
            },
        }
    }

    /// Whether the keys of each mapping of this document are unique (see
    /// `well_formed`).
    pub fn is_well_formed(&self) -> (r: bool)
        ensures
            r == well_formed(self@),
        decreases self,
    {
        match self {
            RawData::Sequence(v) => {
                let ghost xs = raw_items_view(v@);
                proof {
                    lemma_raw_items_view(v@);
                }
                let mut i: usize = 0;
                while i < v.len()
                    invariant
                        i <= v.len(),
                        *self == RawData::Sequence(*v),
                        xs == raw_items_view(v@),
                        xs.len() == v.len(),
                        forall|m: int| 0 <= m < v.len() ==> #[trigger] xs[m] == v@[m].view(),
                        forall|m: int| 0 <= m < i ==> well_formed(#[trigger] xs[m]),
                    decreases v.len() - i,
                {
                    proof {
                        axiom_vec_index_decreases(*v, i as int);
                        assert(decreases_to!(*self => self->Sequence_0));
                    }
                    if !v[i].is_well_formed() {
                        assert(self@ == Doc::Sequence(xs));
                        proof {
                            lemma_item_not_well_formed(xs, i as int);
                        }
                        return false;
                    }
                    i = i + 1;
                }
                true
            },
            RawData::Mapping(v) => {
                let ghost es = raw_entries_view(v@);
                proof {
                    lemma_raw_entries_view(v@);
                }
                let mut i: usize = 0;
                while i < v.len()
                    invariant
                        i <= v.len(),
                        *self == RawData::Mapping(*v),
                        es == raw_entries_view(v@),
                        es.len() == v.len(),
                        forall|m: int|
                            0 <= m < v.len() ==> #[trigger] es[m] == (v@[m].0@, v@[m].1.view()),
                        forall|m: int| 0 <= m < i ==> well_formed(#[trigger] es[m].1),
                        forall|m: int, n: int| 0 <= m < n < v.len() && m < i ==> es[m].0 != es[n].0,
                    decreases v.len() - i,
                {
                    proof {
                        axiom_vec_index_decreases(*v, i as int);
                        assert(decreases_to!(*self => self->Mapping_0));
                        assert(decreases_to!(v@[i as int] => v@[i as int].1));
                    }
                    if !v[i].1.is_well_formed() {
                        assert(self@ == Doc::Mapping(es));
                        proof {
                            lemma_value_not_well_formed(es, i as int);
                        }
                        return false;
                    }
                    let mut j: usize = i + 1;
                    while j < v.len()
                        invariant
                            i < v.len(),
                            i + 1 <= j <= v.len(),
                            *self == RawData::Mapping(*v),
                            es == raw_entries_view(v@),
                            es.len() == v.len(),
                            forall|m: int|
                                0 <= m < v.len() ==> #[trigger] es[m] == (v@[m].0@, v@[m].1.view()),
                            forall|n: int| i < n < j ==> es[i as int].0 != es[n].0,
                        decreases v.len() - j,
                    {
                        if v[i].0.0 == v[j].0.0 {
                            assert(self@ == Doc::Mapping(es));
                            proof {
                                lemma_keys_not_well_formed(es, i as int, j as int);
                            }
                            return false;
                        }
                        j = j + 1;
                    }
                    i = i + 1;
                }
                true
            },
            _ => true,
        }
    }

    /// `other` merged on top of this document (see `merge`).
    pub fn recursive_merge(self, other: RawData) -> (r: RawData)
        ensures
            r@ == merge(self@, other@),
            well_formed(self@) && well_formed(other@) ==> well_formed(r@),
            well_formed(self@) && other@ == self@ ==> r@ == self@,
    {
        proof {
            if well_formed(self@) && well_formed(other@) {
                lemma_merge_well_formed(self@, other@);
            }
            if well_formed(self@) {
                lemma_merge_idempotent(self@);
            }
        }
        merged(&self, &other)
    }
}

fn merged(base: &RawData, overlay: &RawData) -> (r: RawData)
    ensures
        r@ == merge(base@, overlay@),
    decreases base,
{
    match base {
        RawData::Mapping(eb) => match overlay {
            RawData::Mapping(eo) => {
                let ghost vb = raw_entries_view(eb@);
                let ghost vo = raw_entries_view(eo@);
                proof {
                    lemma_raw_entries_view(eb@);
                    lemma_raw_entries_view(eo@);
                }
                let mut out: Vec<(DataKey, RawData)> = Vec::new();
                let mut i: usize = 0;
                while i < eb.len()
                    invariant
                        i <= eb.len(),
                        vb == raw_entries_view(eb@),
                        vo == raw_entries_view(eo@),
                        vb.len() == eb.len(),
                        vo.len() == eo.len(),
                        forall|m: int|
                            0 <= m < eb.len() ==> #[trigger] vb[m] == (eb@[m].0@, eb@[m].1.view()),
                        forall|m: int|
                            0 <= m < eo.len() ==> #[trigger] vo[m] == (eo@[m].0@, eo@[m].1.view()),
                        raw_entries_view(out@) == merge_entries(vb, vo, i as int),
                        *base == RawData::Mapping(*eb),
                    decreases eb.len() - i,
                {
                    proof {
                        axiom_vec_index_decreases(*eb, i as int);
                        assert(decreases_to!(*base => base->Mapping_0));
                        assert(decreases_to!(eb@[i as int] => eb@[i as int].1));
                    }
                    let value = match find_raw_key(eo, &eb[i].0) {
                        Some(j) => merged(&eb[i].1, &eo[j].1),
                        None => eb[i].1.copy(),
                    };
                    let c = (eb[i].0.copy(), value);
                    proof {
                        lemma_raw_entries_push(out@, c);
                    }
                    out.push(c);
                    i = i + 1;
                }
                let mut j: usize = 0;
                while j < eo.len()
                    invariant
                        j <= eo.len(),
                        vb == raw_entries_view(eb@),
                        vo == raw_entries_view(eo@),
                        vb.len() == eb.len(),
                        vo.len() == eo.len(),
                        forall|m: int|
                            0 <= m < eo.len() ==> #[trigger] vo[m] == (eo@[m].0@, eo@[m].1.view()),
                        raw_entries_view(out@) == merge_entries(vb, vo, vb.len() as int)
                            + overlay_only(vo, vb, j as int),
                    decreases eo.len() - j,
                {
                    if find_raw_key(eb, &eo[j].0).is_none() {
                        let c = (eo[j].0.copy(), eo[j].1.copy());
                        proof {
                            lemma_raw_entries_push(out@, c);
                            assert(merge_entries(vb, vo, vb.len() as int) + overlay_only(
                                vo,
                                vb,
                                j + 1,
                            ) =~= (merge_entries(vb, vo, vb.len() as int) + overlay_only(
                                vo,
                                vb,
                                j as int,
                            )).push(vo[j as int]));
                        }
                        out.push(c);
                    }
                    j = j + 1;
                }
                RawData::Mapping(out)
            },
            _ => overlay.copy(),
        },
        _ => overlay.copy(),
    }
}

/// The index of the entry of `es` with key `k`.
pub fn find_op_key(es: &Vec<(DataKey, OperatorData)>, k: &DataKey) -> (r: Option<usize>)
    ensures
        match r {
            Some(i) => position(op_entries_view(es@), k@) == Some(i as int) && i < es.len(),
            None => position(op_entries_view(es@), k@) is None,
        },
{
    let ghost v = op_entries_view(es@);
    proof {
        lemma_op_entries_view(es@);
        lemma_position(v, k@);
    }
    let mut i: usize = 0;
    while i < es.len()
        invariant
            i <= es.len(),
            v == op_entries_view(es@),
            v.len() == es.len(),
            forall|m: int| 0 <= m < es.len() ==> #[trigger] v[m] == (es@[m].0@, es@[m].1.view()),
            forall|m: int| 0 <= m < i ==> v[m].0 != k@,
        decreases es.len() - i,
    {
        if es[i].0.0 == k.0 {
            proof {
                lemma_position(v, k@);
                assert(v[i as int].0 == k@);
            }
            return Some(i);
        }
        i = i + 1;
    }
    proof {
        lemma_position(v, k@);
    }
    None
}

impl OperatorData {
    /// A deep copy of this document.
    pub fn copy(&self) -> (r: OperatorData)
        ensures
            r@ == self@,
        decreases self,
    {
        match self {
            OperatorData::Null => OperatorData::Null,
            OperatorData::Boolean(b) => OperatorData::Boolean(*b),
            OperatorData::Number(n) => OperatorData::Number(*n),
            OperatorData::String(t) => OperatorData::String(t.clone()),
            OperatorData::Operator(o) => OperatorData::Operator(o.copy()),
            OperatorData::Sequence(v) => {
                let mut out: Vec<OperatorData> = Vec::new();
                let mut i: usize = 0;
                while i < v.len()
                    invariant
                        i <= v.len(),
                        op_items_view(out@) == op_items_view(v@.subrange(0, i as int)),
                        *self == OperatorData::Sequence(*v),
                    decreases v.len() - i,
                {
                    proof {
                        axiom_vec_index_decreases(*v, i as int);
                        assert(decreases_to!(*self => self->Sequence_0));
                    }
                    let c = v[i].copy();
                    proof {
                        lemma_op_items_push(out@, c);
                        lemma_op_items_push(v@.subrange(0, i as int), v@[i as int]);
                        assert(v@.subrange(0, i as int).push(v@[i as int]) =~= v@.subrange(
                            0,
                            i + 1,
                        ));
                    }
                    out.push(c);
                    i = i + 1;
                }
                assert(v@.subrange(0, v.len() as int) =~= v@);
                OperatorData::Sequence(out)
            },
            OperatorData::Mapping(v) => {
                let mut out: Vec<(DataKey, OperatorData)> = Vec::new();
                let mut i: usize = 0;
                while i < v.len()
                    invariant
                        i <= v.len(),
                        op_entries_view(out@) == op_entries_view(v@.subrange(0, i as int)),
                        *self == OperatorData::Mapping(*v),
                    decreases v.len() - i,
                {
                    proof {
                        axiom_vec_index_decreases(*v, i as int);
                        assert(decreases_to!(*self => self->Mapping_0));
                        assert(decreases_to!(v@[i as int] => v@[i as int].1));
                    }
                    let c = (v[i].0.copy(), v[i].1.copy());
                    proof {
                        lemma_op_entries_push(out@, c);
                        lemma_op_entries_push(v@.subrange(0, i as int), v@[i as int]);
                        assert(v@.subrange(0, i as int).push(v@[i as int]) =~= v@.subrange(
                            0,
                            i + 1,
                        ));
                    }
                    out.push(c);
                    i = i + 1;
                }
                assert(v@.subrange(0, v.len() as int) =~= v@);
                OperatorData::Mapping(out)
            },
        }
    }
}

// ---------------------------------------------------------------------------
// Laws of merge.
/// The value that the entry of the base at index `i` takes in a merge.
pub open spec fn merged_value(eb: Seq<(Seq<char>, Doc)>, eo: Seq<(Seq<char>, Doc)>, i: int) -> Doc {
    match position(eo, eb[i].0) {
        Some(j) => merge(eb[i].1, eo[j].1),
        None => eb[i].1,
    }
}

pub proof fn lemma_merge_entries(eb: Seq<(Seq<char>, Doc)>, eo: Seq<(Seq<char>, Doc)>, n: int)
    requires
        0 <= n <= eb.len(),
    ensures
        merge_entries(eb, eo, n).len() == n,
        forall|i: int|
            0 <= i < n ==> #[trigger] merge_entries(eb, eo, n)[i] == (
                eb[i].0,
                merged_value(eb, eo, i),
            ),
    decreases n,
{
    if n > 0 {
        lemma_merge_entries(eb, eo, n - 1);
    }
}

pub proof fn lemma_overlay_only(eo: Seq<(Seq<char>, Doc)>, eb: Seq<(Seq<char>, Doc)>, n: int)
    requires
        0 <= n <= eo.len(),
    ensures
        forall|i: int|
            0 <= i < overlay_only(eo, eb, n).len() ==> key_set(eo).contains(
                #[trigger] overlay_only(eo, eb, n)[i].0,
            ),
        forall|i: int|
            0 <= i < n && position(eb, eo[i].0) is None ==> key_set(overlay_only(eo, eb, n)).contains(
                #[trigger] eo[i].0,
            ),
        (forall|i: int| 0 <= i < n ==> position(eb, #[trigger] eo[i].0) is Some) ==> overlay_only(
            eo,
            eb,
            n,
        ).len() == 0,
    decreases n,
{
    if n > 0 {
        lemma_overlay_only(eo, eb, n - 1);
        let prev = overlay_only(eo, eb, n - 1);
        if position(eb, eo[n - 1].0) is None {
            let cur = prev.push(eo[n - 1]);
            assert(cur[prev.len() as int].0 == eo[n - 1].0);
            assert forall|i: int|
                0 <= i < n && position(eb, eo[i].0) is None implies key_set(cur).contains(
                #[trigger] eo[i].0,
            ) by {
                if i < n - 1 {
                    let m = choose|m: int| 0 <= m < prev.len() && prev[m].0 == eo[i].0;
                    assert(cur[m] == prev[m]);
                }
            }
            assert forall|i: int| 0 <= i < cur.len() implies key_set(eo).contains(
                #[trigger] cur[i].0,
            ) by {
                if i < prev.len() {
                    assert(cur[i] == prev[i]);
                } else {
                    assert(eo[n - 1].0 == cur[i].0);
                }
            }
        }
    }
}

/// Merging a mapping with a mapping gives a mapping whose keys are those of
/// either.
pub proof fn lemma_merge_key_union(eb: Seq<(Seq<char>, Doc)>, eo: Seq<(Seq<char>, Doc)>)
    ensures
        merge(Doc::Mapping(eb), Doc::Mapping(eo)) is Mapping,
        key_set(merge(Doc::Mapping(eb), Doc::Mapping(eo))->Mapping_0) == key_set(eb).union(
            key_set(eo),
        ),
{
    let m = merge_entries(eb, eo, eb.len() as int);
    let o = overlay_only(eo, eb, eo.len() as int);
    let r = m + o;
    lemma_merge_entries(eb, eo, eb.len() as int);
    lemma_overlay_only(eo, eb, eo.len() as int);
    assert(merge(Doc::Mapping(eb), Doc::Mapping(eo)) == Doc::Mapping(r));
    assert forall|k: Seq<char>| key_set(r).contains(k) implies key_set(eb).union(
        key_set(eo),
    ).contains(k) by {
        let i = choose|i: int| 0 <= i < r.len() && r[i].0 == k;
        if i < m.len() {
            assert(m[i].0 == eb[i].0);
            assert(key_set(eb).contains(k));
        } else {
            assert(r[i] == o[i - m.len()]);
            assert(key_set(eo).contains(o[i - m.len()].0));
        }
    }
    assert forall|k: Seq<char>| key_set(eb).union(key_set(eo)).contains(k) implies key_set(
        r,
    ).contains(k) by {
        if key_set(eb).contains(k) {
            let i = choose|i: int| 0 <= i < eb.len() && eb[i].0 == k;
            assert(r[i] == m[i]);
        } else {
            let i = choose|i: int| 0 <= i < eo.len() && eo[i].0 == k;
            lemma_position(eb, k);
            assert(key_set(o).contains(eo[i].0));
            let j = choose|j: int| 0 <= j < o.len() && o[j].0 == k;
            assert(r[m.len() + j] == o[j]);
        }
    }
    assert(key_set(r) =~= key_set(eb).union(key_set(eo)));
}

/// Where both mappings hold a key and the overlay's value there is not a
/// mapping, the merge holds the overlay's value there.
pub proof fn lemma_merge_overlay_wins(
    eb: Seq<(Seq<char>, Doc)>,
    eo: Seq<(Seq<char>, Doc)>,
    k: Seq<char>,
)
    requires
        key_set(eb).contains(k),
        key_set(eo).contains(k),
        !(lookup(eo, k)->0 is Mapping),
    ensures
        merge(Doc::Mapping(eb), Doc::Mapping(eo)) is Mapping,
        lookup(merge(Doc::Mapping(eb), Doc::Mapping(eo))->Mapping_0, k) == lookup(eo, k),
{
    let m = merge_entries(eb, eo, eb.len() as int);
    let o = overlay_only(eo, eb, eo.len() as int);
    lemma_merge_entries(eb, eo, eb.len() as int);
    lemma_position(eb, k);
    lemma_position(eo, k);
    lemma_position_same_keys(m, eb, k);
    lemma_position_prefix(m, o, k);
    let i = position(eb, k)->0;
    assert(m[i] == (eb[i].0, merged_value(eb, eo, i)));
}

/// A document merged with itself is itself, where the keys of each of its
/// mappings are unique.
pub proof fn lemma_merge_idempotent(x: Doc)
    requires
        well_formed(x),
    ensures
        merge(x, x) == x,
    decreases x,
{
    if let Doc::Mapping(e) = x {
        let n = e.len() as int;
        lemma_merge_entries(e, e, n);
        assert forall|i: int| 0 <= i < n implies #[trigger] merge_entries(e, e, n)[i] == e[i] by {
            lemma_position(e, e[i].0);
            let j = position(e, e[i].0)->0;
            if j != i {
                if j < i {
                    assert(e[j].0 != e[i].0);
                } else {
                    assert(e[i].0 != e[j].0);
                }
            }
            assert(decreases_to!(x => x->Mapping_0));
            assert(decreases_to!(e[i] => e[i].1));
            lemma_merge_idempotent(e[i].1);
        }
        assert forall|i: int| 0 <= i < n implies position(e, #[trigger] e[i].0) is Some by {
            lemma_position(e, e[i].0);
        }
        lemma_overlay_only(e, e, n);
        assert(merge_entries(e, e, n) + overlay_only(e, e, n) =~= e);
    }
}

pub proof fn lemma_overlay_only_unique(eo: Seq<(Seq<char>, Doc)>, eb: Seq<(Seq<char>, Doc)>, n: int)
    requires
        0 <= n <= eo.len(),
        forall|i: int, j: int| 0 <= i < j < eo.len() ==> eo[i].0 != eo[j].0,
    ensures
        forall|i: int|
            0 <= i < overlay_only(eo, eb, n).len() ==> exists|m: int|
                0 <= m < n && #[trigger] overlay_only(eo, eb, n)[i] == eo[m],
        forall|i: int|
            0 <= i < overlay_only(eo, eb, n).len() ==> position(
                eb,
                #[trigger] overlay_only(eo, eb, n)[i].0,
            ) is None,
        forall|i: int, j: int|
            0 <= i < j < overlay_only(eo, eb, n).len() ==> overlay_only(eo, eb, n)[i].0
                != overlay_only(eo, eb, n)[j].0,
    decreases n,
{
    if n > 0 {
        lemma_overlay_only_unique(eo, eb, n - 1);
        let prev = overlay_only(eo, eb, n - 1);
        if position(eb, eo[n - 1].0) is None {
            let cur = prev.push(eo[n - 1]);
            assert forall|i: int| 0 <= i < cur.len() implies exists|m: int|
                0 <= m < n && #[trigger] cur[i] == eo[m] by {
                if i < prev.len() {
                    assert(cur[i] == prev[i]);
                } else {
                    assert(cur[i] == eo[n - 1]);
                }
            }
            assert forall|i: int, j: int| 0 <= i < j < cur.len() implies cur[i].0 != cur[j].0 by {
                if j == prev.len() {
                    assert(cur[i] == prev[i]);
                    let m = choose|m: int| 0 <= m < n - 1 && prev[i] == eo[m];
                    assert(eo[m].0 != eo[n - 1].0);
                } else {
                    assert(cur[i] == prev[i] && cur[j] == prev[j]);
                }
            }
            assert forall|i: int| 0 <= i < cur.len() implies position(
                eb,
                #[trigger] cur[i].0,
            ) is None by {
                if i < prev.len() {
                    assert(cur[i] == prev[i]);
                }
            }
        } else {
            assert forall|i: int| 0 <= i < prev.len() implies exists|m: int|
                0 <= m < n && #[trigger] prev[i] == eo[m] by {
                let m = choose|m: int| 0 <= m < n - 1 && prev[i] == eo[m];
            }
        }
    }
}

/// Merge keeps the keys of every mapping unique: it never duplicates a key.
pub proof fn lemma_merge_well_formed(base: Doc, overlay: Doc)
    requires
        well_formed(base),
        well_formed(overlay),
    ensures
        well_formed(merge(base, overlay)),
    decreases base,
{
    if let Doc::Mapping(eb) = base {
        if let Doc::Mapping(eo) = overlay {
            let m = merge_entries(eb, eo, eb.len() as int);
            let o = overlay_only(eo, eb, eo.len() as int);
            let r = m + o;
            lemma_merge_entries(eb, eo, eb.len() as int);
            lemma_overlay_only_unique(eo, eb, eo.len() as int);
            assert forall|i: int| 0 <= i < r.len() implies well_formed(#[trigger] r[i].1) by {
                if i < m.len() {
                    assert(r[i] == m[i]);
                    lemma_position(eo, eb[i].0);
                    match position(eo, eb[i].0) {
                        Some(j) => {
                            assert(decreases_to!(base => base->Mapping_0));
                            assert(decreases_to!(eb[i] => eb[i].1));
                            lemma_merge_well_formed(eb[i].1, eo[j].1);
                        },
                        None => {},
                    }
                } else {
                    assert(r[i] == o[i - m.len()]);
                    let k = choose|k: int| 0 <= k < eo.len() && o[i - m.len()] == eo[k];
                }
            }
            assert forall|i: int, j: int| 0 <= i < j < r.len() implies r[i].0 != r[j].0 by {
                if j < m.len() {
                    assert(r[i] == m[i] && r[j] == m[j]);
                } else if i >= m.len() {
                    assert(r[i] == o[i - m.len()] && r[j] == o[j - m.len()]);
                } else {
                    assert(r[i] == m[i] && r[j] == o[j - m.len()]);
                    lemma_position(eb, o[j - m.len()].0);
                }
            }
            assert(merge(base, overlay) == Doc::Mapping(r));
        }
    }
}

} // verus!
