use crate::model::{BlankNode, Literal, NamedNode, Term, Triple, Turtle, Variable, PO, literal_text};
use crate::resolve::{expand_from, first_decl, lemma_undeclared_prefix, views};
use crate::span::{Span, Spanned};
use sophia_iri::resolve::{BaseIri, IriParseError};
use vstd::prelude::*;

verus! {

broadcast use vstd::std_specs::vec::group_vec_axioms;

#[verifier::external_type_specification]
#[verifier::external_body]
pub struct ExIriParseError(IriParseError);

/// Whether the text is an absolute IRI that relative references can be resolved against.
pub uninterp spec fn iri_valid(s: Seq<char>) -> bool;

/// The IRI that `rel` denotes against the absolute IRI `base`, if it is one.
pub uninterp spec fn iri_resolution(base: Seq<char>, rel: Seq<char>) -> Option<Seq<char>>;

/// Relies on sophia_iri's `BaseIri::new`: it fails exactly when the text is not an IRI.
#[verifier::external_body]
fn check_base_iri(base: &str) -> (r: Result<(), IriParseError>)
    ensures
        r is Ok == iri_valid(base@),
{
    BaseIri::new(base).map(|_| ())
}

/// Relies on sophia_iri's `BaseIri::resolve` (RFC 3987 resolution) on a base
/// built by `BaseIri::new`; no result when either step fails.
#[verifier::external_body]
fn resolve_iri(base: &str, rel: &str) -> (r: Option<String>)
    ensures
        r matches Some(s) ==> iri_resolution(base@, rel@) == Some(s@),
        r is None ==> iri_resolution(base@, rel@) is None,
        !iri_valid(base@) ==> r is None,
{
    BaseIri::new(base).ok()?.resolve(rel).ok().map(|i| i.unwrap())
}

/// A term of a quad.
#[derive(Clone, Debug, PartialEq, Eq)]
pub enum Value {
    Named(String),
    Blank(String),
    /// A blank node minted while lowering; shown as `_:internal_bnode_<n>`.
    Fresh(u64),
    Literal(String),
    Variable(String),
    Invalid,
}

/// A term of a quad with the span it came from.
#[derive(Clone, Debug, PartialEq, Eq)]
pub struct MyTerm {
    pub value: Value,
    pub span: Span,
}

impl MyTerm {
    /// A copy of the term, equal to it.
    pub fn duplicate(&self) -> (r: MyTerm)
        ensures
            r == *self,
    {
        let value = match &self.value {
            Value::Named(s) => Value::Named(s.clone()),
            Value::Blank(s) => Value::Blank(s.clone()),
            Value::Fresh(n) => Value::Fresh(*n),
            Value::Literal(s) => Value::Literal(s.clone()),
            Value::Variable(s) => Value::Variable(s.clone()),
            Value::Invalid => Value::Invalid,
        };
        MyTerm { value, span: self.span }
    }
}

/// A quad of the default graph, with the span of source that gave it.
#[derive(Clone, Debug, PartialEq, Eq)]
pub struct MyQuad {
    pub subject: MyTerm,
    pub predicate: MyTerm,
    pub object: MyTerm,
    pub span: Span,
}

/// Why a document could not be lowered at all.
#[derive(Debug)]
pub enum TurtleSimpleError {
    /// The base is not an IRI.
    Parse(IriParseError),
    /// The declared base does not expand to a named node.
    UnexpectedBase(&'static str),
}

/// The quads of a document, with its base.
#[derive(Debug)]
pub struct Triples2 {
    pub triples: Vec<MyQuad>,
    pub base: Option<MyTerm>,
    pub base_url: String,
}

pub open spec fn is_named(v: Value, iri: Seq<char>) -> bool {
    v matches Value::Named(s) && s@ == iri
}

pub open spec fn rdf_nil() -> Seq<char> {
    "http://www.w3.org/1999/02/22-rdf-syntax-ns#nil"@
}

/// A quad term as a value: what a `MyTerm` stands for.
pub enum Val {
    Named(Seq<char>),
    Blank(Seq<char>),
    Fresh(u64),
    Literal(Seq<char>),
    Variable(Seq<char>),
    Invalid,
}

pub struct QTerm {
    pub val: Val,
    pub span: Span,
}

pub struct QQuad {
    pub subject: QTerm,
    pub predicate: QTerm,
    pub object: QTerm,
    pub span: Span,
}

pub open spec fn val_of(v: Value) -> Val {
    match v {
        Value::Named(s) => Val::Named(s@),
        Value::Blank(s) => Val::Blank(s@),
        Value::Fresh(n) => Val::Fresh(n),
        Value::Literal(s) => Val::Literal(s@),
        Value::Variable(s) => Val::Variable(s@),
        Value::Invalid => Val::Invalid,
    }
}

impl View for MyTerm {
    type V = QTerm;

    open spec fn view(&self) -> QTerm {
        QTerm { val: val_of(self.value), span: self.span }
    }
}

impl View for MyQuad {
    type V = QQuad;

    open spec fn view(&self) -> QQuad {
        QQuad { subject: self.subject@, predicate: self.predicate@, object: self.object@, span: self.span }
    }
}

/// The quads of a list of quads, as values.
pub open spec fn qs(v: Seq<MyQuad>) -> Seq<QQuad> {
    v.map_values(|q: MyQuad| q@)
}

pub open spec fn rdf_first() -> Seq<char> {
    "http://www.w3.org/1999/02/22-rdf-syntax-ns#first"@
}

pub open spec fn rdf_rest() -> Seq<char> {
    "http://www.w3.org/1999/02/22-rdf-syntax-ns#rest"@
}

/// The number of the next minted blank node; it stops at `u64::MAX`.
pub open spec fn bump(c: u64) -> u64 {
    if c < u64::MAX {
        (c + 1) as u64
    } else {
        c
    }
}

/// What a named node becomes in a quad: its expansion resolved against
/// `base`, or `Invalid` where either step fails.
pub open spec fn named_val(nn: NamedNode, doc: Turtle, base: Seq<char>) -> Val {
    match expand_from(nn, doc.prefixes@, Seq::empty()) {
        None => Val::Invalid,
        Some(e) => match iri_resolution(base, e) {
            Some(x) => Val::Named(x),
            None => Val::Invalid,
        },
    }
}

/// What a predicate becomes: a named node as `named_val` says, anything
/// else an invalid term; either way with the predicate's span.
pub open spec fn pred_term(p: Spanned<Term>, doc: Turtle, base: Seq<char>) -> QTerm {
    QTerm {
        val: match p.0 {
            Term::NamedNode(nn) => named_val(nn, doc, base),
            _ => Val::Invalid,
        },
        span: p.1,
    }
}

/// The quad that keeps a subject with an empty property list.
pub open spec fn placeholder(subject: QTerm, span: Span) -> QQuad {
    QQuad {
        subject,
        predicate: QTerm { val: Val::Invalid, span: Span { start: 0, end: 0 } },
        object: QTerm { val: Val::Invalid, span: Span { start: 0, end: 0 } },
        span,
    }
}

/// Lowering one term with `c` blank nodes minted so far: the quads it
/// emits, the term that stands for it, and the new count.
pub open spec fn lower_term(t: Spanned<Term>, doc: Turtle, base: Seq<char>, c: u64) -> (Seq<QQuad>, QTerm, u64)
    decreases t, 0int,
{
    let span = t.1;
    match t.0 {
        Term::Variable(Variable(n, _)) => (Seq::empty(), QTerm { val: Val::Variable(n@), span }, c),
        Term::NamedNode(nn) => (Seq::empty(), QTerm { val: named_val(nn, doc, base), span }, c),
        Term::Literal(l) => (Seq::empty(), QTerm { val: Val::Literal(literal_text(l)), span }, c),
        Term::BlankNode(BlankNode::Named(l, _)) => (Seq::empty(), QTerm { val: Val::Blank(l@), span }, c),
        Term::BlankNode(BlankNode::Unnamed(pos, _, _)) => {
            let s = QTerm { val: Val::Fresh(bump(c)), span };
            let r = lower_pos(pos, pos@.len() as int, s, span, doc, base, bump(c));
            (r.0, s, r.1)
        },
        Term::Collection(items) => lower_coll(items, 0, span, doc, base, c),
        _ => (Seq::empty(), QTerm { val: Val::Invalid, span }, c),
    }
}

/// Lowering the first `n` entries of the property list `pos` of `subject`:
/// per entry, the quads of its objects; an empty list gives a placeholder.
/// The first quad gets `span`.
pub open spec fn lower_pos(
    pos: Vec<Spanned<PO>>,
    n: int,
    subject: QTerm,
    span: Span,
    doc: Turtle,
    base: Seq<char>,
    c: u64,
) -> (Seq<QQuad>, u64)
    decreases pos, n,
{
    if n <= 0 || n > pos@.len() {
        if pos@.len() == 0 {
            (seq![placeholder(subject, span)], c)
        } else {
            (Seq::empty(), c)
        }
    } else {
        let prev = lower_pos(pos, n - 1, subject, span, doc, base, c);
        let po = pos@[n - 1].0;
        let first = if n == 1 { span } else { pos@[n - 1].1 };
        let r = lower_objs(po.object, po.object@.len() as int, subject, pred_term(po.predicate, doc, base), first, doc, base, prev.1);
        (prev.0 + r.0, r.1)
    }
}

/// Lowering the first `m` objects of one predicate: for each, the quads of
/// the object itself, then the quad (subject, predicate, object). The first
/// quad gets `first`, the others the object's own span.
pub open spec fn lower_objs(
    objs: Vec<Spanned<Term>>,
    m: int,
    subject: QTerm,
    pred: QTerm,
    first: Span,
    doc: Turtle,
    base: Seq<char>,
    c: u64,
) -> (Seq<QQuad>, u64)
    decreases objs, m,
{
    if m <= 0 || m > objs@.len() {
        (Seq::empty(), c)
    } else {
        let prev = lower_objs(objs, m - 1, subject, pred, first, doc, base, c);
        let o = lower_term(objs@[m - 1], doc, base, prev.1);
        let qspan = if m == 1 { first } else { objs@[m - 1].1 };
        (prev.0 + o.0 + seq![QQuad { subject, predicate: pred, object: o.1, span: qspan }], o.2)
    }
}

/// Lowering the elements of a collection from `i` on, last first: per
/// element a fresh cell, the element's own quads, then (cell, rdf:first,
/// element) and (cell, rdf:rest, next cell or rdf:nil). The result term is
/// the first cell, or `rdf:nil` with span `span.end..span.end`.
pub open spec fn lower_coll(
    items: Vec<Spanned<Term>>,
    i: int,
    span: Span,
    doc: Turtle,
    base: Seq<char>,
    c: u64,
) -> (Seq<QQuad>, QTerm, u64)
    decreases items, items@.len() - i,
{
    if i < 0 || i >= items@.len() {
        (Seq::empty(), QTerm { val: Val::Named(rdf_nil()), span: Span { start: span.end, end: span.end } }, c)
    } else {
        let prev = lower_coll(items, i + 1, span, doc, base, c);
        let c1 = bump(prev.2);
        let s = items@[i].1;
        let cell = QTerm { val: Val::Fresh(c1), span: s };
        let o = lower_term(items@[i], doc, base, c1);
        let q1 = QQuad {
            subject: cell,
            predicate: QTerm { val: Val::Named(rdf_first()), span: Span { start: prev.1.span.start, end: prev.1.span.start } },
            object: o.1,
            span,
        };
        let q2 = QQuad {
            subject: cell,
            predicate: QTerm { val: Val::Named(rdf_rest()), span: Span { start: s.start, end: s.start } },
            object: prev.1,
            span: s,
        };
        (prev.0 + o.0 + seq![q1, q2], cell, o.2)
    }
}

/// Lowering one triple: its subject, then its property list.
pub open spec fn lower_triple(t: Spanned<Triple>, doc: Turtle, base: Seq<char>, c: u64) -> (Seq<QQuad>, u64) {
    let s = lower_term(t.0.subject, doc, base, c);
    let p = lower_pos(t.0.po, t.0.po@.len() as int, s.1, t.1, doc, base, s.2);
    (s.0 + p.0, p.1)
}

/// Lowering a list of triples in order, minting from 1.
pub open spec fn lower_doc(ts: Seq<Spanned<Triple>>, doc: Turtle, base: Seq<char>) -> (Seq<QQuad>, u64)
    decreases ts.len(),
{
    if ts.len() == 0 {
        (Seq::empty(), 0u64)
    } else {
        let prev = lower_doc(ts.drop_last(), doc, base);
        let r = lower_triple(ts.last(), doc, base, prev.1);
        (prev.0 + r.0, r.1)
    }
}

/// A term that mints nothing when lowered: no `[ ... ]` node and no collection.
pub open spec fn flat(t: Term) -> bool {
    !(t matches Term::BlankNode(BlankNode::Unnamed(..))) && !(t is Collection)
}

pub open spec fn flat_objects(os: Seq<Spanned<Term>>) -> bool {
    forall|k: int| 0 <= k < os.len() ==> flat(#[trigger] os[k].0)
}

pub open spec fn flat_pos(pos: Seq<Spanned<PO>>) -> bool {
    forall|i: int| 0 <= i < pos.len() ==> flat_objects(#[trigger] pos[i].0.object@)
}

/// The number of (predicate, object) pairs of a property list.
pub open spec fn pair_count(pos: Seq<Spanned<PO>>) -> nat
    decreases pos.len(),
{
    if pos.len() == 0 {
        0
    } else {
        pair_count(pos.drop_last()) + pos.last().0.object@.len()
    }
}

/// Collects the quads of one document; `count` is the number of the last
/// minted blank node.
pub struct TriplesBuilder<'a> {
    pub triples: Vec<MyQuad>,
    pub count: u64,
    pub base: String,
    pub based: &'a Turtle,
}

impl<'a> TriplesBuilder<'a> {
    pub open spec fn minted(&self) -> u64 {
        self.count
    }

    pub open spec fn doc(&self) -> Turtle {
        *self.based
    }

    pub open spec fn base_text(&self) -> Seq<char> {
        self.base@
    }

    pub fn new(based: &'a Turtle, base: String) -> (r: Self)
        ensures
            r.triples@.len() == 0,
            r.minted() == 0,
            r.doc() == *based,
            r.base_text() == base@,
    {
        TriplesBuilder { triples: Vec::new(), count: 0, base, based }
    }

    /// Mints a fresh blank node: the counter goes up by one (it stops at
    /// `u64::MAX`, which no document reaches).
    fn blank_node(&mut self, span: Span) -> (r: MyTerm)
        ensures
            final(self).count == if old(self).count < u64::MAX {
                (old(self).count + 1) as u64
            } else {
                old(self).count
            },
            r@ == (QTerm { val: Val::Fresh(final(self).count), span }),
            final(self).triples == old(self).triples,
            final(self).base == old(self).base,
            final(self).based == old(self).based,
    {
        if self.count < u64::MAX {
            self.count = self.count + 1;
        }
        MyTerm { value: Value::Fresh(self.count), span }
    }

    fn named_node(&self, nn: &NamedNode) -> (r: Value)
        ensures
            val_of(r) == named_val(*nn, *self.based, self.base@),
    {
        let done: Vec<String> = Vec::new();
        assert(views(done@) =~= Seq::<Seq<char>>::empty());
        match nn.expand_step(self.based, done) {
            None => Value::Invalid,
            Some(e) => match resolve_iri(self.base.as_str(), e.as_str()) {
                Some(x) => Value::Named(x),
                None => Value::Invalid,
            },
        }
    }

    fn push_quad(&mut self, q: MyQuad)
        ensures
            final(self).triples@ == old(self).triples@.push(q),
            qs(final(self).triples@) == qs(old(self).triples@).push(q@),
            final(self).count == old(self).count,
            final(self).base == old(self).base,
            final(self).based == old(self).based,
    {
        self.triples.push(q);
        assert(qs(self.triples@) =~= qs(old(self).triples@).push(q@));
    }

    /// Lowers the property list of `subject`, as `lower_pos` says: the
    /// first quad gets `span`, and an empty list gives one placeholder quad
    /// whose predicate and object are invalid terms, so that the subject is
    /// kept.
    pub fn handle_po(&mut self, pos: &Vec<Spanned<PO>>, span: Span, subject: MyTerm)
        ensures
            ({
                let l = lower_pos(*pos, pos@.len() as int, subject@, span, *old(self).based, old(self).base@, old(self).count);
                &&& qs(final(self).triples@) == qs(old(self).triples@) + l.0
                &&& final(self).count == l.1
            }),
            final(self).base == old(self).base,
            final(self).based == old(self).based,
        decreases pos, 1nat,
    {
        let ghost start = self.triples@;
        let ghost d = *self.based;
        let ghost b = self.base@;
        let ghost c0 = self.count;
        if pos.len() == 0 {
            let q = MyQuad {
                subject: subject.duplicate(),
                predicate: MyTerm { value: Value::Invalid, span: Span { start: 0, end: 0 } },
                object: MyTerm { value: Value::Invalid, span: Span { start: 0, end: 0 } },
                span,
            };
            self.push_quad(q);
            assert(qs(self.triples@) =~= qs(start) + seq![placeholder(subject@, span)]);
            return;
        }
        assert(qs(start) + Seq::<QQuad>::empty() =~= qs(start));
        let mut i: usize = 0;
        while i < pos.len()
            invariant
                i <= pos.len(),
                pos@.len() > 0,
                d == *old(self).based,
                b == old(self).base@,
                c0 == old(self).count,
                start == old(self).triples@,
                self.base == old(self).base,
                self.based == old(self).based,
                ({
                    let l = lower_pos(*pos, i as int, subject@, span, d, b, c0);
                    &&& qs(self.triples@) == qs(start) + l.0
                    &&& self.count == l.1
                }),
            decreases pos.len() - i,
        {
            let ghost lp = lower_pos(*pos, i as int, subject@, span, d, b, c0);
            let this_span = if i == 0 { span } else { pos[i].1 };
            let po = &pos[i].0;
            let predicate = match &po.predicate.0 {
                Term::NamedNode(nn) => MyTerm { value: self.named_node(nn), span: po.predicate.1 },
                _ => MyTerm { value: Value::Invalid, span: po.predicate.1 },
            };
            let ghost pt = pred_term(po.predicate, d, b);
            assert(predicate@ == pt);
            assert(qs(start) + lp.0 + Seq::<QQuad>::empty() =~= qs(start) + lp.0);
            let mut j: usize = 0;
            while j < po.object.len()
                invariant
                    j <= po.object.len(),
                    i < pos.len(),
                    *po == pos@[i as int].0,
                    d == *old(self).based,
                    b == old(self).base@,
                    self.base == old(self).base,
                    self.based == old(self).based,
                    predicate@ == pt,
                    ({
                        let l = lower_objs(po.object, j as int, subject@, pt, this_span, d, b, lp.1);
                        &&& qs(self.triples@) == qs(start) + lp.0 + l.0
                        &&& self.count == l.1
                    }),
                decreases po.object.len() - j,
            {
                let ghost lo = lower_objs(po.object, j as int, subject@, pt, this_span, d, b, lp.1);
                let o_span = if j == 0 { this_span } else { po.object[j].1 };
                proof {
                    vstd::std_specs::vec::axiom_vec_index_decreases(*pos, i as int);
                    vstd::std_specs::vec::axiom_vec_index_decreases(po.object, j as int);
                    assert(decreases_to!(*pos => pos[i as int]));
                    assert(decreases_to!(pos[i as int] => pos[i as int].0.object));
                    assert(decreases_to!(po.object => po.object[j as int]));
                    assert(po.object == pos[i as int].0.object);
                    assert(decreases_to!(*pos => pos[i as int].0.object[j as int]));
                }
                let object = self.term_to_my_term(&po.object[j]);
                let ghost lt = lower_term(po.object@[j as int], d, b, lo.1);
                let quad = MyQuad { subject: subject.duplicate(), predicate: predicate.duplicate(), object, span: o_span };
                self.push_quad(quad);
                assert(qs(self.triples@) =~= qs(start) + lp.0 + (lo.0 + lt.0 + seq![
                    QQuad { subject: subject@, predicate: pt, object: lt.1, span: o_span },
                ]));
                j += 1;
            }
            assert(qs(self.triples@) =~= qs(start) + lower_pos(*pos, i as int + 1, subject@, span, d, b, c0).0);
            i += 1;
        }
    }

    /// Lowers one term to a quad term, as `lower_term` says, emitting the
    /// quads of any `[ ... ]` node or collection inside it first.
    pub fn term_to_my_term(&mut self, term: &Spanned<Term>) -> (r: MyTerm)
        ensures
            ({
                let l = lower_term(*term, *old(self).based, old(self).base@, old(self).count);
                &&& qs(final(self).triples@) == qs(old(self).triples@) + l.0
                &&& r@ == l.1
                &&& final(self).count == l.2
            }),
            final(self).base == old(self).base,
            final(self).based == old(self).based,
        decreases term, 2nat,
    {
        assert(qs(self.triples@) + Seq::<QQuad>::empty() =~= qs(self.triples@));
        let span = term.1;
        match &term.0 {
            Term::Variable(Variable(var, _)) => MyTerm { value: Value::Variable(var.clone()), span },
            Term::NamedNode(nn) => MyTerm { value: self.named_node(nn), span },
            Term::Literal(literal) => MyTerm { value: Value::Literal(literal.plain_string()), span },
            Term::BlankNode(BlankNode::Named(v, _)) => MyTerm { value: Value::Blank(v.clone()), span },
            Term::BlankNode(BlankNode::Unnamed(v, _, _)) => {
                let out = self.blank_node(span);
                self.handle_po(v, span, out.duplicate());
                out
            },
            Term::BlankNode(BlankNode::Invalid) => MyTerm { value: Value::Invalid, span },
            Term::Collection(terms) => self.handle_collection(terms, span),
            Term::Invalid => MyTerm { value: Value::Invalid, span },
        }
    }

    /// Lowers a collection to a chain of list cells, last element first, as
    /// `lower_coll` says; returns the head cell, or `rdf:nil` for an empty
    /// collection.
    pub fn handle_collection(&mut self, collection: &Vec<Spanned<Term>>, span: Span) -> (r: MyTerm)
        ensures
            ({
                let l = lower_coll(*collection, 0, span, *old(self).based, old(self).base@, old(self).count);
                &&& qs(final(self).triples@) == qs(old(self).triples@) + l.0
                &&& r@ == l.1
                &&& final(self).count == l.2
            }),
            final(self).base == old(self).base,
            final(self).based == old(self).based,
        decreases collection, 1nat,
    {
        let ghost start = self.triples@;
        let ghost d = *self.based;
        let ghost b = self.base@;
        let ghost c0 = self.count;
        let mut prev = MyTerm {
            value: Value::Named("http://www.w3.org/1999/02/22-rdf-syntax-ns#nil".to_string()),
            span: Span { start: span.end, end: span.end },
        };
        assert(qs(start) + Seq::<QQuad>::empty() =~= qs(start));
        let mut i: usize = collection.len();
        while i > 0
            invariant
                i <= collection.len(),
                d == *old(self).based,
                b == old(self).base@,
                c0 == old(self).count,
                start == old(self).triples@,
                self.base == old(self).base,
                self.based == old(self).based,
                ({
                    let l = lower_coll(*collection, i as int, span, d, b, c0);
                    &&& qs(self.triples@) == qs(start) + l.0
                    &&& prev@ == l.1
                    &&& self.count == l.2
                }),
            decreases i,
        {
            i -= 1;
            let ghost l = lower_coll(*collection, i as int + 1, span, d, b, c0);
            let s = collection[i].1;
            let next = self.blank_node(s);
            let first = MyTerm {
                value: Value::Named("http://www.w3.org/1999/02/22-rdf-syntax-ns#first".to_string()),
                span: Span { start: prev.span.start, end: prev.span.start },
            };
            proof {
                assert(decreases_to!(collection => collection@[i as int]));
            }
            let object = self.term_to_my_term(&collection[i]);
            let ghost lt = lower_term(collection@[i as int], d, b, bump(l.2));
            let q1 = MyQuad { subject: next.duplicate(), predicate: first, object, span };
            let ghost v1 = q1@;
            self.push_quad(q1);
            let rest = MyTerm {
                value: Value::Named("http://www.w3.org/1999/02/22-rdf-syntax-ns#rest".to_string()),
                span: Span { start: s.start, end: s.start },
            };
            let q2 = MyQuad { subject: next.duplicate(), predicate: rest, object: prev, span: s };
            let ghost v2 = q2@;
            self.push_quad(q2);
            assert(qs(self.triples@) =~= qs(start) + (l.0 + lt.0 + seq![v1, v2]));
            prev = next;
        }
        prev
    }

    /// Lowers one triple, as `lower_triple` says: its subject, then its
    /// property list with the subject's term.
    pub fn ingest(&mut self, t: &Spanned<Triple>)
        ensures
            ({
                let l = lower_triple(*t, *old(self).based, old(self).base@, old(self).count);
                &&& qs(final(self).triples@) == qs(old(self).triples@) + l.0
                &&& final(self).count == l.1
            }),
            final(self).base == old(self).base,
            final(self).based == old(self).based,
    {
        let triple = &t.0;
        let ghost q0 = qs(self.triples@);
        let sub = self.term_to_my_term(&triple.subject);
        let ghost q1 = qs(self.triples@);
        self.handle_po(&triple.po, t.1, sub);
        let ghost l = lower_triple(*t, *old(self).based, old(self).base@, old(self).count);
        assert(qs(self.triples@) =~= q0 + l.0);
    }
}

/// The base that a document's IRIs are resolved against: the expansion of
/// its declared base, or its location where it declares none.
pub open spec fn doc_base(t: Turtle) -> Option<Seq<char>> {
    match t.base {
        Some(b) => expand_from(b.0.1.0, t.prefixes@, Seq::empty()),
        None => Some(t.set_base@),
    }
}

/// Triples whose terms are all flat and which each have a property list.
pub open spec fn simple_triples(ts: Seq<Spanned<Triple>>) -> bool {
    forall|i: int| 0 <= i < ts.len() ==> {
        &&& flat(#[trigger] ts[i].0.subject.0)
        &&& flat_pos(ts[i].0.po@)
        &&& ts[i].0.po@.len() > 0
    }
}

/// The number of (subject, predicate, object) combinations of the triples.
pub open spec fn pair_total(ts: Seq<Spanned<Triple>>) -> nat
    decreases ts.len(),
{
    if ts.len() == 0 {
        0
    } else {
        pair_total(ts.drop_last()) + pair_count(ts.last().0.po@)
    }
}

impl Turtle {
    /// Wraps quads with the document's base.
    pub fn into_triples(&self, triples: Vec<MyQuad>) -> (r: Triples2)
        ensures
            r.triples == triples,
            r.base_url@ == self.set_base@,
            match self.base {
                Some(b) => match expand_from(b.0.1.0, self.prefixes@, Seq::empty()) {
                    Some(e) => r.base matches Some(t) && is_named(t.value, e) && t.span == b.0.1.1,
                    None => r.base is None,
                },
                None => r.base matches Some(t) && is_named(t.value, self.set_base@) && t.span == (Span { start: 0, end: 0 }),
            },
    {
        let base = match &self.base {
            Some(b) => {
                let done: Vec<String> = Vec::new();
                assert(views(done@) =~= Seq::<Seq<char>>::empty());
                match b.0.1.0.expand_step(self, done) {
                    Some(st) => Some(MyTerm { value: Value::Named(st), span: b.0.1.1 }),
                    None => None,
                }
            },
            None => Some(MyTerm { value: Value::Named(self.set_base.clone()), span: Span { start: 0, end: 0 } }),
        };
        Triples2 { triples, base, base_url: self.set_base.clone() }
    }

    /// Lowers the document to quads, as `lower_doc` says, minting blank
    /// nodes from 1. Fails only on the base: when the declared base does not
    /// expand, or the base is not an IRI. Terms that do not resolve become
    /// invalid terms and the pass goes on.
    pub fn get_simple_triples(&self) -> (r: Result<Triples2, TurtleSimpleError>)
        ensures
            r is Ok <==> (doc_base(*self) matches Some(b) && iri_valid(b)),
            r matches Err(TurtleSimpleError::UnexpectedBase(_)) <==> doc_base(*self) is None,
            r matches Ok(t) ==> t.base_url@ == self.set_base@,
            r matches Ok(t) ==> qs(t.triples@) == lower_doc(self.triples@, *self, doc_base(*self)->Some_0).0,
    {
        let base = match &self.base {
            Some(b) => {
                let done: Vec<String> = Vec::new();
                assert(views(done@) =~= Seq::<Seq<char>>::empty());
                match b.0.1.0.expand_step(self, done) {
                    Some(nn) => nn,
                    None => {
                        return Err(TurtleSimpleError::UnexpectedBase("Expected valid named node base"));
                    },
                }
            },
            None => self.set_base.clone(),
        };
        match check_base_iri(base.as_str()) {
            Err(e) => {
                return Err(TurtleSimpleError::Parse(e));
            },
            Ok(()) => {},
        }
        let mut builder = TriplesBuilder::new(self, base);
        assert(qs(builder.triples@) =~= Seq::<QQuad>::empty());
        assert(self.triples@.take(0) =~= Seq::<Spanned<Triple>>::empty());
        let mut i: usize = 0;
        while i < self.triples.len()
            invariant
                i <= self.triples.len(),
                builder.based == self,
                builder.base@ == doc_base(*self)->Some_0,
                ({
                    let l = lower_doc(self.triples@.take(i as int), *self, builder.base@);
                    &&& qs(builder.triples@) == l.0
                    &&& builder.count == l.1
                }),
            decreases self.triples.len() - i,
        {
            builder.ingest(&self.triples[i]);
            assert(self.triples@.take(i as int + 1).drop_last() =~= self.triples@.take(i as int));
            assert(self.triples@.take(i as int + 1).last() == self.triples@[i as int]);
            i += 1;
        }
        assert(self.triples@.take(i as int) =~= self.triples@);
        Ok(self.into_triples(builder.triples))
    }
}

proof fn lemma_flat_term(t: Spanned<Term>, doc: Turtle, base: Seq<char>, c: u64)
    requires
        flat(t.0),
    ensures
        lower_term(t, doc, base, c).0.len() == 0,
        lower_term(t, doc, base, c).2 == c,
{
}

proof fn lemma_objs_flat(
    objs: Vec<Spanned<Term>>,
    m: int,
    subject: QTerm,
    pred: QTerm,
    first: Span,
    doc: Turtle,
    base: Seq<char>,
    c: u64,
)
    requires
        0 <= m <= objs@.len(),
        flat_objects(objs@),
    ensures
        lower_objs(objs, m, subject, pred, first, doc, base, c).0.len() == m,
        lower_objs(objs, m, subject, pred, first, doc, base, c).1 == c,
    decreases m,
{
    if m > 0 {
        lemma_objs_flat(objs, m - 1, subject, pred, first, doc, base, c);
        assert(flat(objs@[m - 1].0));
        lemma_flat_term(objs@[m - 1], doc, base, c);
    }
}

proof fn lemma_pos_flat(pos: Vec<Spanned<PO>>, n: int, subject: QTerm, span: Span, doc: Turtle, base: Seq<char>, c: u64)
    requires
        0 <= n <= pos@.len(),
        pos@.len() > 0,
        flat_pos(pos@),
    ensures
        lower_pos(pos, n, subject, span, doc, base, c).0.len() == pair_count(pos@.take(n)),
        lower_pos(pos, n, subject, span, doc, base, c).1 == c,
    decreases n,
{
    if n > 0 {
        lemma_pos_flat(pos, n - 1, subject, span, doc, base, c);
        assert(pos@.take(n).drop_last() =~= pos@.take(n - 1));
        assert(pos@.take(n).last() == pos@[n - 1]);
        assert(flat_objects(pos@[n - 1].0.object@));
        let po = pos@[n - 1].0;
        let first = if n == 1 { span } else { pos@[n - 1].1 };
        lemma_objs_flat(po.object, po.object@.len() as int, subject, pred_term(po.predicate, doc, base), first, doc, base, c);
    } else {
        assert(pos@.take(0).len() == 0);
    }
}

/// For triples without `[ ... ]` nodes or collections, each with a property
/// list, lowering gives exactly one quad per (subject, predicate, object)
/// combination and mints nothing.
pub proof fn lemma_simple_quad_count(ts: Seq<Spanned<Triple>>, doc: Turtle, base: Seq<char>)
    requires
        simple_triples(ts),
    ensures
        lower_doc(ts, doc, base).0.len() == pair_total(ts),
        lower_doc(ts, doc, base).1 == 0,
    decreases ts.len(),
{
    if ts.len() > 0 {
        let rest = ts.drop_last();
        assert forall|i: int| 0 <= i < rest.len() implies {
            &&& flat(#[trigger] rest[i].0.subject.0)
            &&& flat_pos(rest[i].0.po@)
            &&& rest[i].0.po@.len() > 0
        } by {
            assert(rest[i] == ts[i]);
        }
        lemma_simple_quad_count(rest, doc, base);
        let t = ts.last();
        assert(t == ts[ts.len() - 1]);
        let sub = lower_term(t.0.subject, doc, base, 0);
        lemma_flat_term(t.0.subject, doc, base, 0);
        lemma_pos_flat(t.0.po, t.0.po@.len() as int, sub.1, t.1, doc, base, 0);
        assert(t.0.po@.take(t.0.po@.len() as int) =~= t.0.po@);
    }
}

proof fn lemma_coll_from(items: Vec<Spanned<Term>>, i: int, span: Span, doc: Turtle, base: Seq<char>, c: u64)
    requires
        0 <= i <= items@.len(),
        flat_objects(items@),
        c + items@.len() < u64::MAX,
    ensures
        ({
            let l = lower_coll(items, i, span, doc, base, c);
            &&& l.0.len() == 2 * (items@.len() - i)
            &&& l.2 == c + (items@.len() - i)
            &&& i < items@.len() ==> l.1.val == Val::Fresh(l.2)
        }),
    decreases items@.len() - i,
{
    if i < items@.len() {
        lemma_coll_from(items, i + 1, span, doc, base, c);
        assert(flat(items@[i].0));
        let prev = lower_coll(items, i + 1, span, doc, base, c);
        lemma_flat_term(items@[i], doc, base, bump(prev.2));
    }
}

/// A collection of `k` elements that mint nothing themselves lowers to
/// exactly `2k` quads and mints `k` cells; its head is the last cell
/// minted, the one with the highest number.
pub proof fn lemma_collection_lowering(items: Vec<Spanned<Term>>, span: Span, doc: Turtle, base: Seq<char>, c: u64)
    requires
        flat_objects(items@),
        c + items@.len() < u64::MAX,
    ensures
        ({
            let l = lower_coll(items, 0, span, doc, base, c);
            &&& l.0.len() == 2 * items@.len()
            &&& l.2 == c + items@.len()
            &&& items@.len() > 0 ==> l.1.val == Val::Fresh(l.2)
            &&& items@.len() == 0 ==> l.1.val == Val::Named(rdf_nil())
        }),
{
    lemma_coll_from(items, 0, span, doc, base, c);
}

/// How many quads a term gives when lowered: those of a `[ ... ]` node's
/// property list, two per collection element plus the element's own, and
/// none for any other term.
pub open spec fn term_quads(t: Term) -> nat
    decreases t, 0int,
{
    match t {
        Term::BlankNode(BlankNode::Unnamed(pos, _, _)) => pos_count(pos, pos@.len() as int),
        Term::Collection(items) => coll_count(items, 0),
        _ => 0,
    }
}

/// How many quads the first `n` entries of a property list give: one per
/// object plus the object's own; an empty list gives its placeholder.
pub open spec fn pos_count(pos: Vec<Spanned<PO>>, n: int) -> nat
    decreases pos, n,
{
    if n <= 0 || n > pos@.len() {
        if pos@.len() == 0 {
            1
        } else {
            0
        }
    } else {
        pos_count(pos, n - 1) + objs_count(pos@[n - 1].0.object, pos@[n - 1].0.object@.len() as int)
    }
}

pub open spec fn objs_count(objs: Vec<Spanned<Term>>, m: int) -> nat
    decreases objs, m,
{
    if m <= 0 || m > objs@.len() {
        0
    } else {
        objs_count(objs, m - 1) + term_quads(objs@[m - 1].0) + 1
    }
}

pub open spec fn coll_count(items: Vec<Spanned<Term>>, i: int) -> nat
    decreases items, items@.len() - i,
{
    if i < 0 || i >= items@.len() {
        0
    } else {
        coll_count(items, i + 1) + term_quads(items@[i].0) + 2
    }
}

/// How many quads a list of triples gives: per triple, those of its
/// subject and those of its property list.
pub open spec fn doc_quads(ts: Seq<Spanned<Triple>>) -> nat
    decreases ts.len(),
{
    if ts.len() == 0 {
        0
    } else {
        let t = ts.last().0;
        doc_quads(ts.drop_last()) + term_quads(t.subject.0) + pos_count(t.po, t.po@.len() as int)
    }
}

proof fn lemma_term_count(t: Spanned<Term>, doc: Turtle, base: Seq<char>, c: u64)
    ensures
        lower_term(t, doc, base, c).0.len() == term_quads(t.0),
    decreases t, 0int,
{
    match t.0 {
        Term::BlankNode(BlankNode::Unnamed(pos, _, _)) => {
            let s = QTerm { val: Val::Fresh(bump(c)), span: t.1 };
            lemma_pos_count(pos, pos@.len() as int, s, t.1, doc, base, bump(c));
        },
        Term::Collection(items) => {
            lemma_coll_count(items, 0, t.1, doc, base, c);
        },
        _ => {},
    }
}

proof fn lemma_pos_count(
    pos: Vec<Spanned<PO>>,
    n: int,
    subject: QTerm,
    span: Span,
    doc: Turtle,
    base: Seq<char>,
    c: u64,
)
    ensures
        lower_pos(pos, n, subject, span, doc, base, c).0.len() == pos_count(pos, n),
    decreases pos, n,
{
    if !(n <= 0 || n > pos@.len()) {
        lemma_pos_count(pos, n - 1, subject, span, doc, base, c);
        let prev = lower_pos(pos, n - 1, subject, span, doc, base, c);
        let po = pos@[n - 1].0;
        let first = if n == 1 { span } else { pos@[n - 1].1 };
        lemma_objs_count(po.object, po.object@.len() as int, subject, pred_term(po.predicate, doc, base), first, doc, base, prev.1);
    }
}

proof fn lemma_objs_count(
    objs: Vec<Spanned<Term>>,
    m: int,
    subject: QTerm,
    pred: QTerm,
    first: Span,
    doc: Turtle,
    base: Seq<char>,
    c: u64,
)
    ensures
        lower_objs(objs, m, subject, pred, first, doc, base, c).0.len() == objs_count(objs, m),
    decreases objs, m,
{
    if !(m <= 0 || m > objs@.len()) {
        lemma_objs_count(objs, m - 1, subject, pred, first, doc, base, c);
        let prev = lower_objs(objs, m - 1, subject, pred, first, doc, base, c);
        lemma_term_count(objs@[m - 1], doc, base, prev.1);
    }
}

proof fn lemma_coll_count(items: Vec<Spanned<Term>>, i: int, span: Span, doc: Turtle, base: Seq<char>, c: u64)
    ensures
        lower_coll(items, i, span, doc, base, c).0.len() == coll_count(items, i),
    decreases items, items@.len() - i,
{
    if !(i < 0 || i >= items@.len()) {
        lemma_coll_count(items, i + 1, span, doc, base, c);
        let prev = lower_coll(items, i + 1, span, doc, base, c);
        lemma_term_count(items@[i], doc, base, bump(prev.2));
    }
}

/// Lowering gives exactly `doc_quads` quads, whatever the terms resolve to:
/// one per (subject, predicate, object) combination, one placeholder per
/// empty property list, and two per collection element, at every depth.
pub proof fn lemma_quad_count(ts: Seq<Spanned<Triple>>, doc: Turtle, base: Seq<char>)
    ensures
        lower_doc(ts, doc, base).0.len() == doc_quads(ts),
    decreases ts.len(),
{
    if ts.len() > 0 {
        lemma_quad_count(ts.drop_last(), doc, base);
        let prev = lower_doc(ts.drop_last(), doc, base);
        let t = ts.last();
        lemma_term_count(t.0.subject, doc, base, prev.1);
        let s = lower_term(t.0.subject, doc, base, prev.1);
        lemma_pos_count(t.0.po, t.0.po@.len() as int, s.1, t.1, doc, base, s.2);
    }
}

/// A name under an undeclared prefix lowers to an invalid term in any
/// position, emitting nothing and minting nothing; the rest of the pass
/// goes on, since `get_simple_triples` fails only on the base.
pub proof fn lemma_undeclared_prefix_is_invalid(t: Spanned<Term>, doc: Turtle, base: Seq<char>, c: u64)
    requires
        t.0 matches Term::NamedNode(NamedNode::Prefixed { prefix, .. }) && first_decl(doc.prefixes@, prefix@) is None,
    ensures
        lower_term(t, doc, base, c) == (Seq::<QQuad>::empty(), QTerm { val: Val::Invalid, span: t.1 }, c),
        pred_term(t, doc, base).val == Val::Invalid,
{
    lemma_undeclared_prefix(t.0->NamedNode_0, doc.prefixes@);
}

proof fn lemma_term_mono(t: Spanned<Term>, doc: Turtle, base: Seq<char>, c: u64)
    ensures
        lower_term(t, doc, base, c).2 >= c,
    decreases t, 0int,
{
    match t.0 {
        Term::BlankNode(BlankNode::Unnamed(pos, _, _)) => {
            let s = QTerm { val: Val::Fresh(bump(c)), span: t.1 };
            lemma_pos_mono(pos, pos@.len() as int, s, t.1, doc, base, bump(c));
        },
        Term::Collection(items) => {
            lemma_coll_mono(items, 0, t.1, doc, base, c);
        },
        _ => {},
    }
}

proof fn lemma_pos_mono(pos: Vec<Spanned<PO>>, n: int, subject: QTerm, span: Span, doc: Turtle, base: Seq<char>, c: u64)
    ensures
        lower_pos(pos, n, subject, span, doc, base, c).1 >= c,
    decreases pos, n,
{
    if !(n <= 0 || n > pos@.len()) {
        lemma_pos_mono(pos, n - 1, subject, span, doc, base, c);
        let prev = lower_pos(pos, n - 1, subject, span, doc, base, c);
        let po = pos@[n - 1].0;
        let first = if n == 1 { span } else { pos@[n - 1].1 };
        lemma_objs_mono(po.object, po.object@.len() as int, subject, pred_term(po.predicate, doc, base), first, doc, base, prev.1);
    }
}

proof fn lemma_objs_mono(
    objs: Vec<Spanned<Term>>,
    m: int,
    subject: QTerm,
    pred: QTerm,
    first: Span,
    doc: Turtle,
    base: Seq<char>,
    c: u64,
)
    ensures
        lower_objs(objs, m, subject, pred, first, doc, base, c).1 >= c,
    decreases objs, m,
{
    if !(m <= 0 || m > objs@.len()) {
        lemma_objs_mono(objs, m - 1, subject, pred, first, doc, base, c);
        let prev = lower_objs(objs, m - 1, subject, pred, first, doc, base, c);
        lemma_term_mono(objs@[m - 1], doc, base, prev.1);
    }
}

proof fn lemma_coll_mono(items: Vec<Spanned<Term>>, i: int, span: Span, doc: Turtle, base: Seq<char>, c: u64)
    ensures
        lower_coll(items, i, span, doc, base, c).2 >= c,
    decreases items, items@.len() - i,
{
    if !(i < 0 || i >= items@.len()) {
        lemma_coll_mono(items, i + 1, span, doc, base, c);
        let prev = lower_coll(items, i + 1, span, doc, base, c);
        lemma_term_mono(items@[i], doc, base, bump(prev.2));
    }
}

/// The number of the cell minted for element `i` of a collection lowered
/// from count `c`.
pub open spec fn cell_num(items: Vec<Spanned<Term>>, i: int, span: Span, doc: Turtle, base: Seq<char>, c: u64) -> u64 {
    bump(lower_coll(items, i + 1, span, doc, base, c).2)
}

proof fn lemma_coll_step(items: Vec<Spanned<Term>>, i: int, span: Span, doc: Turtle, base: Seq<char>, c: u64)
    requires
        0 <= i < items@.len(),
    ensures
        lower_coll(items, i, span, doc, base, c).2 >= cell_num(items, i, span, doc, base, c),
        cell_num(items, i, span, doc, base, c) >= lower_coll(items, i + 1, span, doc, base, c).2,
{
    let prev = lower_coll(items, i + 1, span, doc, base, c);
    lemma_term_mono(items@[i], doc, base, bump(prev.2));
}

proof fn lemma_coll_order(items: Vec<Spanned<Term>>, a: int, b: int, span: Span, doc: Turtle, base: Seq<char>, c: u64)
    requires
        0 <= a <= b <= items@.len(),
    ensures
        lower_coll(items, a, span, doc, base, c).2 >= lower_coll(items, b, span, doc, base, c).2,
    decreases b - a,
{
    if a < b {
        lemma_coll_order(items, a + 1, b, span, doc, base, c);
        lemma_coll_step(items, a, span, doc, base, c);
    }
}

/// The cells of a collection are minted last element first, with strictly
/// increasing numbers, whatever the elements are; the head, the cell of the
/// first element, has the highest number of them. This holds while the
/// counter stays below `u64::MAX`.
pub proof fn lemma_collection_cells(items: Vec<Spanned<Term>>, span: Span, doc: Turtle, base: Seq<char>, c: u64)
    requires
        items@.len() > 0,
        lower_coll(items, 0, span, doc, base, c).2 < u64::MAX,
    ensures
        lower_coll(items, 0, span, doc, base, c).1.val == Val::Fresh(cell_num(items, 0, span, doc, base, c)),
        forall|i: int, j: int|
            0 <= i < j < items@.len() ==> #[trigger] cell_num(items, i, span, doc, base, c) > #[trigger] cell_num(
                items, j, span, doc, base, c),
{
    assert forall|i: int, j: int|
        0 <= i < j < items@.len() implies #[trigger] cell_num(items, i, span, doc, base, c) > #[trigger] cell_num(
            items, j, span, doc, base, c) by {
        lemma_coll_order(items, 0, i + 1, span, doc, base, c);
        lemma_coll_order(items, i + 1, j, span, doc, base, c);
        lemma_coll_step(items, j, span, doc, base, c);
    }
}

} // verus!
