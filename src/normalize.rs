use crate::model::{Base, BlankNode, Term, Triple, Turtle, TurtlePrefix, PO};
use crate::span::{rev_range, reversed, Span, Spanned};
use vstd::prelude::*;

verus! {

broadcast use vstd::std_specs::vec::group_vec_axioms;

/// What a span becomes when the region is `len` positions long: its
/// absolute form, where both its ends lie in the region; any other span
/// is left as it is.
pub open spec fn fixed(s: Span, len: nat) -> Span {
    if s.within(len) {
        reversed(s, len)
    } else {
        s
    }
}

/// Normalising is not idempotent: a second pass over a span that fits
/// turns it back into the form it had before the first.
pub proof fn lemma_fix_twice_restores(s: Span, len: nat)
    requires
        s.within(len),
        len <= usize::MAX,
    ensures
        fixed(s, len).within(len),
        fixed(fixed(s, len), len) == s,
{
}

pub fn fix_span(s: Span, len: usize) -> (r: Span)
    ensures
        r == fixed(s, len as nat),
{
    if s.start <= len && s.end <= len {
        rev_range(&s, len)
    } else {
        s
    }
}

/// `b` is term `a` with every span inside it fixed for `len`.
pub open spec fn term_fixed(a: Term, b: Term, len: nat) -> bool
    decreases a, 0int,
{
    match a {
        Term::Collection(ca) => b matches Term::Collection(cb) && cb@.len() == ca@.len()
            && terms_fixed(ca, cb, ca@.len() as int, len),
        Term::BlankNode(BlankNode::Unnamed(pa, s, e)) => b matches Term::BlankNode(BlankNode::Unnamed(pb, s2, e2))
            && s2 == s && e2 == e && pb@.len() == pa@.len() && pos_fixed(pa, pb, pa@.len() as int, len),
        _ => b == a,
    }
}

/// The first `n` entries of `cb` are those of `ca` with their spans fixed,
/// inside and out.
pub open spec fn terms_fixed(ca: Vec<Spanned<Term>>, cb: Vec<Spanned<Term>>, n: int, len: nat) -> bool
    decreases ca, n,
{
    if n <= 0 || n > ca@.len() {
        true
    } else {
        &&& terms_fixed(ca, cb, n - 1, len)
        &&& n - 1 < cb@.len()
        &&& cb@[n - 1].1 == fixed(ca@[n - 1].1, len)
        &&& term_fixed(ca@[n - 1].0, cb@[n - 1].0, len)
    }
}

/// `b` is the property-list entry `a` with every span inside it fixed.
pub open spec fn po_fixed(a: PO, b: PO, len: nat) -> bool
    decreases a, 0int,
{
    &&& b.predicate.1 == fixed(a.predicate.1, len)
    &&& term_fixed(a.predicate.0, b.predicate.0, len)
    &&& b.object@.len() == a.object@.len()
    &&& terms_fixed(a.object, b.object, a.object@.len() as int, len)
}

/// The first `n` entries of `pb` are those of `pa` with their spans fixed,
/// inside and out.
pub open spec fn pos_fixed(pa: Vec<Spanned<PO>>, pb: Vec<Spanned<PO>>, n: int, len: nat) -> bool
    decreases pa, n,
{
    if n <= 0 || n > pa@.len() {
        true
    } else {
        &&& pos_fixed(pa, pb, n - 1, len)
        &&& n - 1 < pb@.len()
        &&& pb@[n - 1].1 == fixed(pa@[n - 1].1, len)
        &&& po_fixed(pa@[n - 1].0, pb@[n - 1].0, len)
    }
}

proof fn lemma_terms_fixed(ca: Vec<Spanned<Term>>, cb: Vec<Spanned<Term>>, n: int, len: nat)
    requires
        0 <= n <= ca@.len(),
        cb@.len() == ca@.len(),
        forall|k: int| 0 <= k < n ==> #[trigger] cb@[k].1 == fixed(ca@[k].1, len) && term_fixed(ca@[k].0, cb@[k].0, len),
    ensures
        terms_fixed(ca, cb, n, len),
    decreases n,
{
    if n > 0 {
        lemma_terms_fixed(ca, cb, n - 1, len);
    }
}

proof fn lemma_pos_fixed(pa: Vec<Spanned<PO>>, pb: Vec<Spanned<PO>>, n: int, len: nat)
    requires
        0 <= n <= pa@.len(),
        pb@.len() == pa@.len(),
        forall|k: int| 0 <= k < n ==> #[trigger] pb@[k].1 == fixed(pa@[k].1, len) && po_fixed(pa@[k].0, pb@[k].0, len),
    ensures
        pos_fixed(pa, pb, n, len),
    decreases n,
{
    if n > 0 {
        lemma_pos_fixed(pa, pb, n - 1, len);
    }
}

fn fix_terms(v: &mut Vec<Spanned<Term>>, len: usize)
    ensures
        final(v)@.len() == old(v)@.len(),
        terms_fixed(*old(v), *final(v), old(v)@.len() as int, len as nat),
    decreases *old(v), 1nat,
{
    let mut i: usize = 0;
    while i < v.len()
        invariant
            v@.len() == old(v)@.len(),
            forall|k: int| 0 <= k < i ==> #[trigger] v@[k].1 == fixed(old(v)@[k].1, len as nat)
                && term_fixed(old(v)@[k].0, v@[k].0, len as nat),
            forall|k: int| i <= k < v@.len() ==> #[trigger] v@[k] == old(v)@[k],
        decreases v.len() - i,
    {
        proof {
            vstd::std_specs::vec::axiom_vec_index_decreases(*old(v), i as int);
        }
        let ghost prev = v@;
        let s = fix_span(v[i].1, len);
        v[i].1 = s;
        v[i].0.fix_spans(len);
        assert forall|k: int| 0 <= k < i + 1 implies #[trigger] v@[k].1 == fixed(old(v)@[k].1, len as nat)
            && term_fixed(old(v)@[k].0, v@[k].0, len as nat) by {
            if k < i {
                assert(v@[k] == prev[k]);
            }
        }
        i += 1;
    }
    proof {
        lemma_terms_fixed(*old(v), *v, v@.len() as int, len as nat);
    }
}

fn fix_pos(v: &mut Vec<Spanned<PO>>, len: usize)
    ensures
        final(v)@.len() == old(v)@.len(),
        pos_fixed(*old(v), *final(v), old(v)@.len() as int, len as nat),
    decreases *old(v), 1nat,
{
    let mut i: usize = 0;
    while i < v.len()
        invariant
            v@.len() == old(v)@.len(),
            forall|k: int| 0 <= k < i ==> #[trigger] v@[k].1 == fixed(old(v)@[k].1, len as nat)
                && po_fixed(old(v)@[k].0, v@[k].0, len as nat),
            forall|k: int| i <= k < v@.len() ==> #[trigger] v@[k] == old(v)@[k],
        decreases v.len() - i,
    {
        proof {
            vstd::std_specs::vec::axiom_vec_index_decreases(*old(v), i as int);
        }
        let ghost prev = v@;
        let s = fix_span(v[i].1, len);
        v[i].1 = s;
        v[i].0.fix_spans(len);
        assert forall|k: int| 0 <= k < i + 1 implies #[trigger] v@[k].1 == fixed(old(v)@[k].1, len as nat)
            && po_fixed(old(v)@[k].0, v@[k].0, len as nat) by {
            if k < i {
                assert(v@[k] == prev[k]);
            }
        }
        i += 1;
    }
    proof {
        lemma_pos_fixed(*old(v), *v, v@.len() as int, len as nat);
    }
}

impl BlankNode {
    /// Makes the spans inside a `[ ... ]` node's property list absolute,
    /// at every depth.
    pub fn fix_spans(&mut self, len: usize)
        ensures
            term_fixed(Term::BlankNode(*old(self)), Term::BlankNode(*final(self)), len as nat),
        decreases *old(self), 2nat,
    {
        match self {
            BlankNode::Unnamed(pos, _, _) => fix_pos(pos, len),
            _ => {},
        }
    }
}

impl Term {
    /// Makes the spans inside the term absolute, at every depth.
    pub fn fix_spans(&mut self, len: usize)
        ensures
            term_fixed(*old(self), *final(self), len as nat),
        decreases *old(self), 3nat,
    {
        match self {
            Term::BlankNode(bn) => bn.fix_spans(len),
            Term::Collection(pos) => fix_terms(pos, len),
            _ => {},
        }
    }
}

impl PO {
    pub fn fix_spans(&mut self, len: usize)
        ensures
            po_fixed(*old(self), *final(self), len as nat),
        decreases *old(self), 3nat,
    {
        self.predicate.1 = fix_span(self.predicate.1, len);
        self.predicate.0.fix_spans(len);
        fix_terms(&mut self.object, len);
    }
}

/// `b` is the triple `a` with every span inside it fixed.
pub open spec fn triple_fixed(a: Triple, b: Triple, len: nat) -> bool {
    &&& b.subject.1 == fixed(a.subject.1, len)
    &&& term_fixed(a.subject.0, b.subject.0, len)
    &&& b.po@.len() == a.po@.len()
    &&& pos_fixed(a.po, b.po, a.po@.len() as int, len)
}

fn fix_triples(v: &mut Vec<Spanned<Triple>>, len: usize)
    ensures
        final(v)@.len() == old(v)@.len(),
        forall|k: int| 0 <= k < old(v)@.len() ==> #[trigger] final(v)@[k].1 == fixed(old(v)@[k].1, len as nat)
            && triple_fixed(old(v)@[k].0, final(v)@[k].0, len as nat),
{
    let mut i: usize = 0;
    while i < v.len()
        invariant
            v@.len() == old(v)@.len(),
            forall|k: int| 0 <= k < i ==> #[trigger] v@[k].1 == fixed(old(v)@[k].1, len as nat)
                && triple_fixed(old(v)@[k].0, v@[k].0, len as nat),
            forall|k: int| i <= k < v@.len() ==> #[trigger] v@[k] == old(v)@[k],
        decreases v.len() - i,
    {
        let ghost prev = v@;
        let s = fix_span(v[i].1, len);
        v[i].1 = s;
        v[i].0.fix_spans(len);
        assert forall|k: int| 0 <= k < i + 1 implies #[trigger] v@[k].1 == fixed(old(v)@[k].1, len as nat)
            && triple_fixed(old(v)@[k].0, v@[k].0, len as nat) by {
            if k < i {
                assert(v@[k] == prev[k]);
            }
        }
        i += 1;
    }
}

impl Triple {
    pub fn fix_spans(&mut self, len: usize)
        ensures
            triple_fixed(*old(self), *final(self), len as nat),
    {
        self.subject.1 = fix_span(self.subject.1, len);
        self.subject.0.fix_spans(len);
        fix_pos(&mut self.po, len);
    }
}

/// `b` is the base declaration `a` with both its spans fixed.
pub open spec fn base_fixed(a: Base, b: Base, len: nat) -> bool {
    &&& b.0 == fixed(a.0, len)
    &&& b.1.0 == a.1.0
    &&& b.1.1 == fixed(a.1.1, len)
}

/// `b` is the prefix declaration `a` with its three spans fixed.
pub open spec fn prefix_fixed(a: TurtlePrefix, b: TurtlePrefix, len: nat) -> bool {
    &&& b.span == fixed(a.span, len)
    &&& b.prefix.1 == fixed(a.prefix.1, len)
    &&& b.value.1 == fixed(a.value.1, len)
    &&& b.prefix.0 == a.prefix.0
    &&& b.value.0 == a.value.0
}

impl Base {
    /// Makes the declaration's span and its IRI's span absolute.
    pub fn fix_spans(&mut self, len: usize)
        ensures
            base_fixed(*old(self), *final(self), len as nat),
    {
        self.0 = fix_span(self.0, len);
        self.1.1 = fix_span(self.1.1, len);
    }
}

impl TurtlePrefix {
    pub fn fix_spans(&mut self, len: usize)
        ensures
            prefix_fixed(*old(self), *final(self), len as nat),
    {
        self.span = fix_span(self.span, len);
        self.prefix.1 = fix_span(self.prefix.1, len);
        self.value.1 = fix_span(self.value.1, len);
    }
}

impl Turtle {
    /// Makes every span of the document absolute, given the length of the
    /// parsed region. Spans are recorded as distances from the end while
    /// parsing, so this is done once per parse: a second call would turn
    /// them back.
    pub fn fix_spans(&mut self, len: usize)
        ensures
            final(self).set_base == old(self).set_base,
            final(self).base is Some == old(self).base is Some,
            old(self).base matches Some(b) ==> final(self).base matches Some(b2) && b2.1 == fixed(b.1, len as nat)
                && base_fixed(b.0, b2.0, len as nat),
            final(self).prefixes@.len() == old(self).prefixes@.len(),
            forall|i: int| 0 <= i < old(self).prefixes@.len() ==> #[trigger] final(self).prefixes@[i].1 == fixed(
                old(self).prefixes@[i].1, len as nat) && prefix_fixed(old(self).prefixes@[i].0, final(self).prefixes@[i].0, len as nat),
            final(self).triples@.len() == old(self).triples@.len(),
            forall|i: int| 0 <= i < old(self).triples@.len() ==> #[trigger] final(self).triples@[i].1 == fixed(
                old(self).triples@[i].1, len as nat),
            forall|i: int| 0 <= i < old(self).triples@.len() ==> #[trigger] triple_fixed(
                old(self).triples@[i].0, final(self).triples@[i].0, len as nat),
    {
        match &mut self.base {
            Some(b) => {
                b.1 = fix_span(b.1, len);
                b.0.fix_spans(len);
            },
            None => {},
        }
        let mut i: usize = 0;
        while i < self.prefixes.len()
            invariant
                self.prefixes@.len() == old(self).prefixes@.len(),
                self.set_base == old(self).set_base,
                forall|k: int| 0 <= k < i ==> #[trigger] self.prefixes@[k].1 == fixed(old(self).prefixes@[k].1, len as nat)
                    && prefix_fixed(old(self).prefixes@[k].0, self.prefixes@[k].0, len as nat),
                forall|k: int| i <= k < self.prefixes@.len() ==> #[trigger] self.prefixes@[k] == old(self).prefixes@[k],
                self.triples == old(self).triples,
                self.base is Some == old(self).base is Some,
                old(self).base matches Some(b) ==> self.base matches Some(b2) && b2.1 == fixed(b.1, len as nat)
                    && base_fixed(b.0, b2.0, len as nat),
            decreases self.prefixes.len() - i,
        {
            let s = fix_span(self.prefixes[i].1, len);
            self.prefixes[i].1 = s;
            self.prefixes[i].0.fix_spans(len);
            i += 1;
        }
        assert forall|k: int| 0 <= k < self.prefixes@.len() implies #[trigger] self.prefixes@[k].1 == fixed(
            old(self).prefixes@[k].1, len as nat) && prefix_fixed(old(self).prefixes@[k].0, self.prefixes@[k].0, len as nat) by {
            assert(k < i);
        }
        let ghost t0 = self.triples@;
        fix_triples(&mut self.triples, len);
        assert forall|k: int| 0 <= k < t0.len() implies #[trigger] triple_fixed(t0[k].0, self.triples@[k].0, len as nat) by {
            assert(self.triples@[k].1 == fixed(t0[k].1, len as nat));
        }
    }
}

/// Every span inside term `t` has both ends in a region of `len` positions.
pub open spec fn term_within(t: Term, len: nat) -> bool
    decreases t, 0int,
{
    match t {
        Term::Collection(c) => terms_within(c, c@.len() as int, len),
        Term::BlankNode(BlankNode::Unnamed(pos, _, _)) => pos_within(pos, pos@.len() as int, len),
        _ => true,
    }
}

pub open spec fn terms_within(c: Vec<Spanned<Term>>, n: int, len: nat) -> bool
    decreases c, n,
{
    if n <= 0 || n > c@.len() {
        true
    } else {
        terms_within(c, n - 1, len) && c@[n - 1].1.within(len) && term_within(c@[n - 1].0, len)
    }
}

pub open spec fn po_within(po: PO, len: nat) -> bool
    decreases po, 0int,
{
    po.predicate.1.within(len) && term_within(po.predicate.0, len) && terms_within(po.object, po.object@.len() as int, len)
}

pub open spec fn pos_within(pos: Vec<Spanned<PO>>, n: int, len: nat) -> bool
    decreases pos, n,
{
    if n <= 0 || n > pos@.len() {
        true
    } else {
        pos_within(pos, n - 1, len) && pos@[n - 1].1.within(len) && po_within(pos@[n - 1].0, len)
    }
}

pub open spec fn triple_within(t: Triple, len: nat) -> bool {
    t.subject.1.within(len) && term_within(t.subject.0, len) && pos_within(t.po, t.po@.len() as int, len)
}

proof fn lemma_term_undone(a: Term, b: Term, len: nat)
    requires
        term_fixed(a, b, len),
        term_within(a, len),
        len <= usize::MAX,
    ensures
        term_fixed(b, a, len),
    decreases a, 0int,
{
    match a {
        Term::Collection(ca) => {
            let cb = b->Collection_0;
            lemma_terms_undone(ca, cb, ca@.len() as int, len);
        },
        Term::BlankNode(BlankNode::Unnamed(pa, _, _)) => {
            let pb = b->BlankNode_0->Unnamed_0;
            lemma_pos_undone(pa, pb, pa@.len() as int, len);
        },
        _ => {},
    }
}

proof fn lemma_terms_undone(ca: Vec<Spanned<Term>>, cb: Vec<Spanned<Term>>, n: int, len: nat)
    requires
        terms_fixed(ca, cb, n, len),
        terms_within(ca, n, len),
        cb@.len() == ca@.len(),
        len <= usize::MAX,
    ensures
        terms_fixed(cb, ca, n, len),
    decreases ca, n,
{
    if !(n <= 0 || n > ca@.len()) {
        lemma_terms_undone(ca, cb, n - 1, len);
        lemma_fix_twice_restores(ca@[n - 1].1, len);
        lemma_term_undone(ca@[n - 1].0, cb@[n - 1].0, len);
    }
}

proof fn lemma_po_undone(a: PO, b: PO, len: nat)
    requires
        po_fixed(a, b, len),
        po_within(a, len),
        len <= usize::MAX,
    ensures
        po_fixed(b, a, len),
    decreases a, 0int,
{
    lemma_fix_twice_restores(a.predicate.1, len);
    lemma_term_undone(a.predicate.0, b.predicate.0, len);
    lemma_terms_undone(a.object, b.object, a.object@.len() as int, len);
}

proof fn lemma_pos_undone(pa: Vec<Spanned<PO>>, pb: Vec<Spanned<PO>>, n: int, len: nat)
    requires
        pos_fixed(pa, pb, n, len),
        pos_within(pa, n, len),
        pb@.len() == pa@.len(),
        len <= usize::MAX,
    ensures
        pos_fixed(pb, pa, n, len),
    decreases pa, n,
{
    if !(n <= 0 || n > pa@.len()) {
        lemma_pos_undone(pa, pb, n - 1, len);
        lemma_fix_twice_restores(pa@[n - 1].1, len);
        lemma_po_undone(pa@[n - 1].0, pb@[n - 1].0, len);
    }
}

/// Normalising is its own inverse on a triple whose spans all lie in the
/// region: the triple before normalising is the normalised triple with its
/// spans fixed again, so a second pass restores every provisional span.
pub proof fn lemma_fix_twice_restores_triple(a: Triple, b: Triple, len: nat)
    requires
        triple_fixed(a, b, len),
        triple_within(a, len),
        len <= usize::MAX,
    ensures
        triple_fixed(b, a, len),
{
    lemma_fix_twice_restores(a.subject.1, len);
    lemma_term_undone(a.subject.0, b.subject.0, len);
    lemma_pos_undone(a.po, b.po, a.po@.len() as int, len);
}

/// The same for the declarations: a second pass restores their spans.
pub proof fn lemma_fix_twice_restores_declarations(a: Base, b: Base, p: TurtlePrefix, q: TurtlePrefix, len: nat)
    requires
        base_fixed(a, b, len),
        prefix_fixed(p, q, len),
        a.0.within(len) && a.1.1.within(len),
        p.span.within(len) && p.prefix.1.within(len) && p.value.1.within(len),
        len <= usize::MAX,
    ensures
        base_fixed(b, a, len),
        prefix_fixed(q, p, len),
{
    lemma_fix_twice_restores(a.0, len);
    lemma_fix_twice_restores(a.1.1, len);
    lemma_fix_twice_restores(p.span, len);
    lemma_fix_twice_restores(p.prefix.1, len);
    lemma_fix_twice_restores(p.value.1, len);
}

} // verus!
