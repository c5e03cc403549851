use crate::model::{BlankNode, Literal, NamedNode, RDFLiteral, Term, Triple, Turtle, Variable, PO};
use crate::resolve::views;
use crate::span::Spanned;
use vstd::prelude::*;

verus! {

broadcast use vstd::std_specs::vec::group_vec_axioms;

/// The syntactic role of a token.
#[derive(Clone, Copy, Debug, PartialEq, Eq, Structural)]
pub enum ContextKind {
    Subject,
    Predicate,
    Object,
}

/// The role of each token of a document, where it has one.
#[derive(Debug)]
pub struct Context {
    roles: Vec<Option<ContextKind>>,
}

/// The length of the longest common prefix of `a` and `b` that is at least `i` long.
pub open spec fn prefix_from(a: Seq<Seq<char>>, b: Seq<Seq<char>>, i: nat) -> nat
    decreases a.len() - i,
{
    if i < a.len() && i < b.len() && a[i as int] == b[i as int] {
        prefix_from(a, b, i + 1)
    } else {
        i
    }
}

/// The length of the longest common suffix of `a` and `b`, from `k` on,
/// that leaves the first `p` tokens of both alone.
pub open spec fn suffix_from(a: Seq<Seq<char>>, b: Seq<Seq<char>>, p: nat, k: nat) -> nat
    decreases a.len() - k,
{
    if p + k < a.len() && p + k < b.len() && a[a.len() - 1 - k] == b[b.len() - 1 - k] {
        suffix_from(a, b, p, k + 1)
    } else {
        k
    }
}

/// The unchanged prefix of an edit from `prev` to `cur`.
pub open spec fn kept_prefix(cur: Seq<Seq<char>>, prev: Seq<Seq<char>>) -> nat {
    prefix_from(cur, prev, 0)
}

/// The unchanged suffix of an edit from `prev` to `cur`, apart from its prefix.
pub open spec fn kept_suffix(cur: Seq<Seq<char>>, prev: Seq<Seq<char>>) -> nat {
    suffix_from(cur, prev, kept_prefix(cur, prev), 0)
}

proof fn lemma_prefix_from(a: Seq<Seq<char>>, b: Seq<Seq<char>>, i: nat)
    requires
        i <= a.len(),
        i <= b.len(),
    ensures
        i <= prefix_from(a, b, i) <= a.len(),
        prefix_from(a, b, i) <= b.len(),
    decreases a.len() - i,
{
    if i < a.len() && i < b.len() && a[i as int] == b[i as int] {
        lemma_prefix_from(a, b, i + 1);
    }
}

proof fn lemma_suffix_from(a: Seq<Seq<char>>, b: Seq<Seq<char>>, p: nat, k: nat)
    requires
        p + k <= a.len(),
        p + k <= b.len(),
    ensures
        k <= suffix_from(a, b, p, k),
        p + suffix_from(a, b, p, k) <= a.len(),
        p + suffix_from(a, b, p, k) <= b.len(),
    decreases a.len() - k,
{
    if p + k < a.len() && p + k < b.len() && a[a.len() - 1 - k] == b[b.len() - 1 - k] {
        lemma_suffix_from(a, b, p, k + 1);
    }
}

impl Context {
    /// The role of token `i`, if it has one.
    pub closed spec fn role(&self, i: int) -> Option<ContextKind> {
        if 0 <= i < self.roles@.len() {
            self.roles@[i]
        } else {
            None
        }
    }

    /// The roles as a map from token index to role.
    pub open spec fn roles(&self) -> Map<int, ContextKind> {
        Map::new(|i: int| self.role(i) is Some, |i: int| self.role(i)->Some_0)
    }

    /// The role that token `j` of the new stream takes over after an edit
    /// that kept `p` tokens in front and `s` at the end.
    pub open spec fn carried(&self, cur_len: int, prev_len: int, p: int, s: int, j: int) -> Option<ContextKind> {
        if 0 <= j < p {
            self.role(j)
        } else if cur_len - s <= j < cur_len {
            self.role(j - cur_len + prev_len)
        } else {
            None
        }
    }

    pub fn new() -> (r: Context)
        ensures
            forall|i: int| r.role(i) is None,
    {
        Context { roles: Vec::new() }
    }

    /// Forgets every role.
    pub fn clear(&mut self)
        ensures
            forall|i: int| final(self).role(i) is None,
            final(self).roles() == Map::<int, ContextKind>::empty(),
    {
        self.roles = Vec::new();
        assert(self.roles() =~= Map::<int, ContextKind>::empty());
    }

    /// Gives token `idx` the role `kind`.
    pub fn add(&mut self, idx: usize, kind: ContextKind)
        ensures
            final(self).role(idx as int) == Some(kind),
            forall|i: int| i != idx ==> final(self).role(i) == old(self).role(i),
            final(self).roles() == old(self).roles().insert(idx as int, kind),
    {
        let ghost start = self.roles@;
        while self.roles.len() <= idx
            invariant
                self.roles@.len() >= start.len(),
                forall|i: int| 0 <= i < start.len() ==> self.roles@[i] == start[i],
                forall|i: int| start.len() <= i < self.roles@.len() ==> self.roles@[i] is None,
            decreases idx + 1 - self.roles.len(),
        {
            self.roles.push(None);
        }
        self.roles.set(idx, Some(kind));
        assert(self.roles() =~= old(self).roles().insert(idx as int, kind));
    }

    /// The role of token `idx`, if it has one.
    pub fn find(&self, idx: usize) -> (r: Option<ContextKind>)
        ensures
            r == self.role(idx as int),
    {
        if idx < self.roles.len() {
            self.roles[idx]
        } else {
            None
        }
    }

    /// Carries the roles over an edit from the tokens `prev` to `current`
    /// whose new parse failed: tokens in the unchanged prefix and suffix keep
    /// their roles, moved to their new positions; those between have none.
    pub fn setup_current_to_prev(&mut self, current: &Vec<String>, prev: &Vec<String>)
        ensures
            forall|j: int| #[trigger] final(self).role(j) == old(self).carried(
                current@.len() as int,
                prev@.len() as int,
                kept_prefix(views(current@), views(prev@)) as int,
                kept_suffix(views(current@), views(prev@)) as int,
                j,
            ),
    {
        let ghost a = views(current@);
        let ghost b = views(prev@);
        let mut p: usize = 0;
        proof {
            lemma_prefix_from(a, b, 0);
        }
        while p < current.len() && p < prev.len() && current[p] == prev[p]
            invariant
                p <= current.len(),
                p <= prev.len(),
                prefix_from(a, b, p as nat) == kept_prefix(a, b),
                a == views(current@),
                b == views(prev@),
            decreases current.len() - p,
        {
            assert(a[p as int] == current@[p as int]@ && b[p as int] == prev@[p as int]@);
            p += 1;
        }
        assert(p < a.len() && p < b.len() ==> a[p as int] == current@[p as int]@ && b[p as int] == prev@[p as int]@);
        assert(kept_prefix(a, b) == p);
        let mut s: usize = 0;
        proof {
            lemma_suffix_from(a, b, p as nat, 0);
        }
        while p + s < current.len() && p + s < prev.len()
            && current[current.len() - 1 - s] == prev[prev.len() - 1 - s]
            invariant
                p + s <= current.len(),
                p + s <= prev.len(),
                p == kept_prefix(a, b),
                suffix_from(a, b, p as nat, s as nat) == kept_suffix(a, b),
                a == views(current@),
                b == views(prev@),
            decreases current.len() - s,
        {
            assert(a[a.len() - 1 - s] == current@[current.len() - 1 - s]@);
            assert(b[b.len() - 1 - s] == prev@[prev.len() - 1 - s]@);
            s += 1;
        }
        proof {
            if p + s < a.len() && p + s < b.len() {
                assert(a[a.len() - 1 - s] == current@[current.len() - 1 - s]@);
                assert(b[b.len() - 1 - s] == prev@[prev.len() - 1 - s]@);
            }
        }
        assert(kept_suffix(a, b) == s);
        let n = current.len();
        let m = prev.len();
        let mut roles: Vec<Option<ContextKind>> = Vec::new();
        let mut j: usize = 0;
        while j < n
            invariant
                j <= n,
                n == current@.len(),
                m == prev@.len(),
                p + s <= n,
                p + s <= m,
                roles@.len() == j,
                forall|k: int| 0 <= k < j ==> Some(roles@[k]) == Some(
                    old(self).carried(n as int, m as int, p as int, s as int, k)),
                *self == *old(self),
            decreases n - j,
        {
            let r = if j < p {
                self.find(j)
            } else if j >= n - s {
                self.find(j - (n - s) + (m - s))
            } else {
                None
            };
            roles.push(r);
            j += 1;
        }
        self.roles = roles;
    }
}

/// The single token of a term that stands on one token.
pub open spec fn token_of(t: Term) -> Option<usize> {
    match t {
        Term::BlankNode(BlankNode::Named(_, idx)) => Some(idx),
        Term::Variable(Variable(_, idx)) => Some(idx),
        Term::NamedNode(NamedNode::Full(_, idx)) => Some(idx),
        Term::NamedNode(NamedNode::A(idx)) => Some(idx),
        Term::NamedNode(NamedNode::Prefixed { idx, .. }) => Some(idx),
        _ => None,
    }
}

/// `m` with the tokens `idx .. idx + len` (below `usize::MAX`) given `kind`.
pub open spec fn mark_range(m: Map<int, ContextKind>, idx: int, len: int, kind: ContextKind) -> Map<int, ContextKind> {
    Map::new(
        |i: int| m.contains_key(i) || (idx <= i < idx + len && i < usize::MAX),
        |i: int| if idx <= i < idx + len && i < usize::MAX { kind } else { m[i] },
    )
}

/// The roles `m` after recording term `t` with role `kind`: a quoted
/// literal marks all its tokens, a `[ ... ]` node its two brackets and then
/// its property list, a one-token term its token; other terms mark nothing.
pub open spec fn mark_term(m: Map<int, ContextKind>, t: Term, kind: ContextKind) -> Map<int, ContextKind>
    decreases t, 0int,
{
    match t {
        Term::Literal(Literal::RDF(l)) => mark_range(m, l.idx as int, l.len as int, kind),
        Term::BlankNode(BlankNode::Unnamed(pos, s, e)) => mark_pos(
            m.insert(s as int, kind).insert(e as int, kind),
            pos,
            pos@.len() as int,
        ),
        _ => match token_of(t) {
            Some(idx) => m.insert(idx as int, kind),
            None => m,
        },
    }
}

/// The roles `m` after recording the first `n` entries of a property list:
/// each predicate as a predicate, then its objects as objects.
pub open spec fn mark_pos(m: Map<int, ContextKind>, pos: Vec<Spanned<PO>>, n: int) -> Map<int, ContextKind>
    decreases pos, n,
{
    if n <= 0 || n > pos@.len() {
        m
    } else {
        let po = pos@[n - 1].0;
        let m1 = mark_term(mark_pos(m, pos, n - 1), po.predicate.0, ContextKind::Predicate);
        mark_objs(m1, po.object, po.object@.len() as int)
    }
}

/// The roles `m` after recording the first `k` objects.
pub open spec fn mark_objs(m: Map<int, ContextKind>, objs: Vec<Spanned<Term>>, k: int) -> Map<int, ContextKind>
    decreases objs, k,
{
    if k <= 0 || k > objs@.len() {
        m
    } else {
        mark_term(mark_objs(m, objs, k - 1), objs@[k - 1].0, ContextKind::Object)
    }
}

/// The roles `m` after recording each triple in order: its subject, then
/// its property list.
pub open spec fn mark_triples(m: Map<int, ContextKind>, ts: Seq<Spanned<Triple>>) -> Map<int, ContextKind>
    decreases ts.len(),
{
    if ts.len() == 0 {
        m
    } else {
        let t = ts.last().0;
        mark_pos(mark_term(mark_triples(m, ts.drop_last()), t.subject.0, ContextKind::Subject), t.po, t.po@.len() as int)
    }
}

impl Term {
    /// Records the tokens of the term with the role `kind`, and those of the
    /// property list of a `[ ... ]` node with their own roles.
    pub fn set_context(&self, ctx: &mut Context, kind: ContextKind)
        ensures
            final(ctx).roles() == mark_term(old(ctx).roles(), *self, kind),
        decreases self, 0nat,
    {
        match self {
            Term::Literal(Literal::RDF(RDFLiteral { idx, len, .. })) => {
                let mut k: usize = 0;
                while k < *len && *idx < usize::MAX - k
                    invariant
                        k <= *len,
                        *idx + k <= usize::MAX,
                        ctx.roles() == mark_range(old(ctx).roles(), *idx as int, k as int, kind),
                    decreases *len - k,
                {
                    ctx.add(*idx + k, kind);
                    assert(ctx.roles() =~= mark_range(old(ctx).roles(), *idx as int, k as int + 1, kind));
                    k += 1;
                }
                assert(ctx.roles() =~= mark_range(old(ctx).roles(), *idx as int, *len as int, kind));
            },
            Term::BlankNode(BlankNode::Unnamed(pos, start, end)) => {
                ctx.add(*start, kind);
                ctx.add(*end, kind);
                set_context_pos(pos, ctx);
            },
            Term::BlankNode(BlankNode::Named(_, idx)) => ctx.add(*idx, kind),
            Term::Variable(Variable(_, idx)) => ctx.add(*idx, kind),
            Term::NamedNode(NamedNode::Full(_, idx)) => ctx.add(*idx, kind),
            Term::NamedNode(NamedNode::A(idx)) => ctx.add(*idx, kind),
            Term::NamedNode(NamedNode::Prefixed { idx, .. }) => ctx.add(*idx, kind),
            _ => {},
        }
    }
}

fn set_context_pos(pos: &Vec<Spanned<PO>>, ctx: &mut Context)
    ensures
        final(ctx).roles() == mark_pos(old(ctx).roles(), *pos, pos@.len() as int),
    decreases pos, 1nat,
{
    let mut i: usize = 0;
    while i < pos.len()
        invariant
            i <= pos.len(),
            ctx.roles() == mark_pos(old(ctx).roles(), *pos, i as int),
        decreases pos.len() - i,
    {
        proof {
            vstd::std_specs::vec::axiom_vec_index_decreases(*pos, i as int);
        }
        pos[i].0.set_context(ctx);
        i += 1;
    }
}

impl PO {
    /// Records the predicate with its role and every object with its role.
    pub fn set_context(&self, ctx: &mut Context)
        ensures
            final(ctx).roles() == mark_objs(
                mark_term(old(ctx).roles(), self.predicate.0, ContextKind::Predicate),
                self.object,
                self.object@.len() as int,
            ),
        decreases self, 0nat,
    {
        self.predicate.0.set_context(ctx, ContextKind::Predicate);
        let ghost m1 = ctx.roles();
        let mut j: usize = 0;
        while j < self.object.len()
            invariant
                j <= self.object.len(),
                ctx.roles() == mark_objs(m1, self.object, j as int),
            decreases self.object.len() - j,
        {
            proof {
                vstd::std_specs::vec::axiom_vec_index_decreases(self.object, j as int);
            }
            self.object[j].0.set_context(ctx, ContextKind::Object);
            j += 1;
        }
    }
}

impl Triple {
    pub fn set_context(&self, ctx: &mut Context)
        ensures
            final(ctx).roles() == mark_pos(
                mark_term(old(ctx).roles(), self.subject.0, ContextKind::Subject),
                self.po,
                self.po@.len() as int,
            ),
    {
        self.subject.0.set_context(ctx, ContextKind::Subject);
        set_context_pos(&self.po, ctx);
    }
}

impl Turtle {
    /// Records the roles of the tokens of every triple.
    pub fn set_context(&self, ctx: &mut Context)
        ensures
            final(ctx).roles() == mark_triples(old(ctx).roles(), self.triples@),
    {
        let mut i: usize = 0;
        while i < self.triples.len()
            invariant
                i <= self.triples.len(),
                ctx.roles() == mark_triples(old(ctx).roles(), self.triples@.take(i as int)),
            decreases self.triples.len() - i,
        {
            self.triples[i].0.set_context(ctx);
            assert(self.triples@.take(i as int + 1).drop_last() =~= self.triples@.take(i as int));
            assert(self.triples@.take(i as int + 1).last() == self.triples@[i as int]);
            i += 1;
        }
        assert(self.triples@.take(i as int) =~= self.triples@);
    }
}

/// What a document keeps from one parse to the next: the tokens of the
/// last parse and the roles of their tokens.
pub struct DocumentState {
    pub tokens: Vec<String>,
    pub context: Context,
}

impl DocumentState {
    pub fn new() -> (r: DocumentState)
        ensures
            r.tokens@.len() == 0,
            forall|i: int| r.context.role(i) is None,
    {
        DocumentState { tokens: Vec::new(), context: Context::new() }
    }

    /// Takes in the result of parsing `tokens` into `doc`. After a clean
    /// parse the roles are those of `doc` alone; after a failed one the
    /// roles of the last good parse are carried over the edit. Either way
    /// `tokens` become the previous tokens of the next edit.
    pub fn update(&mut self, tokens: Vec<String>, doc: &Turtle, parsed_cleanly: bool)
        ensures
            final(self).tokens == tokens,
            !parsed_cleanly ==> forall|j: int| #[trigger] final(self).context.role(j) == old(self).context.carried(
                tokens@.len() as int,
                old(self).tokens@.len() as int,
                kept_prefix(views(tokens@), views(old(self).tokens@)) as int,
                kept_suffix(views(tokens@), views(old(self).tokens@)) as int,
                j,
            ),
            parsed_cleanly ==> final(self).context.roles() == mark_triples(Map::empty(), doc.triples@),
    {
        if parsed_cleanly {
            self.context.clear();
            doc.set_context(&mut self.context);
        } else {
            self.context.setup_current_to_prev(&tokens, &self.tokens);
        }
        self.tokens = tokens;
    }
}

} // verus!
