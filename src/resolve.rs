use crate::model::{Base, NamedNode, Term, Triple, Turtle, TurtlePrefix};
use crate::span::Spanned;
use vstd::prelude::*;
use vstd::string::StrSliceExecFns;

verus! {

pub open spec fn rdf_type_iri() -> Seq<char> {
    "http://www.w3.org/1999/02/22-rdf-syntax-ns#type"@
}

pub open spec fn decl_name(p: Spanned<TurtlePrefix>) -> Seq<char> {
    p.0.prefix.0@
}

/// The index of the first declaration of `name`, if any.
pub open spec fn first_decl(ps: Seq<Spanned<TurtlePrefix>>, name: Seq<char>) -> Option<int>
    decreases ps.len(),
{
    if ps.len() == 0 {
        None
    } else {
        match first_decl(ps.drop_last(), name) {
            Some(i) => Some(i),
            None => if decl_name(ps.last()) == name {
                Some(ps.len() - 1)
            } else {
                None
            },
        }
    }
}

/// How many declarations have a name that is not among `done`.
pub open spec fn open_count(ps: Seq<Spanned<TurtlePrefix>>, done: Seq<Seq<char>>) -> nat
    decreases ps.len(),
{
    if ps.len() == 0 {
        0
    } else {
        open_count(ps.drop_last(), done) + if done.contains(decl_name(ps.last())) {
            0nat
        } else {
            1nat
        }
    }
}

/// The text of a named node with every prefix replaced by its declared
/// value, first declaration first. A prefix met again while it is being
/// expanded (one in `done`) makes the expansion fail.
pub open spec fn expand_from(
    nn: NamedNode,
    ps: Seq<Spanned<TurtlePrefix>>,
    done: Seq<Seq<char>>,
) -> Option<Seq<char>>
    decreases open_count(ps, done),
    via expand_from_decreases
{
    match nn {
        NamedNode::Full(s, _) => Some(s@),
        NamedNode::Prefixed { prefix, value, idx: _ } => {
            if done.contains(prefix@) {
                None
            } else {
                match first_decl(ps, prefix@) {
                    None => None,
                    Some(i) => if 0 <= i < ps.len() {
                        match expand_from(ps[i].0.value.0, ps, done.push(prefix@)) {
                            Some(e) => Some(e + value@),
                            None => None,
                        }
                    } else {
                        None
                    },
                }
            }
        },
        NamedNode::A(_) => Some(rdf_type_iri()),
        NamedNode::Invalid => None,
    }
}

pub proof fn lemma_first_decl(ps: Seq<Spanned<TurtlePrefix>>, name: Seq<char>)
    ensures
        first_decl(ps, name) matches Some(i) ==> 0 <= i < ps.len() && decl_name(ps[i]) == name
            && forall|j: int| 0 <= j < i ==> decl_name(#[trigger] ps[j]) != name,
        first_decl(ps, name) is None ==> forall|j: int|
            0 <= j < ps.len() ==> decl_name(#[trigger] ps[j]) != name,
    decreases ps.len(),
{
    if ps.len() > 0 {
        lemma_first_decl(ps.drop_last(), name);
        assert forall|j: int| 0 <= j < ps.len() - 1 implies ps.drop_last()[j] == ps[j] by {}
    }
}

pub proof fn lemma_open_count_push(ps: Seq<Spanned<TurtlePrefix>>, done: Seq<Seq<char>>, n: Seq<char>, i: int)
    requires
        0 <= i < ps.len(),
        decl_name(ps[i]) == n,
        !done.contains(n),
    ensures
        open_count(ps, done.push(n)) < open_count(ps, done),
    decreases ps.len(),
{
    lemma_open_count_le(ps.drop_last(), done, n);
    if i < ps.len() - 1 {
        lemma_open_count_push(ps.drop_last(), done, n, i);
    }
    assert(done.push(n)[done.len() as int] == n);
    assert(done.push(n).contains(n));
    assert forall|x: Seq<char>| done.contains(x) implies done.push(n).contains(x) by {
        let k = choose|k: int| 0 <= k < done.len() && done[k] == x;
        assert(done.push(n)[k] == x);
    }
}

pub proof fn lemma_open_count_le(ps: Seq<Spanned<TurtlePrefix>>, done: Seq<Seq<char>>, n: Seq<char>)
    ensures
        open_count(ps, done.push(n)) <= open_count(ps, done),
    decreases ps.len(),
{
    if ps.len() > 0 {
        lemma_open_count_le(ps.drop_last(), done, n);
        let x = decl_name(ps.last());
        if done.contains(x) {
            let k = choose|k: int| 0 <= k < done.len() && done[k] == x;
            assert(done.push(n)[k] == x);
        }
    }
}

#[via_fn]
proof fn expand_from_decreases(nn: NamedNode, ps: Seq<Spanned<TurtlePrefix>>, done: Seq<Seq<char>>) {
    match nn {
        NamedNode::Prefixed { prefix, value, idx: _ } => {
            if !done.contains(prefix@) {
                if let Some(i) = first_decl(ps, prefix@) {
                    if 0 <= i < ps.len() {
                        lemma_first_decl(ps, prefix@);
                        lemma_open_count_push(ps, done, prefix@, i);
                    }
                }
            }
        },
        _ => {},
    }
}

pub open spec fn views(v: Seq<String>) -> Seq<Seq<char>> {
    v.map_values(|s: String| s@)
}

/// The first declaration of `name` in `ps`, if any.
pub fn find_prefix<'a>(ps: &'a Vec<Spanned<TurtlePrefix>>, name: &String) -> (r: Option<&'a TurtlePrefix>)
    ensures
        match first_decl(ps@, name@) {
            Some(i) => r == Some(&ps@[i].0),
            None => r is None,
        },
{
    let mut i: usize = 0;
    while i < ps.len()
        invariant
            i <= ps.len(),
            first_decl(ps@.take(i as int), name@) is None,
        decreases ps.len() - i,
    {
        assert(ps@.take(i as int + 1).drop_last() =~= ps@.take(i as int));
        if ps[i].0.prefix.0 == *name {
            assert(ps@.take(i as int + 1).last() == ps@[i as int]);
            proof { lemma_first_take(ps@, name@, i as int); }
            return Some(&ps[i].0);
        }
        i += 1;
    }
    assert(ps@.take(i as int) =~= ps@);
    None
}

proof fn lemma_first_take(ps: Seq<Spanned<TurtlePrefix>>, name: Seq<char>, i: int)
    requires
        0 <= i < ps.len(),
        first_decl(ps.take(i + 1), name) == Some(i),
    ensures
        first_decl(ps, name) == Some(i),
    decreases ps.len(),
{
    if ps.len() > i + 1 {
        assert(ps.drop_last().take(i + 1) =~= ps.take(i + 1));
        lemma_first_take(ps.drop_last(), name, i);
    } else {
        assert(ps.take(i + 1) =~= ps);
    }
}

fn contains_name(done: &Vec<String>, name: &String) -> (r: bool)
    ensures
        r == views(done@).contains(name@),
{
    let mut i: usize = 0;
    while i < done.len()
        invariant
            i <= done.len(),
            forall|j: int| 0 <= j < i ==> done@[j]@ != name@,
        decreases done.len() - i,
    {
        if done[i] == *name {
            assert(views(done@)[i as int] == name@);
            return true;
        }
        i += 1;
    }
    assert forall|k: int| 0 <= k < views(done@).len() implies views(done@)[k] != name@ by {
        assert(views(done@)[k] == done@[k]@);
    }
    false
}

impl NamedNode {
    /// Expands prefixes in the named node; `done` holds the prefixes that
    /// are being expanded already, met again they fail the expansion.
    pub fn expand_step(&self, turtle: &Turtle, done: Vec<String>) -> (r: Option<String>)
        ensures
            r matches Some(s) ==> expand_from(*self, turtle.prefixes@, views(done@)) == Some(s@),
            r is None ==> expand_from(*self, turtle.prefixes@, views(done@)) is None,
        decreases open_count(turtle.prefixes@, views(done@)),
    {
        match self {
            NamedNode::Full(s, _) => Some(s.clone()),
            NamedNode::Prefixed { prefix, value, idx: _ } => {
                if contains_name(&done, prefix) {
                    return None;
                }
                let mut done = done;
                let ghost old_done = views(done@);
                done.push(prefix.clone());
                assert(views(done@) =~= old_done.push(prefix@));
                let decl = find_prefix(&turtle.prefixes, prefix);
                match decl {
                    None => None,
                    Some(decl) => {
                        proof {
                            lemma_first_decl(turtle.prefixes@, prefix@);
                            let i = first_decl(turtle.prefixes@, prefix@)->Some_0;
                            lemma_open_count_push(turtle.prefixes@, old_done, prefix@, i);
                        }
                        match decl.value.0.expand_step(turtle, done) {
                            None => None,
                            Some(e) => {
                                let mut e = e;
                                e.append(value.as_str());
                                Some(e)
                            },
                        }
                    },
                }
            },
            NamedNode::A(_) => Some("http://www.w3.org/1999/02/22-rdf-syntax-ns#type".to_string()),
            NamedNode::Invalid => None,
        }
    }
}

/// The URL that `rel` denotes against the URL `base`, if both are well formed.
pub uninterp spec fn url_join(base: Seq<char>, rel: Seq<char>) -> Option<Seq<char>>;

/// Relies on `Url::parse` and `Url::join` of the url crate, as lsp_types
/// exports them, and on the URL's serialisation.
#[verifier::external_body]
fn join_url(base: &str, rel: &str) -> (r: Option<String>)
    ensures
        r matches Some(s) ==> url_join(base@, rel@) == Some(s@),
        r is None ==> url_join(base@, rel@) is None,
{
    lsp_types::Url::parse(base).ok()?.join(rel).ok().map(|u| u.to_string())
}

/// The absolute form of a named node: its expansion joined to the
/// document's location.
pub open spec fn absolute(nn: NamedNode, doc: Turtle) -> Option<Seq<char>> {
    match expand_from(nn, doc.prefixes@, Seq::empty()) {
        Some(e) => url_join(doc.set_base@, e),
        None => None,
    }
}

impl NamedNode {
    /// Expands the named node and joins it to the document's location.
    pub fn expand(&self, turtle: &Turtle) -> (r: Option<String>)
        ensures
            r matches Some(s) ==> absolute(*self, *turtle) == Some(s@),
            r is None ==> absolute(*self, *turtle) is None,
    {
        let done: Vec<String> = Vec::new();
        assert(views(done@) =~= Seq::<Seq<char>>::empty());
        match self.expand_step(turtle, done) {
            Some(out) => join_url(turtle.set_base.as_str(), out.as_str()),
            None => None,
        }
    }
}

impl Term {
    /// The absolute form of a named node; no result for other terms.
    pub fn expand(&self, turtle: &Turtle) -> (r: Option<String>)
        ensures
            match *self {
                Term::NamedNode(nn) => match absolute(nn, *turtle) {
                    Some(a) => r matches Some(s) && s@ == a,
                    None => r is None,
                },
                _ => r is None,
            },
    {
        match self.named_node() {
            Some(nn) => nn.expand(turtle),
            None => None,
        }
    }

    pub fn expand_step(&self, turtle: &Turtle, done: Vec<String>) -> (r: Option<String>)
        ensures
            match *self {
                Term::NamedNode(nn) => match expand_from(nn, turtle.prefixes@, views(done@)) {
                    Some(e) => r matches Some(s) && s@ == e,
                    None => r is None,
                },
                _ => r is None,
            },
    {
        match self.named_node() {
            Some(nn) => nn.expand_step(turtle, done),
            None => None,
        }
    }
}

impl Base {
    /// Joins a relative base to the document's location; a base that does
    /// not join, or is not a full IRI, stays as it is.
    pub fn resolve_location(&mut self, location: &str)
        ensures
            final(self).0 == old(self).0,
            final(self).1.1 == old(self).1.1,
            match old(self).1.0 {
                NamedNode::Full(s, i) => match url_join(location@, s@) {
                    Some(j) => final(self).1.0 matches NamedNode::Full(t, k) && t@ == j && k == i,
                    None => final(self).1.0 == old(self).1.0,
                },
                _ => final(self).1.0 == old(self).1.0,
            },
    {
        match &self.1.0 {
            NamedNode::Full(s, i) => {
                let i = *i;
                match join_url(location, s.as_str()) {
                    Some(ns) => {
                        self.1.0 = NamedNode::Full(ns, i);
                    },
                    None => {},
                }
            },
            _ => {},
        }
    }
}

impl Turtle {
    /// A document at `location`; a declared base is joined to the location
    /// at once.
    pub fn new(
        base: Option<Spanned<Base>>,
        prefixes: Vec<Spanned<TurtlePrefix>>,
        triples: Vec<Spanned<Triple>>,
        location: &str,
    ) -> (r: Turtle)
        ensures
            r.set_base@ == location@,
            r.prefixes == prefixes,
            r.triples == triples,
            r.base is Some == base is Some,
            base matches Some(b) ==> r.base matches Some(rb) && rb.1 == b.1 && rb.0.0 == b.0.0
                && match b.0.1.0 {
                    NamedNode::Full(s, i) => match url_join(location@, s@) {
                        Some(j) => rb.0.1.0 matches NamedNode::Full(t, k) && t@ == j && k == i,
                        None => rb.0.1.0 == b.0.1.0,
                    },
                    _ => rb.0.1.0 == b.0.1.0,
                },
    {
        let base = match base {
            Some(b) => {
                let mut b = b;
                b.0.resolve_location(location);
                Some(b)
            },
            None => None,
        };
        Turtle { base, set_base: location.to_string(), prefixes, triples }
    }

    /// An empty document at `location`.
    pub fn empty(location: &str) -> (r: Turtle)
        ensures
            r.set_base@ == location@,
            r.base is None,
            r.prefixes@.len() == 0,
            r.triples@.len() == 0,
    {
        Turtle::new(None, Vec::new(), Vec::new(), location)
    }

    pub fn get_base(&self) -> (r: &String)
        ensures
            r == &self.set_base,
    {
        &self.set_base
    }
}

/// The prefix table of `ps`: each declared name whose value has an
/// absolute form, with that form, in declaration order.
pub open spec fn table_of(ps: Seq<Spanned<TurtlePrefix>>, doc: Turtle) -> Seq<(Seq<char>, Seq<char>)>
    decreases ps.len(),
{
    if ps.len() == 0 {
        Seq::empty()
    } else {
        let rest = table_of(ps.drop_last(), doc);
        match absolute(ps.last().0.value.0, doc) {
            Some(u) => rest.push((decl_name(ps.last()), u)),
            None => rest,
        }
    }
}

pub open spec fn pair_views(v: Seq<(String, String)>) -> Seq<(Seq<char>, Seq<char>)> {
    v.map_values(|p: (String, String)| (p.0@, p.1@))
}

impl Turtle {
    /// The declared prefixes that expand, each with its absolute IRI.
    pub fn prefix_table(&self) -> (r: Vec<(String, String)>)
        ensures
            pair_views(r@) == table_of(self.prefixes@, *self),
    {
        let mut out: Vec<(String, String)> = Vec::new();
        let mut i: usize = 0;
        while i < self.prefixes.len()
            invariant
                i <= self.prefixes.len(),
                pair_views(out@) == table_of(self.prefixes@.take(i as int), *self),
            decreases self.prefixes.len() - i,
        {
            let p = &self.prefixes[i].0;
            assert(self.prefixes@.take(i as int + 1).drop_last() =~= self.prefixes@.take(i as int));
            assert(self.prefixes@.take(i as int + 1).last() == self.prefixes@[i as int]);
            match p.value.0.expand(self) {
                Some(url) => {
                    let ghost before = out@;
                    out.push((p.prefix.0.clone(), url));
                    assert(pair_views(out@) =~= pair_views(before).push((p.prefix.0@, pair_views(out@).last().1)));
                },
                None => {},
            }
            i += 1;
        }
        assert(self.prefixes@.take(i as int) =~= self.prefixes@);
        out
    }
}

/// The short form of `url` under the declarations from `i` on: the first
/// prefix whose absolute form begins `url`, with the rest of `url` after
/// the colon.
pub open spec fn shorten_from(ps: Seq<Spanned<TurtlePrefix>>, doc: Turtle, url: Seq<char>, i: int) -> Option<Seq<char>>
    decreases ps.len() - i,
{
    if i < 0 || i >= ps.len() {
        None
    } else {
        match absolute(ps[i].0.value.0, doc) {
            Some(p) => if p.is_prefix_of(url) {
                Some(decl_name(ps[i]) + ":"@ + url.subrange(p.len() as int, url.len() as int))
            } else {
                shorten_from(ps, doc, url, i + 1)
            },
            None => shorten_from(ps, doc, url, i + 1),
        }
    }
}

fn starts_with(s: &str, p: &str) -> (r: bool)
    ensures
        r == p@.is_prefix_of(s@),
{
    let n = s.unicode_len();
    let m = p.unicode_len();
    if m > n {
        return false;
    }
    let mut i: usize = 0;
    while i < m
        invariant
            m <= n,
            n == s@.len(),
            m == p@.len(),
            i <= m,
            forall|k: int| 0 <= k < i ==> p@[k] == s@[k],
        decreases m - i,
    {
        if s.get_char(i) != p.get_char(i) {
            return false;
        }
        i += 1;
    }
    true
}

impl Turtle {
    /// Writes `url` as `prefix:local` with the first declared prefix whose
    /// absolute form begins it.
    pub fn shorten(&self, url: &str) -> (r: Option<String>)
        ensures
            match shorten_from(self.prefixes@, *self, url@, 0) {
                Some(t) => r matches Some(s) && s@ == t,
                None => r is None,
            },
    {
        let mut i: usize = 0;
        while i < self.prefixes.len()
            invariant
                i <= self.prefixes.len(),
                shorten_from(self.prefixes@, *self, url@, 0) == shorten_from(self.prefixes@, *self, url@, i as int),
            decreases self.prefixes.len() - i,
        {
            let p = &self.prefixes[i].0;
            match p.value.0.expand(self) {
                Some(prefix_url) => {
                    if starts_with(url, prefix_url.as_str()) {
                        let plen = prefix_url.as_str().unicode_len();
                        let ulen = url.unicode_len();
                        let rest = url.substring_char(plen, ulen);
                        let mut out = p.prefix.0.clone();
                        out.append(":");
                        out.append(rest);
                        return Some(out);
                    }
                },
                None => {},
            }
            i += 1;
        }
        None
    }
}

/// Two prefixes declared each through the other never expand: a name under
/// either fails, whatever its local part, and the expansion ends.
pub proof fn lemma_prefix_cycle_fails(
    ps: Seq<Spanned<TurtlePrefix>>,
    a: Seq<char>,
    b: Seq<char>,
    nn: NamedNode,
)
    requires
        first_decl(ps, a) matches Some(i) && ps[i].0.value.0 matches NamedNode::Prefixed { prefix, .. } && prefix@ == b,
        first_decl(ps, b) matches Some(j) && ps[j].0.value.0 matches NamedNode::Prefixed { prefix, .. } && prefix@ == a,
        nn matches NamedNode::Prefixed { prefix, .. } && (prefix@ == a || prefix@ == b),
    ensures
        expand_from(nn, ps, Seq::empty()) is None,
{
    lemma_first_decl(ps, a);
    lemma_first_decl(ps, b);
    let i = first_decl(ps, a)->Some_0;
    let j = first_decl(ps, b)->Some_0;
    let e: Seq<Seq<char>> = Seq::empty();
    let (x, y, k, l) = if nn->prefix@ == a { (a, b, i, j) } else { (b, a, j, i) };
    let d1 = e.push(x);
    let d2 = d1.push(y);
    assert(d2[0] == x);
    assert(d2.contains(x));
    if x != y {
        assert(d1[0] == x);
        assert(!e.contains(x));
        assert(!d1.contains(y));
        assert(expand_from(ps[l].0.value.0, ps, d2) is None);
        assert(expand_from(ps[k].0.value.0, ps, d1) is None);
    } else {
        assert(d1.contains(x));
        assert(expand_from(ps[k].0.value.0, ps, d1) is None);
    }
}

/// Expansion never recurses more times than there are declarations: each
/// step visits a declared name not visited before, and `open_count`, which
/// each step lowers, is at most the number of declarations.
pub proof fn lemma_expansion_depth(ps: Seq<Spanned<TurtlePrefix>>, done: Seq<Seq<char>>)
    ensures
        open_count(ps, done) <= ps.len(),
    decreases ps.len(),
{
    if ps.len() > 0 {
        lemma_expansion_depth(ps.drop_last(), done);
    }
}

/// A name under a prefix that the document does not declare fails to expand.
pub proof fn lemma_undeclared_prefix(nn: NamedNode, ps: Seq<Spanned<TurtlePrefix>>)
    requires
        nn matches NamedNode::Prefixed { prefix, .. } && first_decl(ps, prefix@) is None,
    ensures
        expand_from(nn, ps, Seq::empty()) is None,
{
}

} // verus!
