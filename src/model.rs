use crate::span::{Span, Spanned};
use vstd::prelude::*;

verus! {

/// A query variable: its name and the index of its token.
#[derive(Clone, Debug, PartialEq, Eq)]
pub struct Variable(pub String, pub usize);

/// How a string literal was quoted.
#[derive(Clone, Copy, Debug, PartialEq, Eq, Structural)]
pub enum StringStyle {
    DoubleLong,
    Double,
    SingleLong,
    Single,
}

#[derive(Clone, Debug, PartialEq, Eq)]
pub enum Literal {
    RDF(RDFLiteral),
    Boolean(bool),
    Numeric(String),
}

/// A quoted literal; `idx` and `len` give the range of its tokens.
#[derive(Clone, Debug, PartialEq, Eq)]
pub struct RDFLiteral {
    pub value: String,
    pub quote_style: StringStyle,
    pub lang: Option<String>,
    pub ty: Option<NamedNode>,
    pub idx: usize,
    pub len: usize,
}

#[derive(Clone, Debug, PartialEq, Eq)]
pub enum NamedNode {
    Full(String, usize),
    Prefixed { prefix: String, value: String, idx: usize },
    A(usize),
    Invalid,
}

#[derive(Debug, PartialEq, Eq)]
pub enum BlankNode {
    Named(String, usize),
    /// A `[ ... ]` node: its property list and the tokens that open and close it.
    Unnamed(Vec<Spanned<PO>>, usize, usize),
    Invalid,
}

#[derive(Debug, PartialEq, Eq)]
pub enum Term {
    Literal(Literal),
    BlankNode(BlankNode),
    NamedNode(NamedNode),
    Collection(Vec<Spanned<Term>>),
    Variable(Variable),
    Invalid,
}

/// A subject with its predicate-object lists.
#[derive(Debug, PartialEq, Eq)]
pub struct Triple {
    pub subject: Spanned<Term>,
    pub po: Vec<Spanned<PO>>,
}

/// A predicate with its objects.
#[derive(Debug, PartialEq, Eq)]
pub struct PO {
    pub predicate: Spanned<Term>,
    pub object: Vec<Spanned<Term>>,
}

/// A base declaration: the span of the whole statement and its IRI.
#[derive(Clone, Debug, PartialEq, Eq)]
pub struct Base(pub Span, pub Spanned<NamedNode>);

#[derive(Clone, Debug, PartialEq, Eq)]
pub struct TurtlePrefix {
    pub span: Span,
    pub prefix: Spanned<String>,
    pub value: Spanned<NamedNode>,
}

/// A parsed document. `set_base` is the location of the document, against
/// which relative IRIs are resolved when no base is declared.
#[derive(Debug, PartialEq, Eq)]
pub struct Turtle {
    pub base: Option<Spanned<Base>>,
    pub set_base: String,
    pub prefixes: Vec<Spanned<TurtlePrefix>>,
    pub triples: Vec<Spanned<Triple>>,
}

pub open spec fn literal_text(l: Literal) -> Seq<char> {
    match l {
        Literal::RDF(r) => r.value@,
        Literal::Boolean(b) => if b { "true"@ } else { "false"@ },
        Literal::Numeric(n) => n@,
    }
}

pub open spec fn quote_of(q: StringStyle) -> Seq<char> {
    match q {
        StringStyle::DoubleLong => "\"\"\""@,
        StringStyle::Double => "\""@,
        StringStyle::SingleLong => "'''"@,
        StringStyle::Single => "'"@,
    }
}

/// How a named node is written in Turtle.
pub open spec fn named_node_text(nn: NamedNode) -> Seq<char> {
    match nn {
        NamedNode::Full(x, _) => "<"@ + x@ + ">"@,
        NamedNode::Prefixed { prefix, value, .. } => prefix@ + ":"@ + value@,
        NamedNode::A(_) => "a"@,
        NamedNode::Invalid => "invalid"@,
    }
}

/// How a quoted literal is written in Turtle.
pub open spec fn rdf_literal_text(l: RDFLiteral) -> Seq<char> {
    let q = quote_of(l.quote_style);
    let body = q + l.value@ + q;
    let with_lang = match l.lang {
        Some(lang) => body + "@"@ + lang@,
        None => body,
    };
    match l.ty {
        Some(t) => with_lang + "^^"@ + named_node_text(t),
        None => with_lang,
    }
}

impl NamedNode {
    /// The node as written in Turtle: `<iri>`, `prefix:local` or `a`.
    pub fn to_text(&self) -> (r: String)
        ensures
            r@ == named_node_text(*self),
    {
        match self {
            NamedNode::Full(x, _) => {
                let mut out = "<".to_string();
                out.append(x.as_str());
                out.append(">");
                out
            },
            NamedNode::Prefixed { prefix, value, .. } => {
                let mut out = prefix.clone();
                out.append(":");
                out.append(value.as_str());
                out
            },
            NamedNode::A(_) => "a".to_string(),
            NamedNode::Invalid => "invalid".to_string(),
        }
    }
}

impl StringStyle {
    pub fn quote(&self) -> (r: &'static str)
        ensures
            r@ == quote_of(*self),
    {
        match self {
            StringStyle::DoubleLong => "\"\"\"",
            StringStyle::Double => "\"",
            StringStyle::SingleLong => "'''",
            StringStyle::Single => "'",
        }
    }
}

impl RDFLiteral {
    /// The literal as written in Turtle, with its quotes, language and datatype.
    pub fn to_text(&self) -> (r: String)
        ensures
            r@ == rdf_literal_text(*self),
    {
        let q = self.quote_style.quote();
        let mut out = q.to_string();
        out.append(self.value.as_str());
        out.append(q);
        match &self.lang {
            Some(l) => {
                out.append("@");
                out.append(l.as_str());
            },
            None => {},
        }
        match &self.ty {
            Some(t) => {
                out.append("^^");
                let tt = t.to_text();
                out.append(tt.as_str());
            },
            None => {},
        }
        out
    }

    pub fn plain_string(&self) -> (r: String)
        ensures
            r@ == self.value@,
    {
        self.value.clone()
    }
}

impl Literal {
    /// The lexical text of the literal, without quotes or annotations.
    pub fn plain_string(&self) -> (r: String)
        ensures
            r@ == literal_text(*self),
    {
        match self {
            Literal::RDF(s) => s.plain_string(),
            Literal::Boolean(x) => if *x {
                "true".to_string()
            } else {
                "false".to_string()
            },
            Literal::Numeric(x) => x.clone(),
        }
    }
}

impl Term {
    pub open spec fn spec_is_subject(self) -> bool {
        match self {
            Term::Literal(_) => false,
            Term::NamedNode(NamedNode::A(_)) => false,
            _ => true,
        }
    }

    pub open spec fn spec_is_predicate(self) -> bool {
        match self {
            Term::NamedNode(_) | Term::Variable(_) | Term::Invalid => true,
            _ => false,
        }
    }

    pub open spec fn spec_is_object(self) -> bool {
        match self {
            Term::NamedNode(NamedNode::A(_)) => false,
            _ => true,
        }
    }

    pub fn named_node(&self) -> (r: Option<&NamedNode>)
        ensures
            r == (match *self {
                Term::NamedNode(nn) => Some(&nn),
                _ => None,
            }),
    {
        match self {
            Term::NamedNode(nn) => Some(nn),
            _ => None,
        }
    }

    /// Whether the term may stand as a subject: all but literals and the `a` keyword.
    pub fn is_subject(&self) -> (r: bool)
        ensures
            r == self.spec_is_subject(),
    {
        match self {
            Term::BlankNode(_) => true,
            Term::Variable(_) => true,
            Term::NamedNode(NamedNode::A(_)) => false,
            Term::NamedNode(_) => true,
            Term::Invalid => true,
            Term::Collection(_) => true,
            _ => false,
        }
    }

    /// Whether the term may stand as a predicate: named nodes, variables and invalid terms.
    pub fn is_predicate(&self) -> (r: bool)
        ensures
            r == self.spec_is_predicate(),
    {
        match self {
            Term::NamedNode(_) => true,
            Term::Variable(_) => true,
            Term::Invalid => true,
            _ => false,
        }
    }

    /// Whether the term may stand as an object: all but the `a` keyword.
    pub fn is_object(&self) -> (r: bool)
        ensures
            r == self.spec_is_object(),
    {
        match self {
            Term::NamedNode(NamedNode::A(_)) => false,
            _ => true,
        }
    }

    pub fn is_variable(&self) -> (r: bool)
        ensures
            r == (self is Variable || self is Invalid),
    {
        match self {
            Term::Variable(_) => true,
            Term::Invalid => true,
            _ => false,
        }
    }

    /// A stable name of the variant, for diagnostics.
    pub fn ty(&self) -> (r: &'static str)
        ensures
            r@ == (match *self {
                Term::Literal(_) => "literal"@,
                Term::BlankNode(_) => "blank node"@,
                Term::NamedNode(_) => "named node"@,
                Term::Collection(_) => "collection"@,
                Term::Invalid => "invalid"@,
                Term::Variable(_) => "variable"@,
            }),
    {
        match self {
            Term::Literal(_) => "literal",
            Term::BlankNode(_) => "blank node",
            Term::NamedNode(_) => "named node",
            Term::Collection(_) => "collection",
            Term::Invalid => "invalid",
            Term::Variable(_) => "variable",
        }
    }
}

} // verus!
