use std::collections::HashSet;

use rdf_lang_core::context::{Context, ContextKind, DocumentState};
use rdf_lang_core::lower::{MyQuad, MyTerm, TriplesBuilder, TurtleSimpleError, Value};
use rdf_lang_core::model::{
    Base, BlankNode, Literal, NamedNode, RDFLiteral, StringStyle, Term, Triple, Turtle,
    TurtlePrefix, Variable, PO,
};
use rdf_lang_core::span::{rev_range, Span, Spanned};

fn sp<T>(t: T, start: usize, end: usize) -> Spanned<T> {
    Spanned(t, Span { start, end })
}

fn full(s: &str, idx: usize) -> Term {
    Term::NamedNode(NamedNode::Full(s.to_string(), idx))
}

fn pname(prefix: &str, value: &str, idx: usize) -> Term {
    Term::NamedNode(NamedNode::Prefixed { prefix: prefix.to_string(), value: value.to_string(), idx })
}

fn a(idx: usize) -> Term {
    Term::NamedNode(NamedNode::A(idx))
}

fn po(predicate: Term, objects: Vec<Term>) -> Spanned<PO> {
    sp(PO { predicate: sp(predicate, 0, 0), object: objects.into_iter().map(|o| sp(o, 0, 0)).collect() }, 0, 0)
}

fn triple(subject: Term, pos: Vec<Spanned<PO>>) -> Spanned<Triple> {
    sp(Triple { subject: sp(subject, 0, 0), po: pos }, 0, 0)
}

fn prefix(name: &str, value: NamedNode) -> Spanned<TurtlePrefix> {
    sp(TurtlePrefix { span: Span { start: 0, end: 0 }, prefix: sp(name.to_string(), 0, 0), value: sp(value, 0, 0) }, 0, 0)
}

fn std_prefixes() -> Vec<Spanned<TurtlePrefix>> {
    vec![
        prefix("rdf", NamedNode::Full("http://www.w3.org/1999/02/22-rdf-syntax-ns#".to_string(), 0)),
        prefix("foaf", NamedNode::Full("http://xmlns.com/foaf/0.1/".to_string(), 0)),
    ]
}

fn unnamed(pos: Vec<Spanned<PO>>) -> Term {
    Term::BlankNode(BlankNode::Unnamed(pos, 0, 0))
}

fn show(t: &MyTerm) -> String {
    match &t.value {
        Value::Named(s) => format!("<{}>", s),
        Value::Blank(s) => format!("_:{}", s),
        Value::Fresh(n) => format!("_:internal_bnode_{}", n),
        Value::Literal(s) => format!("\"{}\"", s),
        Value::Variable(s) => format!("?{}", s),
        Value::Invalid => "invalid".to_string(),
    }
}

fn show_quad(q: &MyQuad) -> String {
    format!("{} {} {}.", show(&q.subject), show(&q.predicate), show(&q.object))
}

const LOCATION: &str = "http://example.com/ns#";

#[test]
fn easy_triples() {
    // [] a foaf:Name; foaf:knows <abc>;.
    let doc = Turtle::new(
        None,
        std_prefixes(),
        vec![triple(unnamed(vec![]), vec![po(a(1), vec![pname("foaf", "Name", 2)]), po(pname("foaf", "knows", 4), vec![full("abc", 5)])])],
        LOCATION,
    );
    let triples = doc.get_simple_triples().expect("Triples found");
    assert_eq!(triples.triples.len(), 3);
}

#[test]
fn easy_triples_2() {
    // [ foaf:knows <abc>; ] a foaf:Name; foaf:knows [ a foaf:Name; foaf:knows [ a foaf:Name; ] ].
    let inner = unnamed(vec![po(a(0), vec![pname("foaf", "Name", 0)])]);
    let middle = unnamed(vec![po(a(0), vec![pname("foaf", "Name", 0)]), po(pname("foaf", "knows", 0), vec![inner])]);
    let subject = unnamed(vec![po(pname("foaf", "knows", 0), vec![full("abc", 0)])]);
    let doc = Turtle::new(
        None,
        std_prefixes(),
        vec![triple(subject, vec![po(a(0), vec![pname("foaf", "Name", 0)]), po(pname("foaf", "knows", 0), vec![middle])])],
        LOCATION,
    );
    let triples = doc.get_simple_triples().expect("Triples found");
    assert_eq!(triples.triples.len(), 6);
}

#[test]
fn triples_collection() {
    // <e> <pred> (<a> <b> <c>).
    let collection = Term::Collection(vec![sp(full("a", 3), 3, 4), sp(full("b", 4), 4, 5), sp(full("c", 5), 5, 6)]);
    let doc = Turtle::new(None, vec![], vec![triple(full("e", 0), vec![po(full("pred", 1), vec![collection])])], LOCATION);
    let triples = doc.get_simple_triples().expect("Triples found");

    let quads: HashSet<String> = triples.triples.iter().map(show_quad).collect();
    let expected_quads: HashSet<String> = "<http://example.com/e> <http://example.com/pred> _:internal_bnode_3.
_:internal_bnode_3 <http://www.w3.org/1999/02/22-rdf-syntax-ns#rest> _:internal_bnode_2.
_:internal_bnode_3 <http://www.w3.org/1999/02/22-rdf-syntax-ns#first> <http://example.com/a>.
_:internal_bnode_2 <http://www.w3.org/1999/02/22-rdf-syntax-ns#rest> _:internal_bnode_1.
_:internal_bnode_2 <http://www.w3.org/1999/02/22-rdf-syntax-ns#first> <http://example.com/b>.
_:internal_bnode_1 <http://www.w3.org/1999/02/22-rdf-syntax-ns#rest> <http://www.w3.org/1999/02/22-rdf-syntax-ns#nil>.
_:internal_bnode_1 <http://www.w3.org/1999/02/22-rdf-syntax-ns#first> <http://example.com/c>."
        .split("\n")
        .map(|x| x.trim())
        .map(String::from)
        .collect();
    assert_eq!(quads, expected_quads);
    assert_eq!(triples.triples.len(), 7);
}

#[test]
fn owl_is_valid_2() {
    let prefixes = vec![
        prefix("dc", NamedNode::Full("http://purl.org/dc/elements/1.1/".to_string(), 0)),
        prefix("rdfs", NamedNode::Full("http://www.w3.org/2000/01/rdf-schema#".to_string(), 0)),
        prefix("owl", NamedNode::Full("http://www.w3.org/2002/07/owl#".to_string(), 0)),
        prefix("xsd", NamedNode::Full("http://www.w3.org/2001/XMLSchema#".to_string(), 0)),
        prefix("rdf", NamedNode::Full("http://www.w3.org/1999/02/22-rdf-syntax-ns#".to_string(), 0)),
        prefix("xml", NamedNode::Full("http://www.w3.org/XML/1998/namespace".to_string(), 0)),
        prefix("grddl", NamedNode::Full("http://www.w3.org/2003/g/data-view#".to_string(), 0)),
    ];
    let comment = Term::Literal(Literal::RDF(RDFLiteral {
        value: "\r\n  This ontology partially describes the built-in ".to_string(),
        quote_style: StringStyle::Double,
        lang: None,
        ty: None,
        idx: 9,
        len: 1,
    }));
    let doc = Turtle::new(
        None,
        prefixes,
        vec![triple(
            full("http://www.w3.org/2002/07/owl", 0),
            vec![po(a(1), vec![pname("owl", "Ontology", 2)]), po(pname("rdfs", "comment", 4), vec![comment])],
        )],
        LOCATION,
    );
    doc.get_simple_triples().expect("Triples found");
}

#[test]
fn one_pair_lowers_to_one_quad() {
    let prefixes = vec![prefix("foaf", NamedNode::Full("http://xmlns.com/foaf/0.1/".to_string(), 0))];
    let doc = Turtle::new(
        None,
        prefixes,
        vec![triple(full("http://example.com/ns#me", 0), vec![po(pname("foaf", "friend", 1), vec![full("http://example.com/ns#you", 2)])])],
        LOCATION,
    );
    let t = doc.get_simple_triples().expect("Triples found");
    assert_eq!(t.triples.len(), 1);
    assert_eq!(
        show_quad(&t.triples[0]),
        "<http://example.com/ns#me> <http://xmlns.com/foaf/0.1/friend> <http://example.com/ns#you>."
    );
}

#[test]
fn quad_count_is_sum_of_pairs() {
    let doc = Turtle::new(
        None,
        std_prefixes(),
        vec![
            triple(full("s", 0), vec![po(full("p", 1), vec![full("o1", 2), full("o2", 3)]), po(a(4), vec![pname("foaf", "Person", 5)])]),
            triple(Term::Variable(Variable("x".to_string(), 7)), vec![po(full("q", 8), vec![Term::Literal(Literal::Numeric("42".to_string()))])]),
        ],
        LOCATION,
    );
    let t = doc.get_simple_triples().expect("Triples found");
    assert_eq!(t.triples.len(), 4);
    assert_eq!(t.triples[3].object.value, Value::Literal("42".to_string()));
    assert_eq!(t.triples[3].subject.value, Value::Variable("x".to_string()));
}

#[test]
fn undefined_prefix_becomes_invalid() {
    let doc = Turtle::new(
        None,
        std_prefixes(),
        vec![triple(pname("ex", "a", 0), vec![po(pname("nope", "p", 1), vec![pname("foaf", "Person", 2)])])],
        LOCATION,
    );
    let t = doc.get_simple_triples().expect("a missing prefix does not abort");
    assert_eq!(t.triples.len(), 1);
    assert_eq!(t.triples[0].subject.value, Value::Invalid);
    assert_eq!(t.triples[0].predicate.value, Value::Invalid);
    assert_eq!(t.triples[0].object.value, Value::Named("http://xmlns.com/foaf/0.1/Person".to_string()));
}

#[test]
fn cyclic_prefixes_fail() {
    let prefixes = vec![
        prefix("a", NamedNode::Prefixed { prefix: "b".to_string(), value: "x".to_string(), idx: 0 }),
        prefix("b", NamedNode::Prefixed { prefix: "a".to_string(), value: "y".to_string(), idx: 0 }),
        prefix("c", NamedNode::Prefixed { prefix: "c".to_string(), value: "z".to_string(), idx: 0 }),
    ];
    let doc = Turtle::new(None, prefixes, vec![], LOCATION);
    for p in ["a", "b", "c"] {
        let nn = NamedNode::Prefixed { prefix: p.to_string(), value: "v".to_string(), idx: 0 };
        assert_eq!(nn.expand_step(&doc, vec![]), None);
        assert_eq!(nn.expand(&doc), None);
    }
}

#[test]
fn prefix_chain_and_first_declaration() {
    let prefixes = vec![
        prefix("ex", NamedNode::Full("http://example.org/".to_string(), 0)),
        prefix("sub", NamedNode::Prefixed { prefix: "ex".to_string(), value: "sub/".to_string(), idx: 0 }),
        prefix("ex", NamedNode::Full("http://other.org/".to_string(), 0)),
    ];
    let doc = Turtle::new(None, prefixes, vec![], LOCATION);
    let nn = NamedNode::Prefixed { prefix: "sub".to_string(), value: "x".to_string(), idx: 0 };
    assert_eq!(nn.expand_step(&doc, vec![]), Some("http://example.org/sub/x".to_string()));
    assert_eq!(NamedNode::A(0).expand_step(&doc, vec![]), Some("http://www.w3.org/1999/02/22-rdf-syntax-ns#type".to_string()));
    assert_eq!(NamedNode::Invalid.expand_step(&doc, vec![]), None);
    assert_eq!(full("e", 0).expand(&doc), Some("http://example.com/e".to_string()));
    assert_eq!(Term::Invalid.expand(&doc), None);
}

#[test]
fn relative_base_is_joined_to_location() {
    let base = sp(Base(Span { start: 0, end: 3 }, sp(NamedNode::Full("dir/".to_string(), 1), 1, 2)), 0, 3);
    let doc = Turtle::new(Some(base), vec![], vec![triple(full("e", 4), vec![po(full("p", 5), vec![full("o", 6)])])], LOCATION);
    match &doc.base {
        Some(b) => assert_eq!(b.0 .1 .0, NamedNode::Full("http://example.com/dir/".to_string(), 1)),
        None => panic!("base kept"),
    }
    let t = doc.get_simple_triples().expect("Triples found");
    assert_eq!(t.triples[0].subject.value, Value::Named("http://example.com/dir/e".to_string()));
    assert_eq!(t.base.map(|b| b.value), Some(Value::Named("http://example.com/dir/".to_string())));
    assert_eq!(t.base_url, LOCATION.to_string());
}

#[test]
fn unexpanded_base_is_an_error() {
    let base = sp(Base(Span { start: 0, end: 3 }, sp(NamedNode::Prefixed { prefix: "none".to_string(), value: "x".to_string(), idx: 1 }, 1, 2)), 0, 3);
    let doc = Turtle::new(Some(base), vec![], vec![], LOCATION);
    assert!(matches!(doc.get_simple_triples(), Err(TurtleSimpleError::UnexpectedBase(_))));
}

#[test]
fn malformed_base_is_an_error() {
    let doc = Turtle::new(None, vec![], vec![triple(full("e", 0), vec![po(full("p", 1), vec![full("o", 2)])])], "not an iri");
    assert!(matches!(doc.get_simple_triples(), Err(TurtleSimpleError::Parse(_))));
}

#[test]
fn empty_property_list_keeps_subject() {
    let doc = Turtle::new(None, vec![], vec![triple(full("e", 0), vec![])], LOCATION);
    let t = doc.get_simple_triples().expect("Triples found");
    assert_eq!(t.triples.len(), 1);
    assert_eq!(t.triples[0].subject.value, Value::Named("http://example.com/e".to_string()));
    assert_eq!(t.triples[0].predicate.value, Value::Invalid);
    assert_eq!(t.triples[0].object.value, Value::Invalid);
}

#[test]
fn collection_head_is_highest() {
    let doc = Turtle::empty(LOCATION);
    let mut builder = TriplesBuilder::new(&doc, LOCATION.to_string());
    let items = vec![sp(full("a", 0), 0, 1), sp(full("b", 1), 1, 2)];
    let head = builder.handle_collection(&items, Span { start: 0, end: 2 });
    assert_eq!(builder.triples.len(), 4);
    assert_eq!(head.value, Value::Fresh(2));
    let empty: Vec<Spanned<Term>> = vec![];
    let nil = builder.handle_collection(&empty, Span { start: 5, end: 6 });
    assert_eq!(nil.value, Value::Named("http://www.w3.org/1999/02/22-rdf-syntax-ns#nil".to_string()));
    assert_eq!(nil.span, Span { start: 6, end: 6 });
    assert_eq!(builder.triples.len(), 4);
}

#[test]
fn carry_forward_keeps_prefix_and_suffix() {
    let prev: Vec<String> = ["<a>", "<b>", "<c>", ".", "<d>", "<e>", "<f>", "."].iter().map(|s| s.to_string()).collect();
    let cur: Vec<String> = ["<a>", "<b>", "<c>", ";", "foa", ".", "<d>", "<e>", "<f>", "."].iter().map(|s| s.to_string()).collect();
    let mut ctx = Context::new();
    let roles = [ContextKind::Subject, ContextKind::Predicate, ContextKind::Object];
    for (i, r) in [0usize, 1, 2, 4, 5, 6].iter().zip(roles.iter().cycle()) {
        ctx.add(*i, *r);
    }
    ctx.setup_current_to_prev(&cur, &prev);
    assert_eq!(ctx.find(0), Some(ContextKind::Subject));
    assert_eq!(ctx.find(1), Some(ContextKind::Predicate));
    assert_eq!(ctx.find(2), Some(ContextKind::Object));
    assert_eq!(ctx.find(3), None);
    assert_eq!(ctx.find(4), None);
    assert_eq!(ctx.find(5), None);
    assert_eq!(ctx.find(6), Some(ContextKind::Subject));
    assert_eq!(ctx.find(7), Some(ContextKind::Predicate));
    assert_eq!(ctx.find(8), Some(ContextKind::Object));
    assert_eq!(ctx.find(9), None);
    assert_eq!(ctx.find(10), None);
}

#[test]
fn fresh_context_from_document() {
    let lit = Term::Literal(Literal::RDF(RDFLiteral {
        value: "x".to_string(),
        quote_style: StringStyle::Single,
        lang: None,
        ty: None,
        idx: 3,
        len: 2,
    }));
    let bn = Term::BlankNode(BlankNode::Unnamed(vec![po(full("q", 7), vec![full("r", 8)])], 6, 9));
    let doc = Turtle::new(None, vec![], vec![triple(full("s", 0), vec![po(a(1), vec![lit]), po(full("p", 5), vec![bn])])], LOCATION);
    let mut ctx = Context::new();
    ctx.add(20, ContextKind::Object);
    ctx.clear();
    doc.set_context(&mut ctx);
    assert_eq!(ctx.find(0), Some(ContextKind::Subject));
    assert_eq!(ctx.find(2), None);
    assert_eq!(ctx.find(3), Some(ContextKind::Object));
    assert_eq!(ctx.find(4), Some(ContextKind::Object));
    assert_eq!(ctx.find(6), Some(ContextKind::Object));
    assert_eq!(ctx.find(9), Some(ContextKind::Object));
    assert_eq!(ctx.find(20), None);
}

#[test]
fn term_roles_and_names() {
    assert!(!a(0).is_subject());
    assert!(!a(0).is_object());
    assert!(a(0).is_predicate());
    assert!(Term::Invalid.is_subject() && Term::Invalid.is_predicate() && Term::Invalid.is_object());
    let c = Term::Collection(vec![]);
    assert!(c.is_subject() && c.is_object() && !c.is_predicate());
    assert!(!Term::Literal(Literal::Boolean(true)).is_subject());
    assert_eq!(c.ty(), "collection");
    assert_eq!(Term::Invalid.ty(), "invalid");
    assert!(Term::Variable(Variable("x".to_string(), 0)).is_variable());
    assert_eq!(Literal::Boolean(false).plain_string(), "false");
}

#[test]
fn spans_from_the_end() {
    assert_eq!(rev_range(&Span { start: 2, end: 5 }, 10), Span { start: 5, end: 8 });
    assert_eq!(rev_range(&Span { start: 0, end: 10 }, 10), Span { start: 0, end: 10 });
}

#[test]
fn fix_spans_makes_spans_absolute_once() {
    // Spans recorded from the end of a region of 20 positions.
    let collection = Term::Collection(vec![sp(full("a", 3), 15, 17)]);
    let mut doc = Turtle::new(
        None,
        vec![sp(TurtlePrefix { span: Span { start: 12, end: 20 }, prefix: sp("ex".to_string(), 17, 19), value: sp(NamedNode::Full("http://e/".to_string(), 1), 12, 16) }, 12, 20)],
        vec![sp(Triple { subject: sp(full("s", 0), 9, 11), po: vec![sp(PO { predicate: sp(full("p", 1), 7, 9), object: vec![sp(collection, 1, 6)] }, 1, 9)] }, 0, 11)],
        LOCATION,
    );
    doc.fix_spans(20);
    assert_eq!(doc.prefixes[0].1, Span { start: 0, end: 8 });
    assert_eq!(doc.prefixes[0].0.prefix.1, Span { start: 1, end: 3 });
    assert_eq!(doc.prefixes[0].0.value.1, Span { start: 4, end: 8 });
    let t = &doc.triples[0];
    assert_eq!(t.1, Span { start: 9, end: 20 });
    assert_eq!(t.0.subject.1, Span { start: 9, end: 11 });
    assert_eq!(t.0.po[0].1, Span { start: 11, end: 19 });
    assert_eq!(t.0.po[0].0.predicate.1, Span { start: 11, end: 13 });
    assert_eq!(t.0.po[0].0.object[0].1, Span { start: 14, end: 19 });
    match &t.0.po[0].0.object[0].0 {
        Term::Collection(c) => assert_eq!(c[0].1, Span { start: 3, end: 5 }),
        _ => panic!("collection kept"),
    }
    // A second pass is a misuse: it turns the spans back.
    doc.fix_spans(20);
    assert_eq!(doc.triples[0].0.subject.1, Span { start: 9, end: 11 });
    assert_eq!(doc.prefixes[0].1, Span { start: 12, end: 20 });
}

#[test]
fn session_carries_or_rebuilds() {
    let toks = |v: &[&str]| -> Vec<String> { v.iter().map(|s| s.to_string()).collect() };
    let doc = Turtle::new(None, vec![], vec![triple(full("s", 0), vec![po(full("p", 1), vec![full("o", 2)])])], LOCATION);
    let mut state = DocumentState::new();
    state.update(toks(&["<s>", "<p>", "<o>", "."]), &doc, true);
    assert_eq!(state.context.find(0), Some(ContextKind::Subject));
    assert_eq!(state.context.find(1), Some(ContextKind::Predicate));
    assert_eq!(state.context.find(2), Some(ContextKind::Object));
    let broken = Turtle::empty(LOCATION);
    state.update(toks(&["<x>", "<s>", "<p>", "<o>", "."]), &broken, false);
    assert_eq!(state.context.find(0), None);
    assert_eq!(state.context.find(1), Some(ContextKind::Subject));
    assert_eq!(state.context.find(2), Some(ContextKind::Predicate));
    assert_eq!(state.context.find(3), Some(ContextKind::Object));
    assert_eq!(state.tokens.len(), 5);
    state.update(toks(&[]), &broken, true);
    assert_eq!(state.context.find(1), None);
}

#[test]
fn prefix_table_lists_expanding_prefixes() {
    let prefixes = vec![
        prefix("foaf", NamedNode::Full("http://xmlns.com/foaf/0.1/".to_string(), 0)),
        prefix("loop", NamedNode::Prefixed { prefix: "loop".to_string(), value: "x".to_string(), idx: 0 }),
        prefix("rel", NamedNode::Full("vocab#".to_string(), 0)),
    ];
    let doc = Turtle::new(None, prefixes, vec![], LOCATION);
    assert_eq!(
        doc.prefix_table(),
        vec![
            ("foaf".to_string(), "http://xmlns.com/foaf/0.1/".to_string()),
            ("rel".to_string(), "http://example.com/vocab#".to_string()),
        ]
    );
}

#[test]
fn shorten_uses_first_matching_prefix() {
    let doc = Turtle::new(None, std_prefixes(), vec![], LOCATION);
    assert_eq!(doc.shorten("http://xmlns.com/foaf/0.1/knows"), Some("foaf:knows".to_string()));
    assert_eq!(doc.shorten("http://www.w3.org/1999/02/22-rdf-syntax-ns#type"), Some("rdf:type".to_string()));
    assert_eq!(doc.shorten("http://nowhere.org/x"), None);
}

#[test]
fn terms_render_as_turtle() {
    assert_eq!(NamedNode::Full("http://e/".to_string(), 0).to_text(), "<http://e/>");
    assert_eq!(NamedNode::Prefixed { prefix: "foaf".to_string(), value: "Name".to_string(), idx: 0 }.to_text(), "foaf:Name");
    assert_eq!(NamedNode::A(0).to_text(), "a");
    let lit = RDFLiteral {
        value: "chat".to_string(),
        quote_style: StringStyle::SingleLong,
        lang: Some("fr".to_string()),
        ty: Some(NamedNode::Prefixed { prefix: "xsd".to_string(), value: "string".to_string(), idx: 0 }),
        idx: 0,
        len: 1,
    };
    assert_eq!(lit.to_text(), "'''chat'''@fr^^xsd:string");
    assert_eq!(lit.plain_string(), "chat");
}

#[test]
fn collection_subject_is_lowered_as_a_list() {
    // (<a> <b>) <p> <o>.
    let subject = Term::Collection(vec![sp(full("a", 1), 1, 2), sp(full("b", 2), 2, 3)]);
    let doc = Turtle::new(None, vec![], vec![sp(Triple { subject: sp(subject, 0, 4), po: vec![po(full("p", 4), vec![full("o", 5)])] }, 0, 7)], LOCATION);
    let t = doc.get_simple_triples().expect("Triples found");
    assert_eq!(t.triples.len(), 5);
    assert_eq!(t.triples[4].subject.value, Value::Fresh(2));
    assert_eq!(t.triples[4].span, Span { start: 0, end: 7 });
    assert_eq!(show_quad(&t.triples[0]), "_:internal_bnode_1 <http://www.w3.org/1999/02/22-rdf-syntax-ns#first> <http://example.com/b>.");
    assert_eq!(show_quad(&t.triples[1]), "_:internal_bnode_1 <http://www.w3.org/1999/02/22-rdf-syntax-ns#rest> <http://www.w3.org/1999/02/22-rdf-syntax-ns#nil>.");
    assert_eq!(t.triples[1].object.span, Span { start: 4, end: 4 });
    let again = doc.get_simple_triples().expect("Triples found");
    assert_eq!(again.triples, t.triples);
}

#[test]
fn nested_object_comes_before_its_quad() {
    // <s> <p> [ <q> <r> ], <x> .
    let inner = Term::BlankNode(BlankNode::Unnamed(vec![sp(PO { predicate: sp(full("q", 3), 3, 4), object: vec![sp(full("r", 4), 4, 5)] }, 3, 5)], 2, 5));
    let pos = vec![sp(PO { predicate: sp(full("p", 1), 1, 2), object: vec![sp(inner, 2, 6), sp(full("x", 7), 7, 8)] }, 1, 8)];
    let doc = Turtle::new(None, vec![], vec![sp(Triple { subject: sp(full("s", 0), 0, 1), po: pos }, 0, 9)], LOCATION);
    let t = doc.get_simple_triples().expect("Triples found");
    assert_eq!(t.triples.len(), 3);
    assert_eq!(show_quad(&t.triples[0]), "_:internal_bnode_1 <http://example.com/q> <http://example.com/r>.");
    assert_eq!(t.triples[0].span, Span { start: 2, end: 6 });
    assert_eq!(show_quad(&t.triples[1]), "<http://example.com/s> <http://example.com/p> _:internal_bnode_1.");
    assert_eq!(t.triples[1].span, Span { start: 0, end: 9 });
    assert_eq!(t.triples[2].span, Span { start: 7, end: 8 });
}

#[test]
fn base_declaration_spans_are_normalised() {
    let base = sp(Base(Span { start: 0, end: 1 }, sp(NamedNode::Full("http://e/".to_string(), 1), 1, 2)), 0, 3);
    let mut doc = Turtle::new(Some(base), vec![], vec![], LOCATION);
    doc.fix_spans(5);
    let b = doc.base.as_ref().expect("base kept");
    assert_eq!(b.1, Span { start: 2, end: 5 });
    assert_eq!(b.0 .0, Span { start: 4, end: 5 });
    assert_eq!(b.0 .1 .1, Span { start: 3, end: 4 });
    doc.fix_spans(5);
    let b = doc.base.as_ref().expect("base kept");
    assert_eq!(b.0 .0, Span { start: 0, end: 1 });
}

#[test]
fn default_base_term_has_empty_span() {
    let doc = Turtle::empty(LOCATION);
    let t = doc.get_simple_triples().expect("Triples found");
    let base = t.base.expect("base term");
    assert_eq!(base.value, Value::Named(LOCATION.to_string()));
    assert_eq!(base.span, Span { start: 0, end: 0 });
}

#[test]
fn rev_range_takes_any_span_within_the_region() {
    assert_eq!(rev_range(&Span { start: 4, end: 1 }, 6), Span { start: 5, end: 2 });
}
