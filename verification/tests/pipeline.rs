use horned_owl::io::ParserConfiguration;
use horned_owl::model::{
    AnnotatedComponent, Build, Class, ClassExpression, Component, DeclareClass, EquivalentClasses,
    OntologyID, SubClassOf,
};
use horned_owl::ontology::set::SetOntology;
use soht::model::{ClassExpr, GraphBuilder, Shape, Statement};
use soht::splitter::{split_ontology, PipelineError};
use soht::store::CacheStore;
use std::collections::BTreeSet;

const ANIMAL: &str = "http://ex.org/onto#Animal";
const DOG: &str = "http://ex.org/onto#Dog";

fn decl(b: &Build<String>, iri: &str) -> Statement {
    Statement {
        shape: Shape::Declaration { concept: iri.to_string() },
        payload: Component::DeclareClass(DeclareClass(Class(b.iri(iri)))).into(),
    }
}

fn sub_named(b: &Build<String>, sub: &str, sup: &str) -> Statement {
    Statement {
        shape: Shape::SubClassOf {
            sub: ClassExpr::Named { concept: sub.to_string() },
            sup: ClassExpr::Named { concept: sup.to_string() },
        },
        payload: Component::SubClassOf(SubClassOf {
            sup: ClassExpression::Class(Class(b.iri(sup))),
            sub: ClassExpression::Class(Class(b.iri(sub))),
        })
        .into(),
    }
}

/// A subclass-of whose superclass is a compound expression that mentions
/// `sub` reflexively: `sub ⊑ (sub ⊓ other)`.
fn sub_compound(b: &Build<String>, sub: &str, other: &str) -> Statement {
    Statement {
        shape: Shape::SubClassOf {
            sub: ClassExpr::Named { concept: sub.to_string() },
            sup: ClassExpr::Compound {
                mentions: vec![sub.to_string(), other.to_string()],
            },
        },
        payload: Component::SubClassOf(SubClassOf {
            sup: ClassExpression::ObjectIntersectionOf(vec![
                ClassExpression::Class(Class(b.iri(sub))),
                ClassExpression::Class(Class(b.iri(other))),
            ]),
            sub: ClassExpression::Class(Class(b.iri(sub))),
        })
        .into(),
    }
}

fn equivalent(b: &Build<String>, one: &str, two: &str) -> Statement {
    Statement {
        shape: Shape::Other {
            mentions: vec![one.to_string(), two.to_string()],
        },
        payload: Component::EquivalentClasses(EquivalentClasses(vec![
            ClassExpression::Class(Class(b.iri(one))),
            ClassExpression::Class(Class(b.iri(two))),
        ]))
        .into(),
    }
}

fn two_concept_graph(b: &Build<String>) -> soht::model::Graph {
    let mut gb = GraphBuilder::new();
    gb.add_statement(decl(b, ANIMAL));
    gb.add_statement(decl(b, DOG));
    gb.add_statement(sub_named(b, DOG, ANIMAL));
    gb.add_statement(sub_named(b, DOG, DOG));
    gb.freeze()
}

fn reparse(content: &[u8]) -> BTreeSet<AnnotatedComponent<String>> {
    let mut cursor = std::io::Cursor::new(content.to_vec());
    let config: ParserConfiguration<String, Build<String>> =
        ParserConfiguration::new(Build::new_string());
    let (ont, _prefixes): (SetOntology<String>, _) =
        horned_owl::io::owx::reader::read(&mut cursor, config).expect("partition should reparse");
    ont.iter()
        .filter(|c| !matches!(c.component, Component::OntologyID(_) | Component::DocIRI(_)))
        .cloned()
        .collect()
}

#[test]
fn end_to_end_two_concepts() {
    let b = Build::new_string();
    let g = two_concept_graph(&b);
    let parts = split_ontology(&g).expect("pipeline should succeed");
    assert_eq!(parts.len(), 2);
    assert_eq!(parts[0].short_name, "Animal");
    assert_eq!(parts[1].short_name, "Dog");
    // The Dog partition keeps its declaration and Dog ⊑ Animal; the trivial
    // Dog ⊑ Dog is filtered.
    assert_eq!(parts[1].statements.len(), 2);
    assert_eq!(parts[1].statements[0].payload, decl(&b, DOG).payload);
    assert_eq!(parts[1].statements[1].payload, sub_named(&b, DOG, ANIMAL).payload);
    // The Animal partition keeps its declaration and the Dog ⊑ Animal
    // statement that mentions Animal; that statement's subject is Dog, not
    // Animal, so the filter does not touch it.
    assert_eq!(parts[0].statements.len(), 2);
    assert_eq!(parts[0].statements[0].payload, decl(&b, ANIMAL).payload);
    assert_eq!(parts[0].statements[1].payload, sub_named(&b, DOG, ANIMAL).payload);
}

#[test]
fn completeness_one_partition_per_concept() {
    let b = Build::new_string();
    let mut gb = GraphBuilder::new();
    gb.add_statement(decl(&b, ANIMAL));
    gb.add_statement(decl(&b, DOG));
    // A repeated declaration yields no second partition.
    gb.add_statement(decl(&b, DOG));
    gb.add_statement(equivalent(&b, DOG, ANIMAL));
    let g = gb.freeze();
    let parts = split_ontology(&g).expect("pipeline should succeed");
    assert_eq!(parts.len(), 2);
    assert_eq!(parts[0].short_name, "Animal");
    assert_eq!(parts[1].short_name, "Dog");
    // Every statement mentioning Dog is in Dog's partition: both
    // declarations and the equivalence.
    assert_eq!(parts[1].statements.len(), 3);
    assert_eq!(parts[1].statements[2].payload, equivalent(&b, DOG, ANIMAL).payload);
}

#[test]
fn filter_precision() {
    let b = Build::new_string();
    let mut gb = GraphBuilder::new();
    gb.add_statement(decl(&b, DOG));
    gb.add_statement(sub_named(&b, DOG, DOG));
    gb.add_statement(sub_compound(&b, DOG, ANIMAL));
    let g = gb.freeze();
    let parts = split_ontology(&g).expect("pipeline should succeed");
    assert_eq!(parts.len(), 1);
    // The bare Dog ⊑ Dog is absent; the compound Dog ⊑ (Dog ⊓ Animal),
    // which mentions Dog reflexively, is present.
    assert_eq!(parts[0].statements.len(), 2);
    assert_eq!(parts[0].statements[0].payload, decl(&b, DOG).payload);
    assert_eq!(parts[0].statements[1].payload, sub_compound(&b, DOG, ANIMAL).payload);
    for s in &parts[0].statements {
        assert_ne!(s.payload, sub_named(&b, DOG, DOG).payload);
    }
}

#[test]
fn roundtrip_reparse_equals_subgraph() {
    let b = Build::new_string();
    let g = two_concept_graph(&b);
    let parts = split_ontology(&g).expect("pipeline should succeed");
    for p in &parts {
        let reparsed = reparse(&p.content);
        let original: BTreeSet<AnnotatedComponent<String>> =
            p.statements.iter().map(|s| s.payload.clone()).collect();
        assert_eq!(reparsed, original);
    }
}

#[test]
fn isolation_documents_parse_standalone() {
    let b = Build::new_string();
    let g = two_concept_graph(&b);
    let parts = split_ontology(&g).expect("pipeline should succeed");
    // Each partition document parses on its own, and neither holds the
    // other concept's declaration.
    let animal_set = reparse(&parts[0].content);
    let dog_set = reparse(&parts[1].content);
    assert!(!animal_set.contains(&decl(&b, DOG).payload));
    assert!(!dog_set.contains(&decl(&b, ANIMAL).payload));
}

#[test]
fn metadata_component_fails_serialization() {
    let b = Build::new_string();
    let mut gb = GraphBuilder::new();
    gb.add_statement(decl(&b, DOG));
    // An ontology-identifier component is not an axiom: the writer cannot
    // represent it inside a partition, so the run fails.
    gb.add_statement(Statement {
        shape: Shape::Other { mentions: vec![DOG.to_string()] },
        payload: Component::OntologyID(OntologyID {
            iri: Some(b.iri(DOG)),
            viri: None,
        })
        .into(),
    });
    let r = split_ontology(&gb.freeze());
    assert!(matches!(r, Err(PipelineError::Serialization)));
}

#[test]
fn duplicate_runs_flagged_and_still_resolvable() {
    let b = Build::new_string();
    let g = two_concept_graph(&b);
    let mut store = CacheStore::new();
    for _run in 0..2 {
        let parts = split_ontology(&g).expect("pipeline should succeed");
        for p in parts {
            store.insert(p.short_name, p.content);
        }
    }
    // Two full sets of records share the short names: the diagnostic
    // listing flags the duplicates rather than hiding them.
    let ids = store.record_ids_for(&"Dog".to_string());
    assert_eq!(ids.len(), 2);
    assert!(ids[0] < ids[1]);
    // The read path still resolves the name to a valid, parseable document.
    let content = store.lookup(&"Dog".to_string()).expect("name should resolve");
    let reparsed = reparse(&content);
    assert!(!reparsed.is_empty());
}

#[test]
fn empty_graph_yields_no_partitions() {
    let g = GraphBuilder::new().freeze();
    let parts = split_ontology(&g).expect("pipeline should succeed");
    assert!(parts.is_empty());
}
