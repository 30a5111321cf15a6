//! The serialization seam: rendering one partition's statements into a
//! standalone OWL/XML document through horned_owl's writer.

use vstd::prelude::*;
use crate::model::{Statement, StatementView, views_of};
use horned_owl::error::HornedError;
use horned_owl::model::{AnnotatedComponent, Component, MutableOntology};
use horned_owl::ontology::component_mapped::ComponentMappedOntology;

verus! {

/// `horned_owl::error::HornedError`, the error a failed render reports.
#[verifier::external_type_specification]
#[verifier::external_body]
pub struct ExHornedError(HornedError);

/// The OWL/XML document that horned_owl's writer renders for a sequence of
/// components. Stating the document's grammar is not attempted; the name
/// records only that the bytes are a function of the components alone.
pub uninterp spec fn owx_document_of(comps: Seq<AnnotatedComponent<String>>) -> Seq<u8>;

/// The payloads of a sequence of statement views, in order.
pub open spec fn payloads_of(vs: Seq<StatementView>) -> Seq<AnnotatedComponent<String>> {
    vs.map_values(|v: StatementView| v.payload)
}

/// Whether a component is ontology metadata — an ontology identifier or a
/// document IRI — rather than an axiom. The document writer renders every
/// axiom kind and refuses exactly these two.
pub uninterp spec fn is_meta_component(c: AnnotatedComponent<String>) -> bool;

/// Relies on the variants of `horned_owl::model::Component`: which of them
/// the component is depends on the component alone, and the two metadata
/// variants are the ones the document writer cannot render among axioms.
#[verifier::external_body]
pub(crate) fn check_meta_component(c: &AnnotatedComponent<String>) -> (r: bool)
    ensures
        r == is_meta_component(*c),
{
    matches!(c.component, Component::OntologyID(_) | Component::DocIRI(_))
}

/// Relies on `horned_owl::io::owx::writer::write`: it renders a
/// component-mapped ontology of axioms into OWL/XML bytes. On the metadata
/// components, which it refuses without returning, it is not called; on
/// every other input it succeeds, since its only error path is the output
/// sink and a byte vector cannot fail to grow. The ontology's index is
/// backed by `BTreeMap`/`BTreeSet`, so the written bytes depend on the
/// inserted components alone; nothing more is assumed of them.
#[verifier::external_body]
pub(crate) fn write_owx(stmts: &Vec<Statement>) -> (r: Result<Vec<u8>, HornedError>)
    requires
        forall|i: int| 0 <= i < stmts@.len() ==> !is_meta_component(stmts@[i].payload),
    ensures
        r is Ok,
        r matches Ok(b) ==> b@ == owx_document_of(payloads_of(views_of(stmts@))),
{
    let mut ont: ComponentMappedOntology<String, AnnotatedComponent<String>> =
        ComponentMappedOntology::new();
    for s in stmts.iter() {
        ont.insert(s.payload.clone());
    }
    horned_owl::io::owx::writer::write(Vec::new(), &ont, None)
}

/// Relies on the derived `Clone` of `horned_owl::model::AnnotatedComponent`,
/// a field-by-field copy of a plain data type: the clone equals the original.
#[verifier::external_body]
pub(crate) fn clone_component(c: &AnnotatedComponent<String>) -> (r: AnnotatedComponent<String>)
    ensures
        r == *c,
{
    c.clone()
}

} // verus!
