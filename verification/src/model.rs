//! The graph model: an ontology as a sequence of statements over concept
//! identifiers, together with the spec-level view of each statement and the
//! selection rule that the subgraph extractor applies.

use vstd::prelude::*;
use horned_owl::model::AnnotatedComponent;

verus! {

/// `horned_owl::model::AnnotatedComponent` carried through the pipeline as an
/// opaque payload: the exact axiom as parsed, so that a partition can be
/// re-serialized without loss. The model below holds, as plain values,
/// everything the partitioning logic reads out of it.
#[verifier::external_type_specification]
#[verifier::external_body]
#[verifier::reject_recursive_types(A)]
pub struct ExAnnotatedComponent<A>(AnnotatedComponent<A>);

/// A class expression as the extractor sees it: either exactly one named
/// concept, or a compound expression (restriction, intersection, ...) of
/// which only the set of mentioned concept identifiers matters here.
pub enum ClassExpr {
    Named { concept: String },
    Compound { mentions: Vec<String> },
}

/// The shape of one statement, as far as the partitioning rule reads it:
/// a concept declaration, a subclass-of axiom, or any other axiom of which
/// only the mentioned identifiers matter.
pub enum Shape {
    Declaration { concept: String },
    SubClassOf { sub: ClassExpr, sup: ClassExpr },
    Other { mentions: Vec<String> },
}

/// One statement of the ontology graph: its modeled shape beside the exact
/// parsed axiom it stands for.
pub struct Statement {
    pub shape: Shape,
    pub payload: AnnotatedComponent<String>,
}

/// Spec-level value of a `ClassExpr`: identifiers as character sequences.
pub enum ClassExprView {
    Named { concept: Seq<char> },
    Compound { mentions: Seq<Seq<char>> },
}

/// Spec-level value of a `Shape`.
pub enum ShapeView {
    Declaration { concept: Seq<char> },
    SubClassOf { sub: ClassExprView, sup: ClassExprView },
    Other { mentions: Seq<Seq<char>> },
}

/// Spec-level value of a `Statement`: the shape's value beside the payload.
pub struct StatementView {
    pub shape: ShapeView,
    pub payload: AnnotatedComponent<String>,
}

impl View for ClassExpr {
    type V = ClassExprView;

    open spec fn view(&self) -> ClassExprView {
        match self {
            ClassExpr::Named { concept } => ClassExprView::Named { concept: concept@ },
            ClassExpr::Compound { mentions } => ClassExprView::Compound {
                mentions: mentions@.map_values(|m: String| m@),
            },
        }
    }
}

impl View for Shape {
    type V = ShapeView;

    open spec fn view(&self) -> ShapeView {
        match self {
            Shape::Declaration { concept } => ShapeView::Declaration { concept: concept@ },
            Shape::SubClassOf { sub, sup } => ShapeView::SubClassOf { sub: sub@, sup: sup@ },
            Shape::Other { mentions } => ShapeView::Other {
                mentions: mentions@.map_values(|m: String| m@),
            },
        }
    }
}

impl View for Statement {
    type V = StatementView;

    open spec fn view(&self) -> StatementView {
        StatementView { shape: self.shape@, payload: self.payload }
    }
}

/// The statement views of a statement vector.
pub open spec fn views_of(ss: Seq<Statement>) -> Seq<StatementView> {
    ss.map_values(|s: Statement| s@)
}

/// Whether the identifier list `ms` holds `id`.
pub open spec fn contains_id(ms: Seq<Seq<char>>, id: Seq<char>) -> bool {
    exists|i: int| 0 <= i < ms.len() && ms[i] == id
}

/// Whether a class expression mentions the identifier `id`.
pub open spec fn expr_mentions(e: ClassExprView, id: Seq<char>) -> bool {
    match e {
        ClassExprView::Named { concept } => concept == id,
        ClassExprView::Compound { mentions } => contains_id(mentions, id),
    }
}

/// Whether a statement mentions the identifier `id`.
pub open spec fn shape_mentions(s: ShapeView, id: Seq<char>) -> bool {
    match s {
        ShapeView::Declaration { concept } => concept == id,
        ShapeView::SubClassOf { sub, sup } => expr_mentions(sub, id) || expr_mentions(sup, id),
        ShapeView::Other { mentions } => contains_id(mentions, id),
    }
}

/// The one filtered shape: a subclass-of statement whose subject is exactly
/// the bare concept `id` and whose superclass expression is also exactly the
/// bare concept `id`. A subclass-of whose superclass is a compound expression
/// is never of this shape, however reflexively the compound mentions `id`.
pub open spec fn is_trivial_self_subclass(s: ShapeView, id: Seq<char>) -> bool {
    s == (ShapeView::SubClassOf {
        sub: ClassExprView::Named { concept: id },
        sup: ClassExprView::Named { concept: id },
    })
}

/// The selection rule of the subgraph extractor: a statement belongs to the
/// partition of `id` when it mentions `id` and is not the trivial
/// self-subclass of `id`.
pub open spec fn selected(s: ShapeView, id: Seq<char>) -> bool {
    shape_mentions(s, id) && !is_trivial_self_subclass(s, id)
}

/// The parsed ontology, frozen: once built it offers its statements
/// read-only, and nothing can add to or change them for the rest of the run.
pub struct Graph {
    statements: Vec<Statement>,
}

impl View for Graph {
    type V = Seq<StatementView>;

    closed spec fn view(&self) -> Seq<StatementView> {
        views_of(self.statements@)
    }
}

impl Graph {
    /// How many statements the graph holds.
    pub fn statement_count(&self) -> (n: usize)
        ensures
            n == self@.len(),
    {
        self.statements.len()
    }

    /// The statement at position `k` of the graph's enumeration order.
    pub fn statement_at(&self, k: usize) -> (s: &Statement)
        requires
            k < self@.len(),
        ensures
            s@ == self@[k as int],
    {
        &self.statements[k]
    }
}

/// The build-time form of the ontology graph: statements are appended while
/// parsing, and `freeze` turns the result into the read-only `Graph` that
/// the pipeline shares.
pub struct GraphBuilder {
    statements: Vec<Statement>,
}

impl View for GraphBuilder {
    type V = Seq<StatementView>;

    closed spec fn view(&self) -> Seq<StatementView> {
        views_of(self.statements@)
    }
}

impl GraphBuilder {
    /// An empty builder.
    pub fn new() -> (b: GraphBuilder)
        ensures
            b@ == Seq::<StatementView>::empty(),
    {
        let b = GraphBuilder { statements: Vec::new() };
        proof {
            assert(b@ =~= Seq::<StatementView>::empty());
        }
        b
    }

    /// Append one statement to the graph under construction.
    pub fn add_statement(&mut self, s: Statement)
        ensures
            final(self)@ == old(self)@.push(s@),
    {
        let ghost prior = self.statements@;
        let ghost sv = s@;
        self.statements.push(s);
        proof {
            assert(views_of(self.statements@) =~= views_of(prior).push(sv));
        }
    }

    /// Freeze the builder into the read-only graph.
    pub fn freeze(self) -> (g: Graph)
        ensures
            g@ == self@,
    {
        Graph { statements: self.statements }
    }
}

} // verus!
