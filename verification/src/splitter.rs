//! The partitioning pipeline: index the declared concepts of a graph,
//! extract each concept's subgraph under the self-subclass filter, and
//! render every subgraph as a standalone document.

use vstd::prelude::*;
use crate::model::{
    ClassExpr, ClassExprView, Graph, Shape, ShapeView, Statement, StatementView, contains_id,
    expr_mentions, is_trivial_self_subclass, selected, shape_mentions, views_of,
};
use crate::owx::{
    check_meta_component, clone_component, is_meta_component, owx_document_of, payloads_of,
    write_owx,
};
use crate::shortname::{short_name, short_name_of};
use crate::store::{
    CacheRecord, has_record_named, ids_for, lemma_ids_for_at_least_one, lemma_ids_for_concat,
};

verus! {

/// The subgraph selected for `id` out of the statements `vs`: every
/// statement mentioning `id`, in enumeration order, except the trivial
/// self-subclass of `id`.
pub open spec fn partition_of(vs: Seq<StatementView>, id: Seq<char>) -> Seq<StatementView>
    decreases vs.len(),
{
    if vs.len() == 0 {
        Seq::empty()
    } else {
        let rest = partition_of(vs.drop_last(), id);
        if selected(vs.last().shape, id) {
            rest.push(vs.last())
        } else {
            rest
        }
    }
}

/// The concepts declared by `vs`, one entry per declaration statement, in
/// enumeration order.
pub open spec fn declaration_concepts(vs: Seq<StatementView>) -> Seq<Seq<char>>
    decreases vs.len(),
{
    if vs.len() == 0 {
        Seq::empty()
    } else {
        let rest = declaration_concepts(vs.drop_last());
        match vs.last().shape {
            ShapeView::Declaration { concept } => rest.push(concept),
            _ => rest,
        }
    }
}

/// `ids` with every repeated identifier removed, keeping first occurrences
/// and their order.
pub open spec fn first_occurrences(ids: Seq<Seq<char>>) -> Seq<Seq<char>>
    decreases ids.len(),
{
    if ids.len() == 0 {
        Seq::empty()
    } else {
        let rest = first_occurrences(ids.drop_last());
        if ids.drop_last().contains(ids.last()) {
            rest
        } else {
            rest.push(ids.last())
        }
    }
}

/// The ordered set of concepts declared by `vs`: each declared concept
/// exactly once, ordered by first declaration.
pub open spec fn declared_seq(vs: Seq<StatementView>) -> Seq<Seq<char>> {
    first_occurrences(declaration_concepts(vs))
}

/// Whether `vs` declares the concept `id`.
pub open spec fn is_declared(vs: Seq<StatementView>, id: Seq<char>) -> bool {
    exists|i: int|
        0 <= i < vs.len() && vs[i].shape == (ShapeView::Declaration { concept: id })
}

/// Whether `v` holds a string whose characters are `id@`.
fn string_list_contains(v: &Vec<String>, id: &String) -> (r: bool)
    ensures
        r == contains_id(v@.map_values(|m: String| m@), id@),
{
    let ghost ms = v@.map_values(|m: String| m@);
    let mut k: usize = 0;
    while k < v.len()
        invariant
            k <= v@.len(),
            ms == v@.map_values(|m: String| m@),
            forall|i: int| 0 <= i < k ==> ms[i] != id@,
        decreases v@.len() - k,
    {
        if v[k].eq(id) {
            assert(ms[k as int] == id@);
            return true;
        }
        k = k + 1;
    }
    false
}

/// Whether the class expression mentions the identifier `id`.
fn expr_mentions_exec(e: &ClassExpr, id: &String) -> (r: bool)
    ensures
        r == expr_mentions(e@, id@),
{
    match e {
        ClassExpr::Named { concept } => concept.eq(id),
        ClassExpr::Compound { mentions } => string_list_contains(mentions, id),
    }
}

/// Whether the class expression is exactly the bare concept `id`.
fn expr_is_bare(e: &ClassExpr, id: &String) -> (r: bool)
    ensures
        r == (e@ == (ClassExprView::Named { concept: id@ })),
{
    match e {
        ClassExpr::Named { concept } => concept.eq(id),
        ClassExpr::Compound { mentions: _ } => false,
    }
}

/// The selection rule on one statement: does it belong to the partition
/// of `id`?
pub fn statement_selected(s: &Statement, id: &String) -> (r: bool)
    ensures
        r == selected(s@.shape, id@),
{
    match &s.shape {
        Shape::Declaration { concept } => concept.eq(id),
        Shape::SubClassOf { sub, sup } => {
            let m = expr_mentions_exec(sub, id) || expr_mentions_exec(sup, id);
            let trivial = expr_is_bare(sub, id) && expr_is_bare(sup, id);
            m && !trivial
        },
        Shape::Other { mentions } => string_list_contains(mentions, id),
    }
}

/// An element-by-element copy of an identifier list, equal to the original.
fn clone_string_vec(v: &Vec<String>) -> (r: Vec<String>)
    ensures
        r@ == v@,
{
    let mut r: Vec<String> = Vec::new();
    let mut k: usize = 0;
    while k < v.len()
        invariant
            k <= v@.len(),
            r@.len() == k,
            forall|i: int| 0 <= i < k ==> r@[i] == v@[i],
        decreases v@.len() - k,
    {
        r.push(v[k].clone());
        k = k + 1;
    }
    proof {
        assert(r@ =~= v@);
    }
    r
}

/// A copy of a class expression, equal to the original.
fn clone_expr(e: &ClassExpr) -> (r: ClassExpr)
    ensures
        r@ == e@,
{
    match e {
        ClassExpr::Named { concept } => ClassExpr::Named { concept: concept.clone() },
        ClassExpr::Compound { mentions } => ClassExpr::Compound {
            mentions: clone_string_vec(mentions),
        },
    }
}

/// A copy of a statement, independent of the graph it came from and equal
/// to the original in shape and payload.
pub fn clone_statement(s: &Statement) -> (r: Statement)
    ensures
        r@ == s@,
{
    let shape = match &s.shape {
        Shape::Declaration { concept } => Shape::Declaration { concept: concept.clone() },
        Shape::SubClassOf { sub, sup } => Shape::SubClassOf {
            sub: clone_expr(sub),
            sup: clone_expr(sup),
        },
        Shape::Other { mentions } => Shape::Other { mentions: clone_string_vec(mentions) },
    };
    Statement { shape, payload: clone_component(&s.payload) }
}

/// Extract the partition of the declared concept `id`: a fresh, independent
/// subgraph holding exactly the statements of `g` that mention `id`, in
/// `g`'s enumeration order, except the trivial self-subclass of `id`.
pub fn extract_partition(g: &Graph, id: &String) -> (out: Vec<Statement>)
    ensures
        views_of(out@) == partition_of(g@, id@),
{
    let n = g.statement_count();
    let mut out: Vec<Statement> = Vec::new();
    let mut k: usize = 0;
    proof {
        assert(views_of(out@) =~= partition_of(g@.take(0), id@));
    }
    while k < n
        invariant
            k <= n,
            n == g@.len(),
            views_of(out@) == partition_of(g@.take(k as int), id@),
        decreases n - k,
    {
        let s = g.statement_at(k);
        let ghost prefix = g@.take(k as int);
        let ghost prior = out@;
        if statement_selected(s, id) {
            out.push(clone_statement(s));
            proof {
                assert(views_of(out@) =~= views_of(prior).push(s@));
            }
        }
        k = k + 1;
        proof {
            assert(g@.take(k as int).drop_last() =~= prefix);
            assert(g@.take(k as int).last() == g@[k as int - 1]);
        }
    }
    proof {
        assert(g@.take(n as int) =~= g@);
    }
    out
}

/// The ordered set of declared concepts of `g`: each concept that is the
/// subject of a declaration statement, exactly once, ordered by first
/// declaration.
pub fn declared_concepts(g: &Graph) -> (out: Vec<String>)
    ensures
        out@.map_values(|m: String| m@) == declared_seq(g@),
{
    let n = g.statement_count();
    let mut out: Vec<String> = Vec::new();
    let mut k: usize = 0;
    proof {
        assert(out@.map_values(|m: String| m@) =~= declared_seq(g@.take(0)));
    }
    while k < n
        invariant
            k <= n,
            n == g@.len(),
            out@.map_values(|m: String| m@) == declared_seq(g@.take(k as int)),
        decreases n - k,
    {
        let s = g.statement_at(k);
        let ghost prefix = g@.take(k as int);
        let ghost prior = out@.map_values(|m: String| m@);
        match &s.shape {
            Shape::Declaration { concept } => {
                proof {
                    lemma_first_occurrences_same_members(declaration_concepts(prefix));
                }
                if !string_list_contains(&out, concept) {
                    out.push(concept.clone());
                    proof {
                        assert(out@.map_values(|m: String| m@) =~= prior.push(concept@));
                    }
                }
            },
            _ => {},
        }
        k = k + 1;
        proof {
            assert(g@.take(k as int).drop_last() =~= prefix);
            assert(g@.take(k as int).last() == g@[k as int - 1]);
            lemma_declared_seq_step(g@.take(k as int));
        }
    }
    proof {
        assert(g@.take(n as int) =~= g@);
    }
    out
}

/// Unfolds one step of `declared_seq` at the end of a statement sequence.
proof fn lemma_declared_seq_step(vs: Seq<StatementView>)
    requires
        vs.len() > 0,
    ensures
        declared_seq(vs) == match vs.last().shape {
            ShapeView::Declaration { concept } => {
                if contains_id(declared_seq(vs.drop_last()), concept) {
                    declared_seq(vs.drop_last())
                } else {
                    declared_seq(vs.drop_last()).push(concept)
                }
            },
            _ => declared_seq(vs.drop_last()),
        },
{
    let pre = vs.drop_last();
    match vs.last().shape {
        ShapeView::Declaration { concept } => {
            assert(declaration_concepts(vs) == declaration_concepts(pre).push(concept));
            assert(declaration_concepts(vs).drop_last() =~= declaration_concepts(pre));
            lemma_first_occurrences_same_members(declaration_concepts(pre));
            assert(declaration_concepts(pre).contains(concept) == contains_id(
                declared_seq(pre),
                concept,
            ));
        },
        _ => {
            assert(declaration_concepts(vs) == declaration_concepts(pre));
        },
    }
}

/// Removing repeats changes no memberships: `first_occurrences(ids)` holds
/// exactly the identifiers that `ids` holds.
pub proof fn lemma_first_occurrences_same_members(ids: Seq<Seq<char>>)
    ensures
        forall|id: Seq<char>| contains_id(first_occurrences(ids), id) == ids.contains(id),
    decreases ids.len(),
{
    if ids.len() > 0 {
        let pre = ids.drop_last();
        let last = ids.last();
        lemma_first_occurrences_same_members(pre);
        assert forall|id: Seq<char>| contains_id(first_occurrences(ids), id) == ids.contains(
            id,
        ) by {
            lemma_contains_split(ids, id);
            let fo = first_occurrences(ids);
            let fop = first_occurrences(pre);
            if !pre.contains(last) {
                if contains_id(fo, id) {
                    let w = choose|i: int| 0 <= i < fo.len() && fo[i] == id;
                    if w < fop.len() {
                        assert(fop[w] == id);
                        assert(contains_id(fop, id));
                    } else {
                        assert(fo[w] == last);
                    }
                }
                if pre.contains(id) {
                    assert(contains_id(fop, id));
                    let w = choose|i: int| 0 <= i < fop.len() && fop[i] == id;
                    assert(fo[w] == id);
                    assert(contains_id(fo, id));
                }
                if last == id {
                    assert(fo[fo.len() - 1] == id);
                    assert(contains_id(fo, id));
                }
            }
        }
    }
}

/// One partition: the retrieval key derived from the concept's identifier,
/// the concept's own copy of its subgraph, and that subgraph rendered as a
/// standalone document.
pub struct Partition {
    pub short_name: String,
    pub statements: Vec<Statement>,
    pub content: Vec<u8>,
}

/// A failure of the pipeline run: a subgraph the document writer could not
/// render. The failure is fatal to the whole run; partitions of earlier
/// concepts may already stand in the store.
#[derive(Debug, PartialEq, Eq, Structural)]
pub enum PipelineError {
    Serialization,
}

/// Whether `p` is the partition that a run over the statements `vs` owes
/// the declared concept `id`.
pub open spec fn partition_matches(vs: Seq<StatementView>, id: Seq<char>, p: Partition) -> bool {
    &&& p.short_name@ == short_name_of(id)
    &&& views_of(p.statements@) == partition_of(vs, id)
    &&& p.content@ == owx_document_of(payloads_of(partition_of(vs, id)))
}

/// Whether some declared concept's partition holds a construct the document
/// writer cannot represent: a metadata component among the axioms. This is
/// the one condition on which a run over `vs` fails.
pub open spec fn has_unrenderable_partition(vs: Seq<StatementView>) -> bool {
    exists|i: int, j: int|
        0 <= i < declared_seq(vs).len() && 0 <= j < partition_of(vs, declared_seq(vs)[i]).len()
            && is_meta_component((#[trigger] partition_of(vs, declared_seq(vs)[i])[j]).payload)
}

/// Run the partitioning pipeline over a parsed graph: exactly one partition
/// per declared concept, in order of first declaration, each holding its
/// filtered subgraph and that subgraph's standalone document. The run fails
/// exactly when some partition holds a construct the writer cannot render,
/// and the failure surfaces as `Serialization`; partitions already produced
/// are discarded with the run — what an earlier run persisted is the
/// store's affair, not this function's.
pub fn split_ontology(g: &Graph) -> (r: Result<Vec<Partition>, PipelineError>)
    ensures
        r is Err == has_unrenderable_partition(g@),
        r matches Err(e) ==> e == PipelineError::Serialization,
        r matches Ok(parts) ==> {
            &&& parts@.len() == declared_seq(g@).len()
            &&& forall|i: int| 0 <= i < parts@.len() ==> partition_matches(
                g@,
                declared_seq(g@)[i],
                #[trigger] parts@[i],
            )
            &&& forall|i: int, j: int|
                0 <= i < parts@.len() && 0 <= j < parts@[i].statements@.len()
                    ==> !is_meta_component(#[trigger] parts@[i].statements@[j].payload)
        },
{
    let declared = declared_concepts(g);
    let mut parts: Vec<Partition> = Vec::new();
    let mut k: usize = 0;
    let n = declared.len();
    while k < n
        invariant
            k <= n,
            n == declared@.len(),
            declared@.map_values(|m: String| m@) == declared_seq(g@),
            parts@.len() == k,
            forall|i: int| 0 <= i < k ==> partition_matches(
                g@,
                declared_seq(g@)[i],
                #[trigger] parts@[i],
            ),
            forall|i: int, j: int|
                0 <= i < k && 0 <= j < parts@[i].statements@.len() ==> !is_meta_component(
                    #[trigger] parts@[i].statements@[j].payload,
                ),
        decreases n - k,
    {
        let concept = &declared[k];
        proof {
            assert(declared@.map_values(|m: String| m@)[k as int] == concept@);
        }
        let statements = extract_partition(g, concept);
        let mut m: usize = 0;
        while m < statements.len()
            invariant
                m <= statements@.len(),
                k < declared_seq(g@).len(),
                concept@ == declared_seq(g@)[k as int],
                views_of(statements@) == partition_of(g@, concept@),
                forall|i: int| 0 <= i < m ==> !is_meta_component(statements@[i].payload),
            decreases statements@.len() - m,
        {
            if check_meta_component(&statements[m].payload) {
                proof {
                    assert(views_of(statements@)[m as int] == statements@[m as int]@);
                    assert(partition_of(g@, declared_seq(g@)[k as int])[m as int].payload
                        == statements@[m as int].payload);
                    assert(has_unrenderable_partition(g@));
                }
                return Err(PipelineError::Serialization);
            }
            m = m + 1;
        }
        let content = match write_owx(&statements) {
            Ok(b) => b,
            Err(_) => {
                proof {
                    assert(false);
                }
                return Err(PipelineError::Serialization);
            },
        };
        let name = short_name(concept);
        parts.push(Partition { short_name: name, statements, content });
        k = k + 1;
    }
    proof {
        assert forall|i: int, j: int|
            0 <= i < declared_seq(g@).len() && 0 <= j < partition_of(
                g@,
                declared_seq(g@)[i],
            ).len() implies !is_meta_component(
            (#[trigger] partition_of(g@, declared_seq(g@)[i])[j]).payload,
        ) by {
            assert(partition_matches(g@, declared_seq(g@)[i], parts@[i]));
            assert(views_of(parts@[i].statements@) == partition_of(g@, declared_seq(g@)[i]));
            assert(views_of(parts@[i].statements@)[j] == parts@[i].statements@[j]@);
        }
        assert(!has_unrenderable_partition(g@));
    }
    Ok(parts)
}

/// Completeness of one partition: the partition of `id` holds exactly the
/// statements that mention `id`, except the trivial self-subclass of `id` —
/// every other statement mentioning `id` is in, and nothing else is.
pub proof fn lemma_partition_completeness(vs: Seq<StatementView>, id: Seq<char>, sv: StatementView)
    ensures
        partition_of(vs, id).contains(sv) == (vs.contains(sv) && selected(sv.shape, id)),
    decreases vs.len(),
{
    if vs.len() > 0 {
        let pre = vs.drop_last();
        let last = vs.last();
        lemma_partition_completeness(pre, id, sv);
        let part = partition_of(vs, id);
        let partp = partition_of(pre, id);
        if vs.contains(sv) && selected(sv.shape, id) {
            lemma_statements_contains_split(vs, sv);
            if pre.contains(sv) {
                let w = choose|i: int| 0 <= i < partp.len() && partp[i] == sv;
                assert(part[w] == sv);
                assert(part.contains(sv));
            } else {
                assert(sv == last);
                assert(part[part.len() - 1] == sv);
                assert(part.contains(sv));
            }
        }
        if part.contains(sv) {
            let w = choose|i: int| 0 <= i < part.len() && part[i] == sv;
            if w < partp.len() {
                assert(partp[w] == sv);
                assert(partp.contains(sv));
                lemma_statements_contains_split(vs, sv);
            } else {
                assert(selected(last.shape, id) && sv == last);
                assert(vs[vs.len() - 1] == sv);
            }
        }
    }
}

/// Membership in `vs` splits into membership in `vs.drop_last()` or
/// equality with `vs.last()`.
proof fn lemma_statements_contains_split(vs: Seq<StatementView>, sv: StatementView)
    requires
        vs.len() > 0,
    ensures
        vs.contains(sv) == (vs.drop_last().contains(sv) || vs.last() == sv),
{
    if vs.contains(sv) {
        let w = choose|i: int| 0 <= i < vs.len() && vs[i] == sv;
        if w < vs.len() - 1 {
            assert(vs.drop_last()[w] == sv);
            assert(vs.drop_last().contains(sv));
        }
    }
    if vs.drop_last().contains(sv) {
        let w = choose|i: int| 0 <= i < vs.drop_last().len() && vs.drop_last()[i] == sv;
        assert(vs[w] == sv);
    }
    if vs.last() == sv {
        assert(vs[vs.len() - 1] == sv);
    }
}

/// Precision of the filter, the dropped half: a bare self-subclass of `id`
/// never stands in the partition of `id`.
pub proof fn lemma_bare_self_subclass_filtered(
    vs: Seq<StatementView>,
    id: Seq<char>,
    sv: StatementView,
)
    requires
        sv.shape == (ShapeView::SubClassOf {
            sub: ClassExprView::Named { concept: id },
            sup: ClassExprView::Named { concept: id },
        }),
    ensures
        !partition_of(vs, id).contains(sv),
{
    lemma_partition_completeness(vs, id, sv);
}

/// Precision of the filter, the kept half: a subclass-of statement of the
/// graph whose superclass expression is compound stands in the partition of
/// every identifier it mentions, even one the compound expression mentions
/// reflexively.
pub proof fn lemma_compound_superclass_kept(
    vs: Seq<StatementView>,
    id: Seq<char>,
    sv: StatementView,
    sub: ClassExprView,
    ms: Seq<Seq<char>>,
)
    requires
        vs.contains(sv),
        sv.shape == (ShapeView::SubClassOf { sub, sup: ClassExprView::Compound { mentions: ms } }),
        expr_mentions(sub, id) || contains_id(ms, id),
    ensures
        partition_of(vs, id).contains(sv),
{
    assert(shape_mentions(sv.shape, id));
    assert(!is_trivial_self_subclass(sv.shape, id));
    lemma_partition_completeness(vs, id, sv);
}

/// Exactly one partition per declared concept: the pipeline's ordered
/// concept list holds an identifier exactly once when the graph declares
/// it, and never otherwise.
pub proof fn lemma_one_partition_per_concept(vs: Seq<StatementView>, id: Seq<char>)
    ensures
        contains_id(declared_seq(vs), id) == is_declared(vs, id),
        forall|i: int, j: int|
            0 <= i < j < declared_seq(vs).len() ==> declared_seq(vs)[i] != declared_seq(vs)[j],
{
    lemma_first_occurrences_same_members(declaration_concepts(vs));
    lemma_declaration_concepts_members(vs);
    lemma_first_occurrences_distinct(declaration_concepts(vs));
}

/// The concept list of the declaration statements holds exactly the
/// declared identifiers.
proof fn lemma_declaration_concepts_members(vs: Seq<StatementView>)
    ensures
        forall|id: Seq<char>| declaration_concepts(vs).contains(id) == is_declared(vs, id),
    decreases vs.len(),
{
    if vs.len() > 0 {
        let pre = vs.drop_last();
        lemma_declaration_concepts_members(pre);
        assert forall|id: Seq<char>| declaration_concepts(vs).contains(id) == is_declared(
            vs,
            id,
        ) by {
            let dc = declaration_concepts(vs);
            let dcp = declaration_concepts(pre);
            if dc.contains(id) {
                let w = choose|i: int| 0 <= i < dc.len() && dc[i] == id;
                if w < dcp.len() {
                    assert(dcp[w] == id);
                    assert(dcp.contains(id));
                    assert(is_declared(pre, id));
                    let d = choose|i: int|
                        0 <= i < pre.len() && pre[i].shape == (ShapeView::Declaration {
                            concept: id,
                        });
                    assert(pre[d].shape == (ShapeView::Declaration { concept: id }));
                    assert(pre[d] == vs[d]);
                } else {
                    assert(vs.last().shape == (ShapeView::Declaration { concept: id }));
                    assert(vs[vs.len() - 1].shape == (ShapeView::Declaration { concept: id }));
                }
                assert(is_declared(vs, id));
            }
            if is_declared(vs, id) {
                let d = choose|i: int|
                    0 <= i < vs.len() && vs[i].shape == (ShapeView::Declaration { concept: id });
                if d < vs.len() - 1 {
                    assert(pre[d].shape == (ShapeView::Declaration { concept: id }));
                    assert(is_declared(pre, id));
                    let w = choose|i: int| 0 <= i < dcp.len() && dcp[i] == id;
                    assert(dc[w] == id);
                } else {
                    match vs.last().shape {
                        ShapeView::Declaration { concept } => {
                            assert(dc[dc.len() - 1] == id);
                        },
                        _ => {},
                    }
                }
                assert(dc.contains(id));
            }
        }
    }
}

/// First occurrences are pairwise distinct.
proof fn lemma_first_occurrences_distinct(ids: Seq<Seq<char>>)
    ensures
        forall|i: int, j: int|
            0 <= i < j < first_occurrences(ids).len() ==> first_occurrences(ids)[i]
                != first_occurrences(ids)[j],
    decreases ids.len(),
{
    if ids.len() > 0 {
        let pre = ids.drop_last();
        lemma_first_occurrences_distinct(pre);
        lemma_first_occurrences_same_members(pre);
        let fo = first_occurrences(ids);
        let fop = first_occurrences(pre);
        if !pre.contains(ids.last()) {
            assert forall|i: int, j: int| 0 <= i < j < fo.len() implies fo[i] != fo[j] by {
                if j < fop.len() {
                    assert(fo[i] == fop[i] && fo[j] == fop[j]);
                } else {
                    assert(fo[j] == ids.last());
                    assert(fo[i] == fop[i]);
                    if fop[i] == ids.last() {
                        assert(contains_id(fop, ids.last()));
                    }
                }
            }
        }
    }
}

/// The idempotence caveat, as far as it holds: re-running the pipeline over
/// the same graph deduplicates nothing. When a store's records grew from
/// `rs0` by one run's records `run1` and then by a second run's `run2` —
/// each run appending, in order, one record per declared concept, keyed by
/// the concept's short name, as a successful `split_ontology` run written
/// through `CacheStore::insert` does — then every earlier record stands
/// unchanged at its place in the total, each declared concept's short name
/// lists at least two record identifiers (the duplicates are visible to the
/// diagnostic listing, not silently collapsed), and the read path still
/// resolves the name.
pub proof fn lemma_second_run_appends_duplicates(
    vs: Seq<StatementView>,
    rs0: Seq<CacheRecord>,
    run1: Seq<CacheRecord>,
    run2: Seq<CacheRecord>,
    i: int,
)
    requires
        0 <= i < declared_seq(vs).len(),
        run1.len() == declared_seq(vs).len(),
        run2.len() == declared_seq(vs).len(),
        forall|k: int|
            0 <= k < run1.len() ==> run1[k].short_name@ == short_name_of(
                #[trigger] declared_seq(vs)[k],
            ),
        forall|k: int|
            0 <= k < run2.len() ==> run2[k].short_name@ == short_name_of(
                #[trigger] declared_seq(vs)[k],
            ),
    ensures
        ids_for(rs0 + run1 + run2, short_name_of(declared_seq(vs)[i])).len() >= 2,
        has_record_named(rs0 + run1 + run2, short_name_of(declared_seq(vs)[i])),
{
    let name = short_name_of(declared_seq(vs)[i]);
    lemma_ids_for_concat(rs0 + run1, run2, name);
    lemma_ids_for_concat(rs0, run1, name);
    assert(run1[i].short_name@ == name);
    assert(has_record_named(run1, name));
    assert(run2[i].short_name@ == name);
    assert(has_record_named(run2, name));
    lemma_ids_for_at_least_one(run1, name);
    lemma_ids_for_at_least_one(run2, name);
    assert((rs0 + run1 + run2)[rs0.len() + i] == run1[i]);
    assert(has_record_named(rs0 + run1 + run2, name));
}

/// Isolation: a partition's document is a function of its own selected
/// statements alone. Two partitions with equal subgraphs — from whatever
/// graphs and for whatever concepts — have byte-for-byte equal documents;
/// nothing from the rest of either graph reaches the rendered output.
pub proof fn lemma_partition_isolation(
    vs1: Seq<StatementView>,
    id1: Seq<char>,
    vs2: Seq<StatementView>,
    id2: Seq<char>,
)
    requires
        partition_of(vs1, id1) == partition_of(vs2, id2),
    ensures
        owx_document_of(payloads_of(partition_of(vs1, id1))) == owx_document_of(
            payloads_of(partition_of(vs2, id2)),
        ),
{
}

/// Membership in `s` splits into membership in `s.drop_last()` or equality
/// with `s.last()`.
proof fn lemma_contains_split(s: Seq<Seq<char>>, id: Seq<char>)
    requires
        s.len() > 0,
    ensures
        s.contains(id) == (s.drop_last().contains(id) || s.last() == id),
{
    if s.contains(id) {
        let w = choose|i: int| 0 <= i < s.len() && s[i] == id;
        if w < s.len() - 1 {
            assert(s.drop_last()[w] == id);
            assert(s.drop_last().contains(id));
        }
    }
    if s.drop_last().contains(id) {
        let w = choose|i: int| 0 <= i < s.drop_last().len() && s.drop_last()[i] == id;
        assert(s[w] == id);
    }
    if s.last() == id {
        assert(s[s.len() - 1] == id);
    }
}

} // verus!
