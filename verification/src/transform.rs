//! The transformation rules and the pipeline engine.
//!
//! A `Transform` is one rule: a pure function from a graph and a node to
//! the node's new lemma.  `Transforms` is an ordered list of rules; the
//! engine applies each rule to every node of the graph, writing each new
//! lemma back immediately, and only then moves on to the next rule, so
//! that rules that read other nodes' lemmas observe the state left by the
//! complete previous passes.

pub mod auxpassiv;

pub mod delemmatization;

pub mod lemmatization;

pub mod misc;

use vstd::prelude::*;
use crate::graph::{DependencyGraph, GraphView, TokView, graph_wf};
use crate::transform::auxpassiv::{add_aux_passiv_tag_spec, AddAuxPassivTag};
use crate::transform::delemmatization::{
    remove_alternatives_spec, remove_aux_tag_spec, remove_passiv_tag_spec,
    remove_reflexive_tag_spec, remove_sep_verb_prefix_spec, RemoveAlternatives, RemoveAuxTag,
    RemovePassivTag, RemoveReflexiveTag, RemoveSepVerbPrefix, RemoveTruncMarker,
    remove_trunc_marker_spec,
};
use crate::transform::lemmatization::{
    add_separated_verb_prefix_spec, form_as_lemma_spec, mark_verb_prefix_spec, restore_case_spec,
    AddSeparatedVerbPrefix, FormAsLemma, MarkVerbPrefix, RestoreCase,
};
use crate::transform::misc::{
    simplify_article_lemma_spec, simplify_personal_pronoun_spec, simplify_possesive_pronoun_spec,
    SimplifyArticleLemma, SimplifyPersonalPronounLemma, SimplifyPossesivePronounLemma,
};

verus! {

/// One transformation rule.
pub enum Transform {
    AddAuxPassivTag(AddAuxPassivTag),
    AddSeparatedVerbPrefix(AddSeparatedVerbPrefix),
    FormAsLemma(FormAsLemma),
    MarkVerbPrefix(MarkVerbPrefix),
    RestoreCase(RestoreCase),
    RemoveAlternatives(RemoveAlternatives),
    RemoveAuxTag(RemoveAuxTag),
    RemovePassivTag(RemovePassivTag),
    RemoveReflexiveTag(RemoveReflexiveTag),
    RemoveSepVerbPrefix(RemoveSepVerbPrefix),
    RemoveTruncMarker(RemoveTruncMarker),
    SimplifyArticleLemma(SimplifyArticleLemma),
    SimplifyPersonalPronounLemma(SimplifyPersonalPronounLemma),
    SimplifyPossesivePronounLemma(SimplifyPossesivePronounLemma),
}

/// Specification-level contents of a rule: its kind and configuration.
pub ghost enum TransformView {
    AddAuxPassivTag,
    AddSeparatedVerbPrefix(bool),
    FormAsLemma,
    MarkVerbPrefix((Seq<(Seq<char>, Seq<char>)>, Seq<Seq<char>>)),
    RestoreCase,
    RemoveAlternatives,
    RemoveAuxTag,
    RemovePassivTag,
    RemoveReflexiveTag,
    RemoveSepVerbPrefix,
    RemoveTruncMarker,
    SimplifyArticleLemma,
    SimplifyPersonalPronounLemma,
    SimplifyPossesivePronounLemma((Seq<Seq<char>>, Seq<Seq<char>>)),
}

impl View for Transform {
    type V = TransformView;

    open spec fn view(&self) -> TransformView {
        match self {
            Transform::AddAuxPassivTag(_) => TransformView::AddAuxPassivTag,
            Transform::AddSeparatedVerbPrefix(r) => TransformView::AddSeparatedVerbPrefix(r@),
            Transform::FormAsLemma(_) => TransformView::FormAsLemma,
            Transform::MarkVerbPrefix(r) => TransformView::MarkVerbPrefix(r@),
            Transform::RestoreCase(_) => TransformView::RestoreCase,
            Transform::RemoveAlternatives(_) => TransformView::RemoveAlternatives,
            Transform::RemoveAuxTag(_) => TransformView::RemoveAuxTag,
            Transform::RemovePassivTag(_) => TransformView::RemovePassivTag,
            Transform::RemoveReflexiveTag(_) => TransformView::RemoveReflexiveTag,
            Transform::RemoveSepVerbPrefix(_) => TransformView::RemoveSepVerbPrefix,
            Transform::RemoveTruncMarker(_) => TransformView::RemoveTruncMarker,
            Transform::SimplifyArticleLemma(_) => TransformView::SimplifyArticleLemma,
            Transform::SimplifyPersonalPronounLemma(_) => TransformView::SimplifyPersonalPronounLemma,
            Transform::SimplifyPossesivePronounLemma(r) => TransformView::SimplifyPossesivePronounLemma(r@),
        }
    }
}

impl DeepView for Transform {
    type V = TransformView;

    open spec fn deep_view(&self) -> TransformView {
        self.view()
    }
}

/// The lemma that rule `t` produces for node `n` of graph `g`.
pub open spec fn transform_spec(t: TransformView, g: GraphView, n: int) -> Seq<char> {
    match t {
        TransformView::AddAuxPassivTag => add_aux_passiv_tag_spec(g, n),
        TransformView::AddSeparatedVerbPrefix(multiple) => add_separated_verb_prefix_spec(
            multiple,
            g,
            n,
        ),
        TransformView::FormAsLemma => form_as_lemma_spec(g.nodes[n]),
        TransformView::MarkVerbPrefix(cfg) => mark_verb_prefix_spec(cfg.0, cfg.1, g.nodes[n]),
        TransformView::RestoreCase => restore_case_spec(g.nodes[n]),
        TransformView::RemoveAlternatives => remove_alternatives_spec(g.nodes[n]),
        TransformView::RemoveAuxTag => remove_aux_tag_spec(g.nodes[n]),
        TransformView::RemovePassivTag => remove_passiv_tag_spec(g.nodes[n]),
        TransformView::RemoveReflexiveTag => remove_reflexive_tag_spec(g.nodes[n]),
        TransformView::RemoveSepVerbPrefix => remove_sep_verb_prefix_spec(g.nodes[n]),
        TransformView::RemoveTruncMarker => remove_trunc_marker_spec(g.nodes[n]),
        TransformView::SimplifyArticleLemma => simplify_article_lemma_spec(g.nodes[n]),
        TransformView::SimplifyPersonalPronounLemma => simplify_personal_pronoun_spec(g.nodes[n]),
        TransformView::SimplifyPossesivePronounLemma(cfg) => simplify_possesive_pronoun_spec(
            cfg.0,
            cfg.1,
            g.nodes[n],
        ),
    }
}

impl Transform {
    /// Compute the rule's output lemma for `node`; the graph is not
    /// mutated, the pipeline engine writes the lemma back.
    pub fn transform(&self, graph: &DependencyGraph, node: usize) -> (r: String)
        requires
            graph_wf(graph@),
            node < graph@.nodes.len(),
        ensures
            r@ == transform_spec(self@, graph@, node as int),
    {
        match self {
            Transform::AddAuxPassivTag(r) => r.transform(graph, node),
            Transform::AddSeparatedVerbPrefix(r) => r.transform(graph, node),
            Transform::FormAsLemma(r) => r.transform(graph, node),
            Transform::MarkVerbPrefix(r) => r.transform(graph, node),
            Transform::RestoreCase(r) => r.transform(graph, node),
            Transform::RemoveAlternatives(r) => r.transform(graph, node),
            Transform::RemoveAuxTag(r) => r.transform(graph, node),
            Transform::RemovePassivTag(r) => r.transform(graph, node),
            Transform::RemoveReflexiveTag(r) => r.transform(graph, node),
            Transform::RemoveSepVerbPrefix(r) => r.transform(graph, node),
            Transform::RemoveTruncMarker(r) => r.transform(graph, node),
            Transform::SimplifyArticleLemma(r) => r.transform(graph, node),
            Transform::SimplifyPersonalPronounLemma(r) => r.transform(graph, node),
            Transform::SimplifyPossesivePronounLemma(r) => r.transform(graph, node),
        }
    }
}

/// The graph with the lemma of node `n` replaced.
pub open spec fn set_node_lemma(g: GraphView, n: int, lemma: Seq<char>) -> GraphView {
    GraphView { nodes: g.nodes.update(n, TokView { lemma, ..g.nodes[n] }), edges: g.edges }
}

/// One rule applied to the first `i` nodes, in order, each output written
/// back before the next node is evaluated.
pub open spec fn pass_upto(t: TransformView, g: GraphView, i: int) -> GraphView
    decreases i,
{
    if i <= 0 {
        g
    } else {
        let g1 = pass_upto(t, g, i - 1);
        set_node_lemma(g1, i - 1, transform_spec(t, g1, i - 1))
    }
}

/// One rule applied to every node of the graph.
pub open spec fn apply_transform(t: TransformView, g: GraphView) -> GraphView {
    pass_upto(t, g, g.nodes.len() as int)
}

/// The first `i` rules applied to the graph, each rule completing its full
/// pass before the next begins.
pub open spec fn apply_upto(ts: Seq<TransformView>, g: GraphView, i: int) -> GraphView
    decreases i,
{
    if i <= 0 {
        g
    } else {
        apply_transform(ts[i - 1], apply_upto(ts, g, i - 1))
    }
}

/// All rules applied to the graph, in order.
pub open spec fn apply_transforms_spec(ts: Seq<TransformView>, g: GraphView) -> GraphView {
    apply_upto(ts, g, ts.len() as int)
}

/// A pass of one rule changes only lemmas: the number of nodes, their
/// forms and tags, and the edges are untouched.
pub proof fn lemma_pass_shape(t: TransformView, g: GraphView, i: int)
    requires
        0 <= i <= g.nodes.len(),
    ensures
        pass_upto(t, g, i).nodes.len() == g.nodes.len(),
        pass_upto(t, g, i).edges == g.edges,
        forall|k: int|
            0 <= k < g.nodes.len() ==> (#[trigger] pass_upto(t, g, i).nodes[k]).form
                == g.nodes[k].form && pass_upto(t, g, i).nodes[k].tag == g.nodes[k].tag,
    decreases i,
{
    if i > 0 {
        lemma_pass_shape(t, g, i - 1);
    }
}

/// The whole pipeline changes only lemmas: the number of nodes, their
/// forms and tags, and the edges of the graph pass through unchanged.
pub proof fn lemma_transforms_preserve_structure(ts: Seq<TransformView>, g: GraphView, i: int)
    requires
        0 <= i <= ts.len(),
    ensures
        apply_upto(ts, g, i).nodes.len() == g.nodes.len(),
        apply_upto(ts, g, i).edges == g.edges,
        forall|k: int|
            0 <= k < g.nodes.len() ==> (#[trigger] apply_upto(ts, g, i).nodes[k]).form
                == g.nodes[k].form && apply_upto(ts, g, i).nodes[k].tag == g.nodes[k].tag,
    decreases i,
{
    if i > 0 {
        lemma_transforms_preserve_structure(ts, g, i - 1);
        let prev = apply_upto(ts, g, i - 1);
        lemma_pass_shape(ts[i - 1], prev, prev.nodes.len() as int);
    }
}

/// An ordered list of transformation rules.
pub struct Transforms(pub Vec<Transform>);

impl Transforms {
    /// Transform a graph using the transformation list.
    ///
    /// Each rule is fully applied to all nodes of the graph, in node
    /// order, before the next rule starts, so that dependencies between
    /// rules are handled correctly.
    #[verifier::loop_isolation(false)]
    pub fn transform(&self, graph: &mut DependencyGraph)
        requires
            graph_wf(old(graph)@),
        ensures
            final(graph)@ == apply_transforms_spec(self.0.deep_view(), old(graph)@),
            graph_wf(final(graph)@),
    {
        let ghost ts = self.0.deep_view();
        let ghost g0 = graph@;
        let nrules = self.0.len();
        let mut ri: usize = 0;
        while ri < nrules
            invariant
                ri <= nrules,
                graph_wf(graph@),
                graph@ == apply_upto(ts, g0, ri as int),
                graph@.nodes.len() == g0.nodes.len(),
            decreases nrules - ri,
        {
            let t = &self.0[ri];
            proof {
                assert(t@ == ts[ri as int]);
            }
            let ghost grule = graph@;
            let n = graph.node_count();
            let mut ni: usize = 0;
            while ni < n
                invariant
                    ni <= n,
                    n == grule.nodes.len(),
                    graph_wf(graph@),
                    graph@ == pass_upto(t@, grule, ni as int),
                    graph@.nodes.len() == grule.nodes.len(),
                decreases n - ni,
            {
                let lemma = t.transform(graph, ni);
                graph.set_lemma(ni, lemma);
                proof {
                    assert(graph@ =~~= pass_upto(t@, grule, ni + 1));
                    assert(graph_wf(graph@));
                }
                ni = ni + 1;
            }
            proof {
                assert(graph@ == apply_transform(t@, grule));
                assert(graph@ == apply_upto(ts, g0, ri + 1));
            }
            ri = ri + 1;
        }
    }
}

} // verus!
