//! Auxiliary and passive marking of verb lemmas.
//!
//! Auxiliary and modal verbs get a marker suffix on their lemma: `%passiv`
//! when the verb is the canonical passive verb governing a participle
//! through an auxiliary edge, `%aux` for other auxiliary readings.  When a
//! verb has no auxiliary dependent of its own, the rule looks for a verdict
//! at a conjunction ancestor, and then at an adverbial governor.

use vstd::prelude::*;
use vstd::string::*;
use crate::constants::{is_auxiliary, is_auxiliary_tag, is_modal, is_modal_tag};
use crate::graph::{DependencyGraph, GraphView, graph_wf};
use crate::text::str_eq;

verus! {

/// The marker a verb lemma receives.
pub enum VerbLemmaTag {
    Auxiliary,
    Passive,
    Unmarked,
}

/// Does edge `e` leave (or, for `incoming`, enter) node `n` with relation
/// `rel`?
pub open spec fn edge_matches(
    g: GraphView,
    e: int,
    n: int,
    rel: Seq<char>,
    incoming: bool,
) -> bool {
    &&& (if incoming {
        g.edges[e].dependent == n
    } else {
        g.edges[e].head == n
    })
    &&& g.edges[e].relation == rel
}

/// The first edge with index at least `i` that touches node `n` with
/// relation `rel`, in the stated direction.
pub open spec fn first_edge_from(
    g: GraphView,
    n: int,
    rel: Seq<char>,
    incoming: bool,
    i: int,
) -> Option<int>
    decreases g.edges.len() - i,
{
    if i < 0 || i >= g.edges.len() {
        None
    } else if edge_matches(g, i, n, rel, incoming) {
        Some(i)
    } else {
        first_edge_from(g, n, rel, incoming, i + 1)
    }
}

/// `first_edge_from` finds the earliest matching edge, or reports that none
/// matches.
pub proof fn lemma_first_edge_from(g: GraphView, n: int, rel: Seq<char>, incoming: bool, i: int)
    requires
        0 <= i <= g.edges.len(),
    ensures
        first_edge_from(g, n, rel, incoming, i) is None ==> forall|k: int|
            i <= k < g.edges.len() ==> !edge_matches(g, k, n, rel, incoming),
        first_edge_from(g, n, rel, incoming, i) matches Some(e) ==> {
            &&& i <= e < g.edges.len()
            &&& edge_matches(g, e, n, rel, incoming)
            &&& forall|k: int| i <= k < e ==> !edge_matches(g, k, n, rel, incoming)
        },
    decreases g.edges.len() - i,
{
    if i < g.edges.len() && !edge_matches(g, i, n, rel, incoming) {
        lemma_first_edge_from(g, n, rel, incoming, i + 1);
    }
}

/// Find the first edge of the graph that touches `node` with relation
/// `rel`, outgoing or incoming.
fn first_edge(graph: &DependencyGraph, node: usize, rel: &str, incoming: bool) -> (r: Option<
    usize,
>)
    ensures
        first_edge_from(graph@, node as int, rel@, incoming, 0) is None ==> r is None,
        first_edge_from(graph@, node as int, rel@, incoming, 0) matches Some(e) ==> r == Some(
            e as usize,
        ),
{
    proof {
        lemma_first_edge_from(graph@, node as int, rel@, incoming, 0);
    }
    let m = graph.edge_count();
    let mut i: usize = 0;
    while i < m
        invariant
            i <= m,
            m == graph@.edges.len(),
            forall|k: int| 0 <= k < i ==> !edge_matches(graph@, k, node as int, rel@, incoming),
        decreases m - i,
    {
        let e = graph.edge(i);
        let endpoint = if incoming {
            e.dependent
        } else {
            e.head
        };
        if endpoint == node && str_eq(e.relation.as_str(), rel) {
            proof {
                assert(edge_matches(graph@, i as int, node as int, rel@, incoming));
                lemma_first_edge_is(graph@, node as int, rel@, incoming, 0, i as int);
            }
            return Some(i);
        }
        i = i + 1;
    }
    None
}

/// If `e` matches and nothing in `[j, e)` matches, the search from `j`
/// returns `e`.
proof fn lemma_first_edge_is(g: GraphView, n: int, rel: Seq<char>, incoming: bool, j: int, e: int)
    requires
        0 <= j <= e < g.edges.len(),
        edge_matches(g, e, n, rel, incoming),
        forall|k: int| j <= k < e ==> !edge_matches(g, k, n, rel, incoming),
    ensures
        first_edge_from(g, n, rel, incoming, j) == Some(e),
    decreases e - j,
{
    if j < e {
        lemma_first_edge_is(g, n, rel, incoming, j + 1, e);
    }
}

/// Is there any outgoing edge of `n` whose relation is not the punctuation
/// relation?
pub open spec fn has_nonpunct_outgoing(g: GraphView, n: int) -> bool {
    exists|k: int|
        0 <= k < g.edges.len() && (#[trigger] g.edges[k]).head == n && g.edges[k].relation
            != "-PUNCT-"@
}

/// The direct auxiliary verdict for a verb node: find the first outgoing
/// edge with the auxiliary relation; if its dependent is a participle and
/// the verb's lemma is the canonical passive verb, the verdict is passive,
/// otherwise auxiliary; without such an edge there is no verdict.
pub open spec fn verb_lemma_tag_spec(g: GraphView, n: int) -> VerbLemmaTag {
    match first_edge_from(g, n, "AUX"@, false, 0) {
        Option::None => VerbLemmaTag::Unmarked,
        Option::Some(e) => {
            if g.nodes[n].lemma == "werden"@ && g.nodes[g.edges[e].dependent].tag == "VVPP"@ {
                VerbLemmaTag::Passive
            } else {
                VerbLemmaTag::Auxiliary
            }
        },
    }
}

/// Compute the direct auxiliary verdict for `node`.
pub fn verb_lemma_tag(graph: &DependencyGraph, node: usize) -> (r: VerbLemmaTag)
    requires
        graph_wf(graph@),
        node < graph@.nodes.len(),
    ensures
        r == verb_lemma_tag_spec(graph@, node as int),
{
    proof {
        lemma_first_edge_from(graph@, node as int, "AUX"@, false, 0);
    }
    let edges = graph.edge_count();
    match first_edge(graph, node, "AUX", false) {
        Option::None => VerbLemmaTag::Unmarked,
        Option::Some(e) => {
            proof {
                assert(first_edge_from(graph@, node as int, "AUX"@, false, 0) == Some(e as int));
            }
            let target = graph.edge(e).dependent;
            let token = graph.token(node);
            let dep = graph.token(target);
            if str_eq(token.lemma.as_str(), "werden") && str_eq(dep.tag.as_str(), "VVPP") {
                VerbLemmaTag::Passive
            } else {
                VerbLemmaTag::Auxiliary
            }
        },
    }
}

/// The ancestor reached from `n` by following, for each relation of `path`
/// starting at index `k`, the first incoming edge with that relation.
/// The graph being single-headed, "first" is "only".
pub open spec fn ancestor_from(g: GraphView, n: int, path: Seq<Seq<char>>, k: int) -> Option<int>
    decreases path.len() - k,
{
    if k < 0 || k >= path.len() {
        Some(n)
    } else {
        match first_edge_from(g, n, path[k], true, 0) {
            Option::None => None,
            Option::Some(e) => ancestor_from(g, g.edges[e].head, path, k + 1),
        }
    }
}

/// Walk from `node` towards the root, following one incoming edge per
/// relation of `path`, in order.
#[verifier::loop_isolation(false)]
pub fn ancestor_path(graph: &DependencyGraph, node: usize, path: &Vec<String>) -> (r: Option<
    usize,
>)
    requires
        graph_wf(graph@),
        node < graph@.nodes.len(),
    ensures
        match ancestor_from(graph@, node as int, path.deep_view(), 0) {
            Option::None => r is None,
            Option::Some(a) => r == Some(a as usize) && 0 <= a < graph@.nodes.len(),
        },
{
    let ghost pv = path.deep_view();
    let m = path.len();
    let edges = graph.edge_count();
    let mut cur = node;
    let mut k: usize = 0;
    while k < m
        invariant
            k <= m,
            m == pv.len(),
            m == path@.len(),
            edges == graph@.edges.len(),
            graph_wf(graph@),
            cur < graph@.nodes.len(),
            forall|j: int| 0 <= j < m ==> path@[j]@ == pv[j],
            ancestor_from(graph@, node as int, pv, 0) == ancestor_from(
                graph@,
                cur as int,
                pv,
                k as int,
            ),
        decreases m - k,
    {
        proof {
            lemma_first_edge_from(graph@, cur as int, pv[k as int], true, 0);
            assert(path@[k as int]@ == pv[k as int]);
        }
        match first_edge(graph, cur, path[k].as_str(), true) {
            Option::None => {
                proof {
                    assert(first_edge_from(graph@, cur as int, pv[k as int], true, 0) is None);
                    assert(ancestor_from(graph@, cur as int, pv, k as int) is None);
                    assert(ancestor_from(graph@, node as int, pv, 0) is None);
                }
                return None;
            },
            Option::Some(e) => {
                proof {
                    assert(first_edge_from(graph@, cur as int, pv[k as int], true, 0) == Some(
                        e as int,
                    ));
                }
                let ghost old_cur = cur as int;
                cur = graph.edge(e).head;
                proof {
                    assert(ancestor_from(graph@, old_cur, pv, k as int) == ancestor_from(
                        graph@,
                        cur as int,
                        pv,
                        k + 1,
                    ));
                }
            },
        }
        k = k + 1;
    }
    Some(cur)
}

/// Is there an incoming adverbial edge whose head is an infinitive or a
/// participle?
pub open spec fn has_adverbial_verbal_head(g: GraphView, n: int) -> bool {
    exists|k: int|
        0 <= k < g.edges.len() && (#[trigger] g.edges[k]).dependent == n && g.edges[k].relation
            == "ADV"@ && (g.nodes[g.edges[k].head].tag == "VVINF"@ || g.nodes[g.edges[k].head].tag
            == "VVPP"@)
}

/// Mark auxiliary and passive verb readings in the lemma.
pub struct AddAuxPassivTag;

/// The marker suffix a verdict appends.
pub open spec fn verdict_suffix(v: VerbLemmaTag, lemma: Seq<char>) -> Seq<char> {
    match v {
        VerbLemmaTag::Passive => lemma + "%passiv"@,
        VerbLemmaTag::Auxiliary => lemma + "%aux"@,
        VerbLemmaTag::Unmarked => lemma,
    }
}

/// What `AddAuxPassivTag` writes as the lemma of a node.
///
/// For auxiliary and modal tags only: the direct verdict of the node wins;
/// failing one, and provided the node has no non-punctuation dependents, the
/// verdict of the ancestor reached through a conjunct-complement edge and
/// then a coordination edge is applied; failing that too, a verb governing
/// this node through an adverbial edge as infinitive or participle yields
/// the auxiliary marker.
pub open spec fn add_aux_passiv_tag_spec(g: GraphView, n: int) -> Seq<char> {
    let t = g.nodes[n];
    if !(is_auxiliary_tag(t.tag) || is_modal_tag(t.tag)) {
        t.lemma
    } else {
        match verb_lemma_tag_spec(g, n) {
            VerbLemmaTag::Passive => t.lemma + "%passiv"@,
            VerbLemmaTag::Auxiliary => t.lemma + "%aux"@,
            VerbLemmaTag::Unmarked => {
                if has_nonpunct_outgoing(g, n) {
                    t.lemma
                } else {
                    let averdict = match ancestor_from(g, n, seq!["CJ"@, "KON"@], 0) {
                        Option::Some(a) => verb_lemma_tag_spec(g, a),
                        Option::None => VerbLemmaTag::Unmarked,
                    };
                    match averdict {
                        VerbLemmaTag::Unmarked => {
                            if has_adverbial_verbal_head(g, n) {
                                t.lemma + "%aux"@
                            } else {
                                t.lemma
                            }
                        },
                        v => verdict_suffix(v, t.lemma),
                    }
                }
            },
        }
    }
}

impl AddAuxPassivTag {
    /// The new lemma for `node`, per `add_aux_passiv_tag_spec`.
    #[verifier::loop_isolation(false)]
    pub fn transform(&self, graph: &DependencyGraph, node: usize) -> (r: String)
        requires
            graph_wf(graph@),
            node < graph@.nodes.len(),
        ensures
            r@ == add_aux_passiv_tag_spec(graph@, node as int),
    {
        let token = graph.token(node);
        let lemma = token.lemma.as_str();
        let tag = token.tag.as_str();
        if !(is_auxiliary(tag) || is_modal(tag)) {
            return lemma.to_owned();
        }
        match verb_lemma_tag(graph, node) {
            VerbLemmaTag::Passive => {
                let mut r = lemma.to_owned();
                r.append("%passiv");
                return r;
            },
            VerbLemmaTag::Auxiliary => {
                let mut r = lemma.to_owned();
                r.append("%aux");
                return r;
            },
            VerbLemmaTag::Unmarked => {},
        }
        // Is there a non-punctuation dependent?
        let m = graph.edge_count();
        let mut i: usize = 0;
        while i < m
            invariant
                i <= m,
                forall|k: int|
                    0 <= k < i ==> !((#[trigger] graph@.edges[k]).head == node
                        && graph@.edges[k].relation != "-PUNCT-"@),
            decreases m - i,
        {
            let e = graph.edge(i);
            if e.head == node && !str_eq(e.relation.as_str(), "-PUNCT-") {
                proof {
                    assert(has_nonpunct_outgoing(graph@, node as int));
                }
                return lemma.to_owned();
            }
            i = i + 1;
        }
        proof {
            assert(!has_nonpunct_outgoing(graph@, node as int));
        }
        // Ancestor verdict through conjunct complement, then coordination.
        let mut path: Vec<String> = Vec::new();
        path.push("CJ".to_owned());
        path.push("KON".to_owned());
        proof {
            assert(path.deep_view() =~~= seq!["CJ"@, "KON"@]);
        }
        let nodes = graph.node_count();
        match ancestor_path(graph, node, &path) {
            Option::Some(a) => {
                proof {
                    let av = ancestor_from(graph@, node as int, path.deep_view(), 0).unwrap();
                    assert(a == av as usize && 0 <= av < graph@.nodes.len());
                    assert(ancestor_from(graph@, node as int, seq!["CJ"@, "KON"@], 0) == Some(
                        a as int,
                    ));
                }
                match verb_lemma_tag(graph, a) {
                    VerbLemmaTag::Passive => {
                        let mut r = lemma.to_owned();
                        r.append("%passiv");
                        return r;
                    },
                    VerbLemmaTag::Auxiliary => {
                        let mut r = lemma.to_owned();
                        r.append("%aux");
                        return r;
                    },
                    VerbLemmaTag::Unmarked => {},
                }
            },
            Option::None => {},
        }
        // Adverbial governor that is an infinitive or a participle.
        let mut i: usize = 0;
        while i < m
            invariant
                i <= m,
                forall|k: int|
                    0 <= k < i ==> !((#[trigger] graph@.edges[k]).dependent == node
                        && graph@.edges[k].relation == "ADV"@ && (graph@.nodes[graph@.edges[k].head].tag
                        == "VVINF"@ || graph@.nodes[graph@.edges[k].head].tag == "VVPP"@)),
            decreases m - i,
        {
            let e = graph.edge(i);
            if e.dependent == node && str_eq(e.relation.as_str(), "ADV") {
                let head_tok = graph.token(e.head);
                if str_eq(head_tok.tag.as_str(), "VVINF") || str_eq(head_tok.tag.as_str(), "VVPP") {
                    proof {
                        assert(has_adverbial_verbal_head(graph@, node as int));
                    }
                    let mut r = lemma.to_owned();
                    r.append("%aux");
                    return r;
                }
            }
            i = i + 1;
        }
        proof {
            assert(!has_adverbial_verbal_head(graph@, node as int));
        }
        lemma.to_owned()
    }
}

} // verus!
