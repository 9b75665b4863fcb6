//! The per-sentence dependency graph.
//!
//! A sentence becomes a directed graph: one node per token, one labelled
//! edge from each token's head to the token.  The graph lives for exactly
//! one sentence; transformation rules read it and the pipeline engine
//! writes lemmas back into its nodes.

use vstd::prelude::*;
use crate::LemmatizationError;

verus! {

/// Specification-level contents of a token.
#[verifier::ext_equal]
pub ghost struct TokView {
    pub form: Seq<char>,
    pub lemma: Seq<char>,
    pub tag: Seq<char>,
}

/// Specification-level contents of a dependency edge.
#[verifier::ext_equal]
pub ghost struct EdgeView {
    pub head: int,
    pub dependent: int,
    pub relation: Seq<char>,
}

/// Specification-level contents of a dependency graph.
#[verifier::ext_equal]
pub ghost struct GraphView {
    pub nodes: Seq<TokView>,
    pub edges: Seq<EdgeView>,
}

/// Read access to a token's observable attributes.
pub trait Token {
    /// The surface form, as characters.
    spec fn spec_form(&self) -> Seq<char>;

    /// The current lemma, as characters.
    spec fn spec_lemma(&self) -> Seq<char>;

    /// The part-of-speech tag, as characters.
    spec fn spec_tag(&self) -> Seq<char>;

    /// The surface form.
    fn form(&self) -> (r: &str)
        ensures
            r@ == self.spec_form(),
    ;

    /// The current lemma.
    fn lemma(&self) -> (r: &str)
        ensures
            r@ == self.spec_lemma(),
    ;

    /// The part-of-speech tag.
    fn tag(&self) -> (r: &str)
        ensures
            r@ == self.spec_tag(),
    ;
}

/// Write access to a token's lemma.
pub trait MutableToken: Token {
    /// Replace the lemma unconditionally; form and tag are untouched.
    fn set_lemma(&mut self, lemma: String)
        ensures
            final(self).spec_lemma() == lemma@,
            final(self).spec_form() == old(self).spec_form(),
            final(self).spec_tag() == old(self).spec_tag(),
    ;
}

/// A token of a sentence: surface form, part-of-speech tag, and a mutable
/// lemma (empty when still unset).
pub struct CorpusToken {
    pub form: String,
    pub lemma: String,
    pub tag: String,
}

impl View for CorpusToken {
    type V = TokView;

    open spec fn view(&self) -> TokView {
        TokView { form: self.form@, lemma: self.lemma@, tag: self.tag@ }
    }
}

impl CorpusToken {
    /// A token with the given attributes.
    pub fn new(form: String, lemma: String, tag: String) -> (r: Self)
        ensures
            r@.form == form@,
            r@.lemma == lemma@,
            r@.tag == tag@,
    {
        CorpusToken { form, lemma, tag }
    }
}

impl Token for CorpusToken {
    open spec fn spec_form(&self) -> Seq<char> {
        self@.form
    }

    open spec fn spec_lemma(&self) -> Seq<char> {
        self@.lemma
    }

    open spec fn spec_tag(&self) -> Seq<char> {
        self@.tag
    }

    fn form(&self) -> (r: &str) {
        self.form.as_str()
    }

    fn lemma(&self) -> (r: &str) {
        self.lemma.as_str()
    }

    fn tag(&self) -> (r: &str) {
        self.tag.as_str()
    }
}

impl MutableToken for CorpusToken {
    fn set_lemma(&mut self, lemma: String) {
        self.lemma = lemma;
    }
}

/// A dependency edge from a head node to a dependent node.
pub struct DepEdge {
    pub head: usize,
    pub dependent: usize,
    pub relation: String,
}

impl View for DepEdge {
    type V = EdgeView;

    open spec fn view(&self) -> EdgeView {
        EdgeView {
            head: self.head as int,
            dependent: self.dependent as int,
            relation: self.relation@,
        }
    }
}

/// A directed graph of tokens connected by labelled dependency edges.
pub struct DependencyGraph {
    pub nodes: Vec<CorpusToken>,
    pub edges: Vec<DepEdge>,
}

impl View for DependencyGraph {
    type V = GraphView;

    open spec fn view(&self) -> GraphView {
        GraphView {
            nodes: Seq::new(self.nodes@.len(), |i: int| self.nodes@[i]@),
            edges: Seq::new(self.edges@.len(), |i: int| self.edges@[i]@),
        }
    }
}

/// Every edge connects nodes of the graph.
pub open spec fn graph_wf(g: GraphView) -> bool {
    forall|i: int|
        #![trigger g.edges[i]]
        0 <= i < g.edges.len() ==> {
            &&& 0 <= g.edges[i].head < g.nodes.len()
            &&& 0 <= g.edges[i].dependent < g.nodes.len()
        }
}

/// Each node has at most one incoming edge; rules that walk towards an
/// ancestor rely on this.
pub open spec fn single_headed(g: GraphView) -> bool {
    forall|i: int, j: int|
        0 <= i < j < g.edges.len() ==> #[trigger] g.edges[i].dependent != #[trigger] g.edges[
            j
        ].dependent
}

impl DependencyGraph {
    /// An empty graph.
    pub fn new() -> (r: Self)
        ensures
            r@.nodes.len() == 0,
            r@.edges.len() == 0,
    {
        DependencyGraph { nodes: Vec::new(), edges: Vec::new() }
    }

    /// The number of nodes.
    pub fn node_count(&self) -> (r: usize)
        ensures
            r == self@.nodes.len(),
    {
        self.nodes.len()
    }

    /// The number of edges.
    pub fn edge_count(&self) -> (r: usize)
        ensures
            r == self@.edges.len(),
    {
        self.edges.len()
    }

    /// The token at a node.
    pub fn token(&self, node: usize) -> (r: &CorpusToken)
        requires
            node < self@.nodes.len(),
        ensures
            r@ == self@.nodes[node as int],
    {
        &self.nodes[node]
    }

    /// The edge with the given index.
    pub fn edge(&self, i: usize) -> (r: &DepEdge)
        requires
            i < self@.edges.len(),
        ensures
            r@ == self@.edges[i as int],
    {
        &self.edges[i]
    }

    /// Append a node; its index is returned.
    pub fn add_node(&mut self, token: CorpusToken) -> (r: usize)
        ensures
            final(self)@.nodes =~= old(self)@.nodes.push(token@),
            final(self)@.edges =~= old(self)@.edges,
            r == old(self)@.nodes.len(),
    {
        let r = self.nodes.len();
        self.nodes.push(token);
        r
    }

    /// Append an edge from `head` to `dependent` labelled `relation`.
    pub fn add_edge(&mut self, head: usize, dependent: usize, relation: String)
        requires
            head < old(self)@.nodes.len(),
            dependent < old(self)@.nodes.len(),
        ensures
            final(self)@.nodes =~= old(self)@.nodes,
            final(self)@.edges =~= old(self)@.edges.push(
                EdgeView { head: head as int, dependent: dependent as int, relation: relation@ },
            ),
    {
        self.edges.push(DepEdge { head, dependent, relation });
    }

    /// Overwrite the lemma of a node.
    pub fn set_lemma(&mut self, node: usize, lemma: String)
        requires
            node < old(self)@.nodes.len(),
        ensures
            final(self)@.nodes =~= old(self)@.nodes.update(
                node as int,
                TokView { lemma: lemma@, ..old(self)@.nodes[node as int] },
            ),
            final(self)@.edges =~= old(self)@.edges,
    {
        let tok = &mut self.nodes[node];
        tok.lemma = lemma;
    }
}

/// A token as read from the corpus: attributes plus the head pointer.
/// `head` is `0` for a root token, otherwise the one-based index of the
/// head within the same sentence.
pub struct InputToken {
    pub form: String,
    pub lemma: String,
    pub tag: String,
    pub head: usize,
    pub head_rel: Option<String>,
}

/// Specification-level contents of an input token.
pub ghost struct InputTokView {
    pub form: Seq<char>,
    pub lemma: Seq<char>,
    pub tag: Seq<char>,
    pub head: int,
    pub head_rel: Option<Seq<char>>,
}

impl View for InputToken {
    type V = InputTokView;

    open spec fn view(&self) -> InputTokView {
        InputTokView {
            form: self.form@,
            lemma: self.lemma@,
            tag: self.tag@,
            head: self.head as int,
            head_rel: match self.head_rel {
                Some(ref r) => Some(r@),
                None => None,
            },
        }
    }
}

impl DeepView for InputToken {
    type V = InputTokView;

    open spec fn deep_view(&self) -> InputTokView {
        self.view()
    }
}

/// The nodes a sentence contributes, in sentence order.
pub open spec fn nodes_of_sentence(s: Seq<InputTokView>) -> Seq<TokView> {
    Seq::new(s.len(), |i: int| TokView { form: s[i].form, lemma: s[i].lemma, tag: s[i].tag })
}

/// The edges a sentence contributes: one per non-root token, from the head
/// node to the dependent node, in sentence order.
pub open spec fn edges_of_sentence(s: Seq<InputTokView>) -> Seq<EdgeView>
    decreases s.len(),
{
    if s.len() == 0 {
        Seq::empty()
    } else {
        edges_of_sentence(s.drop_last()) + {
            let i = s.len() - 1;
            let t = s.last();
            if t.head != 0 && t.head_rel is Some {
                seq![
                    EdgeView { head: t.head - 1, dependent: i as int, relation: t.head_rel.unwrap() },
                ]
            } else {
                Seq::empty()
            }
        }
    }
}

/// Build the dependency graph of one sentence.  Fails, with the whole
/// sentence rejected, exactly when some token lacks a head relation.
pub fn sentence_to_graph(sentence: &Vec<InputToken>) -> (r: Result<
    DependencyGraph,
    LemmatizationError,
>)
    requires
        forall|i: int| 0 <= i < sentence@.len() ==> #[trigger] sentence@[i]@.head <= sentence@.len(),
    ensures
        (r is Ok) == (forall|i: int|
            0 <= i < sentence@.len() ==> #[trigger] sentence@[i]@.head_rel is Some),
        r matches Ok(g) ==> {
            &&& g@.nodes == nodes_of_sentence(sentence.deep_view())
            &&& g@.edges == edges_of_sentence(sentence.deep_view())
        },
        r matches Err(e) ==> e == LemmatizationError::MissingHeadRelation,
{
    let n = sentence.len();
    let ghost sv = sentence.deep_view();
    proof {
        assert(sv.len() == sentence@.len());
        assert(forall|i: int| 0 <= i < sv.len() ==> sv[i] == sentence@[i]@);
    }
    let mut g = DependencyGraph::new();
    let mut i: usize = 0;
    while i < n
        invariant
            i <= n,
            n == sv.len(),
            n == sentence@.len(),
            forall|k: int| 0 <= k < sv.len() ==> sv[k] == sentence@[k]@,
            g@.nodes =~= nodes_of_sentence(sv.take(i as int)),
            g@.edges.len() == 0,
        decreases n - i,
    {
        let t = &sentence[i];
        let tok = CorpusToken::new(t.form.clone(), t.lemma.clone(), t.tag.clone());
        g.add_node(tok);
        proof {
            assert(g@.nodes =~= nodes_of_sentence(sv.take(i + 1)));
        }
        i = i + 1;
    }
    proof {
        assert(sv.take(n as int) =~= sv);
    }
    let mut i: usize = 0;
    while i < n
        invariant
            i <= n,
            n == sv.len(),
            n == sentence@.len(),
            forall|k: int| 0 <= k < sv.len() ==> sv[k] == sentence@[k]@,
            forall|k: int| 0 <= k < sv.len() ==> #[trigger] sv[k].head <= sv.len(),
            g@.nodes =~= nodes_of_sentence(sv),
            g@.edges =~= edges_of_sentence(sv.take(i as int)),
            forall|k: int| 0 <= k < i ==> #[trigger] sv[k].head_rel is Some,
        decreases n - i,
    {
        let t = &sentence[i];
        proof {
            assert(t@ == sv[i as int]);
            assert(sv[i as int].head <= n);
        }
        match &t.head_rel {
            None => {
                proof {
                    assert(sentence@[i as int]@.head_rel is None);
                }
                return Err(LemmatizationError::MissingHeadRelation);
            },
            Some(rel) => {
                if t.head != 0 {
                    g.add_edge(t.head - 1, i, rel.clone());
                }
                proof {
                    assert(sv.take(i + 1).drop_last() =~= sv.take(i as int));
                    assert(sv.take(i + 1).last() == sv[i as int]);
                    assert(g@.edges =~= edges_of_sentence(sv.take(i + 1)));
                }
            },
        }
        i = i + 1;
    }
    proof {
        assert(sv.take(n as int) =~= sv);
        assert forall|k: int| 0 <= k < sentence@.len() implies #[trigger] sentence@[k]@.head_rel
            is Some by {
            assert(sv[k].head_rel is Some);
        }
    }
    Ok(g)
}

/// Construction yields a well-formed, single-headed graph: every edge
/// connects nodes of the sentence, and each token has at most one
/// incoming edge.
pub proof fn lemma_sentence_graph_wf(s: Seq<InputTokView>, g: GraphView)
    requires
        g.nodes == nodes_of_sentence(s),
        g.edges == edges_of_sentence(s),
        forall|i: int| 0 <= i < s.len() ==> 0 <= #[trigger] s[i].head <= s.len(),
    ensures
        graph_wf(g),
        single_headed(g),
{
    lemma_edges_of_sentence_shape(s, s.len() as int);
}

/// Every edge of `edges_of_sentence(s)` points from a valid head to the
/// token that contributed it, and dependents are strictly increasing.
proof fn lemma_edges_of_sentence_shape(s: Seq<InputTokView>, nb: int)
    requires
        forall|i: int| 0 <= i < s.len() ==> 0 <= #[trigger] s[i].head <= nb,
    ensures
        forall|k: int|
            #![trigger edges_of_sentence(s)[k]]
            0 <= k < edges_of_sentence(s).len() ==> {
                &&& 0 <= edges_of_sentence(s)[k].head < nb
                &&& 0 <= edges_of_sentence(s)[k].dependent < s.len()
            },
        forall|k: int, l: int|
            #![trigger edges_of_sentence(s)[k], edges_of_sentence(s)[l]]
            0 <= k < l < edges_of_sentence(s).len() ==> edges_of_sentence(s)[k].dependent
                < edges_of_sentence(s)[l].dependent,
    decreases s.len(),
{
    if s.len() > 0 {
        assert(forall|i: int|
            0 <= i < s.drop_last().len() ==> #[trigger] s.drop_last()[i].head == s[i].head);
        lemma_edges_of_sentence_shape(s.drop_last(), nb);
        let prev = edges_of_sentence(s.drop_last());
        let cur = edges_of_sentence(s);
        assert(forall|k: int| 0 <= k < prev.len() ==> #[trigger] cur[k] == prev[k]);
        if s.last().head != 0 && s.last().head_rel is Some {
            assert(cur.last().dependent == s.len() - 1);
            assert forall|k: int| 0 <= k < prev.len() implies #[trigger] prev[k].dependent
                < s.drop_last().len() by {
                assert(0 <= prev[k].dependent < s.drop_last().len());
            }
        }
    }
}

} // verus!
