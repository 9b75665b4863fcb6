//! Normalization and denormalization of lexical lemmas in
//! dependency-annotated German sentences.
//!
//! A sentence arrives as a dependency graph of tokens; an ordered pipeline
//! of transformation rules rewrites each token's lemma, either adding the
//! treebank convention's markings (separable-prefix chains, auxiliary and
//! passive markers, case restoration) or stripping them back to plain
//! lemmas.  A small finite-state prefix set drives the segmentation of verb
//! forms into prefix chains.

use vstd::prelude::*;

pub mod automaton;
pub mod batch;
pub mod constants;
pub mod graph;
pub mod lookup;
pub mod svp;
pub mod text;
pub mod transform;

verus! {

/// Errors raised while building a sentence graph.
#[derive(Debug)]
pub enum LemmatizationError {
    /// A token in the input sentence carries no head relation; the sentence
    /// cannot become a graph.
    MissingHeadRelation,
}

impl LemmatizationError {
    /// A short description of the error.
    pub fn message(&self) -> (r: String)
        ensures
            r@ == "token without head relation"@,
    {
        "token without head relation".to_owned()
    }
}

} // verus!
