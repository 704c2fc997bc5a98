//! A randomized generator of documents in a KDL-style configuration
//! grammar: nodes with identifiers, properties, values, comments and
//! nested child blocks.  Generation is a single streaming pass over the
//! grammar's productions, driven by a deterministic seeded random source,
//! so a run is reproducible from its seed and configuration.

#![verifier::loop_isolation(false)]

use vstd::prelude::*;

pub mod gen;
mod rng;
pub mod text;

pub use gen::document;

verus! {

/// Bounds and flags for one generation run.  The record is read-only for
/// the whole run.
///
/// Each `*_max` field caps one repeated element of the grammar; the caps
/// bound the repetition counts handed to the random samplers, not the
/// exact size of the output.  `nesting_max` bounds the recursive
/// delimiter structures (raw-string hash fences, nested multi-line
/// comments and their chunked bodies) that the grammar otherwise leaves
/// unbounded, so every run terminates.
#[derive(Clone, Copy)]
pub struct Configuration {
    /// Maximum nesting depth of child-node blocks; beyond it a block
    /// stays empty but still closes its delimiters.
    pub depth_max: u32,
    /// Upper bound on sibling nodes per block.
    pub nodes_per_child_max: u32,
    /// Upper bound on repeated whitespace units between tokens.
    pub extra_space_max: u32,
    /// Upper bound on properties and arguments per node.
    pub props_or_args_max: u32,
    /// Upper bound on blank or comment lines around a node sequence.
    pub blank_lines_max: u32,
    /// Repetition bound for identifier characters.
    pub identifier_len_max: u32,
    /// Repetition bound for string-body characters.
    pub string_len_max: u32,
    /// Repetition bound for numeric-literal digits.
    pub num_len_max: u32,
    /// Repetition bound for comment-body characters.
    pub comment_len_max: u32,
    /// Bound on raw-string fence depth, comment nesting and comment
    /// body chunks.
    pub nesting_max: u32,
    /// Bracket every production's output with rule markers (the result
    /// is no longer plain grammar text).
    pub debug: bool,
    /// Restrict every sampled character class to its ASCII subset.
    pub ascii_only: bool,
    /// Seed requested by the caller, if any; the resolved seed is passed
    /// to `document` separately.
    pub rand_seed: Option<u64>,
}

impl Configuration {
    /// The bounds under which every production can draw its repetition
    /// counts: a bare identifier needs at least one character,
    /// inter-token space draws from the range `1..=extra_space_max`,
    /// and the comment samplers add `comment_len_max` to their
    /// patterns' lower repeat count of one, a sum that must fit in a
    /// `u32`.
    pub open spec fn wf(self) -> bool {
        self.identifier_len_max >= 1 && self.extra_space_max >= 1 && self.comment_len_max
            < u32::MAX
    }
}

} // verus!
