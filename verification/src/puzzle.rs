//! Wire-format data shapes: puzzles, solutions, and the accounting
//! records the protocol defines.
//!
//! A `Request` is one proof-of-work puzzle: an opaque `blob` template, the
//! mutable region `offset`/`size` inside it, the hex seed `key` the hashing
//! parameters derive from, and the encoded difficulty `target`.
//! `RequestWrapper` is the "puzzle or no work" cell the node reports and
//! the relay advertises. `Share` and `Job` are accounting shapes defined
//! by the protocol for a future layer; no logic here reads them.

use vstd::prelude::*;

verus! {

/// Mathematical model of a puzzle: the string fields as character
/// sequences, the numbers as they stand.
pub ghost struct PuzzleView {
    pub key: Seq<char>,
    pub blob: Seq<char>,
    pub offset: nat,
    pub size: nat,
    pub target: u32,
}

/// One proof-of-work puzzle as carried on the wire.
#[derive(Debug, Clone)]
pub struct Request {
    pub key: String,
    pub blob: String,
    pub offset: usize,
    pub size: usize,
    pub target: u32,
}

impl View for Request {
    type V = PuzzleView;

    open spec fn view(&self) -> PuzzleView {
        PuzzleView {
            key: self.key@,
            blob: self.blob@,
            offset: self.offset as nat,
            size: self.size as nat,
            target: self.target,
        }
    }
}

impl PartialEq for Request {
    fn eq(&self, other: &Request) -> (r: bool) {
        self.key == other.key && self.blob == other.blob && self.offset == other.offset
            && self.size == other.size && self.target == other.target
    }
}

impl vstd::std_specs::cmp::PartialEqSpecImpl for Request {
    open spec fn obeys_eq_spec() -> bool {
        true
    }

    open spec fn eq_spec(&self, other: &Request) -> bool {
        self@ == other@
    }
}

/// The current-puzzle cell: `None` means the node reports no work.
#[derive(Debug, Clone)]
pub struct RequestWrapper {
    pub puzzle: Option<Request>,
}

impl View for RequestWrapper {
    type V = Option<PuzzleView>;

    open spec fn view(&self) -> Option<PuzzleView> {
        match self.puzzle {
            Some(p) => Some(p@),
            None => None,
        }
    }
}

impl PartialEq for RequestWrapper {
    fn eq(&self, other: &RequestWrapper) -> (r: bool) {
        match (&self.puzzle, &other.puzzle) {
            (Some(a), Some(b)) => a == b,
            (None, None) => true,
            _ => false,
        }
    }
}

impl vstd::std_specs::cmp::PartialEqSpecImpl for RequestWrapper {
    open spec fn obeys_eq_spec() -> bool {
        true
    }

    open spec fn eq_spec(&self, other: &RequestWrapper) -> bool {
        self@ == other@
    }
}

/// A candidate nonce a miner claims solves the advertised puzzle.
/// It is relayed upstream as-is, never verified locally.
#[derive(Debug, Clone)]
pub struct Solution {
    pub nonce: String,
}

impl View for Solution {
    type V = Seq<char>;

    open spec fn view(&self) -> Seq<char> {
        self.nonce@
    }
}

impl PartialEq for Solution {
    fn eq(&self, other: &Solution) -> (r: bool) {
        self.nonce == other.nonce
    }
}

impl vstd::std_specs::cmp::PartialEqSpecImpl for Solution {
    open spec fn obeys_eq_spec() -> bool {
        true
    }

    open spec fn eq_spec(&self, other: &Solution) -> bool {
        self@ == other@
    }
}

/// One miner's claim on a puzzle: its public key paired with a nonce.
/// Defined by the protocol for per-miner accounting; carried, not read.
#[derive(Debug, Clone)]
pub struct Share {
    pub pub_key: String,
    pub nonce: String,
}

/// A puzzle together with the shares submitted against it. Defined by
/// the protocol for aggregated accounting; carried, not read.
#[derive(Debug, Clone)]
pub struct Job {
    pub puzzle: Request,
    pub shares: Vec<Share>,
}

} // verus!
