//! The request dispatcher's decisions.
//!
//! The embedder's accept loop classifies each inbound request with
//! `route_of`, parses a solution body if there is one, and asks
//! `process_request` what to do. The returned action is performed
//! outside the shared context's lock: serving the puzzle needs no
//! upstream call, and relaying a solution needs nothing of the context
//! at all — `lemma_solution_path_ignores_context` pins that down, so a
//! slow relay can never hold the puzzle path's data hostage.

use crate::context::{bytes_eq, ContextView, MinerContext};
use crate::jsonfmt::{json_of_solution, json_of_wrapper, puzzle_json, solution_json};
use crate::puzzle::Solution;
use vstd::prelude::*;
use vstd::string::StringSliceAdditionalSpecFns;

verus! {

/// An inbound miner request, already read off the wire.
pub enum MinerRequest {
    /// `GET /miner/puzzle`.
    PuzzleGet,
    /// `POST /miner/solution` with a parsed body.
    SolutionPost(Solution),
    /// Any other path.
    Other,
}

/// What the embedder must do with a request.
pub enum Action {
    /// Answer the miner with this body.
    Respond(Vec<u8>),
    /// Post this body to the node's solution endpoint, then acknowledge
    /// the miner with `OK` once that call succeeds.
    RelaySolution(Vec<u8>),
    /// Answer nothing: the path is unknown.
    NoResponse,
}

/// The dispatcher's contract: the puzzle path serves the advertised
/// cell as JSON, the solution path relays the nonce body, anything else
/// gets no response.
pub open spec fn dispatch_post(ctx: ContextView, req: MinerRequest, a: Action) -> bool {
    match req {
        MinerRequest::PuzzleGet => a matches Action::Respond(b) && b@ == json_of_wrapper(
            ctx.puzzle,
        ),
        MinerRequest::SolutionPost(s) => a matches Action::RelaySolution(b) && b@
            == json_of_solution(s@),
        MinerRequest::Other => a is NoResponse,
    }
}

/// Decide how a request is answered against the current context.
pub fn process_request(ctx: &MinerContext, req: MinerRequest) -> (a: Action)
    ensures
        dispatch_post(ctx@, req, a),
{
    match req {
        MinerRequest::PuzzleGet => Action::Respond(puzzle_json(&ctx.current_puzzle)),
        MinerRequest::SolutionPost(s) => Action::RelaySolution(solution_json(&s)),
        MinerRequest::Other => Action::NoResponse,
    }
}

/// The paths the relay serves.
pub enum Route {
    Puzzle,
    Solution,
    NotFound,
}

/// Classify a request path.
pub fn route_of(url: &str) -> (r: Route)
    ensures
        r == Route::Puzzle <==> url.spec_bytes() == "/miner/puzzle".spec_bytes(),
        r == Route::Solution <==> url.spec_bytes() == "/miner/solution".spec_bytes()
            && url.spec_bytes() != "/miner/puzzle".spec_bytes(),
{
    if bytes_eq(url.as_bytes(), "/miner/puzzle".as_bytes()) {
        Route::Puzzle
    } else if bytes_eq(url.as_bytes(), "/miner/solution".as_bytes()) {
        Route::Solution
    } else {
        Route::NotFound
    }
}

/// The solution path reads nothing of the shared mining context: a
/// dispatch for a posted solution is correct against one context state
/// exactly when it is correct against any other. The relay call can
/// therefore be made with the context lock released.
pub proof fn lemma_solution_path_ignores_context(
    c1: ContextView,
    c2: ContextView,
    s: Solution,
    a: Action,
)
    ensures
        dispatch_post(c1, MinerRequest::SolutionPost(s), a) == dispatch_post(
            c2,
            MinerRequest::SolutionPost(s),
            a,
        ),
{
}

} // verus!
