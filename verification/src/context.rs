//! The shared mining context and the puzzle-installation logic.
//!
//! `MinerContext` is the single state cell both flows touch: the poller
//! installs fresh puzzles into it, the dispatcher reads it to answer
//! miners. The embedder must guard it with one exclusive lock, hold that
//! lock only around calls into this module, and never across network
//! I/O.
//!
//! The expensive seed-derived hashing context is keyed by the decoded
//! seed recorded in `cached_seed`; the construction itself is performed
//! by the embedder exactly when `new_puzzle` or `handle_poll` returns
//! `Ok(true)`. The contracts here pin when that happens: on a seed
//! change, and never when the seed is unchanged.

use crate::difficulty::{scale_target, spec_scale, SCALE_DEN, SCALE_NUM};
use crate::hexdec::{hex_bytes, hex_decode, hex_ok, HexError};
use crate::puzzle::{PuzzleView, RequestWrapper};
use vstd::prelude::*;
use vstd::string::StringSliceAdditionalSpecFns;
use vstd::utf8::encode_utf8;

verus! {

/// Model of the shared mining context: the seed the hashing context is
/// built from, and the advertised puzzle.
pub ghost struct ContextView {
    pub cached_seed: Option<Seq<u8>>,
    pub puzzle: Option<PuzzleView>,
}

/// The shared state cell: the seed of the currently built hashing
/// context, and the puzzle currently advertised to miners.
pub struct MinerContext {
    /// Seed bytes the current hashing context was built from; `None`
    /// until the first successful installation.
    pub cached_seed: Option<Vec<u8>>,
    /// The puzzle served to miners; holds `None` while the node reports
    /// no work.
    pub current_puzzle: RequestWrapper,
}

impl View for MinerContext {
    type V = ContextView;

    open spec fn view(&self) -> ContextView {
        ContextView {
            cached_seed: match self.cached_seed {
                Some(v) => Some(v@),
                None => None,
            },
            puzzle: self.current_puzzle@,
        }
    }
}

impl MinerContext {
    /// A fresh context: nothing cached, no work advertised.
    pub fn new() -> (c: MinerContext)
        ensures
            c@.cached_seed is None,
            c@.puzzle is None,
    {
        MinerContext { cached_seed: None, current_puzzle: RequestWrapper { puzzle: None } }
    }
}

/// The seed a puzzle names: its hex key decoded, if well-formed.
pub open spec fn seed_of(p: PuzzleView) -> Option<Seq<u8>> {
    if hex_ok(encode_utf8(p.key)) {
        Some(hex_bytes(encode_utf8(p.key)))
    } else {
        None
    }
}

/// A puzzle as advertised to miners: the node's puzzle with its target
/// rescaled by the pool's factor.
pub open spec fn scaled(p: PuzzleView) -> PuzzleView {
    PuzzleView { target: spec_scale(p.target, SCALE_NUM as nat, SCALE_DEN as nat), ..p }
}

/// What installing a fetched puzzle cell does to the context.
///
/// A null cell is installed as-is and touches the cache not at all. A
/// puzzle with a malformed hex seed is rejected and leaves the context
/// untouched. Otherwise the rescaled puzzle is installed together with
/// its seed, and the result says whether the seed changed — exactly
/// when the embedder must rebuild the hashing context.
pub open spec fn install_post(
    pre: ContextView,
    w: Option<PuzzleView>,
    post: ContextView,
    r: Result<bool, HexError>,
) -> bool {
    match w {
        None => {
            &&& r == Ok::<bool, HexError>(false)
            &&& post.cached_seed == pre.cached_seed
            &&& post.puzzle is None
        },
        Some(p) => match seed_of(p) {
            None => {
                &&& r == Err::<bool, HexError>(HexError)
                &&& post == pre
            },
            Some(k) => {
                &&& r == Ok::<bool, HexError>(pre.cached_seed != Some(k))
                &&& post.cached_seed == Some(k)
                &&& post.puzzle == Some(scaled(p))
            },
        },
    }
}

/// Byte-slice equality.
pub(crate) fn bytes_eq(a: &[u8], b: &[u8]) -> (r: bool)
    ensures
        r == (a@ == b@),
{
    if a.len() != b.len() {
        return false;
    }
    let mut i: usize = 0;
    while i < a.len()
        invariant
            i <= a@.len(),
            a@.len() == b@.len(),
            forall|j: int| 0 <= j < i ==> a@[j] == b@[j],
        decreases a@.len() - i,
    {
        if a[i] != b[i] {
            return false;
        }
        i = i + 1;
    }
    proof {
        assert(a@ =~= b@);
    }
    true
}

/// Install a fetched puzzle cell into the context.
///
/// Returns `Ok(true)` exactly when the puzzle's seed differs from the
/// cached one, telling the embedder to rebuild the hashing context; a
/// malformed hex seed is reported and installs nothing.
pub fn new_puzzle(ctx: &mut MinerContext, request: RequestWrapper) -> (r: Result<bool, HexError>)
    ensures
        install_post(old(ctx)@, request@, final(ctx)@, r),
{
    match request.puzzle {
        None => {
            ctx.current_puzzle = RequestWrapper { puzzle: None };
            Ok(false)
        },
        Some(mut req) => {
            match hex_decode(req.key.as_str().as_bytes()) {
                Err(e) => Err(e),
                Ok(seed) => {
                    let rebuild = match &ctx.cached_seed {
                        Some(old_seed) => !bytes_eq(old_seed.as_slice(), seed.as_slice()),
                        None => true,
                    };
                    if rebuild {
                        ctx.cached_seed = Some(seed);
                    }
                    req.target = scale_target(req.target, SCALE_NUM, SCALE_DEN);
                    ctx.current_puzzle = RequestWrapper { puzzle: Some(req) };
                    Ok(rebuild)
                },
            }
        },
    }
}

/// What one poll cycle does: a fetched cell equal to the advertised one
/// is skipped, anything else is installed.
pub open spec fn poll_post(
    pre: ContextView,
    w: Option<PuzzleView>,
    post: ContextView,
    r: Result<bool, HexError>,
) -> bool {
    if pre.puzzle == w {
        &&& post == pre
        &&& r == Ok::<bool, HexError>(false)
    } else {
        install_post(pre, w, post, r)
    }
}

/// One poll cycle against a fetched puzzle cell: compare, then install
/// only on change. The result carries the rebuild decision as in
/// `new_puzzle`.
pub fn handle_poll(ctx: &mut MinerContext, fetched: RequestWrapper) -> (r: Result<bool, HexError>)
    ensures
        poll_post(old(ctx)@, fetched@, final(ctx)@, r),
{
    if ctx.current_puzzle == fetched {
        Ok(false)
    } else {
        new_puzzle(ctx, fetched)
    }
}

/// Installing the same puzzle cell twice in a row changes nothing the
/// second time: the context stays exactly as after the first
/// installation, and no rebuild is asked for.
pub proof fn lemma_install_idempotent(
    c0: ContextView,
    w: Option<PuzzleView>,
    c1: ContextView,
    r1: Result<bool, HexError>,
    c2: ContextView,
    r2: Result<bool, HexError>,
)
    requires
        install_post(c0, w, c1, r1),
        install_post(c1, w, c2, r2),
    ensures
        c2 == c1,
        r1 is Ok ==> r2 == Ok::<bool, HexError>(false),
{
}

/// Across two poll cycles that fetch identical puzzle cells, the hashing
/// context is built at most once: the second cycle never asks for a
/// rebuild.
pub proof fn lemma_poll_builds_once(
    c0: ContextView,
    w: Option<PuzzleView>,
    c1: ContextView,
    r1: Result<bool, HexError>,
    c2: ContextView,
    r2: Result<bool, HexError>,
)
    requires
        poll_post(c0, w, c1, r1),
        poll_post(c1, w, c2, r2),
    ensures
        c2.cached_seed == c1.cached_seed,
        r1 is Ok ==> r2 == Ok::<bool, HexError>(false),
{
}

/// A seed change rebuilds the hashing context exactly once — the one
/// installation that changed it asks for the rebuild — while a puzzle
/// that keeps its seed, whatever else it changes, never does.
pub proof fn lemma_seed_change(
    c0: ContextView,
    p1: PuzzleView,
    c1: ContextView,
    r1: Result<bool, HexError>,
    p2: PuzzleView,
    c2: ContextView,
    r2: Result<bool, HexError>,
)
    requires
        install_post(c0, Some(p1), c1, r1),
        install_post(c1, Some(p2), c2, r2),
        seed_of(p1) is Some,
        seed_of(p2) is Some,
    ensures
        seed_of(p2) != seed_of(p1) ==> r2 == Ok::<bool, HexError>(true) && c2.cached_seed
            == seed_of(p2),
        seed_of(p2) == seed_of(p1) ==> r2 == Ok::<bool, HexError>(false) && c2.cached_seed
            == c1.cached_seed,
{
}

} // verus!
