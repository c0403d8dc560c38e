use uzi_pool::context::{handle_poll, new_puzzle, MinerContext};
use uzi_pool::difficulty::{scale_target, SCALE_DEN, SCALE_NUM, TARGET_EASIEST, TARGET_HARDEST};
use uzi_pool::dispatch::{process_request, route_of, Action, MinerRequest, Route};
use uzi_pool::jsonfmt::{puzzle_json, solution_json};
use uzi_pool::puzzle::{Request, RequestWrapper, Solution};

fn sample_request(key: &str, target: u32) -> Request {
    Request {
        key: key.to_string(),
        blob: "deadbeef".to_string(),
        offset: 0,
        size: 8,
        target,
    }
}

fn wrapper(key: &str, target: u32) -> RequestWrapper {
    RequestWrapper {
        puzzle: Some(sample_request(key, target)),
    }
}

#[test]
fn scale_factor_one_is_identity() {
    assert_eq!(scale_target(0x011f_ffff, 7, 7), 0x011f_ffff);
    assert_eq!(scale_target(1000, 3, 3), 1000);
}

#[test]
fn scale_tenth_multiplies_mantissa() {
    assert_eq!(scale_target(1000, SCALE_NUM, SCALE_DEN), 10000);
}

#[test]
fn scale_three_times_harder() {
    // 0x011fffff has estimated work 2048; three times the work divides
    // the mantissa by three.
    assert_eq!(scale_target(0x011f_ffff, 3, 1), 0x010a_aaaa);
}

#[test]
fn scale_renormalizes_across_exponent() {
    assert_eq!(scale_target(0x05ff_ffff, 1, 300), 0x0301_2bff);
    assert_eq!(scale_target(0x0200_0500, 1_000_000, 1), 0x0400_0053);
}

#[test]
fn scale_keeps_work_order_at_equal_exponent() {
    // At the same zero-byte count, a larger mantissa means less work;
    // scaling by the same factor keeps that order.
    let easier = scale_target(0x0120_0000, 3, 2);
    let harder = scale_target(0x0110_0000, 3, 2);
    assert_eq!(harder, 0x010a_aaaa);
    assert_eq!(easier, 0x0115_5555);
    assert_eq!(easier >> 24, harder >> 24);
    assert!(easier & 0x00ff_ffff >= harder & 0x00ff_ffff);
}

#[test]
fn scale_clamps_at_extremes() {
    assert_eq!(scale_target(TARGET_EASIEST, 1, 300), TARGET_EASIEST);
    assert_eq!(scale_target(TARGET_HARDEST, 1_000_000, 1), TARGET_HARDEST);
}

#[test]
fn malformed_hex_seed_is_rejected() {
    let mut ctx = MinerContext::new();
    let r = new_puzzle(&mut ctx, wrapper("zz", 1000));
    assert!(r.is_err());
    assert!(ctx.cached_seed.is_none());
    assert!(ctx.current_puzzle.puzzle.is_none());

    let mut ctx2 = MinerContext::new();
    let r2 = new_puzzle(&mut ctx2, wrapper("abc", 1000));
    assert!(r2.is_err(), "odd-length hex must be rejected");
}

#[test]
fn install_decodes_seed_and_scales_target() {
    let mut ctx = MinerContext::new();
    let r = new_puzzle(&mut ctx, wrapper("ab12", 1000));
    assert_eq!(r, Ok(true));
    assert_eq!(ctx.cached_seed, Some(vec![0xab, 0x12]));
    let p = ctx.current_puzzle.puzzle.as_ref().unwrap();
    assert_eq!(p.target, 10000);
    assert_eq!(p.key, "ab12");
    assert_eq!(p.blob, "deadbeef");
}

#[test]
fn installing_same_puzzle_twice_rebuilds_nothing() {
    let mut ctx = MinerContext::new();
    assert_eq!(new_puzzle(&mut ctx, wrapper("ab12", 1000)), Ok(true));
    let seed_after_first = ctx.cached_seed.clone();
    let puzzle_after_first = ctx.current_puzzle.clone();
    assert_eq!(new_puzzle(&mut ctx, wrapper("ab12", 1000)), Ok(false));
    assert_eq!(ctx.cached_seed, seed_after_first);
    assert!(ctx.current_puzzle == puzzle_after_first);
}

#[test]
fn seed_change_rebuilds_target_change_does_not() {
    let mut ctx = MinerContext::new();
    assert_eq!(new_puzzle(&mut ctx, wrapper("ab12", 1000)), Ok(true));
    // Same seed, different target: no rebuild.
    assert_eq!(new_puzzle(&mut ctx, wrapper("ab12", 2000)), Ok(false));
    assert_eq!(ctx.cached_seed, Some(vec![0xab, 0x12]));
    // Different seed: rebuilt exactly once, for the new seed.
    assert_eq!(new_puzzle(&mut ctx, wrapper("cd", 2000)), Ok(true));
    assert_eq!(ctx.cached_seed, Some(vec![0xcd]));
}

#[test]
fn two_identical_polls_build_at_most_once() {
    let mut ctx = MinerContext::new();
    let first = handle_poll(&mut ctx, wrapper("ab12", 1000));
    assert_eq!(first, Ok(true));
    let seed_after_first = ctx.cached_seed.clone();
    let puzzle_after_first = ctx.current_puzzle.clone();
    let second = handle_poll(&mut ctx, wrapper("ab12", 1000));
    assert_eq!(second, Ok(false));
    assert_eq!(ctx.cached_seed, seed_after_first);
    assert!(ctx.current_puzzle == puzzle_after_first);
}

#[test]
fn null_puzzle_before_and_after_null_poll() {
    let mut ctx = MinerContext::new();
    match process_request(&ctx, MinerRequest::PuzzleGet) {
        Action::Respond(body) => assert_eq!(body, b"{\"puzzle\":null}".to_vec()),
        _ => panic!("puzzle path must respond"),
    }
    assert_eq!(
        handle_poll(&mut ctx, RequestWrapper { puzzle: None }),
        Ok(false)
    );
    match process_request(&ctx, MinerRequest::PuzzleGet) {
        Action::Respond(body) => assert_eq!(body, b"{\"puzzle\":null}".to_vec()),
        _ => panic!("puzzle path must respond"),
    }
}

#[test]
fn poll_then_get_serves_scaled_puzzle() {
    let mut ctx = MinerContext::new();
    assert_eq!(handle_poll(&mut ctx, wrapper("ab12", 1000)), Ok(true));
    match process_request(&ctx, MinerRequest::PuzzleGet) {
        Action::Respond(body) => assert_eq!(
            String::from_utf8(body).unwrap(),
            "{\"puzzle\":{\"key\":\"ab12\",\"blob\":\"deadbeef\",\"offset\":0,\"size\":8,\"target\":10000}}"
        ),
        _ => panic!("puzzle path must respond"),
    }
}

#[test]
fn solution_post_relays_nonce_body() {
    let ctx = MinerContext::new();
    let sol = Solution {
        nonce: "00ff".to_string(),
    };
    match process_request(&ctx, MinerRequest::SolutionPost(sol)) {
        Action::RelaySolution(body) => {
            assert_eq!(String::from_utf8(body).unwrap(), "{\"nonce\":\"00ff\"}")
        }
        _ => panic!("solution path must relay"),
    }
}

#[test]
fn unknown_path_gets_no_response() {
    let ctx = MinerContext::new();
    assert!(matches!(
        process_request(&ctx, MinerRequest::Other),
        Action::NoResponse
    ));
}

#[test]
fn routes_are_classified_exactly() {
    assert!(matches!(route_of("/miner/puzzle"), Route::Puzzle));
    assert!(matches!(route_of("/miner/solution"), Route::Solution));
    assert!(matches!(route_of("/miner/puzzles"), Route::NotFound));
    assert!(matches!(route_of("/"), Route::NotFound));
    assert!(matches!(route_of(""), Route::NotFound));
}

#[test]
fn json_escapes_string_content() {
    let sol = Solution {
        nonce: "a\"b\\c\nd".to_string(),
    };
    let body = solution_json(&sol);
    assert_eq!(
        String::from_utf8(body).unwrap(),
        "{\"nonce\":\"a\\\"b\\\\c\\u000ad\"}"
    );
}

#[test]
fn puzzle_json_renders_zero_and_large_numbers() {
    let w = RequestWrapper {
        puzzle: Some(Request {
            key: "00".to_string(),
            blob: "".to_string(),
            offset: 0,
            size: usize::MAX,
            target: 0,
        }),
    };
    let body = puzzle_json(&w);
    let expected = format!(
        "{{\"puzzle\":{{\"key\":\"00\",\"blob\":\"\",\"offset\":0,\"size\":{},\"target\":0}}}}",
        usize::MAX
    );
    assert_eq!(String::from_utf8(body).unwrap(), expected);
}

#[test]
fn solution_equality_is_by_nonce() {
    let a = Solution {
        nonce: "00ff".to_string(),
    };
    let b = Solution {
        nonce: "00ff".to_string(),
    };
    let c = Solution {
        nonce: "00fe".to_string(),
    };
    assert!(a == b);
    assert!(!(a == c));
}
