//! JSON framing of the two bodies the relay produces: the advertised
//! puzzle (`{"puzzle":null}` or the five-field puzzle object) and the
//! solution forwarded upstream (`{"nonce":"..."}`).
//!
//! Output is UTF-8 bytes. String content passes through unchanged except
//! for the JSON escapes: quote and backslash get a backslash, control
//! bytes become `\u00XX`.

use crate::puzzle::{PuzzleView, RequestWrapper, Solution};
use vstd::prelude::*;
use vstd::string::StringSliceAdditionalSpecFns;
use vstd::utf8::encode_utf8;

verus! {

/// Lower-case hex digit of a nibble.
pub open spec fn hex_digit_byte(n: u8) -> u8
    recommends
        n < 16,
{
    if n < 10 {
        (48 + n) as u8
    } else {
        (87 + n) as u8
    }
}

/// JSON escape of one byte of string content.
pub open spec fn json_escape_byte(b: u8) -> Seq<u8> {
    if b == 34 {
        seq![92u8, 34u8]
    } else if b == 92 {
        seq![92u8, 92u8]
    } else if b < 32 {
        seq![92u8, 117u8, 48u8, 48u8, hex_digit_byte(b / 16), hex_digit_byte(b % 16)]
    } else {
        seq![b]
    }
}

/// JSON escape of a byte string, byte by byte.
pub open spec fn json_escape(s: Seq<u8>) -> Seq<u8>
    decreases s.len(),
{
    if s.len() == 0 {
        Seq::empty()
    } else {
        json_escape(s.drop_last()) + json_escape_byte(s.last())
    }
}

/// Decimal digits of a number, most significant first.
pub open spec fn dec_bytes(n: nat) -> Seq<u8>
    decreases n,
{
    if n < 10 {
        seq![(48 + n) as u8]
    } else {
        dec_bytes(n / 10).push((48 + n % 10) as u8)
    }
}

/// The puzzle object's JSON form: the fields in wire order, strings
/// escaped, numbers in decimal.
pub open spec fn json_of_puzzle(p: PuzzleView) -> Seq<u8> {
    "{\"puzzle\":{\"key\":\"".spec_bytes() + json_escape(encode_utf8(p.key))
        + "\",\"blob\":\"".spec_bytes() + json_escape(encode_utf8(p.blob))
        + "\",\"offset\":".spec_bytes() + dec_bytes(p.offset) + ",\"size\":".spec_bytes()
        + dec_bytes(p.size) + ",\"target\":".spec_bytes() + dec_bytes(p.target as nat)
        + "}}".spec_bytes()
}

/// The advertised-puzzle body: a null puzzle or the puzzle object.
pub open spec fn json_of_wrapper(w: Option<PuzzleView>) -> Seq<u8> {
    match w {
        None => "{\"puzzle\":null}".spec_bytes(),
        Some(p) => json_of_puzzle(p),
    }
}

/// The upstream solution body for a nonce.
pub open spec fn json_of_solution(nonce: Seq<char>) -> Seq<u8> {
    "{\"nonce\":\"".spec_bytes() + json_escape(encode_utf8(nonce)) + "\"}".spec_bytes()
}

/// Append a byte slice.
fn push_slice(out: &mut Vec<u8>, s: &[u8])
    ensures
        final(out)@ == old(out)@ + s@,
{
    let mut i: usize = 0;
    while i < s.len()
        invariant
            i <= s@.len(),
            out@ == old(out)@ + s@.subrange(0, i as int),
        decreases s@.len() - i,
    {
        out.push(s[i]);
        proof {
            assert(old(out)@ + s@.subrange(0, i as int) + seq![s@[i as int]] =~= old(out)@
                + s@.subrange(0, i + 1));
        }
        i = i + 1;
    }
    proof {
        assert(old(out)@ + s@.subrange(0, s@.len() as int) =~= old(out)@ + s@);
    }
}

/// Append the JSON escape of string-content bytes.
fn push_escaped(out: &mut Vec<u8>, s: &[u8])
    ensures
        final(out)@ == old(out)@ + json_escape(s@),
{
    proof {
        assert(s@.subrange(0, 0) =~= Seq::<u8>::empty());
        assert(old(out)@ + Seq::<u8>::empty() =~= old(out)@);
    }
    let mut i: usize = 0;
    while i < s.len()
        invariant
            i <= s@.len(),
            out@ == old(out)@ + json_escape(s@.subrange(0, i as int)),
        decreases s@.len() - i,
    {
        let b = s[i];
        if b == 34 {
            out.push(92);
            out.push(34);
        } else if b == 92 {
            out.push(92);
            out.push(92);
        } else if b < 32 {
            out.push(92);
            out.push(117);
            out.push(48);
            out.push(48);
            out.push(if b / 16 < 10 {
                48 + b / 16
            } else {
                87 + b / 16
            });
            out.push(if b % 16 < 10 {
                48 + b % 16
            } else {
                87 + b % 16
            });
        } else {
            out.push(b);
        }
        proof {
            let pre = s@.subrange(0, i as int);
            let post = s@.subrange(0, i + 1);
            assert(post.drop_last() =~= pre);
            assert(post.last() == s@[i as int]);
            assert(json_escape(post) == json_escape(pre) + json_escape_byte(s@[i as int]));
            assert(out@ =~= old(out)@ + json_escape(post));
        }
        i = i + 1;
    }
    proof {
        assert(s@.subrange(0, s@.len() as int) =~= s@);
    }
}

/// Append the decimal digits of a number.
fn push_dec(out: &mut Vec<u8>, n: u64)
    ensures
        final(out)@ == old(out)@ + dec_bytes(n as nat),
    decreases n,
{
    if n < 10 {
        out.push(48 + n as u8);
    } else {
        push_dec(out, n / 10);
        out.push(48 + (n % 10) as u8);
    }
}

/// The bytes served for `GET /miner/puzzle`: the current puzzle cell as
/// JSON.
pub fn puzzle_json(w: &RequestWrapper) -> (r: Vec<u8>)
    ensures
        r@ == json_of_wrapper(w@),
{
    let mut out: Vec<u8> = Vec::new();
    match &w.puzzle {
        None => {
            push_slice(&mut out, "{\"puzzle\":null}".as_bytes());
        },
        Some(p) => {
            push_slice(&mut out, "{\"puzzle\":{\"key\":\"".as_bytes());
            push_escaped(&mut out, p.key.as_str().as_bytes());
            push_slice(&mut out, "\",\"blob\":\"".as_bytes());
            push_escaped(&mut out, p.blob.as_str().as_bytes());
            push_slice(&mut out, "\",\"offset\":".as_bytes());
            push_dec(&mut out, p.offset as u64);
            push_slice(&mut out, ",\"size\":".as_bytes());
            push_dec(&mut out, p.size as u64);
            push_slice(&mut out, ",\"target\":".as_bytes());
            push_dec(&mut out, p.target as u64);
            push_slice(&mut out, "}}".as_bytes());
        },
    }
    proof {
        assert(out@ =~= json_of_wrapper(w@));
    }
    out
}

/// The body posted upstream for a submitted solution.
pub fn solution_json(s: &Solution) -> (r: Vec<u8>)
    ensures
        r@ == json_of_solution(s@),
{
    let mut out: Vec<u8> = Vec::new();
    push_slice(&mut out, "{\"nonce\":\"".as_bytes());
    push_escaped(&mut out, s.nonce.as_str().as_bytes());
    push_slice(&mut out, "\"}".as_bytes());
    proof {
        assert(out@ =~= json_of_solution(s@));
    }
    out
}

} // verus!
