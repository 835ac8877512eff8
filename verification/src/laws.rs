//! Properties of the tokenizer's state machine: terminal behaviour of
//! `Done`, balance of opening and closing tokens, acceptance of the empty
//! document, rejection of a bare top-level scalar, and the fidelity of
//! token payloads to their byte spans.
use crate::scan::{
    find_byte, lemma_find_byte, lemma_find_either, lemma_skip_ws, lemma_skip_ws_idempotent,
    skip_ws,
};
use crate::token::{token_models, JsonError, JsonToken, SpecToken};
use crate::tokenizer::{
    initial_view, lemma_next_token_wf, spec_next_token, view_wf, SpecStep, TokenizerState,
    TokenizerView,
};
use vstd::prelude::*;

verus! {

/// How one token changes the nesting depth: opens count one up, closes one
/// down, everything else leaves it alone.
pub open spec fn depth_delta(t: SpecToken) -> int {
    match t {
        SpecToken::StartObject => 1,
        SpecToken::StartArray => 1,
        SpecToken::EndObject => -1,
        SpecToken::EndArray => -1,
        _ => 0,
    }
}

/// One step of the state machine accounts for the depth exactly: a
/// successful token moves the depth by its [`depth_delta`], `Done` comes
/// only at depth zero and leaves the state unchanged but for skipped
/// whitespace, and any other token moves the cursor strictly forward.
pub proof fn lemma_step_accounting(v: TokenizerView)
    requires
        view_wf(v),
    ensures
        ({
            let st = spec_next_token(v);
            &&& (st.out matches Result::Ok(t) ==> st.next.depth == v.depth + depth_delta(t))
            &&& (st.out == Result::<SpecToken, JsonError>::Ok(SpecToken::Done) ==> v.depth == 0
                && st.next == (TokenizerView { pos: skip_ws(v.buf, v.pos), ..v }))
            &&& (st.out matches Result::Ok(t) && t != SpecToken::Done ==> st.next.pos > v.pos)
        }),
    decreases v.buf.len() - v.pos,
{
    lemma_skip_ws(v.buf, v.pos);
    let p = skip_ws(v.buf, v.pos);
    let len = v.buf.len() as int;
    if v.depth == 0 && v.state != TokenizerState::Start {
    } else if p >= len {
    } else {
        match v.state {
            TokenizerState::Start => {},
            TokenizerState::ExpectProperty => {
                if v.buf[p] == 34 {
                    lemma_find_byte(v.buf, p + 1, 34);
                    let q = find_byte(v.buf, p + 1, 34);
                    let p1 = if q < len {
                        q + 1
                    } else {
                        q
                    };
                    if p1 < len {
                        lemma_skip_ws(v.buf, p1);
                        lemma_find_byte(v.buf, skip_ws(v.buf, p1), 58);
                        let col = find_byte(v.buf, skip_ws(v.buf, p1), 58);
                        let p3 = if col < len {
                            col + 1
                        } else {
                            col
                        };
                        lemma_skip_ws(v.buf, p3);
                    }
                }
            },
            TokenizerState::ExpectValue => {
                let c = v.buf[p];
                if c == 125 {
                    lemma_skip_ws(v.buf, p + 1);
                } else if c != 123 && c != 91 {
                    lemma_find_either(v.buf, p + 1, 44, 125);
                }
            },
            TokenizerState::InArray => {
                lemma_find_either(v.buf, p, 44, 93);
            },
            TokenizerState::AfterArray => {
                let c = v.buf[p];
                if c == 125 {
                    lemma_skip_ws(v.buf, p + 1);
                } else if c == 44 {
                    lemma_next_token_wf(
                        TokenizerView { pos: p + 1, state: TokenizerState::ExpectProperty, ..v },
                    );
                    lemma_step_accounting(
                        TokenizerView { pos: p + 1, state: TokenizerState::ExpectProperty, ..v },
                    );
                }
            },
        }
    }
}

/// Once a call returns `Done`, the very next call returns `Done` again from
/// an unchanged state — so every later call does too.
pub proof fn lemma_done_idempotent(v: TokenizerView)
    requires
        view_wf(v),
        spec_next_token(v).out == Result::<SpecToken, JsonError>::Ok(SpecToken::Done),
    ensures
        spec_next_token(spec_next_token(v).next) == (SpecStep {
            next: spec_next_token(v).next,
            out: Result::<SpecToken, JsonError>::Ok(SpecToken::Done),
        }),
{
    lemma_skip_ws(v.buf, v.pos);
    lemma_step_accounting(v);
    let v1 = spec_next_token(v).next;
    lemma_skip_ws_idempotent(v.buf, v.pos);
    assert(skip_ws(v1.buf, v1.pos) == v1.pos);
}

/// Tokenizing an empty buffer immediately yields `Done`.
pub proof fn lemma_empty_input(input: Seq<u8>)
    requires
        input.len() == 0,
    ensures
        spec_next_token(initial_view(input)).out == Result::<SpecToken, JsonError>::Ok(
            SpecToken::Done,
        ),
{
}

/// An input whose first byte after leading whitespace opens neither an
/// object nor an array is rejected on the first call with
/// `UnexpectedCharacter`.
pub proof fn lemma_top_level_scalar_rejected(input: Seq<u8>)
    requires
        skip_ws(input, 0) < input.len(),
        input[skip_ws(input, 0)] != 123,
        input[skip_ws(input, 0)] != 91,
    ensures
        spec_next_token(initial_view(input)).out == Result::<SpecToken, JsonError>::Err(
            JsonError::UnexpectedCharacter,
        ),
{
    lemma_skip_ws(input, 0);
}

/// The complete run of the state machine: the tokens of successive calls,
/// up to and not including `Done`. `None` when some call fails. The run
/// always ends, because every token before `Done` consumes at least one
/// byte.
pub open spec fn spec_run(v: TokenizerView) -> Option<Seq<SpecToken>>
    decreases v.buf.len() - v.pos,
    when view_wf(v)
    via spec_run_decreases
{
    let st = spec_next_token(v);
    match st.out {
        Result::Err(_) => Option::None,
        Result::Ok(t) => {
            if t == SpecToken::Done {
                Option::Some(Seq::empty())
            } else {
                match spec_run(st.next) {
                    Option::None => Option::None,
                    Option::Some(ts) => Option::Some(seq![t] + ts),
                }
            }
        },
    }
}

#[via_fn]
proof fn spec_run_decreases(v: TokenizerView) {
    lemma_next_token_wf(v);
    lemma_step_accounting(v);
}

/// Number of `StartObject` and `StartArray` tokens in a run.
pub open spec fn count_opens(ts: Seq<SpecToken>) -> int
    decreases ts.len(),
{
    if ts.len() == 0 {
        0
    } else {
        (if ts[0] == SpecToken::StartObject || ts[0] == SpecToken::StartArray {
            1int
        } else {
            0int
        }) + count_opens(ts.drop_first())
    }
}

/// Number of `EndObject` and `EndArray` tokens in a run.
pub open spec fn count_closes(ts: Seq<SpecToken>) -> int
    decreases ts.len(),
{
    if ts.len() == 0 {
        0
    } else {
        (if ts[0] == SpecToken::EndObject || ts[0] == SpecToken::EndArray {
            1int
        } else {
            0int
        }) + count_closes(ts.drop_first())
    }
}

/// Over a run that reaches `Done`, the closes outnumber the opens by
/// exactly the depth already open at its start.
proof fn lemma_depth_balance_from(v: TokenizerView)
    requires
        view_wf(v),
        spec_run(v) is Some,
    ensures
        count_closes(spec_run(v).unwrap()) == count_opens(spec_run(v).unwrap()) + v.depth,
    decreases v.buf.len() - v.pos,
{
    let st = spec_next_token(v);
    lemma_next_token_wf(v);
    lemma_step_accounting(v);
    match st.out {
        Result::Err(_) => {},
        Result::Ok(t) => {
            if t == SpecToken::Done {
            } else {
                lemma_depth_balance_from(st.next);
                let ts = spec_run(st.next).unwrap();
                let all = spec_run(v).unwrap();
                assert(all == seq![t] + ts);
                assert(all.drop_first() =~= ts);
            }
        },
    }
}

/// Depth balance: over any complete, error-free run from a fresh tokenizer,
/// the number of `StartObject` and `StartArray` tokens equals the number of
/// `EndObject` and `EndArray` tokens.
pub proof fn lemma_depth_balance(input: Seq<u8>)
    requires
        spec_run(initial_view(input)) is Some,
    ensures
        count_opens(spec_run(initial_view(input)).unwrap()) == count_closes(
            spec_run(initial_view(input)).unwrap(),
        ),
{
    lemma_depth_balance_from(initial_view(input));
}

/// UTF-8 round trip: a `PropertyName` or `Literal` token re-encodes to
/// exactly the byte span the tokenizer scanned, and that span is valid
/// UTF-8.
pub proof fn lemma_utf8_round_trip(t: JsonToken, s: SpecToken)
    requires
        token_models(t, s),
    ensures
        (t matches JsonToken::PropertyName(x) ==> s matches SpecToken::PropertyName(b)
            && vstd::utf8::valid_utf8(b) && vstd::utf8::encode_utf8(x@) == b),
        (t matches JsonToken::Literal(x) ==> s matches SpecToken::Literal(b)
            && vstd::utf8::valid_utf8(b) && vstd::utf8::encode_utf8(x@) == b),
{
    match (t, s) {
        (JsonToken::PropertyName(x), SpecToken::PropertyName(b)) => {
            vstd::utf8::decode_utf8_encode_utf8(b);
        },
        (JsonToken::Literal(x), SpecToken::Literal(b)) => {
            vstd::utf8::decode_utf8_encode_utf8(b);
        },
        _ => {},
    }
}

} // verus!

