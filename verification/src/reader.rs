//! The supported consumption pattern: drive the token stream over a buffer
//! and pull one named property's scalar value out of it, without building a
//! document tree.
use crate::laws::{lemma_step_accounting, lemma_utf8_round_trip};
use crate::scan::bytes_equal;
use crate::token::{JsonToken, SpecToken};
use crate::tokenizer::{
    initial_view, lemma_next_token_wf, spec_next_token, view_wf, JsonTokenizer, TokenizerView,
};
use vstd::prelude::*;
use vstd::utf8::{decode_utf8, valid_utf8};

verus! {

/// The byte span of the first `Literal` token that directly follows a
/// `PropertyName` token whose span is `name`, over the run of the state
/// machine from `v`. `None` when the run errs or finishes first, or when
/// the member's value is not a scalar literal.
pub open spec fn spec_find_literal(v: TokenizerView, name: Seq<u8>) -> Option<Seq<u8>>
    decreases v.buf.len() - v.pos,
    when view_wf(v)
    via spec_find_literal_decreases
{
    let st = spec_next_token(v);
    match st.out {
        Result::Err(_) => Option::None,
        Result::Ok(t) => match t {
            SpecToken::Done => Option::None,
            SpecToken::PropertyName(p) => {
                if p == name {
                    let st2 = spec_next_token(st.next);
                    match st2.out {
                        Result::Err(_) => Option::None,
                        Result::Ok(t2) => match t2 {
                            SpecToken::Literal(b) => Option::Some(b),
                            SpecToken::Done => Option::None,
                            _ => spec_find_literal(st2.next, name),
                        },
                    }
                } else {
                    spec_find_literal(st.next, name)
                }
            },
            _ => spec_find_literal(st.next, name),
        },
    }
}

#[via_fn]
proof fn spec_find_literal_decreases(v: TokenizerView, name: Seq<u8>) {
    lemma_next_token_wf(v);
    lemma_step_accounting(v);
    let st = spec_next_token(v);
    if st.out matches Result::Ok(t) && t matches SpecToken::PropertyName(p) && p == name {
        lemma_next_token_wf(st.next);
        lemma_step_accounting(st.next);
    }
}

/// Scans the whole input for the member named `name` (given as the raw
/// bytes between the key's quotes) and returns the value of the first such
/// member, provided that value is a scalar literal: the decoding of exactly
/// the span [`spec_find_literal`] picks out. `None` when the input errs
/// first, has no such member, or its value is not a scalar literal.
pub fn property_literal(input: &[u8], name: &[u8]) -> (r: Option<String>)
    ensures
        r is Some <==> spec_find_literal(initial_view(input@), name@) is Some,
        r matches Some(s) ==> (spec_find_literal(initial_view(input@), name@) matches Some(b)
            && valid_utf8(b) && s@ == decode_utf8(b)),
{
    let ghost v0 = initial_view(input@);
    let mut tk = JsonTokenizer::new(input);
    loop
        invariant
            v0 == initial_view(input@),
            tk.wf(),
            tk@.buf == input@,
            spec_find_literal(v0, name@) == spec_find_literal(tk@, name@),
        decreases input@.len() - tk@.pos,
    {
        let ghost v_iter = tk@;
        proof {
            lemma_next_token_wf(v_iter);
            lemma_step_accounting(v_iter);
        }
        let t = match tk.next_token() {
            Ok(t) => t,
            Err(_) => {
                return None;
            },
        };
        match t {
            JsonToken::Done => {
                return None;
            },
            JsonToken::PropertyName(p) => {
                proof {
                    lemma_utf8_round_trip(
                        JsonToken::PropertyName(p),
                        spec_next_token(v_iter).out->Ok_0,
                    );
                }
                if bytes_equal(p.as_str().as_bytes(), name) {
                    let ghost v2 = tk@;
                    proof {
                        lemma_next_token_wf(v2);
                        lemma_step_accounting(v2);
                    }
                    let t2 = match tk.next_token() {
                        Ok(t2) => t2,
                        Err(_) => {
                            return None;
                        },
                    };
                    match t2 {
                        JsonToken::Literal(s) => {
                            return Some(s);
                        },
                        JsonToken::Done => {
                            return None;
                        },
                        _ => {},
                    }
                }
            },
            _ => {},
        }
    }
}

} // verus!
