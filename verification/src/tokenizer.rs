//! The tokenizer proper: its abstract view, the specification-level state
//! machine that pins down every call of `next_token`, and the executable
//! scanner proved to follow it byte for byte.
use crate::scan::{
    find_byte, find_either, is_json_ws, is_ws_byte, lemma_find_byte, lemma_find_byte_unique,
    lemma_find_either, lemma_find_either_unique, lemma_skip_ws, lemma_skip_ws_unique, skip_ws,
    trim_range, trim_ws,
};
use crate::token::{
    false_bytes, null_bytes, result_models, spec_classify, true_bytes, utf8_to_string, JsonError,
    JsonToken, SpecToken,
};
use vstd::prelude::*;
use vstd::slice::slice_subrange;

verus! {

broadcast use vstd::slice::group_slice_axioms;

/// The scanner mode that governs which production the next call attempts.
#[derive(Debug, Clone, Copy, PartialEq, Eq, Structural)]
pub enum TokenizerState {
    /// Nothing consumed yet; only `{` or `[` may open the document.
    Start,
    /// Inside an object, before a quoted member key.
    ExpectProperty,
    /// Inside an object, after a key's colon.
    ExpectValue,
    /// Inside an array, before an element or the closing bracket.
    InArray,
    /// Immediately after a closed array, deciding what follows it.
    AfterArray,
}

/// Abstract state of a tokenizer: the whole input, the cursor, the scanner
/// mode and the count of currently open containers.
pub ghost struct TokenizerView {
    pub buf: Seq<u8>,
    pub pos: int,
    pub state: TokenizerState,
    pub depth: int,
}

/// Well-formedness of an abstract tokenizer state: the cursor stays inside
/// the buffer, the depth counts opened containers (never more than consumed
/// bytes), and nothing is open before the first byte is consumed.
pub open spec fn view_wf(v: TokenizerView) -> bool {
    &&& 0 <= v.pos <= v.buf.len()
    &&& 0 <= v.depth <= v.pos
    &&& (v.state == TokenizerState::Start ==> v.depth == 0)
}

/// The abstract state a freshly constructed tokenizer starts in.
pub open spec fn initial_view(input: Seq<u8>) -> TokenizerView {
    TokenizerView { buf: input, pos: 0, state: TokenizerState::Start, depth: 0 }
}

/// Outcome of one specification-level step: the state after the call and
/// the token or error the call hands back.
pub ghost struct SpecStep {
    pub next: TokenizerView,
    pub out: Result<SpecToken, JsonError>,
}

/// The `Start` production: only an object or an array may open the document.
/// The cursor stands on a byte.
pub open spec fn spec_start(v: TokenizerView) -> SpecStep
    recommends
        view_wf(v),
        v.pos < v.buf.len(),
{
    let c = v.buf[v.pos];
    if c == 123 {
        SpecStep {
            next: TokenizerView {
                pos: v.pos + 1,
                state: TokenizerState::ExpectProperty,
                depth: v.depth + 1,
                ..v
            },
            out: Result::Ok(SpecToken::StartObject),
        }
    } else if c == 91 {
        SpecStep {
            next: TokenizerView {
                pos: v.pos + 1,
                state: TokenizerState::InArray,
                depth: v.depth + 1,
                ..v
            },
            out: Result::Ok(SpecToken::StartArray),
        }
    } else {
        SpecStep {
            next: TokenizerView { pos: v.pos + 1, ..v },
            out: Result::Err(JsonError::UnexpectedCharacter),
        }
    }
}

/// The `ExpectProperty` production: a quoted key, then a colon, then the
/// start of the value. The cursor stands on a byte.
pub open spec fn spec_expect_property(v: TokenizerView) -> SpecStep
    recommends
        view_wf(v),
        v.pos < v.buf.len(),
{
    let buf = v.buf;
    let len = buf.len() as int;
    if buf[v.pos] != 34 {
        SpecStep {
            next: TokenizerView { pos: v.pos + 1, ..v },
            out: Result::Err(JsonError::UnexpectedCharacter),
        }
    } else {
        let start = v.pos + 1;
        let q = find_byte(buf, start, 34);
        let p1 = if q < len {
            q + 1
        } else {
            q
        };
        if p1 >= len {
            SpecStep {
                next: TokenizerView { pos: p1, ..v },
                out: Result::Err(JsonError::UnexpectedEndOfInput),
            }
        } else {
            let span = buf.subrange(start, q);
            if !vstd::utf8::valid_utf8(span) {
                SpecStep {
                    next: TokenizerView { pos: p1, ..v },
                    out: Result::Err(JsonError::InvalidText),
                }
            } else {
                let col = find_byte(buf, skip_ws(buf, p1), 58);
                let p3 = if col < len {
                    col + 1
                } else {
                    col
                };
                let p4 = skip_ws(buf, p3);
                if p4 >= len {
                    SpecStep {
                        next: TokenizerView { pos: p4, ..v },
                        out: Result::Err(JsonError::UnexpectedEndOfInput),
                    }
                } else {
                    SpecStep {
                        next: TokenizerView { pos: p4, state: TokenizerState::ExpectValue, ..v },
                        out: Result::Ok(SpecToken::PropertyName(span)),
                    }
                }
            }
        }
    }
}

/// The `ExpectValue` production: a nested container, the close of the
/// enclosing object, or a scalar span running to the next `,` or `}`. The
/// cursor stands on a byte and at least one container is open.
pub open spec fn spec_expect_value(v: TokenizerView) -> SpecStep
    recommends
        view_wf(v),
        v.pos < v.buf.len(),
        v.depth >= 1,
{
    let buf = v.buf;
    let len = buf.len() as int;
    let c = buf[v.pos];
    if c == 123 {
        SpecStep {
            next: TokenizerView {
                pos: v.pos + 1,
                state: TokenizerState::ExpectProperty,
                depth: v.depth + 1,
                ..v
            },
            out: Result::Ok(SpecToken::StartObject),
        }
    } else if c == 91 {
        SpecStep {
            next: TokenizerView {
                pos: v.pos + 1,
                state: TokenizerState::InArray,
                depth: v.depth + 1,
                ..v
            },
            out: Result::Ok(SpecToken::StartArray),
        }
    } else if c == 125 {
        let p1 = skip_ws(buf, v.pos + 1);
        if p1 >= len {
            SpecStep {
                next: TokenizerView {
                    pos: p1,
                    state: TokenizerState::ExpectProperty,
                    depth: v.depth - 1,
                    ..v
                },
                out: Result::Ok(SpecToken::EndObject),
            }
        } else if buf[p1] == 44 {
            SpecStep {
                next: TokenizerView {
                    pos: p1 + 1,
                    state: TokenizerState::ExpectProperty,
                    depth: v.depth - 1,
                    ..v
                },
                out: Result::Ok(SpecToken::EndObject),
            }
        } else {
            SpecStep {
                next: TokenizerView { pos: p1 + 1, ..v },
                out: Result::Err(JsonError::UnexpectedCharacter),
            }
        }
    } else {
        let j = find_either(buf, v.pos + 1, 44, 125);
        if j >= len {
            SpecStep {
                next: TokenizerView { pos: len, ..v },
                out: Result::Err(JsonError::UnexpectedEndOfInput),
            }
        } else if buf[j] == 44 {
            SpecStep {
                next: TokenizerView { pos: j + 1, state: TokenizerState::ExpectProperty, ..v },
                out: spec_classify(buf.subrange(v.pos, j)),
            }
        } else {
            SpecStep {
                next: TokenizerView { pos: j, ..v },
                out: spec_classify(buf.subrange(v.pos, j)),
            }
        }
    }
}

/// The `InArray` production: the close of the array when no bytes precede
/// it, else the element span running to the next `,` or `]` (the bracket is
/// left unread so the following call closes the array). The cursor stands on
/// a byte and at least one container is open.
pub open spec fn spec_in_array(v: TokenizerView) -> SpecStep
    recommends
        view_wf(v),
        v.pos < v.buf.len(),
        v.depth >= 1,
{
    let buf = v.buf;
    let len = buf.len() as int;
    let j = find_either(buf, v.pos, 44, 93);
    if j >= len {
        SpecStep {
            next: TokenizerView { pos: len, ..v },
            out: Result::Err(JsonError::UnexpectedEndOfInput),
        }
    } else if buf[j] == 44 {
        SpecStep {
            next: TokenizerView { pos: j + 1, ..v },
            out: spec_classify(buf.subrange(v.pos, j)),
        }
    } else if j == v.pos {
        SpecStep {
            next: TokenizerView {
                pos: j + 1,
                state: TokenizerState::AfterArray,
                depth: v.depth - 1,
                ..v
            },
            out: Result::Ok(SpecToken::EndArray),
        }
    } else {
        SpecStep {
            next: TokenizerView { pos: j, ..v },
            out: spec_classify(buf.subrange(v.pos, j)),
        }
    }
}

/// One call of `next_token` on the abstract state: skip whitespace, hand out
/// `Done` once the single top-level container has closed or on an empty
/// document, reject an exhausted buffer elsewhere, and otherwise run the
/// production of the current mode. After a closed array, a comma leads
/// straight into the next member's key, so the dispatch recurses there.
pub open spec fn spec_next_token(v: TokenizerView) -> SpecStep
    decreases v.buf.len() - v.pos,
    when view_wf(v)
    via spec_next_token_decreases
{
    let buf = v.buf;
    let len = buf.len() as int;
    let p = skip_ws(buf, v.pos);
    let v1 = TokenizerView { pos: p, ..v };
    if v.depth == 0 && v.state != TokenizerState::Start {
        SpecStep { next: v1, out: Result::Ok(SpecToken::Done) }
    } else if p >= len && v.state == TokenizerState::Start {
        SpecStep { next: v1, out: Result::Ok(SpecToken::Done) }
    } else if p >= len {
        SpecStep { next: v1, out: Result::Err(JsonError::UnexpectedEndOfInput) }
    } else {
        match v.state {
            TokenizerState::Start => spec_start(v1),
            TokenizerState::ExpectProperty => spec_expect_property(v1),
            TokenizerState::ExpectValue => spec_expect_value(v1),
            TokenizerState::InArray => spec_in_array(v1),
            TokenizerState::AfterArray => {
                let c = buf[p];
                if c == 125 {
                    let p1 = skip_ws(buf, p + 1);
                    if p1 >= len {
                        SpecStep {
                            next: TokenizerView {
                                pos: p1,
                                state: TokenizerState::ExpectProperty,
                                depth: v.depth - 1,
                                ..v
                            },
                            out: Result::Ok(SpecToken::EndObject),
                        }
                    } else if buf[p1] == 44 {
                        SpecStep {
                            next: TokenizerView {
                                pos: p1 + 1,
                                state: TokenizerState::ExpectProperty,
                                depth: v.depth - 1,
                                ..v
                            },
                            out: Result::Ok(SpecToken::EndObject),
                        }
                    } else {
                        SpecStep {
                            next: TokenizerView { pos: p1 + 1, depth: v.depth - 1, ..v },
                            out: Result::Err(JsonError::UnexpectedCharacter),
                        }
                    }
                } else if c == 44 {
                    spec_next_token(
                        TokenizerView { pos: p + 1, state: TokenizerState::ExpectProperty, ..v },
                    )
                } else {
                    SpecStep {
                        next: TokenizerView { pos: p + 1, ..v },
                        out: Result::Err(JsonError::UnexpectedCharacter),
                    }
                }
            },
        }
    }
}

#[via_fn]
proof fn spec_next_token_decreases(v: TokenizerView) {
    lemma_skip_ws(v.buf, v.pos);
}

/// A single-pass JSON tokenizer over a complete, caller-supplied byte
/// buffer. It borrows the buffer, never copies it, and owns only its cursor,
/// scanner mode and nesting depth.
pub struct JsonTokenizer<'a> {
    buffer: &'a [u8],
    pos: usize,
    state: TokenizerState,
    depth: usize,
}

impl<'a> View for JsonTokenizer<'a> {
    type V = TokenizerView;

    closed spec fn view(&self) -> TokenizerView {
        TokenizerView {
            buf: self.buffer@,
            pos: self.pos as int,
            state: self.state,
            depth: self.depth as int,
        }
    }
}

impl<'a> JsonTokenizer<'a> {
    /// The tokenizer's abstract state is well formed.
    pub open spec fn wf(&self) -> bool {
        view_wf(self@)
    }

    /// A fresh tokenizer over the whole input, with nothing consumed and
    /// nothing open.
    pub fn new(input: &'a [u8]) -> (t: Self)
        ensures
            t@ == initial_view(input@),
            t.wf(),
    {
        JsonTokenizer { buffer: input, pos: 0, state: TokenizerState::Start, depth: 0 }
    }

    fn eof(&self) -> (r: bool)
        ensures
            r == (self@.pos >= self@.buf.len()),
    {
        self.pos >= self.buffer.len()
    }

    fn peek(&self) -> (r: Result<u8, JsonError>)
        requires
            self@.pos <= self@.buf.len(),
        ensures
            self@.pos < self@.buf.len() ==> r == Result::<u8, JsonError>::Ok(
                self@.buf[self@.pos],
            ),
            self@.pos >= self@.buf.len() ==> r == Result::<u8, JsonError>::Err(
                JsonError::UnexpectedEndOfInput,
            ),
    {
        if self.pos >= self.buffer.len() {
            return Err(JsonError::UnexpectedEndOfInput);
        }
        Ok(self.buffer[self.pos])
    }

    fn next(&mut self) -> (r: Result<u8, JsonError>)
        requires
            old(self)@.pos <= old(self)@.buf.len(),
        ensures
            old(self)@.pos < old(self)@.buf.len() ==> (r == Result::<u8, JsonError>::Ok(
                old(self)@.buf[old(self)@.pos],
            ) && final(self)@ == (TokenizerView { pos: old(self)@.pos + 1, ..old(self)@ })),
            old(self)@.pos >= old(self)@.buf.len() ==> (r == Result::<u8, JsonError>::Err(
                JsonError::UnexpectedEndOfInput,
            ) && final(self)@ == old(self)@),
    {
        match self.peek() {
            Ok(c) => {
                proof {
                    assert(self.pos < self.buffer.len());
                }
                self.pos = self.pos + 1;
                Ok(c)
            },
            Err(e) => Err(e),
        }
    }

    fn eat_ws(&mut self)
        requires
            old(self)@.pos <= old(self)@.buf.len(),
        ensures
            final(self)@ == (TokenizerView {
                pos: skip_ws(old(self)@.buf, old(self)@.pos),
                ..old(self)@
            }),
            old(self)@.pos <= final(self)@.pos <= old(self)@.buf.len(),
    {
        while self.pos < self.buffer.len() && is_ws_byte(self.buffer[self.pos])
            invariant
                old(self)@.pos <= self@.pos <= self@.buf.len(),
                self@.buf == old(self)@.buf,
                self@.state == old(self)@.state,
                self@.depth == old(self)@.depth,
                forall|i: int| old(self)@.pos <= i < self@.pos ==> is_json_ws(self@.buf[i]),
            decreases self@.buf.len() - self@.pos,
        {
            self.pos = self.pos + 1;
        }
        proof {
            lemma_skip_ws_unique(self@.buf, old(self)@.pos, self@.pos);
        }
    }

    /// Moves the cursor just past the next occurrence of `what`, or to the
    /// end of the buffer if there is none.
    fn advance_until(&mut self, what: u8)
        requires
            old(self)@.pos <= old(self)@.buf.len(),
        ensures
            ({
                let f = find_byte(old(self)@.buf, old(self)@.pos, what);
                final(self)@ == (TokenizerView {
                    pos: if f < old(self)@.buf.len() {
                        f + 1
                    } else {
                        f
                    },
                    ..old(self)@
                })
            }),
            old(self)@.pos <= final(self)@.pos <= old(self)@.buf.len(),
    {
        loop
            invariant
                old(self)@.pos <= self@.pos <= self@.buf.len(),
                self@.buf == old(self)@.buf,
                self@.state == old(self)@.state,
                self@.depth == old(self)@.depth,
                forall|i: int| old(self)@.pos <= i < self@.pos ==> self@.buf[i] != what,
            decreases self@.buf.len() - self@.pos,
        {
            let c = match self.next() {
                Ok(c) => c,
                Err(_) => {
                    proof {
                        lemma_find_byte_unique(
                            self@.buf,
                            old(self)@.pos,
                            what,
                            self@.buf.len() as int,
                        );
                    }
                    return ;
                },
            };
            if c == what {
                proof {
                    lemma_find_byte_unique(self@.buf, old(self)@.pos, what, self@.pos - 1);
                }
                return ;
            }
        }
    }

    /// Moves the cursor onto the next occurrence of `a` or `b` and reports
    /// whether one was found; without one the cursor stops at the end.
    fn scan_delims(&mut self, a: u8, b: u8) -> (found: bool)
        requires
            old(self)@.pos <= old(self)@.buf.len(),
        ensures
            ({
                let j = find_either(old(self)@.buf, old(self)@.pos, a, b);
                &&& found == (j < old(self)@.buf.len())
                &&& final(self)@ == (TokenizerView { pos: j, ..old(self)@ })
            }),
            old(self)@.pos <= final(self)@.pos <= old(self)@.buf.len(),
    {
        loop
            invariant
                old(self)@.pos <= self@.pos <= self@.buf.len(),
                self@.buf == old(self)@.buf,
                self@.state == old(self)@.state,
                self@.depth == old(self)@.depth,
                forall|i: int|
                    old(self)@.pos <= i < self@.pos ==> (self@.buf[i] != a && self@.buf[i] != b),
            decreases self@.buf.len() - self@.pos,
        {
            let c = match self.peek() {
                Ok(c) => c,
                Err(_) => {
                    proof {
                        lemma_find_either_unique(
                            self@.buf,
                            old(self)@.pos,
                            a,
                            b,
                            self@.buf.len() as int,
                        );
                    }
                    return false;
                },
            };
            if c == a || c == b {
                proof {
                    lemma_find_either_unique(self@.buf, old(self)@.pos, a, b, self@.pos as int);
                }
                return true;
            }
            proof {
                assert(self.pos < self.buffer.len());
            }
            self.pos = self.pos + 1;
        }
    }

    /// Classifies the scalar span `buffer[start..end]`: trim whitespace,
    /// recognize the keywords, else keep the raw span as a literal when it
    /// is well-formed UTF-8.
    fn as_literal(&self, start: usize, end: usize) -> (r: Result<JsonToken, JsonError>)
        requires
            start <= end <= self@.buf.len(),
        ensures
            result_models(r, spec_classify(self@.buf.subrange(start as int, end as int))),
    {
        let ghost span = self@.buf.subrange(start as int, end as int);
        let ghost t = trim_ws(span);
        let (ts, te) = trim_range(self.buffer, start, end);
        let n = te - ts;
        let is_null = n == 4 && self.buffer[ts] == 110 && self.buffer[ts + 1] == 117
            && self.buffer[ts + 2] == 108 && self.buffer[ts + 3] == 108;
        proof {
            if is_null {
                assert(t =~= null_bytes());
            } else if t == null_bytes() {
                assert(t.len() == 4);
                assert(self@.buf[ts as int] == t[0]);
                assert(self@.buf[ts + 1] == t[1]);
                assert(self@.buf[ts + 2] == t[2]);
                assert(self@.buf[ts + 3] == t[3]);
                assert(false);
            }
        }
        if is_null {
            return Ok(JsonToken::Null);
        }
        let is_true = n == 4 && self.buffer[ts] == 116 && self.buffer[ts + 1] == 114
            && self.buffer[ts + 2] == 117 && self.buffer[ts + 3] == 101;
        proof {
            if is_true {
                assert(t =~= true_bytes());
            } else if t == true_bytes() {
                assert(t.len() == 4);
                assert(self@.buf[ts as int] == t[0]);
                assert(self@.buf[ts + 1] == t[1]);
                assert(self@.buf[ts + 2] == t[2]);
                assert(self@.buf[ts + 3] == t[3]);
                assert(false);
            }
        }
        if is_true {
            return Ok(JsonToken::True);
        }
        let is_false = n == 5 && self.buffer[ts] == 102 && self.buffer[ts + 1] == 97
            && self.buffer[ts + 2] == 108 && self.buffer[ts + 3] == 115 && self.buffer[ts + 4]
            == 101;
        proof {
            if is_false {
                assert(t =~= false_bytes());
            } else if t == false_bytes() {
                assert(t.len() == 5);
                assert(self@.buf[ts as int] == t[0]);
                assert(self@.buf[ts + 1] == t[1]);
                assert(self@.buf[ts + 2] == t[2]);
                assert(self@.buf[ts + 3] == t[3]);
                assert(self@.buf[ts + 4] == t[4]);
                assert(false);
            }
        }
        if is_false {
            return Ok(JsonToken::False);
        }
        match utf8_to_string(slice_subrange(self.buffer, ts, te)) {
            Some(s) => Ok(JsonToken::Literal(s)),
            None => Err(JsonError::InvalidText),
        }
    }

    /// The `Start` production, executable side.
    fn start(&mut self) -> (r: Result<JsonToken, JsonError>)
        requires
            old(self).wf(),
            old(self)@.pos < old(self)@.buf.len(),
        ensures
            final(self)@ == spec_start(old(self)@).next,
            result_models(r, spec_start(old(self)@).out),
    {
        proof {
            assert(self.depth <= self.pos < self.buffer.len());
        }
        let c = match self.next() {
            Ok(c) => c,
            Err(e) => {
                return Err(e);
            },
        };
        if c == 123 {
            self.state = TokenizerState::ExpectProperty;
            self.depth = self.depth + 1;
            Ok(JsonToken::StartObject)
        } else if c == 91 {
            self.state = TokenizerState::InArray;
            self.depth = self.depth + 1;
            Ok(JsonToken::StartArray)
        } else {
            Err(JsonError::UnexpectedCharacter)
        }
    }

    /// The `ExpectProperty` production, executable side.
    fn expect_property(&mut self) -> (r: Result<JsonToken, JsonError>)
        requires
            old(self).wf(),
            old(self)@.pos < old(self)@.buf.len(),
        ensures
            final(self)@ == spec_expect_property(old(self)@).next,
            result_models(r, spec_expect_property(old(self)@).out),
    {
        let c = match self.next() {
            Ok(c) => c,
            Err(e) => {
                return Err(e);
            },
        };
        if c != 34 {
            return Err(JsonError::UnexpectedCharacter);
        }
        let start = self.pos;
        proof {
            lemma_find_byte(self@.buf, start as int, 34);
        }
        self.advance_until(34);
        if self.eof() {
            return Err(JsonError::UnexpectedEndOfInput);
        }
        let s = match utf8_to_string(slice_subrange(self.buffer, start, self.pos - 1)) {
            Some(s) => s,
            None => {
                return Err(JsonError::InvalidText);
            },
        };
        self.eat_ws();
        proof {
            lemma_find_byte(self@.buf, self@.pos, 58);
        }
        self.advance_until(58);
        self.eat_ws();
        if self.eof() {
            return Err(JsonError::UnexpectedEndOfInput);
        }
        self.state = TokenizerState::ExpectValue;
        Ok(JsonToken::PropertyName(s))
    }

    /// The `ExpectValue` production, executable side.
    fn expect_value(&mut self) -> (r: Result<JsonToken, JsonError>)
        requires
            old(self).wf(),
            old(self)@.pos < old(self)@.buf.len(),
            old(self)@.depth >= 1,
        ensures
            final(self)@ == spec_expect_value(old(self)@).next,
            result_models(r, spec_expect_value(old(self)@).out),
    {
        proof {
            assert(self.depth <= self.pos < self.buffer.len());
        }
        let c = match self.next() {
            Ok(c) => c,
            Err(e) => {
                return Err(e);
            },
        };
        if c == 123 {
            self.state = TokenizerState::ExpectProperty;
            self.depth = self.depth + 1;
            Ok(JsonToken::StartObject)
        } else if c == 91 {
            self.state = TokenizerState::InArray;
            self.depth = self.depth + 1;
            Ok(JsonToken::StartArray)
        } else if c == 125 {
            self.eat_ws();
            if !self.eof() {
                let c2 = match self.next() {
                    Ok(c2) => c2,
                    Err(e) => {
                        return Err(e);
                    },
                };
                if c2 != 44 {
                    return Err(JsonError::UnexpectedCharacter);
                }
            }
            self.state = TokenizerState::ExpectProperty;
            self.depth = self.depth - 1;
            Ok(JsonToken::EndObject)
        } else {
            let start = self.pos - 1;
            if !self.scan_delims(44, 125) {
                return Err(JsonError::UnexpectedEndOfInput);
            }
            let d = match self.peek() {
                Ok(d) => d,
                Err(e) => {
                    return Err(e);
                },
            };
            if d == 44 {
                let r = self.as_literal(start, self.pos);
                proof {
                    assert(self.pos < self.buffer.len());
                }
                self.pos = self.pos + 1;
                self.state = TokenizerState::ExpectProperty;
                r
            } else {
                self.as_literal(start, self.pos)
            }
        }
    }

    /// The `InArray` production, executable side.
    fn in_array(&mut self) -> (r: Result<JsonToken, JsonError>)
        requires
            old(self).wf(),
            old(self)@.pos < old(self)@.buf.len(),
            old(self)@.depth >= 1,
        ensures
            final(self)@ == spec_in_array(old(self)@).next,
            result_models(r, spec_in_array(old(self)@).out),
    {
        let start = self.pos;
        if !self.scan_delims(44, 93) {
            return Err(JsonError::UnexpectedEndOfInput);
        }
        let d = match self.peek() {
            Ok(d) => d,
            Err(e) => {
                return Err(e);
            },
        };
        proof {
            assert(self.pos < self.buffer.len());
        }
        if d == 44 {
            let r = self.as_literal(start, self.pos);
            self.pos = self.pos + 1;
            r
        } else if self.pos == start {
            self.pos = self.pos + 1;
            self.depth = self.depth - 1;
            self.state = TokenizerState::AfterArray;
            Ok(JsonToken::EndArray)
        } else {
            self.as_literal(start, self.pos)
        }
    }

    /// Produces the next token of the input, or the error that stopped the
    /// scan. The call and its effect on the tokenizer are exactly one step
    /// of [`spec_next_token`] on the abstract state; in particular, once
    /// `Done` comes back, the state is one on which every later call
    /// returns `Done` again.
    pub fn next_token(&mut self) -> (r: Result<JsonToken, JsonError>)
        requires
            old(self).wf(),
        ensures
            final(self).wf(),
            final(self)@ == spec_next_token(old(self)@).next,
            result_models(r, spec_next_token(old(self)@).out),
    {
        proof {
            lemma_next_token_wf(old(self)@);
            lemma_skip_ws(old(self)@.buf, old(self)@.pos);
        }
        self.eat_ws();
        if self.depth == 0 && self.state != TokenizerState::Start {
            return Ok(JsonToken::Done);
        }
        if self.eof() {
            if self.state == TokenizerState::Start {
                return Ok(JsonToken::Done);
            }
            return Err(JsonError::UnexpectedEndOfInput);
        }
        match self.state {
            TokenizerState::Start => self.start(),
            TokenizerState::ExpectProperty => self.expect_property(),
            TokenizerState::ExpectValue => self.expect_value(),
            TokenizerState::InArray => self.in_array(),
            TokenizerState::AfterArray => {
                proof {
                    reveal_with_fuel(spec_next_token, 2);
                }
                let c = match self.peek() {
                    Ok(c) => c,
                    Err(e) => {
                        return Err(e);
                    },
                };
                if c == 125 {
                    proof {
                        assert(self.pos < self.buffer.len());
                    }
                    self.pos = self.pos + 1;
                    self.depth = self.depth - 1;
                    self.eat_ws();
                    if !self.eof() {
                        let c2 = match self.next() {
                            Ok(c2) => c2,
                            Err(e) => {
                                return Err(e);
                            },
                        };
                        if c2 != 44 {
                            return Err(JsonError::UnexpectedCharacter);
                        }
                    }
                    self.state = TokenizerState::ExpectProperty;
                    Ok(JsonToken::EndObject)
                } else if c == 44 {
                    proof {
                        assert(self.pos < self.buffer.len());
                    }
                    self.pos = self.pos + 1;
                    self.state = TokenizerState::ExpectProperty;
                    self.eat_ws();
                    if self.eof() {
                        return Err(JsonError::UnexpectedEndOfInput);
                    }
                    self.expect_property()
                } else {
                    proof {
                        assert(self.pos < self.buffer.len());
                    }
                    self.pos = self.pos + 1;
                    Err(JsonError::UnexpectedCharacter)
                }
            },
        }
    }
}

/// One step of the abstract state machine keeps the state well formed,
/// never touches the buffer, and never moves the cursor backwards.
pub proof fn lemma_next_token_wf(v: TokenizerView)
    requires
        view_wf(v),
    ensures
        ({
            let st = spec_next_token(v);
            &&& view_wf(st.next)
            &&& st.next.buf == v.buf
            &&& st.next.pos >= v.pos
        }),
    decreases v.buf.len() - v.pos,
{
    lemma_skip_ws(v.buf, v.pos);
    let p = skip_ws(v.buf, v.pos);
    let len = v.buf.len() as int;
    if v.depth == 0 && v.state != TokenizerState::Start {
    } else if p >= len {
    } else {
        match v.state {
            TokenizerState::Start => {},
            TokenizerState::ExpectProperty => {
                if v.buf[p] == 34 {
                    lemma_find_byte(v.buf, p + 1, 34);
                    let q = find_byte(v.buf, p + 1, 34);
                    let p1 = if q < len {
                        q + 1
                    } else {
                        q
                    };
                    if p1 < len {
                        lemma_skip_ws(v.buf, p1);
                        lemma_find_byte(v.buf, skip_ws(v.buf, p1), 58);
                        let col = find_byte(v.buf, skip_ws(v.buf, p1), 58);
                        let p3 = if col < len {
                            col + 1
                        } else {
                            col
                        };
                        lemma_skip_ws(v.buf, p3);
                    }
                }
            },
            TokenizerState::ExpectValue => {
                let c = v.buf[p];
                if c == 125 {
                    lemma_skip_ws(v.buf, p + 1);
                } else if c != 123 && c != 91 {
                    lemma_find_either(v.buf, p + 1, 44, 125);
                }
            },
            TokenizerState::InArray => {
                lemma_find_either(v.buf, p, 44, 93);
            },
            TokenizerState::AfterArray => {
                let c = v.buf[p];
                if c == 125 {
                    lemma_skip_ws(v.buf, p + 1);
                } else if c == 44 {
                    lemma_next_token_wf(
                        TokenizerView { pos: p + 1, state: TokenizerState::ExpectProperty, ..v },
                    );
                }
            },
        }
    }
}

} // verus!

