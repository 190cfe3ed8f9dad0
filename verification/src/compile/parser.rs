use vstd::prelude::*;
use std::sync::Arc;
use super::lexer::{lex_fits, next_kind, next_rest, next_span, next_token};
use super::token::{Token, TokenSpan};

verus! {

/// The span of a token together with where in the source the token starts.
/// The input is always a suffix of one program, so the bytes left to read
/// order the positions: more bytes left is earlier.
#[derive(Debug)]
pub struct OrderedTokenSpan {
    pub remaining: usize,
    pub span: TokenSpan,
}

impl OrderedTokenSpan {
    /// The span of the token that starts where `inp` starts.
    pub fn new(inp: &[u8], span: TokenSpan) -> (r: Self)
        ensures
            r.remaining == inp@.len(),
            r.span == span,
    {
        OrderedTokenSpan { remaining: inp.len(), span }
    }
}

/// The positions of the recorded spans strictly move forward: the bytes
/// left strictly decrease.
pub open spec fn spans_ordered(s: Seq<OrderedTokenSpan>) -> bool {
    forall|i: int, j: int| 0 <= i < j < s.len() ==> #[trigger] s[i].remaining > #[trigger] s[j].remaining
}

/// The index of the recorded span whose token starts with `q` bytes left,
/// if there is one.
pub open spec fn span_index(s: Seq<OrderedTokenSpan>, q: int) -> Option<int> {
    if exists|k: int| 0 <= k < s.len() && #[trigger] s[k].remaining == q {
        Some(choose|k: int| 0 <= k < s.len() && #[trigger] s[k].remaining == q)
    } else {
        None
    }
}

/// Looks for the recorded span of the token that starts with `q` bytes
/// left; else gives where such a span would go.
fn search_spans(s: &Vec<OrderedTokenSpan>, q: usize) -> (r: Result<usize, usize>)
    requires
        spans_ordered(s@),
    ensures
        match r {
            Ok(k) => span_index(s@, q as int) == Some(k as int),
            Err(k) => span_index(s@, q as int) is None && k <= s@.len(),
        },
{
    let mut lo: usize = 0;
    let mut hi: usize = s.len();
    while lo < hi
        invariant
            spans_ordered(s@),
            0 <= lo <= hi <= s@.len(),
            forall|k: int| 0 <= k < lo ==> s@[k].remaining > q,
            forall|k: int| hi <= k < s@.len() ==> s@[k].remaining < q,
        decreases hi - lo,
    {
        let mid = lo + (hi - lo) / 2;
        let m = s[mid].remaining;
        if m == q {
            proof {
                let c = span_index(s@, q as int).unwrap();
                assert(s@[c].remaining == q);
                if c < mid {
                    assert(s@[c].remaining > s@[mid as int].remaining);
                } else if c > mid {
                    assert(s@[mid as int].remaining > s@[c].remaining);
                }
            }
            return Ok(mid);
        } else if m > q {
            proof {
                assert forall|k: int| 0 <= k < mid + 1 implies s@[k].remaining > q by {
                    if k < mid {
                        assert(s@[k].remaining > s@[mid as int].remaining);
                    }
                }
            }
            lo = mid + 1;
        } else {
            proof {
                assert forall|k: int| mid <= k < s@.len() implies s@[k].remaining < q by {
                    if k > mid {
                        assert(s@[mid as int].remaining > s@[k].remaining);
                    }
                }
            }
            hi = mid;
        }
    }
    Err(lo)
}

/// Keeps the spans of the tokens read so far, so that a token read again
/// after backtracking is placed where it was first read.
pub struct Parser {
    file: Arc<String>,
    token_spans: Vec<OrderedTokenSpan>,
    last_span_index: usize,
}

impl Parser {
    pub closed spec fn spec_spans(&self) -> Seq<OrderedTokenSpan> {
        self.token_spans@
    }

    pub closed spec fn spec_last(&self) -> nat {
        self.last_span_index as nat
    }

    pub closed spec fn spec_file(&self) -> Arc<String> {
        self.file
    }

    /// At least one span is recorded, in order, and the last one used is
    /// one of them.
    pub open spec fn wf(&self) -> bool {
        &&& self.spec_spans().len() >= 1
        &&& spans_ordered(self.spec_spans())
        &&& self.spec_last() < self.spec_spans().len()
    }

    pub fn new(filename: Arc<String>) -> (r: Self)
        ensures
            r.spec_file() == filename,
            r.spec_spans().len() == 0,
            r.spec_last() == 0,
    {
        Parser { file: filename, token_spans: Vec::new(), last_span_index: 0 }
    }

    /// Records the start of the program, before its first token.
    pub fn start(&mut self, program: &[u8])
        requires
            old(self).spec_spans().len() == 0,
            old(self).spec_last() == 0,
        ensures
            final(self).wf(),
            final(self).spec_file() == old(self).spec_file(),
            final(self).spec_spans().len() == 1,
            final(self).spec_spans()[0].remaining == program@.len(),
            final(self).spec_spans()[0].span == (TokenSpan {
                filename: old(self).spec_file(),
                line: 1,
                end_line: 1,
                start: 1,
                end: 1,
            }),
            final(self).spec_last() == 0,
    {
        self.token_spans.push(OrderedTokenSpan::new(program, TokenSpan::new(self.file.clone())));
    }

    /// Returns the span of the token before the one that starts at `inp`,
    /// and whether that token is new, so its span should be recorded. Most
    /// likely the token just after the last one used is asked for.
    pub fn find_previous_token_span(&mut self, inp: &[u8]) -> (r: (TokenSpan, bool))
        requires
            old(self).wf(),
            ({
                let s = old(self).spec_spans();
                let last = old(self).spec_last() as int;
                ||| (inp@.len() < s[last].remaining && last == s.len() - 1)
                ||| (inp@.len() < s[last].remaining && last + 1 < s.len() && s[last + 1].remaining == inp@.len())
                ||| span_index(s, inp@.len() as int) is Some
            }),
        ensures
            final(self).spec_spans() == old(self).spec_spans(),
            final(self).spec_file() == old(self).spec_file(),
            ({
                let s = old(self).spec_spans();
                let last = old(self).spec_last() as int;
                let q = inp@.len() as int;
                if q < s[last].remaining && last == s.len() - 1 {
                    r == (s[last].span, true) && final(self).spec_last() == last + 1
                } else if q < s[last].remaining && s[last + 1].remaining == q {
                    r == (s[last].span, false) && final(self).spec_last() == last + 1
                } else {
                    let k = span_index(s, q).unwrap();
                    r == (s[if k == 0 { 0 } else { k - 1 }].span, false) && final(self).spec_last() == k
                }
            }),
    {
        let q = inp.len();
        let last_span_index = self.last_span_index;
        if q < self.token_spans[last_span_index].remaining {
            if last_span_index == self.token_spans.len() - 1 {
                self.last_span_index = last_span_index + 1;
                return (self.token_spans[last_span_index].span.clone(), true);
            } else if q == self.token_spans[last_span_index + 1].remaining {
                self.last_span_index = last_span_index + 1;
                return (self.token_spans[last_span_index].span.clone(), false);
            }
        }
        match search_spans(&self.token_spans, q) {
            Ok(index) => {
                self.last_span_index = index;
                let index = if index == 0 {
                    0
                } else {
                    index - 1
                };
                (self.token_spans[index].span.clone(), false)
            },
            Err(_) => vstd::pervasive::unreached(),
        }
    }

    /// Lexes the token at `inp`, after the token before it, and records its
    /// span when it is new.
    pub fn next_token<'a>(&mut self, inp: &'a [u8]) -> (r: (&'a [u8], Token<'a>))
        requires
            old(self).wf(),
            ({
                let s = old(self).spec_spans();
                let last = old(self).spec_last() as int;
                ||| (inp@.len() < s[last].remaining && last == s.len() - 1)
                ||| (inp@.len() < s[last].remaining && last + 1 < s.len() && s[last + 1].remaining == inp@.len())
                ||| span_index(s, inp@.len() as int) is Some
            }),
            inp@.len() <= usize::MAX / 4,
            forall|k: int|
                0 <= k < old(self).spec_spans().len() ==> (#[trigger] old(self).spec_spans()[k]).span.line
                    + inp@.len() <= usize::MAX && old(self).spec_spans()[k].span.end + 2 * inp@.len() + 1
                    <= usize::MAX,
            lex_fits(inp@),
        ensures
            final(self).wf(),
            final(self).spec_file() == old(self).spec_file(),
            r.0@ == next_rest(inp@),
            r.1.kind@ == next_kind(inp@),
            ({
                let s = old(self).spec_spans();
                let last = old(self).spec_last() as int;
                let q = inp@.len() as int;
                let new_token = q < s[last].remaining && last == s.len() - 1;
                let prev = if new_token || (q < s[last].remaining && s[last + 1].remaining == q) {
                    s[last].span
                } else {
                    let k = span_index(s, q).unwrap();
                    s[if k == 0 { 0 } else { k - 1 }].span
                };
                &&& r.1.span == next_span(inp@, prev)
                &&& new_token ==> final(self).spec_spans() == s.push(OrderedTokenSpan { remaining: inp@.len() as usize, span: r.1.span })
                &&& !new_token ==> final(self).spec_spans() == s
            }),
    {
        let (prev_span, should_insert) = self.find_previous_token_span(inp);
        proof {
            let s = old(self).spec_spans();
            let last = old(self).spec_last() as int;
            if !should_insert {
                let q = inp@.len() as int;
                if !(q < s[last].remaining && s[last + 1].remaining == q) {
                    let k = span_index(s, q).unwrap();
                    assert(s[k].remaining == q);
                }
            }
        }
        let (rest, token) = next_token(inp, &prev_span);
        if should_insert {
            self.token_spans.push(OrderedTokenSpan::new(inp, token.span.clone()));
            proof {
                let s = self.spec_spans();
                assert forall|i: int, j: int| 0 <= i < j < s.len() implies #[trigger] s[i].remaining
                    > #[trigger] s[j].remaining by {
                    if j == s.len() - 1 && i < j {
                        let o = old(self).spec_spans();
                        let last = old(self).spec_last() as int;
                        if i < last {
                            assert(o[i].remaining > o[last].remaining);
                        }
                    }
                }
            }
        }
        (rest, token)
    }

    /// Once no more backtracking can happen, forgets every span but the
    /// last.
    pub fn clear_token_spans(&mut self)
        requires
            old(self).wf(),
            old(self).spec_spans().len() > 1,
        ensures
            final(self).wf(),
            final(self).spec_file() == old(self).spec_file(),
            final(self).spec_spans() == seq![old(self).spec_spans().last()],
            final(self).spec_last() == 0,
    {
        let keep_last = self.token_spans.pop().unwrap();
        self.token_spans.clear();
        self.token_spans.push(keep_last);
        self.last_span_index = 0;
    }
}

} // verus!
