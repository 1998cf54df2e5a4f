//! The rule-dispatch engine: a `Lexer` drives a cursor over a source text
//! through an ordered list of pattern rules, with backtracking for rules
//! that fail to match.

use vstd::prelude::*;
use crate::cursor::{Cursor, skip_result};
use crate::error::Error;
use crate::source::Source;
use crate::span::Span;
use crate::token::Token;

verus! {

/// Whether the pattern `pat` occurs in `code` starting exactly at `pos`.
pub open spec fn matches_at(code: Seq<char>, pos: int, pat: Seq<char>) -> bool {
    &&& 0 <= pos
    &&& pos + pat.len() <= code.len()
    &&& code.subrange(pos, pos + pat.len() as int) == pat
}

/// Whether `pos` ends a word: the end of the text, or a space.
pub open spec fn at_word_end(code: Seq<char>, pos: int) -> bool {
    pos >= code.len() || code[pos] == ' '
}

/// One unit of match logic. Rules form a closed set of variants; an
/// ordered list of them drives the engine, first match winning.
pub enum Rule<K> {
    /// Skips whitespace characters. It never yields a token, and it is
    /// non-consuming: whatever it skipped stays skipped.
    SkipWhitespace,
    /// Yields a token of kind `kind` when `pattern` occurs at the current
    /// position.
    MatchString { pattern: String, kind: K },
    /// Yields a token of kind `kind` when `pattern` occurs at the current
    /// position and is followed by a space or the end of the text.
    MatchWord { pattern: String, kind: K },
}

impl<K> Rule<K> {
    /// A match rule's pattern covers at least one character, so the span
    /// of any token it yields is non-empty.
    pub open spec fn wf(&self) -> bool {
        match self {
            Rule::SkipWhitespace => true,
            Rule::MatchString { pattern, .. } => pattern@.len() > 0,
            Rule::MatchWord { pattern, .. } => pattern@.len() > 0,
        }
    }

    /// The pattern a match rule looks for; empty for the skip rule.
    pub open spec fn pattern_spec(&self) -> Seq<char> {
        match self {
            Rule::SkipWhitespace => Seq::empty(),
            Rule::MatchString { pattern, .. } => pattern@,
            Rule::MatchWord { pattern, .. } => pattern@,
        }
    }

    /// The kind of the tokens a match rule yields.
    pub open spec fn kind_spec(&self) -> K {
        match self {
            Rule::SkipWhitespace => arbitrary(),
            Rule::MatchString { kind, .. } => *kind,
            Rule::MatchWord { kind, .. } => *kind,
        }
    }

    /// Whether the rule yields a token when it matches. The engine rolls
    /// the cursor back after a failed attempt exactly when this holds.
    pub open spec fn generates_token_spec(&self) -> bool {
        !(self is SkipWhitespace)
    }

    /// Whether the rule matches `code` at `pos`. The skip rule never
    /// matches: it only moves the cursor.
    pub open spec fn matches(&self, code: Seq<char>, pos: int) -> bool {
        match self {
            Rule::SkipWhitespace => false,
            Rule::MatchString { pattern, .. } => matches_at(code, pos, pattern@),
            Rule::MatchWord { pattern, .. } => matches_at(code, pos, pattern@) && at_word_end(
                code,
                pos + pattern@.len(),
            ),
        }
    }

    /// A rule that skips whitespace and never yields a token.
    pub fn skip_whitespace() -> (r: Rule<K>)
        ensures
            r == Rule::<K>::SkipWhitespace,
    {
        Rule::SkipWhitespace
    }

    /// A rule that matches `pattern` exactly and yields a token of kind
    /// `kind`.
    pub fn match_string(pattern: &str, kind: K) -> (r: Rule<K>)
        requires
            pattern@.len() > 0,
        ensures
            r.wf(),
            r is MatchString,
            r.pattern_spec() == pattern@,
            r.kind_spec() == kind,
    {
        Rule::MatchString { pattern: pattern.to_owned(), kind }
    }

    /// A rule that matches `pattern` followed by a space or the end of
    /// the text, and yields a token of kind `kind`.
    pub fn match_word(pattern: &str, kind: K) -> (r: Rule<K>)
        requires
            pattern@.len() > 0,
        ensures
            r.wf(),
            r is MatchWord,
            r.pattern_spec() == pattern@,
            r.kind_spec() == kind,
    {
        Rule::MatchWord { pattern: pattern.to_owned(), kind }
    }

    /// Whether the rule generates a token. The engine jumps back to the
    /// position recorded before the attempt when a token-generating rule
    /// finds no token; a skip rule's progress is kept.
    pub fn generates_token(&self) -> (r: bool)
        ensures
            r == self.generates_token_spec(),
    {
        match self {
            Rule::SkipWhitespace => false,
            Rule::MatchString { .. } => true,
            Rule::MatchWord { .. } => true,
        }
    }
}

/// Walks the cursor over `pattern`, comparing character by character.
/// On a full match the cursor rests just past the matched text; a partial
/// match leaves it where the comparison stopped, for the caller to
/// restore.
fn match_pattern(cursor: &mut Cursor, pattern: &str) -> (m: bool)
    requires
        old(cursor).wf(),
        pattern@.len() > 0,
    ensures
        final(cursor).wf(),
        final(cursor).code == old(cursor).code,
        m == matches_at(old(cursor).code@, old(cursor).position as int, pattern@),
        m ==> final(cursor).position == old(cursor).position + pattern@.len(),
{
    let ghost code = old(cursor).code@;
    let ghost pos0 = old(cursor).position as int;
    let plen = pattern.unicode_len();
    let mut k: usize = 0;
    let mut matched = true;
    while k < plen && matched
        invariant
            cursor.wf(),
            cursor.code == old(cursor).code,
            code == cursor.code@,
            pos0 == old(cursor).position as int,
            0 <= k <= plen,
            plen == pattern@.len(),
            matched ==> cursor.position == pos0 + k,
            matched ==> forall|j: int| #![trigger pattern@[j]]
                0 <= j < k ==> pos0 + j < code.len() && code[pos0 + j] == pattern@[j],
            !matched ==> !matches_at(code, pos0, pattern@),
        decreases plen - k + (if matched { 1int } else { 0int }),
    {
        let pc = pattern.get_char(k);
        let hit = match cursor.current_char {
            Some(c) => c == pc,
            None => false,
        };
        if hit {
            cursor.advance();
            k = k + 1;
        } else {
            proof {
                if matches_at(code, pos0, pattern@) {
                    assert(code.subrange(pos0, pos0 + pattern@.len() as int)[k as int]
                        == pattern@[k as int]);
                }
            }
            matched = false;
        }
    }
    proof {
        if matched {
            assert(code[pos0 + plen - 1] == pattern@[plen - 1]);
            assert(code.subrange(pos0, pos0 + pattern@.len() as int) =~= pattern@);
        }
    }
    matched
}

/// The outcome of one dispatch pass over `rules`, starting at rule `i`
/// with the cursor at `pos`: the index of the first matching rule, if
/// any, and the cursor's final position. A skip rule moves the position
/// forward for the rules after it; a failed token-generating rule hands
/// the next rule its own starting position back.
pub open spec fn dispatch<K>(rules: Seq<Rule<K>>, code: Seq<char>, pos: int, i: int) -> (
    Option<int>,
    int,
)
    decreases rules.len() - i,
{
    if i < 0 || i >= rules.len() {
        (None, pos)
    } else if !rules[i].generates_token_spec() {
        dispatch(rules, code, skip_result(code, pos), i + 1)
    } else if rules[i].matches(code, pos) {
        (Some(i), pos + rules[i].pattern_spec().len())
    } else {
        dispatch(rules, code, pos, i + 1)
    }
}

/// First match wins: when the rule at `i` matches at the position it is
/// attempted from, the dispatch yields that rule's token, whatever any
/// later rule would have done at the same position.
pub proof fn lemma_first_match_wins<K>(rules: Seq<Rule<K>>, code: Seq<char>, pos: int, i: int)
    requires
        0 <= i < rules.len(),
        rules[i].matches(code, pos),
    ensures
        dispatch(rules, code, pos, i) == (Some(i), pos + rules[i].pattern_spec().len()),
{
}

/// Backtracking round trip: a token-generating rule that fails to match
/// hands the rule after it exactly the position recorded before its own
/// attempt.
pub proof fn lemma_backtracking_round_trip<K>(
    rules: Seq<Rule<K>>,
    code: Seq<char>,
    pos: int,
    i: int,
)
    requires
        0 <= i < rules.len(),
        rules[i].generates_token_spec(),
        !rules[i].matches(code, pos),
    ensures
        dispatch(rules, code, pos, i) == dispatch(rules, code, pos, i + 1),
{
}

impl<K: Clone> Rule<K> {
    /// Attempts this rule against the cursor. A skip rule consumes
    /// whitespace and yields nothing; a match rule yields a token exactly
    /// when its pattern matches at the cursor's position, leaving the
    /// cursor just past the matched text. After a failed match attempt
    /// the cursor may rest anywhere the comparison stopped: the engine
    /// restores it.
    pub fn get_token(&self, cursor: &mut Cursor) -> (t: Option<Token<K>>)
        requires
            old(cursor).wf(),
            self.wf(),
        ensures
            final(cursor).wf(),
            final(cursor).code == old(cursor).code,
            self.generates_token_spec() ==> ((t is Some) <==> self.matches(
                old(cursor).code@,
                old(cursor).position as int,
            )),
            !self.generates_token_spec() ==> t is None && final(cursor).position == skip_result(
                old(cursor).code@,
                old(cursor).position as int,
            ),
            t matches Some(tok) ==> {
                &&& tok.span.start == old(cursor).position
                &&& tok.span.end == old(cursor).position + self.pattern_spec().len()
                &&& final(cursor).position == tok.span.end
                &&& vstd::pervasive::cloned::<K>(self.kind_spec(), tok.kind)
            },
    {
        match self {
            Rule::SkipWhitespace => {
                cursor.skip_ws();
                None
            },
            Rule::MatchString { pattern, kind } => {
                let start = cursor.position;
                if match_pattern(cursor, pattern.as_str()) {
                    Some(Token::new(kind.clone(), Span::new(start, cursor.position)))
                } else {
                    None
                }
            },
            Rule::MatchWord { pattern, kind } => {
                let start = cursor.position;
                if match_pattern(cursor, pattern.as_str()) {
                    let boundary = match cursor.current_char {
                        Some(c) => c == ' ',
                        None => true,
                    };
                    if boundary {
                        Some(Token::new(kind.clone(), Span::new(start, cursor.position)))
                    } else {
                        None
                    }
                } else {
                    None
                }
            },
        }
    }
}

/// Tokenizes a source text: a cursor over the text plus the ordered list
/// of rules tried, first to last, on every call.
pub struct Lexer<K> {
    /// The scan cursor over the source text.
    pub cursor: Cursor,
    /// The rules used to tokenize the source text, in match-precedence
    /// order.
    pub rules: Vec<Rule<K>>,
}

impl<K> Lexer<K> {
    /// The engine's invariant: a consistent cursor and well-formed rules.
    pub open spec fn wf(&self) -> bool {
        &&& self.cursor.wf()
        &&& forall|i: int| 0 <= i < self.rules@.len() ==> self.rules@[i].wf()
    }

    /// Creates a new `Lexer` over the given source text and rules, with
    /// the cursor at the start of the text.
    pub fn new(source: &Source, rules: Vec<Rule<K>>) -> (l: Lexer<K>)
        requires
            source.code@.len() < usize::MAX,
            forall|i: int| 0 <= i < rules@.len() ==> rules@[i].wf(),
        ensures
            l.wf(),
            l.cursor.code@ == source.code@,
            l.cursor.position == 0,
            l.rules == rules,
    {
        Lexer { cursor: Cursor::new(source.code.as_str()), rules }
    }

    /// Advances the cursor to the next character of the source text.
    pub fn advance(&mut self)
        requires
            old(self).wf(),
        ensures
            final(self).wf(),
            final(self).cursor.code == old(self).cursor.code,
            final(self).rules == old(self).rules,
            old(self).cursor.position < old(self).cursor.code@.len() ==> final(self).cursor.position == old(self).cursor.position + 1,
            old(self).cursor.position >= old(self).cursor.code@.len() ==> final(self).cursor.position == old(self).cursor.position,
    {
        self.cursor.advance();
    }

    /// Jumps the cursor to an absolute position in the source text; an
    /// out-of-bounds target leaves the cursor exhausted.
    pub fn jump_to(&mut self, position: usize)
        requires
            old(self).wf(),
        ensures
            final(self).wf(),
            final(self).cursor.code == old(self).cursor.code,
            final(self).rules == old(self).rules,
            position < old(self).cursor.code@.len() ==> final(self).cursor.position == position
                && final(self).cursor.current_char == Some(old(self).cursor.code@[position as int]),
            position >= old(self).cursor.code@.len() ==> final(self).cursor.position == old(self).cursor.code@.len() + 1 && final(self).cursor.current_char is None,
    {
        self.cursor.jump_to(position);
    }
}

impl<K: Clone> Lexer<K> {
    /// Attempts to produce the next token, trying the rules strictly in
    /// list order. The first rule to yield a token wins and the cursor is
    /// left just past the matched text; after a failed token-generating
    /// rule the cursor is restored to the position recorded before the
    /// attempt, while a skip rule's progress is kept. When no rule yields
    /// a token the call returns `Ok(None)` with the cursor reflecting the
    /// skip rules' cumulative effect. The closed rule set never fails, so
    /// the call always returns `Ok`.
    ///
    /// The engine does not watch for zero-progress rounds: a round that
    /// yields no token need not move the cursor, so a driving loop must
    /// treat `Ok(None)` as the end of its input rather than call again
    /// for ever.
    pub fn get_token(&mut self) -> (r: Result<Option<Token<K>>, Error>)
        requires
            old(self).wf(),
        ensures
            final(self).wf(),
            final(self).cursor.code == old(self).cursor.code,
            final(self).rules == old(self).rules,
            r is Ok,
            ({
                let d = dispatch(
                    old(self).rules@,
                    old(self).cursor.code@,
                    old(self).cursor.position as int,
                    0,
                );
                &&& final(self).cursor.position == d.1
                &&& (d.0 is None ==> r == Result::<Option<Token<K>>, Error>::Ok(None))
                &&& (d.0 matches Some(i) ==> r matches Ok(Some(tok)) && {
                    &&& 0 <= i < old(self).rules@.len()
                    &&& tok.span.end == d.1
                    &&& tok.span.start == d.1 - old(self).rules@[i].pattern_spec().len()
                    &&& old(self).rules@[i].matches(old(self).cursor.code@, tok.span.start as int)
                    &&& vstd::pervasive::cloned::<K>(old(self).rules@[i].kind_spec(), tok.kind)
                })
            }),
    {
        let ghost rules0 = self.rules@;
        let ghost code0 = self.cursor.code@;
        let ghost pos0 = self.cursor.position as int;
        let mut i: usize = 0;
        while i < self.rules.len()
            invariant
                self.wf(),
                self.rules == old(self).rules,
                rules0 == self.rules@,
                self.cursor.code == old(self).cursor.code,
                code0 == self.cursor.code@,
                pos0 == old(self).cursor.position as int,
                0 <= i <= rules0.len(),
                dispatch(rules0, code0, pos0, 0) == dispatch(
                    rules0,
                    code0,
                    self.cursor.position as int,
                    i as int,
                ),
            decreases rules0.len() - i,
        {
            let prev = self.cursor.position;
            let generates = self.rules[i].generates_token();
            let t = self.rules[i].get_token(&mut self.cursor);
            if let Some(tok) = t {
                proof {
                    lemma_first_match_wins(rules0, code0, prev as int, i as int);
                }
                return Ok(Some(tok));
            }
            if generates {
                self.cursor.restore(prev);
                proof {
                    lemma_backtracking_round_trip(rules0, code0, prev as int, i as int);
                }
            } else {
                proof {
                    assert(dispatch(rules0, code0, prev as int, i as int) == dispatch(
                        rules0,
                        code0,
                        skip_result(code0, prev as int),
                        i + 1,
                    ));
                }
            }
            i = i + 1;
        }
        Ok(None)
    }
}

/// A rule that skips whitespace characters; it never yields a token, and
/// its progress over the text is kept even though no token comes of it.
pub struct SkipWhitespaceRule;

impl SkipWhitespaceRule {
    /// Consumes whitespace from the cursor's position onward; never
    /// yields a token and never fails.
    pub fn get_token<K>(&self, lexer: &mut Lexer<K>) -> (r: Result<Option<Token<K>>, Error>)
        requires
            old(lexer).wf(),
        ensures
            final(lexer).wf(),
            final(lexer).cursor.code == old(lexer).cursor.code,
            final(lexer).rules == old(lexer).rules,
            r == Result::<Option<Token<K>>, Error>::Ok(None),
            final(lexer).cursor.position == skip_result(
                old(lexer).cursor.code@,
                old(lexer).cursor.position as int,
            ),
    {
        lexer.cursor.skip_ws();
        Ok(None)
    }

    /// This rule never generates a token, so the engine keeps whatever it
    /// consumed instead of rolling the cursor back.
    pub fn generates_token(&self) -> (r: bool)
        ensures
            r == false,
    {
        false
    }
}

/// Checks whether the text at the lexer's current position matches the
/// given sequence. On a match the cursor is left just past it; on a
/// failed match the cursor is jumped back to the recorded position (an
/// already-exhausted cursor ends up one past the end, as `jump_to`
/// leaves it); an empty sequence never matches and moves nothing.
pub fn matches_sequence<K>(lexer: &mut Lexer<K>, sequence: &str) -> (r: bool)
    requires
        old(lexer).wf(),
    ensures
        final(lexer).wf(),
        final(lexer).cursor.code == old(lexer).cursor.code,
        final(lexer).rules == old(lexer).rules,
        r == (sequence@.len() > 0 && matches_at(
            old(lexer).cursor.code@,
            old(lexer).cursor.position as int,
            sequence@,
        )),
        r ==> final(lexer).cursor.position == old(lexer).cursor.position + sequence@.len(),
        !r && sequence@.len() == 0 ==> final(lexer).cursor == old(lexer).cursor,
        !r && sequence@.len() > 0 ==> {
            &&& (old(lexer).cursor.position < old(lexer).cursor.code@.len() ==> final(lexer).cursor.position == old(lexer).cursor.position)
            &&& (old(lexer).cursor.position >= old(lexer).cursor.code@.len() ==> final(lexer).cursor.position == old(lexer).cursor.code@.len() + 1)
        },
{
    if sequence.unicode_len() == 0 {
        return false;
    }
    let start_pos = lexer.cursor.position;
    let matched = match_pattern(&mut lexer.cursor, sequence);
    if !matched {
        lexer.cursor.jump_to(start_pos);
    }
    matched
}

} // verus!
