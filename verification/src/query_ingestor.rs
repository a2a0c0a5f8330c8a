//! The query language front end: a lexer that turns predicate text into
//! tokens by a single left-to-right character scan, and a parser that
//! pairs each field-name token with the literal that follows it.
//!
//! Grammar, informally: a query is `{ predicate (, predicate)* }` with
//! `predicate := fieldName : literal`; a literal is a `"..."` string (no
//! escape processing: a `"` always closes it) or an unsigned decimal
//! number whose first digit is not `0`. Whitespace and commas separate
//! predicates and are otherwise ignored outside strings.

use crate::datatypes::{DataType, DataTypeView};
use crate::query_proc::QueryResult;
use vstd::prelude::*;
use vstd::string::StrSliceExecFns;

verus! {

/// A lexical token of the query language.
#[derive(Debug)]
pub enum Token {
    OpenCurly,
    CloseCurly,
    String(String),
    Number(u64),
    Field(String),
}

/// The mathematical value of a [`Token`].
pub enum TokenView {
    OpenCurly,
    CloseCurly,
    String(Seq<char>),
    Number(u64),
    Field(Seq<char>),
}

impl View for Token {
    type V = TokenView;

    open spec fn view(&self) -> TokenView {
        match self {
            Token::OpenCurly => TokenView::OpenCurly,
            Token::CloseCurly => TokenView::CloseCurly,
            Token::String(s) => TokenView::String(s@),
            Token::Number(n) => TokenView::Number(*n),
            Token::Field(s) => TokenView::Field(s@),
        }
    }
}

impl PartialEq for Token {
    fn eq(&self, other: &Self) -> (r: bool) {
        match (self, other) {
            (Token::OpenCurly, Token::OpenCurly) => true,
            (Token::CloseCurly, Token::CloseCurly) => true,
            (Token::String(a), Token::String(b)) => *a == *b,
            (Token::Number(a), Token::Number(b)) => a == b,
            (Token::Field(a), Token::Field(b)) => *a == *b,
            _ => false,
        }
    }
}

impl vstd::std_specs::cmp::PartialEqSpecImpl for Token {
    open spec fn obeys_eq_spec() -> bool {
        true
    }

    open spec fn eq_spec(&self, other: &Self) -> bool {
        self@ == other@
    }
}

/// The token sequence a vector of tokens stands for.
pub open spec fn token_views(tokens: Seq<Token>) -> Seq<TokenView> {
    tokens.map_values(|t: Token| t@)
}

/// A single query operation: an equality predicate on one field.
#[derive(Debug)]
pub enum Instructions {
    Equal(String, DataType),
}

/// The mathematical value of an [`Instructions`] operation.
pub enum InstructionView {
    Equal(Seq<char>, DataTypeView),
}

impl View for Instructions {
    type V = InstructionView;

    open spec fn view(&self) -> InstructionView {
        match self {
            Instructions::Equal(f, v) => InstructionView::Equal(f@, v@),
        }
    }
}

impl PartialEq for Instructions {
    fn eq(&self, other: &Self) -> (r: bool) {
        match (self, other) {
            (Instructions::Equal(f1, v1), Instructions::Equal(f2, v2)) => *f1 == *f2 && *v1
                == *v2,
        }
    }
}

impl vstd::std_specs::cmp::PartialEqSpecImpl for Instructions {
    open spec fn obeys_eq_spec() -> bool {
        true
    }

    open spec fn eq_spec(&self, other: &Self) -> bool {
        self@ == other@
    }
}

/// The instruction sequence a vector of instructions stands for.
pub open spec fn instruction_views(instrs: Seq<Instructions>) -> Seq<InstructionView> {
    instrs.map_values(|i: Instructions| i@)
}

/// A decimal digit.
pub open spec fn is_digit(c: char) -> bool {
    '0' as u32 <= c as u32 && c as u32 <= '9' as u32
}

/// The number a digit sequence denotes, most significant digit first.
pub open spec fn digits_val(s: Seq<char>) -> int
    decreases s.len(),
{
    if s.len() == 0 {
        0
    } else {
        digits_val(s.drop_last()) * 10 + (s.last() as u32 - '0' as u32)
    }
}

/// Every character is a decimal digit.
pub open spec fn all_digits(s: Seq<char>) -> bool {
    forall|i: int| 0 <= i < s.len() ==> is_digit(#[trigger] s[i])
}

/// What parsing an accumulated literal as a `u64` yields: its value when
/// the text is a nonempty run of digits denoting a number in range, and
/// nothing otherwise.
pub open spec fn spec_parse_u64(s: Seq<char>) -> Option<u64> {
    if s.len() > 0 && all_digits(s) && digits_val(s) <= u64::MAX as int {
        Some(digits_val(s) as u64)
    } else {
        None
    }
}

proof fn lemma_digits_val_nonneg(s: Seq<char>)
    requires
        all_digits(s),
    ensures
        digits_val(s) >= 0,
    decreases s.len(),
{
    if s.len() > 0 {
        assert(forall|i: int|
            0 <= i < s.drop_last().len() ==> #[trigger] s.drop_last()[i] == s[i]);
        lemma_digits_val_nonneg(s.drop_last());
    }
}

/// A digit run denotes at least as much as any of its prefixes.
proof fn lemma_digits_val_prefix(s: Seq<char>, i: int)
    requires
        all_digits(s),
        0 <= i <= s.len(),
    ensures
        digits_val(s.take(i)) <= digits_val(s),
    decreases s.len() - i,
{
    assert(forall|j: int| 0 <= j < i ==> #[trigger] s.take(i)[j] == s[j]);
    if i < s.len() {
        assert(s.take(i + 1).drop_last() =~= s.take(i));
        assert(s.take(i + 1).last() == s[i]);
        assert(all_digits(s.take(i))) by {
            assert(forall|j: int| 0 <= j < i ==> #[trigger] s.take(i)[j] == s[j]);
        }
        lemma_digits_val_nonneg(s.take(i));
        assert(digits_val(s.take(i + 1)) >= digits_val(s.take(i)));
        lemma_digits_val_prefix(s, i + 1);
    } else {
        assert(s.take(i) =~= s);
    }
}

/// Parses an accumulated literal as an unsigned number, checking range.
#[verifier::loop_isolation(false)]
fn parse_u64(digits: &Vec<char>) -> (r: Option<u64>)
    ensures
        r == spec_parse_u64(digits@),
{
    if digits.len() == 0 {
        return None;
    }
    let mut acc: u64 = 0;
    let mut i: usize = 0;
    while i < digits.len()
        invariant
            i <= digits@.len(),
            all_digits(digits@.take(i as int)),
            acc == digits_val(digits@.take(i as int)),
        decreases digits@.len() - i,
    {
        let c = digits[i];
        let cu = c as u32;
        if !(48 <= cu && cu <= 57) {
            proof {
                assert(!is_digit(digits@[i as int]));
            }
            return None;
        }
        let d = (cu - 48) as u64;
        proof {
            assert(digits@.take(i + 1).drop_last() =~= digits@.take(i as int));
            assert(digits@.take(i + 1).last() == digits@[i as int]);
            assert(digits_val(digits@.take(i + 1)) == acc * 10 + d);
        }
        if acc > (u64::MAX - d) / 10 {
            proof {
                assert(acc * 10 + d > u64::MAX) by (nonlinear_arith)
                    requires
                        acc > (u64::MAX - d) / 10,
                        d <= 9,
                ;
                if all_digits(digits@) {
                    lemma_digits_val_prefix(digits@, i + 1);
                }
            }
            return None;
        }
        proof {
            assert(acc * 10 + d <= u64::MAX) by (nonlinear_arith)
                requires
                    acc <= (u64::MAX - d) / 10,
                    d <= 9,
            ;
        }
        acc = acc * 10 + d;
        i += 1;
    }
    proof {
        assert(digits@.take(digits@.len() as int) =~= digits@);
    }
    Some(acc)
}

/// Relies on `String::push`: appends one character to the string.
#[verifier::external_body]
fn push_char(s: &mut String, c: char)
    ensures
        final(s)@ == old(s)@.push(c),
{
    s.push(c);
}

/// Builds the string the accumulated characters spell.
#[verifier::loop_isolation(false)]
fn chars_to_string(chars: &Vec<char>) -> (s: String)
    ensures
        s@ == chars@,
{
    let mut s = String::new();
    let mut i: usize = 0;
    while i < chars.len()
        invariant
            i <= chars@.len(),
            s@ == chars@.take(i as int),
        decreases chars@.len() - i,
    {
        push_char(&mut s, chars[i]);
        proof {
            assert(chars@.take(i + 1) =~= chars@.take(i as int).push(chars@[i as int]));
        }
        i += 1;
    }
    proof {
        assert(chars@.take(chars@.len() as int) =~= chars@);
    }
    s
}

/// The scanner's state: which of the three accumulation modes are active,
/// the characters accumulated so far, and the tokens already emitted.
pub struct LexState {
    pub in_string: bool,
    pub in_field: bool,
    pub in_number: bool,
    pub buf: Seq<char>,
    pub tokens: Seq<TokenView>,
}

/// The scanner's initial state.
pub open spec fn lex_init() -> LexState {
    LexState {
        in_string: false,
        in_field: false,
        in_number: false,
        buf: Seq::empty(),
        tokens: Seq::empty(),
    }
}

/// One step of the scan: how a single character transforms the scanner's
/// state, or fails the whole query. Inside a string literal every
/// character is taken verbatim — there is no escape processing, and only
/// a `"` closes the string. A comma while a field name is still
/// accumulating is malformed, as is a number literal that starts with `0`
/// or does not fit in a `u64`.
pub open spec fn lex_step(st: LexState, c: char) -> Option<LexState> {
    if c == '{' {
        if st.in_string {
            Some(
                LexState {
                    in_string: st.in_string,
                    in_field: st.in_field,
                    in_number: st.in_number,
                    buf: st.buf.push(c),
                    tokens: st.tokens,
                },
            )
        } else {
            Some(
                LexState {
                    in_string: st.in_string,
                    in_field: st.in_field,
                    in_number: st.in_number,
                    buf: st.buf,
                    tokens: st.tokens.push(TokenView::OpenCurly),
                },
            )
        }
    } else if c == '}' {
        if st.in_string {
            Some(
                LexState {
                    in_string: st.in_string,
                    in_field: st.in_field,
                    in_number: st.in_number,
                    buf: st.buf.push(c),
                    tokens: st.tokens,
                },
            )
        } else if st.in_number {
            match spec_parse_u64(st.buf) {
                Some(n) => Some(
                    LexState {
                        in_string: st.in_string,
                        in_field: st.in_field,
                        in_number: false,
                        buf: Seq::empty(),
                        tokens: st.tokens.push(TokenView::Number(n)).push(TokenView::CloseCurly),
                    },
                ),
                None => None,
            }
        } else {
            Some(
                LexState {
                    in_string: st.in_string,
                    in_field: st.in_field,
                    in_number: st.in_number,
                    buf: st.buf,
                    tokens: st.tokens.push(TokenView::CloseCurly),
                },
            )
        }
    } else if c == '"' {
        if st.in_string {
            Some(
                LexState {
                    in_string: false,
                    in_field: st.in_field,
                    in_number: st.in_number,
                    buf: Seq::empty(),
                    tokens: st.tokens.push(TokenView::String(st.buf)),
                },
            )
        } else {
            Some(
                LexState {
                    in_string: true,
                    in_field: st.in_field,
                    in_number: st.in_number,
                    buf: st.buf,
                    tokens: st.tokens,
                },
            )
        }
    } else if c == ':' {
        if st.in_string {
            Some(
                LexState {
                    in_string: st.in_string,
                    in_field: st.in_field,
                    in_number: st.in_number,
                    buf: st.buf.push(c),
                    tokens: st.tokens,
                },
            )
        } else if st.in_field {
            Some(
                LexState {
                    in_string: st.in_string,
                    in_field: false,
                    in_number: st.in_number,
                    buf: Seq::empty(),
                    tokens: st.tokens.push(TokenView::Field(st.buf)),
                },
            )
        } else {
            Some(st)
        }
    } else if c == ' ' {
        if st.in_string {
            Some(
                LexState {
                    in_string: st.in_string,
                    in_field: st.in_field,
                    in_number: st.in_number,
                    buf: st.buf.push(c),
                    tokens: st.tokens,
                },
            )
        } else if st.in_field {
            Some(
                LexState {
                    in_string: st.in_string,
                    in_field: false,
                    in_number: st.in_number,
                    buf: Seq::empty(),
                    tokens: st.tokens.push(TokenView::Field(st.buf)),
                },
            )
        } else if st.in_number {
            match spec_parse_u64(st.buf) {
                Some(n) => Some(
                    LexState {
                        in_string: st.in_string,
                        in_field: st.in_field,
                        in_number: false,
                        buf: Seq::empty(),
                        tokens: st.tokens.push(TokenView::Number(n)),
                    },
                ),
                None => None,
            }
        } else {
            Some(st)
        }
    } else if c == ',' {
        if st.in_string {
            Some(
                LexState {
                    in_string: st.in_string,
                    in_field: st.in_field,
                    in_number: st.in_number,
                    buf: st.buf.push(c),
                    tokens: st.tokens,
                },
            )
        } else if st.in_number {
            match spec_parse_u64(st.buf) {
                Some(n) => Some(
                    LexState {
                        in_string: st.in_string,
                        in_field: st.in_field,
                        in_number: false,
                        buf: Seq::empty(),
                        tokens: st.tokens.push(TokenView::Number(n)),
                    },
                ),
                None => None,
            }
        } else if st.in_field {
            None
        } else {
            Some(st)
        }
    } else if c == '0' {
        if st.in_string || st.in_field || st.in_number {
            Some(
                LexState {
                    in_string: st.in_string,
                    in_field: st.in_field,
                    in_number: st.in_number,
                    buf: st.buf.push(c),
                    tokens: st.tokens,
                },
            )
        } else {
            None
        }
    } else if is_digit(c) {
        if st.in_string || st.in_field {
            Some(
                LexState {
                    in_string: st.in_string,
                    in_field: st.in_field,
                    in_number: st.in_number,
                    buf: st.buf.push(c),
                    tokens: st.tokens,
                },
            )
        } else {
            Some(
                LexState {
                    in_string: st.in_string,
                    in_field: st.in_field,
                    in_number: true,
                    buf: st.buf.push(c),
                    tokens: st.tokens,
                },
            )
        }
    } else {
        if st.in_string || st.in_field {
            Some(
                LexState {
                    in_string: st.in_string,
                    in_field: st.in_field,
                    in_number: st.in_number,
                    buf: st.buf.push(c),
                    tokens: st.tokens,
                },
            )
        } else {
            Some(
                LexState {
                    in_string: st.in_string,
                    in_field: true,
                    in_number: st.in_number,
                    buf: st.buf.push(c),
                    tokens: st.tokens,
                },
            )
        }
    }
}

/// Runs the scan over a character sequence from a given state.
pub open spec fn lex_from(st: LexState, s: Seq<char>) -> Option<LexState>
    decreases s.len(),
{
    if s.len() == 0 {
        Some(st)
    } else {
        match lex_step(st, s.first()) {
            Some(st2) => lex_from(st2, s.drop_first()),
            None => None,
        }
    }
}

/// Scanning one more character continues from where the scan left off.
pub proof fn lemma_lex_from_snoc(st: LexState, s: Seq<char>, c: char)
    ensures
        lex_from(st, s.push(c)) == (match lex_from(st, s) {
            Some(m) => lex_step(m, c),
            None => None,
        }),
    decreases s.len(),
{
    if s.len() == 0 {
        assert(s.push(c).drop_first() =~= Seq::<char>::empty());
        assert(s.push(c).first() == c);
        assert(lex_from(st, s) == Some(st));
        if lex_step(st, c) is Some {
            let st2 = lex_step(st, c).unwrap();
            assert(lex_from(st, s.push(c)) == lex_from(st2, s.push(c).drop_first()));
            assert(lex_from(st2, Seq::<char>::empty()) == Some(st2));
        } else {
            assert(lex_from(st, s.push(c)) is None);
        }
    } else {
        assert(s.push(c).first() == s.first());
        assert(s.push(c).drop_first() =~= s.drop_first().push(c));
        if lex_step(st, s.first()) is Some {
            let st2 = lex_step(st, s.first()).unwrap();
            lemma_lex_from_snoc(st2, s.drop_first(), c);
            assert(lex_from(st, s.push(c)) == lex_from(st2, s.drop_first().push(c)));
            assert(lex_from(st, s) == lex_from(st2, s.drop_first()));
        } else {
            assert(lex_from(st, s.push(c)) is None);
            assert(lex_from(st, s) is None);
        }
    }
}

/// Once some prefix fails the scan, the whole input fails it.
pub proof fn lemma_lex_from_prefix_none(st: LexState, s: Seq<char>, i: int)
    requires
        0 <= i <= s.len(),
        lex_from(st, s.take(i)) is None,
    ensures
        lex_from(st, s) is None,
    decreases s.len() - i,
{
    if i == s.len() {
        assert(s.take(i) =~= s);
    } else {
        lemma_lex_from_snoc(st, s.take(i), s[i]);
        assert(s.take(i + 1) =~= s.take(i).push(s[i]));
        lemma_lex_from_prefix_none(st, s, i + 1);
    }
}

/// What tokenizing a query yields: the input must start with `{` and end
/// with `}`, and every character must pass the scan; the result is the
/// emitted token sequence. `None` is a malformed query.
pub open spec fn spec_lexer(q: Seq<char>) -> Option<Seq<TokenView>> {
    if q.len() == 0 || q.first() != '{' || q.last() != '}' {
        None
    } else {
        match lex_from(lex_init(), q) {
            Some(st) => Some(st.tokens),
            None => None,
        }
    }
}

/// Tokenizes the raw query text by a single left-to-right scan with three
/// accumulation modes (inside a string, a field name, or a number).
#[verifier::loop_isolation(false)]
pub fn lexer(query: &String) -> (r: Result<Vec<Token>, QueryResult>)
    ensures
        match r {
            Ok(tokens) => spec_lexer(query@) == Some(token_views(tokens@)),
            Err(e) => e == QueryResult::InvalidQueryError && spec_lexer(query@) is None,
        },
{
    let qs: &str = query.as_str();
    let n = qs.unicode_len();
    if n == 0 {
        return Err(QueryResult::InvalidQueryError);
    }
    if qs.get_char(0) != '{' || qs.get_char(n - 1) != '}' {
        return Err(QueryResult::InvalidQueryError);
    }
    let ghost q = query@;
    let mut in_string = false;
    let mut in_field = false;
    let mut in_number = false;
    let mut buf: Vec<char> = Vec::new();
    let mut tokens: Vec<Token> = Vec::new();
    let mut i: usize = 0;
    proof {
        assert(q.take(0) =~= Seq::<char>::empty());
        assert(token_views(tokens@) =~= Seq::<TokenView>::empty());
    }
    while i < n
        invariant
            i <= n,
            n == q.len(),
            lex_from(lex_init(), q.take(i as int)) == Some(
                LexState {
                    in_string,
                    in_field,
                    in_number,
                    buf: buf@,
                    tokens: token_views(tokens@),
                },
            ),
        decreases n - i,
    {
        let ghost pre = LexState {
            in_string,
            in_field,
            in_number,
            buf: buf@,
            tokens: token_views(tokens@),
        };
        proof {
            lemma_lex_from_snoc(lex_init(), q.take(i as int), q[i as int]);
            assert(q.take(i + 1) =~= q.take(i as int).push(q[i as int]));
        }
        let c = qs.get_char(i);
        let cu = c as u32;
        let ghost toks0 = tokens@;
        if c == '{' {
            if in_string {
                buf.push(c);
            } else {
                tokens.push(Token::OpenCurly);
                proof {
                    assert(token_views(tokens@) =~= token_views(toks0).push(TokenView::OpenCurly));
                }
            }
        } else if c == '}' {
            if in_string {
                buf.push(c);
            } else if in_number {
                match parse_u64(&buf) {
                    Some(v) => {
                        in_number = false;
                        tokens.push(Token::Number(v));
                        tokens.push(Token::CloseCurly);
                        buf.clear();
                        proof {
                            assert(token_views(tokens@) =~= token_views(toks0).push(
                                TokenView::Number(v),
                            ).push(TokenView::CloseCurly));
                        }
                    },
                    None => {
                        proof {
                            lemma_lex_from_prefix_none(lex_init(), q, i + 1);
                        }
                        return Err(QueryResult::InvalidQueryError);
                    },
                }
            } else {
                tokens.push(Token::CloseCurly);
                proof {
                    assert(token_views(tokens@) =~= token_views(toks0).push(TokenView::CloseCurly));
                }
            }
        } else if c == '"' {
            if in_string {
                in_string = false;
                let finished = chars_to_string(&buf);
                tokens.push(Token::String(finished));
                buf.clear();
                proof {
                    assert(token_views(tokens@) =~= token_views(toks0).push(
                        TokenView::String(pre.buf),
                    ));
                }
            } else {
                in_string = true;
            }
        } else if c == ':' {
            if in_string {
                buf.push(c);
            } else if in_field {
                in_field = false;
                let finished = chars_to_string(&buf);
                tokens.push(Token::Field(finished));
                buf.clear();
                proof {
                    assert(token_views(tokens@) =~= token_views(toks0).push(
                        TokenView::Field(pre.buf),
                    ));
                }
            }
        } else if c == ' ' {
            if in_string {
                buf.push(c);
            } else if in_field {
                in_field = false;
                let finished = chars_to_string(&buf);
                tokens.push(Token::Field(finished));
                buf.clear();
                proof {
                    assert(token_views(tokens@) =~= token_views(toks0).push(
                        TokenView::Field(pre.buf),
                    ));
                }
            } else if in_number {
                match parse_u64(&buf) {
                    Some(v) => {
                        in_number = false;
                        tokens.push(Token::Number(v));
                        buf.clear();
                        proof {
                            assert(token_views(tokens@) =~= token_views(toks0).push(
                                TokenView::Number(v),
                            ));
                        }
                    },
                    None => {
                        proof {
                            lemma_lex_from_prefix_none(lex_init(), q, i + 1);
                        }
                        return Err(QueryResult::InvalidQueryError);
                    },
                }
            }
        } else if c == ',' {
            if in_string {
                buf.push(c);
            } else if in_number {
                match parse_u64(&buf) {
                    Some(v) => {
                        in_number = false;
                        tokens.push(Token::Number(v));
                        buf.clear();
                        proof {
                            assert(token_views(tokens@) =~= token_views(toks0).push(
                                TokenView::Number(v),
                            ));
                        }
                    },
                    None => {
                        proof {
                            lemma_lex_from_prefix_none(lex_init(), q, i + 1);
                        }
                        return Err(QueryResult::InvalidQueryError);
                    },
                }
            } else if in_field {
                proof {
                    lemma_lex_from_prefix_none(lex_init(), q, i + 1);
                }
                return Err(QueryResult::InvalidQueryError);
            }
        } else if c == '0' {
            if in_string || in_field || in_number {
                buf.push(c);
            } else {
                proof {
                    lemma_lex_from_prefix_none(lex_init(), q, i + 1);
                }
                return Err(QueryResult::InvalidQueryError);
            }
        } else if 49 <= cu && cu <= 57 {
            if in_string || in_field {
                buf.push(c);
            } else {
                in_number = true;
                buf.push(c);
            }
        } else {
            if in_string || in_field {
                buf.push(c);
            } else {
                in_field = true;
                buf.push(c);
            }
        }
        i += 1;
    }
    proof {
        assert(q.take(n as int) =~= q);
    }
    Ok(tokens)
}

/// What parsing a token stream yields. A field-name token immediately
/// followed by a string or number literal forms one equality predicate;
/// every token that fits no such two-token pattern is silently discarded
/// (the parser is deliberately permissive). `prev` is the pending field
/// name, if the previous significant token was a field name.
pub open spec fn spec_parser(toks: Seq<TokenView>, prev: Option<Seq<char>>) -> Seq<InstructionView>
    decreases toks.len(),
{
    if toks.len() == 0 {
        Seq::empty()
    } else {
        let rest = toks.drop_first();
        match toks.first() {
            TokenView::Field(f) => spec_parser(rest, Some(f)),
            TokenView::String(s) => match prev {
                Some(f) => seq![InstructionView::Equal(f, DataTypeView::String(s))] + spec_parser(
                    rest,
                    None,
                ),
                None => spec_parser(rest, None),
            },
            TokenView::Number(n) => match prev {
                Some(f) => seq![InstructionView::Equal(f, DataTypeView::U64(n))] + spec_parser(
                    rest,
                    None,
                ),
                None => spec_parser(rest, None),
            },
            _ => spec_parser(rest, prev),
        }
    }
}

/// The pending field name an `Option<String>` stands for.
pub open spec fn prev_view(prev: Option<String>) -> Option<Seq<char>> {
    match prev {
        Some(f) => Some(f@),
        None => None,
    }
}

/// Converts a token stream into the ordered list of equality predicates
/// it spells, pairing each field name with the literal that follows it and
/// silently discarding tokens that fit no predicate.
#[verifier::loop_isolation(false)]
pub fn parser(tokens: Vec<Token>) -> (instrs: Vec<Instructions>)
    ensures
        instruction_views(instrs@) == spec_parser(token_views(tokens@), None),
{
    let ghost all = token_views(tokens@);
    let mut instrs: Vec<Instructions> = Vec::new();
    let mut prev: Option<String> = None;
    let mut i: usize = 0;
    proof {
        assert(all.skip(0) =~= all);
        assert(instruction_views(instrs@) =~= Seq::<InstructionView>::empty());
        assert(Seq::<InstructionView>::empty() + spec_parser(all, None) =~= spec_parser(all, None));
    }
    while i < tokens.len()
        invariant
            i <= tokens@.len(),
            all == token_views(tokens@),
            instruction_views(instrs@) + spec_parser(all.skip(i as int), prev_view(prev))
                =~= spec_parser(all, None),
        decreases tokens@.len() - i,
    {
        proof {
            assert(all.skip(i as int).first() == all[i as int]);
            assert(all.skip(i as int).drop_first() =~= all.skip(i + 1));
        }
        let ghost acc0 = instruction_views(instrs@);
        match &tokens[i] {
            Token::Field(f) => {
                prev = Some(f.clone());
            },
            Token::String(val) => {
                prev = match prev {
                    Some(f) => {
                        let ghost iv = InstructionView::Equal(f@, DataTypeView::String(val@));
                        instrs.push(Instructions::Equal(f, DataType::String(val.clone())));
                        proof {
                            assert(instruction_views(instrs@) =~= acc0.push(iv));
                            assert(acc0.push(iv) =~= acc0 + seq![iv]);
                            assert((acc0 + seq![iv]) + spec_parser(all.skip(i + 1), None) =~= acc0
                                + (seq![iv] + spec_parser(all.skip(i + 1), None)));
                        }
                        None
                    },
                    None => None,
                };
            },
            Token::Number(val) => {
                let num = *val;
                prev = match prev {
                    Some(f) => {
                        let ghost iv = InstructionView::Equal(f@, DataTypeView::U64(num));
                        instrs.push(Instructions::Equal(f, DataType::U64(num)));
                        proof {
                            assert(instruction_views(instrs@) =~= acc0.push(iv));
                            assert(acc0.push(iv) =~= acc0 + seq![iv]);
                            assert((acc0 + seq![iv]) + spec_parser(all.skip(i + 1), None) =~= acc0
                                + (seq![iv] + spec_parser(all.skip(i + 1), None)));
                        }
                        None
                    },
                    None => None,
                };
            },
            Token::OpenCurly => {},
            Token::CloseCurly => {},
        }
        i += 1;
    }
    proof {
        assert(all.skip(all.len() as int) =~= Seq::<TokenView>::empty());
        assert(instruction_views(instrs@) + Seq::<InstructionView>::empty() =~= instruction_views(
            instrs@,
        ));
    }
    instrs
}

/// What turning raw query text into instructions yields: the lexer's
/// tokens fed to the parser, or nothing when the text is malformed.
pub open spec fn spec_ingest(q: Seq<char>) -> Option<Seq<InstructionView>> {
    match spec_lexer(q) {
        Some(toks) => Some(spec_parser(toks, None)),
        None => None,
    }
}

/// Produces the ordered list of equality predicates a raw query string
/// spells, or `InvalidQueryError` when the text is malformed: missing
/// enclosing braces, a comma inside an unterminated field name, or a
/// number literal that starts with `0` or does not fit in a `u64`.
pub fn ingest(query: &String) -> (r: Result<Vec<Instructions>, QueryResult>)
    ensures
        match r {
            Ok(instrs) => spec_ingest(query@) == Some(instruction_views(instrs@)),
            Err(e) => e == QueryResult::InvalidQueryError && spec_ingest(query@) is None,
        },
{
    match lexer(query) {
        Ok(tokens) => Ok(parser(tokens)),
        Err(e) => Err(e),
    }
}

} // verus!
