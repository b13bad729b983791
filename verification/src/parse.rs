//! The token-level lexical layer: a peekable character cursor and a
//! tokeniser that cuts the raw text into separators, sigils, numbers and
//! strings. The grammar layer reads records whole; this layer stands on its
//! own for callers that want the raw token stream.

use vstd::prelude::*;

use crate::err::TokErr;
use crate::gob::{digits_end, digits_val, is_digit, lemma_digits_end_bounds,
    lemma_digits_val_nonneg};
use crate::text::{chars_to_string, push_char, str_to_chars};

verus! {

/// A cursor over a sequence of items that can look one item ahead without
/// taking it. Its view is what is left to read.
pub struct Peeker<T> {
    items: Vec<T>,
    pos: usize,
}

impl<T> Peeker<T> {
    #[verifier::type_invariant]
    spec fn wf(self) -> bool {
        self.pos <= self.items@.len()
    }
}

impl<T> View for Peeker<T> {
    type V = Seq<T>;

    closed spec fn view(&self) -> Seq<T> {
        self.items@.skip(self.pos as int)
    }
}

impl Peeker<char> {
    /// A cursor over the characters of `s`.
    pub fn from_str(s: &str) -> (r: Self)
        ensures
            r@ == s@,
    {
        let r = Peeker { items: str_to_chars(s), pos: 0 };
        proof {
            assert(r.items@.skip(0) =~= s@);
        }
        r
    }

    /// The string spelt by everything left to read.
    pub fn collect(self) -> (r: String)
        ensures
            r@ == self@,
    {
        let mut out = String::new();
        let mut p = self;
        proof {
            use_type_invariant(&p);
        }
        loop
            invariant
                p.pos <= p.items@.len(),
                out@ + p.items@.skip(p.pos as int) == self@,
            ensures
                out@ == self@,
            decreases p.items@.len() - p.pos,
        {
            if p.pos >= p.items.len() {
                proof {
                    assert(out@ + p.items@.skip(p.pos as int) =~= out@);
                }
                break;
            }
            let c = p.items[p.pos];
            push_char(&mut out, c);
            p.pos += 1;
            proof {
                assert(out@ + p.items@.skip(p.pos as int) =~= self@);
            }
        }
        out
    }
}

impl<T: Copy> Peeker<T> {
    /// A cursor over the items of `v`.
    pub fn from_iter(v: Vec<T>) -> (r: Self)
        ensures
            r@ == v@,
    {
        let r = Peeker { items: v, pos: 0 };
        proof {
            assert(r.items@.skip(0) =~= r.items@);
        }
        r
    }

    /// Takes the next item, if one is left.
    pub fn next(&mut self) -> (r: Option<T>)
        ensures
            old(self)@.len() > 0 ==> r == Some(old(self)@[0]) && final (self)@ == old(self)@.skip(
                1,
            ),
            old(self)@.len() == 0 ==> r is None && final (self)@ == old(self)@,
    {
        proof {
            use_type_invariant(&*self);
        }
        if self.pos < self.items.len() {
            let c = self.items[self.pos];
            self.pos += 1;
            proof {
                assert(self.items@.skip(self.pos as int) =~= old(self)@.skip(1));
            }
            Some(c)
        } else {
            None
        }
    }

    /// Shows the next item without taking it.
    pub fn peek(&mut self) -> (r: Option<T>)
        ensures
            final (self)@ == old(self)@,
            r == (if old(self)@.len() > 0 {
                Some(old(self)@[0])
            } else {
                None::<T>
            }),
    {
        proof {
            use_type_invariant(&*self);
        }
        if self.pos < self.items.len() {
            Some(self.items[self.pos])
        } else {
            None
        }
    }

    /// Advances to the first remaining item on which `f` answers true and
    /// shows it without taking it; with no such item, runs to the end.
    pub fn find_before<F: Fn(T) -> bool>(&mut self, f: F) -> (r: Option<T>)
        requires
            forall|t: T| #[trigger] f.requires((t,)),
        ensures
            match r {
                Some(x) => exists|n: int|
                    {
                        &&& 0 <= n < old(self)@.len()
                        &&& x == old(self)@[n]
                        &&& final (self)@ == old(self)@.skip(n)
                        &&& call_ensures(f, (x,), true)
                        &&& forall|m: int|
                            0 <= m < n ==> call_ensures(f, (old(self)@[m],), false)
                    },
                None => final (self)@.len() == 0 && forall|m: int|
                    0 <= m < old(self)@.len() ==> call_ensures(f, (old(self)@[m],), false),
            },
    {
        proof {
            use_type_invariant(&*self);
        }
        let ghost start = self.pos as int;
        let ghost orig = self@;
        loop
            invariant
                0 <= start <= self.pos as int <= self.items@.len(),
                self.items@ == old(self).items@,
                orig == self.items@.skip(start),
                forall|m: int|
                    0 <= m < self.pos - start ==> call_ensures(f, (orig[m],), false),
                forall|t: T| #[trigger] f.requires((t,)),
            ensures
                0 <= start <= self.pos as int <= self.items@.len(),
                self.items@ == old(self).items@,
                forall|m: int|
                    0 <= m < self.pos - start ==> call_ensures(f, (orig[m],), false),
                self.pos < self.items@.len() ==> call_ensures(
                    f,
                    (self.items@[self.pos as int],),
                    true,
                ),
            decreases self.items@.len() - self.pos,
        {
            if self.pos >= self.items.len() {
                break;
            }
            let x = self.items[self.pos];
            if f(x) {
                break;
            }
            proof {
                assert(orig[self.pos - start] == x);
            }
            self.pos += 1;
        }
        if self.pos < self.items.len() {
            let x = self.items[self.pos];
            proof {
                let n = self.pos - start;
                assert(self.items@.skip(self.pos as int) =~= orig.skip(n));
                assert(orig[n] == x);
            }
            Some(x)
        } else {
            proof {
                assert(self.items@.skip(self.pos as int) =~= Seq::<T>::empty());
            }
            None
        }
    }
}

/// One lexical unit of the log text.
#[derive(Debug, PartialEq, Clone)]
pub enum Token {
    /// A record separator: a comma, a newline, or a comment.
    Break,
    /// `_`
    UScore,
    /// `__`
    DUScore,
    /// `-`
    Dash,
    /// `/`
    Slash,
    /// `=`
    Equals,
    /// `:`
    Colon,
    /// A run of digits. A run too long for the machine saturates.
    Num(i64),
    /// A run of anything else, ended by a separator, colon or underscore.
    Str(String),
}

/// The mathematical value of a `Token`.
pub ghost enum TokenV {
    Break,
    UScore,
    DUScore,
    Dash,
    Slash,
    Equals,
    Colon,
    Num(int),
    Str(Seq<char>),
}

impl View for Token {
    type V = TokenV;

    open spec fn view(&self) -> TokenV {
        match self {
            Token::Break => TokenV::Break,
            Token::UScore => TokenV::UScore,
            Token::DUScore => TokenV::DUScore,
            Token::Dash => TokenV::Dash,
            Token::Slash => TokenV::Slash,
            Token::Equals => TokenV::Equals,
            Token::Colon => TokenV::Colon,
            Token::Num(n) => TokenV::Num(*n as int),
            Token::Str(s) => TokenV::Str(s@),
        }
    }
}

impl DeepView for Token {
    type V = TokenV;

    open spec fn deep_view(&self) -> TokenV {
        self@
    }
}

impl Token {
    /// A copy of this token, character for character.
    fn dup(&self) -> (r: Token)
        ensures
            r@ == self@,
    {
        match self {
            Token::Break => Token::Break,
            Token::UScore => Token::UScore,
            Token::DUScore => Token::DUScore,
            Token::Dash => Token::Dash,
            Token::Slash => Token::Slash,
            Token::Equals => Token::Equals,
            Token::Colon => Token::Colon,
            Token::Num(n) => Token::Num(*n),
            Token::Str(s) => Token::Str(s.clone()),
        }
    }

    /// The number this token holds; any other token is the error.
    pub fn as_num(&self) -> (r: Result<i64, TokErr>)
        ensures
            match r {
                Ok(n) => self@ matches TokenV::Num(v) && v == n as int,
                Err(e) => !(self@ matches TokenV::Num(v)) && (e matches TokErr::NotNum(t)
                    && t@ == self@),
            },
    {
        if let Token::Num(n) = *self {
            return Ok(n);
        }
        Err(TokErr::NotNum(self.dup()))
    }

    /// The string this token holds; any other token is the error.
    pub fn as_str(&self) -> (r: Result<String, TokErr>)
        ensures
            match r {
                Ok(s) => self@ matches TokenV::Str(v) && v == s@,
                Err(e) => !(self@ matches TokenV::Str(v)) && (e matches TokErr::NotString(t)
                    && t@ == self@),
            },
    {
        if let Token::Str(s) = self {
            return Ok(s.clone());
        }
        Err(TokErr::NotString(self.dup()))
    }
}

/// A character that ends a `#`-comment for the tokeniser (consumed with it).
pub open spec fn is_tok_break(c: char) -> bool {
    c == ',' || c == '\n'
}

/// A character that ends a string run (not consumed).
pub open spec fn is_str_end(c: char) -> bool {
    c == ',' || c == ':' || c == '_' || c == '\n'
}

/// The first position at or after `i` that ends a comment, or the end.
pub open spec fn tok_break_end(s: Seq<char>, i: int) -> int
    decreases s.len() - i,
    when 0 <= i <= s.len()
{
    if i < s.len() && !is_tok_break(s[i]) {
        tok_break_end(s, i + 1)
    } else {
        i
    }
}

pub proof fn lemma_tok_break_end_bounds(s: Seq<char>, i: int)
    requires
        0 <= i <= s.len(),
    ensures
        i <= tok_break_end(s, i) <= s.len(),
    decreases s.len() - i,
{
    if i < s.len() && !is_tok_break(s[i]) {
        lemma_tok_break_end_bounds(s, i + 1);
    }
}

/// The first position at or after `i` that ends a string run, or the end.
pub open spec fn str_run_end(s: Seq<char>, i: int) -> int
    decreases s.len() - i,
    when 0 <= i <= s.len()
{
    if i < s.len() && !is_str_end(s[i]) {
        str_run_end(s, i + 1)
    } else {
        i
    }
}

pub proof fn lemma_str_run_end_bounds(s: Seq<char>, i: int)
    requires
        0 <= i <= s.len(),
    ensures
        i <= str_run_end(s, i) <= s.len(),
    decreases s.len() - i,
{
    if i < s.len() && !is_str_end(s[i]) {
        lemma_str_run_end_bounds(s, i + 1);
    }
}

/// The saturating value of the digit run `s[i..j)`.
pub open spec fn sat_digits_val(s: Seq<char>, i: int, j: int) -> int {
    if digits_val(s, i, j) <= i64::MAX {
        digits_val(s, i, j)
    } else {
        i64::MAX as int
    }
}

/// The next token of `s` and how many characters it takes, skipping leading
/// blanks; `None` when only blanks are left.
pub open spec fn spec_token(s: Seq<char>, i: int) -> Option<(TokenV, int)>
    decreases s.len() - i,
    when 0 <= i <= s.len()
{
    if i >= s.len() {
        None
    } else if s[i] == ',' || s[i] == '\n' {
        Some((TokenV::Break, i + 1))
    } else if s[i] == ':' {
        Some((TokenV::Colon, i + 1))
    } else if s[i] == '#' {
        let e = tok_break_end(s, i + 1);
        Some((TokenV::Break, if e < s.len() { e + 1 } else { e }))
    } else if s[i] == '_' {
        if i + 1 < s.len() && s[i + 1] == '_' {
            Some((TokenV::DUScore, i + 2))
        } else {
            Some((TokenV::UScore, i + 1))
        }
    } else if s[i] == '=' {
        Some((TokenV::Equals, i + 1))
    } else if s[i] == '-' {
        Some((TokenV::Dash, i + 1))
    } else if s[i] == '/' {
        Some((TokenV::Slash, i + 1))
    } else if s[i] == ' ' || s[i] == '\t' {
        spec_token(s, i + 1)
    } else if is_digit(s[i]) {
        Some((TokenV::Num(sat_digits_val(s, i, digits_end(s, i))), digits_end(s, i)))
    } else {
        Some((TokenV::Str(s.subrange(i, str_run_end(s, i + 1))), str_run_end(s, i + 1)))
    }
}

pub proof fn lemma_spec_token_bounds(s: Seq<char>, i: int)
    requires
        0 <= i <= s.len(),
    ensures
        spec_token(s, i) matches Some((t, e)) ==> i < e <= s.len(),
    decreases s.len() - i,
{
    if i < s.len() {
        lemma_tok_break_end_bounds(s, i + 1);
        lemma_digits_end_bounds(s, i);
        lemma_str_run_end_bounds(s, i + 1);
        if s[i] == ' ' || s[i] == '\t' {
            lemma_spec_token_bounds(s, i + 1);
        }
    }
}

/// Reads the token at `i`, skipping leading blanks; `None` when only blanks
/// are left.
fn tok_at(s: &Vec<char>, i: usize) -> (r: Option<(Token, usize)>)
    requires
        i <= s@.len(),
    ensures
        match r {
            Some((t, e)) => spec_token(s@, i as int) == Some((t@, e as int)) && i < e <= s@.len(),
            None => spec_token(s@, i as int) is None,
        },
    decreases s@.len() - i,
{
    proof {
        lemma_spec_token_bounds(s@, i as int);
    }
    if i >= s.len() {
        return None;
    }
    let c = s[i];
    if c == ',' || c == '\n' {
        Some((Token::Break, i + 1))
    } else if c == ':' {
        Some((Token::Colon, i + 1))
    } else if c == '#' {
        let mut j: usize = i + 1;
        while j < s.len() && !(s[j] == ',' || s[j] == '\n')
            invariant
                i + 1 <= j <= s@.len(),
                tok_break_end(s@, i as int + 1) == tok_break_end(s@, j as int),
            decreases s@.len() - j,
        {
            j += 1;
        }
        if j < s.len() {
            Some((Token::Break, j + 1))
        } else {
            Some((Token::Break, j))
        }
    } else if c == '_' {
        if i + 1 < s.len() && s[i + 1] == '_' {
            Some((Token::DUScore, i + 2))
        } else {
            Some((Token::UScore, i + 1))
        }
    } else if c == '=' {
        Some((Token::Equals, i + 1))
    } else if c == '-' {
        Some((Token::Dash, i + 1))
    } else if c == '/' {
        Some((Token::Slash, i + 1))
    } else if c == ' ' || c == '\t' {
        tok_at(s, i + 1)
    } else if 48 <= c as u32 && c as u32 <= 57 {
        let ghost end = digits_end(s@, i as int);
        proof {
            lemma_digits_end_bounds(s@, i as int);
        }
        let mut j: usize = i;
        let mut v: i64 = 0;
        while j < s.len() && 48 <= s[j] as u32 && s[j] as u32 <= 57
            invariant
                i <= j <= end <= s@.len(),
                end == digits_end(s@, i as int),
                forall|k: int| i <= k < end ==> is_digit(s@[k]),
                end < s@.len() ==> !is_digit(s@[end]),
                v as int == sat_digits_val(s@, i as int, j as int),
                0 <= v <= i64::MAX,
            decreases s@.len() - j,
        {
            let d: i64 = ((s[j] as u32) - 48) as i64;
            proof {
                lemma_digits_val_nonneg(s@, i as int, j as int);
            }
            if v > (i64::MAX - d) / 10 {
                proof {
                    assert(v * 10 + d > i64::MAX) by (nonlinear_arith)
                        requires
                            v > (i64::MAX - d) / 10,
                            0 <= d <= 9,
                            v >= 0,
                    ;
                    if digits_val(s@, i as int, j as int) > i64::MAX {
                        let dv = digits_val(s@, i as int, j as int);
                        assert(dv * 10 + d >= dv) by (nonlinear_arith)
                            requires
                                dv >= 0,
                                d >= 0,
                        ;
                    }
                }
                v = i64::MAX;
            } else {
                proof {
                    assert(v * 10 + d <= i64::MAX) by (nonlinear_arith)
                        requires
                            v <= (i64::MAX - d) / 10,
                            0 <= d <= 9,
                            v >= 0,
                    ;
                    assert((i64::MAX - d) / 10 < i64::MAX);
                }
                v = v * 10 + d;
            }
            j += 1;
        }
        Some((Token::Num(v), j))
    } else {
        let ghost end = str_run_end(s@, i as int + 1);
        proof {
            lemma_str_run_end_bounds(s@, i as int + 1);
        }
        let mut j: usize = i + 1;
        while j < s.len() && !(s[j] == ',' || s[j] == ':' || s[j] == '_' || s[j] == '\n')
            invariant
                i + 1 <= j <= s@.len(),
                str_run_end(s@, i as int + 1) == str_run_end(s@, j as int),
            decreases s@.len() - j,
        {
            j += 1;
        }
        Some((Token::Str(chars_to_string(s, i, j)), j))
    }
}

/// Every token of `s` from position `i` on, in order.
pub open spec fn spec_tokens(s: Seq<char>, i: int) -> Seq<TokenV>
    decreases s.len() - i,
    when 0 <= i <= s.len()
    via spec_tokens_decreases
{
    match spec_token(s, i) {
        None => Seq::empty(),
        Some((t, e)) => seq![t] + spec_tokens(s, e),
    }
}

#[via_fn]
proof fn spec_tokens_decreases(s: Seq<char>, i: int) {
    lemma_spec_token_bounds(s, i);
}

/// Cuts the log text into its token stream, one token per call.
pub struct Tokeniser {
    chars: Vec<char>,
    pos: usize,
}

impl Tokeniser {
    #[verifier::type_invariant]
    spec fn wf(self) -> bool {
        self.pos <= self.chars@.len()
    }
}

/// How far into its text a tokeniser has read.
impl View for Tokeniser {
    type V = (Seq<char>, int);

    closed spec fn view(&self) -> (Seq<char>, int) {
        (self.chars@, self.pos as int)
    }
}

impl Tokeniser {
    /// A tokeniser at the start of `s`.
    pub fn new(s: &str) -> (r: Self)
        ensures
            r@ == (s@, 0int),
    {
        Tokeniser { chars: str_to_chars(s), pos: 0 }
    }

    /// The next token, or `None` once only blanks are left.
    pub fn next(&mut self) -> (r: Option<Token>)
        ensures
            final (self)@.0 == old(self)@.0,
            match spec_token(old(self)@.0, old(self)@.1) {
                Some((tv, e)) => r matches Some(t) && t@ == tv && final (self)@.1 == e,
                None => r is None && final (self)@.1 == old(self)@.0.len(),
            },
    {
        proof {
            use_type_invariant(&*self);
        }
        match tok_at(&self.chars, self.pos) {
            Some((t, e)) => {
                self.pos = e;
                Some(t)
            },
            None => {
                self.pos = self.chars.len();
                None
            },
        }
    }

    /// Every remaining token, in order.
    pub fn collect(self) -> (r: Vec<Token>)
        ensures
            r.deep_view() == spec_tokens(self@.0, self@.1),
    {
        let mut t = self;
        let mut out: Vec<Token> = Vec::new();
        proof {
            use_type_invariant(&t);
            assert(out.deep_view() + spec_tokens(t@.0, t@.1) =~= spec_tokens(t@.0, t@.1));
        }
        loop
            invariant
                t@.1 <= t@.0.len(),
                t@.0 == self@.0,
                spec_tokens(self@.0, self@.1) == out.deep_view() + spec_tokens(t@.0, t@.1),
            decreases t@.0.len() - t@.1 + 1,
        {
            let ghost before = t@.1;
            let ghost pre = out.deep_view();
            proof {
                lemma_spec_token_bounds(t@.0, t@.1);
            }
            match t.next() {
                Some(tok) => {
                    out.push(tok);
                    proof {
                        assert(t@.1 > before);
                        assert(out.deep_view() =~= pre + seq![tok@]);
                        assert(pre + (seq![tok@] + spec_tokens(t@.0, t@.1)) =~= (pre + seq![tok@])
                            + spec_tokens(t@.0, t@.1));
                    }
                },
                None => {
                    proof {
                        assert(out.deep_view() + Seq::<TokenV>::empty() =~= out.deep_view());
                    }
                    return out;
                },
            }
        }
    }
}

} // verus!
