//! The lexer: turns schema text into tokens. It cannot fail: unknown
//! characters are skipped, a number that overflows a signed 64-bit integer
//! becomes 0, and an unterminated string literal runs to the end of input.
use vstd::prelude::*;
use vstd::string::StrSliceExecFns;

use crate::text::{
    is_digit_char, is_ident_char, is_ident_start_char, is_ws_char, push_char, spec_is_digit,
    spec_is_ident_char, spec_is_ident_start, spec_is_ws, str_eq,
};
use crate::token::Token;

verus! {

/// A character that can begin a token.
pub open spec fn spec_tok_start(c: char) -> bool {
    c == '{' || c == '}' || c == '(' || c == ')' || c == '"' || spec_is_digit(c)
        || spec_is_ident_start(c)
}

/// First position at or after `i` where a token starts, or the end of input.
/// Whitespace and unrecognized characters are passed over alike.
pub open spec fn spec_scan_start(s: Seq<char>, i: int) -> int
    decreases s.len() - i,
{
    if i >= s.len() {
        s.len() as int
    } else if spec_tok_start(s[i]) {
        i
    } else {
        spec_scan_start(s, i + 1)
    }
}

/// First position at or after `i` holding a character that is not whitespace.
pub open spec fn spec_ws_end(s: Seq<char>, i: int) -> int
    decreases s.len() - i,
{
    if i >= s.len() {
        s.len() as int
    } else if spec_is_ws(s[i]) {
        spec_ws_end(s, i + 1)
    } else {
        i
    }
}

/// End of the identifier run beginning at `i`.
pub open spec fn spec_ident_end(s: Seq<char>, i: int) -> int
    decreases s.len() - i,
{
    if i >= s.len() {
        s.len() as int
    } else if spec_is_ident_char(s[i]) {
        spec_ident_end(s, i + 1)
    } else {
        i
    }
}

/// End of the digit run beginning at `i`.
pub open spec fn spec_digit_end(s: Seq<char>, i: int) -> int
    decreases s.len() - i,
{
    if i >= s.len() {
        s.len() as int
    } else if spec_is_digit(s[i]) {
        spec_digit_end(s, i + 1)
    } else {
        i
    }
}

/// Position of the closing quote of a string literal whose contents start at
/// `i`, or the end of input if no quote follows.
pub open spec fn spec_str_end(s: Seq<char>, i: int) -> int
    decreases s.len() - i,
{
    if i >= s.len() {
        s.len() as int
    } else if s[i] == '"' {
        i
    } else {
        spec_str_end(s, i + 1)
    }
}

/// The integer denoted by a run of decimal digits.
pub open spec fn spec_digits_val(s: Seq<char>) -> int
    decreases s.len(),
{
    if s.len() == 0 {
        0
    } else {
        spec_digits_val(s.drop_last()) * 10 + (s.last() as int - 48)
    }
}

/// The value of a number token: the denoted integer, or 0 where it does not
/// fit a signed 64-bit integer.
pub open spec fn spec_number_value(s: Seq<char>) -> int {
    if spec_digits_val(s) <= i64::MAX {
        spec_digits_val(s)
    } else {
        0
    }
}

/// Which token an identifier run denotes: one of the ten keywords, or an
/// identifier carrying the run itself.
pub open spec fn spec_keyword_token(t: Token, w: Seq<char>) -> bool {
    if w == "resource"@ {
        t is Resource
    } else if w == "string"@ {
        t is String
    } else if w == "number"@ {
        t is Number
    } else if w == "bool"@ {
        t is Bool
    } else if w == "nullable"@ {
        t is Nullable
    } else if w == "optional"@ {
        t is Optional
    } else if w == "default"@ {
        t is Default
    } else if w == "list"@ {
        t is List
    } else if w == "true"@ {
        t is True
    } else if w == "false"@ {
        t is False
    } else {
        t is Identifier && t->Identifier_0@ == w
    }
}

/// The token denoted by the text at token-start position `st`.
pub open spec fn spec_token_at(s: Seq<char>, st: int, t: Token) -> bool {
    let c = s[st];
    if c == '{' {
        t is LeftBrace
    } else if c == '}' {
        t is RightBrace
    } else if c == '(' {
        t is LeftParen
    } else if c == ')' {
        t is RightParen
    } else if c == '"' {
        t is StringLiteral && t->StringLiteral_0@ == s.subrange(st + 1, spec_str_end(s, st + 1))
    } else if spec_is_digit(c) {
        t is NumberLiteral && t->NumberLiteral_0 as int == spec_number_value(
            s.subrange(st, spec_digit_end(s, st)),
        )
    } else {
        spec_keyword_token(t, s.subrange(st, spec_ident_end(s, st)))
    }
}

/// The position just past the token that starts at `st`.
pub open spec fn spec_token_end(s: Seq<char>, st: int) -> int {
    let c = s[st];
    if c == '{' || c == '}' || c == '(' || c == ')' {
        st + 1
    } else if c == '"' {
        let e = spec_str_end(s, st + 1);
        if e < s.len() {
            e + 1
        } else {
            e
        }
    } else if spec_is_digit(c) {
        spec_digit_end(s, st)
    } else {
        spec_ident_end(s, st)
    }
}

#[derive(Debug)]
pub struct Lexer {
    input: Vec<char>,
    position: usize,
}

impl Lexer {
    /// The cursor never passes the end of the input.
    pub open spec fn wf(&self) -> bool {
        0 <= self.spec_position() <= self.spec_input().len()
    }

    pub closed spec fn spec_input(&self) -> Seq<char> {
        self.input@
    }

    pub closed spec fn spec_position(&self) -> int {
        self.position as int
    }

    pub fn new(input: &str) -> (l: Lexer)
        ensures
            l.wf(),
            l.spec_input() == input@,
            l.spec_position() == 0,
    {
        let n: usize = input.unicode_len();
        let mut v: Vec<char> = Vec::new();
        let mut i: usize = 0;
        while i < n
            invariant
                n == input@.len(),
                0 <= i <= n,
                v@.len() == i,
                forall|k: int| 0 <= k < i ==> v@[k] == input@[k],
            decreases n - i,
        {
            v.push(input.get_char(i));
            i = i + 1;
        }
        proof {
            assert(v@ =~= input@);
        }
        Lexer { input: v, position: 0 }
    }

    fn current_char(&self) -> (r: Option<char>)
        ensures
            r == (if self.spec_position() < self.spec_input().len() {
                Some(self.spec_input()[self.spec_position()])
            } else {
                None::<char>
            }),
    {
        if self.position < self.input.len() {
            Some(self.input[self.position])
        } else {
            None
        }
    }

    #[allow(dead_code)]
    fn peek_char(&self, offset: usize) -> (r: Option<char>)
        requires
            self.wf(),
        ensures
            r == (if self.spec_position() + offset < self.spec_input().len() {
                Some(self.spec_input()[self.spec_position() + offset])
            } else {
                None::<char>
            }),
    {
        if self.input.len() - self.position > offset {
            Some(self.input[self.position + offset])
        } else {
            None
        }
    }

    fn advance(&mut self) -> (r: Option<char>)
        requires
            old(self).wf(),
        ensures
            final(self).wf(),
            final(self).spec_input() == old(self).spec_input(),
            r == (if old(self).spec_position() < old(self).spec_input().len() {
                Some(old(self).spec_input()[old(self).spec_position()])
            } else {
                None::<char>
            }),
            final(self).spec_position() == (if old(self).spec_position() < old(self).spec_input().len() {
                old(self).spec_position() + 1
            } else {
                old(self).spec_position()
            }),
    {
        let ch = self.current_char();
        if self.position < self.input.len() {
            self.position = self.position + 1;
        }
        ch
    }

    fn skip_whitespace(&mut self)
        requires
            old(self).wf(),
        ensures
            final(self).wf(),
            final(self).spec_input() == old(self).spec_input(),
            final(self).spec_position() == spec_ws_end(
                old(self).spec_input(),
                old(self).spec_position(),
            ),
    {
        let ghost s = self.spec_input();
        let ghost start = self.spec_position();
        loop
            invariant
                self.wf(),
                self.spec_input() == s,
                0 <= start <= self.spec_position(),
                spec_ws_end(s, self.spec_position()) == spec_ws_end(s, start),
            ensures
                self.wf(),
                self.spec_input() == s,
                self.spec_position() == spec_ws_end(s, start),
            decreases s.len() - self.spec_position(),
        {
            match self.current_char() {
                Some(ch) => {
                    if is_ws_char(ch) {
                        self.advance();
                    } else {
                        break ;
                    }
                },
                None => {
                    break ;
                },
            }
        }
    }

    fn read_identifier(&mut self) -> (r: String)
        requires
            old(self).wf(),
        ensures
            final(self).wf(),
            final(self).spec_input() == old(self).spec_input(),
            final(self).spec_position() == spec_ident_end(
                old(self).spec_input(),
                old(self).spec_position(),
            ),
            r@ == old(self).spec_input().subrange(
                old(self).spec_position(),
                final(self).spec_position(),
            ),
    {
        let ghost s = self.spec_input();
        let ghost start = self.spec_position();
        let mut ident = String::new();
        proof {
            assert(s.subrange(start, start) =~= ident@);
        }
        loop
            invariant
                self.wf(),
                self.spec_input() == s,
                0 <= start <= self.spec_position(),
                ident@ == s.subrange(start, self.spec_position()),
                spec_ident_end(s, self.spec_position()) == spec_ident_end(s, start),
            ensures
                self.wf(),
                self.spec_input() == s,
                self.spec_position() == spec_ident_end(s, start),
                ident@ == s.subrange(start, self.spec_position()),
            decreases s.len() - self.spec_position(),
        {
            match self.current_char() {
                Some(ch) => {
                    if is_ident_char(ch) {
                        let ghost pp = self.spec_position();
                        push_char(&mut ident, ch);
                        self.advance();
                        proof {
                            assert(s.subrange(start, pp + 1) =~= s.subrange(start, pp)
                                + seq![s[pp]]);
                        }
                    } else {
                        break ;
                    }
                },
                None => {
                    break ;
                },
            }
        }
        ident
    }

    fn read_string(&mut self) -> (r: String)
        requires
            old(self).wf(),
            old(self).spec_position() < old(self).spec_input().len(),
        ensures
            final(self).wf(),
            final(self).spec_input() == old(self).spec_input(),
            r@ == old(self).spec_input().subrange(
                old(self).spec_position() + 1,
                spec_str_end(old(self).spec_input(), old(self).spec_position() + 1),
            ),
            final(self).spec_position() == ({
                let e = spec_str_end(old(self).spec_input(), old(self).spec_position() + 1);
                if e < old(self).spec_input().len() {
                    e + 1
                } else {
                    e
                }
            }),
    {
        let ghost s = self.spec_input();
        let mut string = String::new();
        self.advance();  // skip the opening quote
        let ghost start = self.spec_position();
        proof {
            assert(s.subrange(start, start) =~= string@);
        }
        loop
            invariant
                self.wf(),
                self.spec_input() == s,
                s == old(self).spec_input(),
                start == old(self).spec_position() + 1,
                0 <= start <= self.spec_position(),
                string@ == s.subrange(start, self.spec_position()),
                spec_str_end(s, self.spec_position()) == spec_str_end(s, start),
            ensures
                self.wf(),
                self.spec_input() == s,
                self.spec_position() == s.len(),
                string@ == s.subrange(start, self.spec_position()),
                spec_str_end(s, self.spec_position()) == spec_str_end(s, start),
            decreases s.len() - self.spec_position(),
        {
            match self.current_char() {
                Some(ch) => {
                    if ch == '"' {
                        self.advance();
                        proof {
                            assert(string@ == s.subrange(start, spec_str_end(s, start)));
                        }
                        return string;
                    }
                    let ghost pp = self.spec_position();
                    push_char(&mut string, ch);
                    self.advance();
                    proof {
                        assert(s.subrange(start, pp + 1) =~= s.subrange(start, pp) + seq![s[pp]]);
                    }
                },
                None => {
                    break ;
                },
            }
        }
        string
    }

    fn read_number(&mut self) -> (r: i64)
        requires
            old(self).wf(),
        ensures
            final(self).wf(),
            final(self).spec_input() == old(self).spec_input(),
            final(self).spec_position() == spec_digit_end(
                old(self).spec_input(),
                old(self).spec_position(),
            ),
            r as int == spec_number_value(
                old(self).spec_input().subrange(
                    old(self).spec_position(),
                    final(self).spec_position(),
                ),
            ),
    {
        let ghost s = self.spec_input();
        let ghost start = self.spec_position();
        let mut acc: i64 = 0;
        let mut overflow: bool = false;
        proof {
            assert(s.subrange(start, start) =~= Seq::<char>::empty());
        }
        loop
            invariant
                self.wf(),
                self.spec_input() == s,
                0 <= start <= self.spec_position(),
                spec_digit_end(s, self.spec_position()) == spec_digit_end(s, start),
                acc >= 0,
                !overflow ==> acc as int == spec_digits_val(
                    s.subrange(start, self.spec_position()),
                ),
                overflow ==> spec_digits_val(s.subrange(start, self.spec_position())) > i64::MAX,
            ensures
                self.wf(),
                self.spec_input() == s,
                self.spec_position() == spec_digit_end(s, start),
                acc >= 0,
                !overflow ==> acc as int == spec_digits_val(
                    s.subrange(start, self.spec_position()),
                ),
                overflow ==> spec_digits_val(s.subrange(start, self.spec_position())) > i64::MAX,
            decreases s.len() - self.spec_position(),
        {
            match self.current_char() {
                Some(ch) => {
                    if is_digit_char(ch) {
                        let d: i64 = (ch as u32 - 48) as i64;
                        let ghost p = s.subrange(start, self.spec_position());
                        let ghost p2 = s.subrange(start, self.spec_position() + 1);
                        proof {
                            assert(p2.drop_last() =~= p);
                            assert(spec_digits_val(p2) == spec_digits_val(p) * 10 + (ch as int
                                - 48));
                        }
                        if !overflow {
                            if acc <= (i64::MAX - d) / 10 {
                                proof {
                                    assert(acc * 10 <= i64::MAX - d) by (nonlinear_arith)
                                        requires
                                            acc <= (i64::MAX - d) / 10,
                                            0 <= d <= 9,
                                            acc >= 0,
                                    ;
                                }
                                acc = acc * 10 + d;
                            } else {
                                proof {
                                    assert(acc * 10 + d > i64::MAX) by (nonlinear_arith)
                                        requires
                                            acc > (i64::MAX - d) / 10,
                                            0 <= d <= 9,
                                            acc >= 0,
                                    ;
                                }
                                overflow = true;
                            }
                        } else {
                            proof {
                                assert(spec_digits_val(p) * 10 + (ch as int - 48) > i64::MAX)
                                    by (nonlinear_arith)
                                    requires
                                        spec_digits_val(p) > i64::MAX,
                                        48 <= ch as int <= 57,
                                ;
                            }
                        }
                        self.advance();
                    } else {
                        break ;
                    }
                },
                None => {
                    break ;
                },
            }
        }
        if overflow {
            0
        } else {
            acc
        }
    }

    /// Produces the next token. The cursor moves past the token; once the
    /// input is exhausted every further call returns `Eof`.
    pub fn next_token(&mut self) -> (t: Token)
        requires
            old(self).wf(),
        ensures
            final(self).wf(),
            final(self).spec_input() == old(self).spec_input(),
            ({
                let s = old(self).spec_input();
                let st = spec_scan_start(s, old(self).spec_position());
                if st == s.len() {
                    t is Eof && final(self).spec_position() == s.len()
                } else {
                    spec_token_at(s, st, t) && final(self).spec_position() == spec_token_end(s, st)
                }
            }),
        decreases old(self).spec_input().len() - old(self).spec_position(),
    {
        let ghost s = self.spec_input();
        let ghost p0 = self.spec_position();
        self.skip_whitespace();
        proof {
            lemma_scan_skip_ws(s, p0);
            lemma_ws_end_bounds(s, p0);
        }
        let c_opt = self.current_char();
        match c_opt {
            None => Token::Eof,
            Some(c) => {
                if c == '{' {
                    self.advance();
                    Token::LeftBrace
                } else if c == '}' {
                    self.advance();
                    Token::RightBrace
                } else if c == '(' {
                    self.advance();
                    Token::LeftParen
                } else if c == ')' {
                    self.advance();
                    Token::RightParen
                } else if c == '"' {
                    let string = self.read_string();
                    Token::StringLiteral(string)
                } else if is_digit_char(c) {
                    let num = self.read_number();
                    Token::NumberLiteral(num)
                } else if is_ident_start_char(c) {
                    let ident = self.read_identifier();
                    if str_eq(ident.as_str(), "resource") {
                        Token::Resource
                    } else if str_eq(ident.as_str(), "string") {
                        Token::String
                    } else if str_eq(ident.as_str(), "number") {
                        Token::Number
                    } else if str_eq(ident.as_str(), "bool") {
                        Token::Bool
                    } else if str_eq(ident.as_str(), "nullable") {
                        Token::Nullable
                    } else if str_eq(ident.as_str(), "optional") {
                        Token::Optional
                    } else if str_eq(ident.as_str(), "default") {
                        Token::Default
                    } else if str_eq(ident.as_str(), "list") {
                        Token::List
                    } else if str_eq(ident.as_str(), "true") {
                        Token::True
                    } else if str_eq(ident.as_str(), "false") {
                        Token::False
                    } else {
                        Token::Identifier(ident)
                    }
                } else {
                    self.advance();
                    self.next_token()
                }
            },
        }
    }
}

/// The scan for a token start stays between `i` and the end of input, and
/// where it stops short of the end it stops on a token-start character.
pub proof fn lemma_scan_bounds(s: Seq<char>, i: int)
    requires
        0 <= i <= s.len(),
    ensures
        i <= spec_scan_start(s, i) <= s.len(),
        spec_scan_start(s, i) < s.len() ==> spec_tok_start(s[spec_scan_start(s, i)]),
    decreases s.len() - i,
{
    if i < s.len() && !spec_tok_start(s[i]) {
        lemma_scan_bounds(s, i + 1);
    }
}

/// The end of an identifier run lies between `i` and the end of input.
pub proof fn lemma_ident_end_bounds(s: Seq<char>, i: int)
    requires
        0 <= i <= s.len(),
    ensures
        i <= spec_ident_end(s, i) <= s.len(),
    decreases s.len() - i,
{
    if i < s.len() && spec_is_ident_char(s[i]) {
        lemma_ident_end_bounds(s, i + 1);
    }
}

/// The end of a digit run lies between `i` and the end of input.
pub proof fn lemma_digit_end_bounds(s: Seq<char>, i: int)
    requires
        0 <= i <= s.len(),
    ensures
        i <= spec_digit_end(s, i) <= s.len(),
    decreases s.len() - i,
{
    if i < s.len() && spec_is_digit(s[i]) {
        lemma_digit_end_bounds(s, i + 1);
    }
}

/// The closing-quote scan lies between `i` and the end of input.
pub proof fn lemma_str_end_bounds(s: Seq<char>, i: int)
    requires
        0 <= i <= s.len(),
    ensures
        i <= spec_str_end(s, i) <= s.len(),
    decreases s.len() - i,
{
    if i < s.len() && s[i] != '"' {
        lemma_str_end_bounds(s, i + 1);
    }
}

/// Every token occupies at least one character.
pub proof fn lemma_token_end_progress(s: Seq<char>, st: int)
    requires
        0 <= st < s.len(),
        spec_tok_start(s[st]),
    ensures
        st < spec_token_end(s, st) <= s.len(),
{
    let c = s[st];
    if c == '{' || c == '}' || c == '(' || c == ')' {
    } else if c == '"' {
        lemma_str_end_bounds(s, st + 1);
    } else if spec_is_digit(c) {
        lemma_digit_end_bounds(s, st + 1);
        assert(spec_digit_end(s, st) == spec_digit_end(s, st + 1));
    } else {
        assert(spec_is_ident_start(c));
        assert(spec_is_ident_char(c));
        lemma_ident_end_bounds(s, st + 1);
        assert(spec_ident_end(s, st) == spec_ident_end(s, st + 1));
    }
}

/// The first non-whitespace position lies between `i` and the end of input.

proof fn lemma_ws_end_bounds(s: Seq<char>, i: int)
    requires
        0 <= i <= s.len(),
    ensures
        i <= spec_ws_end(s, i) <= s.len(),
    decreases s.len() - i,
{
    if i < s.len() && spec_is_ws(s[i]) {
        lemma_ws_end_bounds(s, i + 1);
    }
}

/// Skipping whitespace does not change where the next token starts.
proof fn lemma_scan_skip_ws(s: Seq<char>, i: int)
    ensures
        spec_scan_start(s, i) == spec_scan_start(s, spec_ws_end(s, i)),
    decreases s.len() - i,
{
    if i >= s.len() {
    } else if spec_is_ws(s[i]) {
        assert(!spec_tok_start(s[i]));
        lemma_scan_skip_ws(s, i + 1);
    } else {
    }
}

} // verus!
