//! Recursive-descent parser with one-token lookahead and no backtracking.
//! It stops at the first mismatched token; nothing is recovered or collected.
use vstd::prelude::*;
use vstd::string::{StrSliceExecFns, StringExecFns};

use crate::ast::{
    spec_fields_indexed, spec_pascal_name, ASTType, DefaultValue, Field, Literal, Program,
    Resource,
};
use crate::lexer::Lexer;
use crate::text::is_upper_char;
use crate::token::Token;

verus! {

/// Whether two tokens are of the same kind, payloads disregarded.
pub open spec fn spec_same_kind(a: Token, b: Token) -> bool {
    match (a, b) {
        (Token::Resource, Token::Resource) => true,
        (Token::String, Token::String) => true,
        (Token::Number, Token::Number) => true,
        (Token::Bool, Token::Bool) => true,
        (Token::Nullable, Token::Nullable) => true,
        (Token::Optional, Token::Optional) => true,
        (Token::Default, Token::Default) => true,
        (Token::List, Token::List) => true,
        (Token::True, Token::True) => true,
        (Token::False, Token::False) => true,
        (Token::Identifier(_), Token::Identifier(_)) => true,
        (Token::StringLiteral(_), Token::StringLiteral(_)) => true,
        (Token::NumberLiteral(_), Token::NumberLiteral(_)) => true,
        (Token::LeftBrace, Token::LeftBrace) => true,
        (Token::RightBrace, Token::RightBrace) => true,
        (Token::LeftParen, Token::LeftParen) => true,
        (Token::RightParen, Token::RightParen) => true,
        (Token::Eof, Token::Eof) => true,
        _ => false,
    }
}

/// Every primitive type name mentioned in the type is one of the three the
/// language has. The parser only ever builds such types.
pub open spec fn spec_type_prims_ok(t: ASTType) -> bool
    decreases t,
{
    match t {
        ASTType::Primitive(p) => p@ == "string"@ || p@ == "number"@ || p@ == "bool"@,
        ASTType::Named(_) => true,
        ASTType::List(inner) => spec_type_prims_ok(*inner),
    }
}

/// Every type occurring in the field satisfies `spec_type_prims_ok`.
pub open spec fn spec_field_prims_ok(f: Field) -> bool {
    spec_type_prims_ok(f.field_type)
}

/// Every type occurring in the resource satisfies `spec_type_prims_ok`.
pub open spec fn spec_resource_prims_ok(r: Resource) -> bool {
    forall|i: int| 0 <= i < r.fields@.len() ==> spec_field_prims_ok(#[trigger] r.fields@[i])
}

/// The token at `i` begins a type.
pub open spec fn spec_type_start(toks: Seq<Token>, i: int) -> bool
    decreases toks.len() - i,
{
    if i < 0 || i >= toks.len() {
        false
    } else {
        match toks[i] {
            Token::String => true,
            Token::Number => true,
            Token::Bool => true,
            Token::Identifier(_) => true,
            Token::List => spec_type_start(toks, i + 1),
            _ => false,
        }
    }
}

/// The tokens from `i` (exclusive of `j`) spell exactly the type `t`:
/// `string`/`number`/`bool` are the primitive keywords, an identifier is a
/// named type, and `list` prefixes its element type.
pub open spec fn spec_type_at(toks: Seq<Token>, i: int, t: ASTType, j: int) -> bool
    decreases t,
{
    0 <= i < toks.len() && match t {
        ASTType::Primitive(p) => j == i + 1 && ((toks[i] is String && p@ == "string"@) || (
        toks[i] is Number && p@ == "number"@) || (toks[i] is Bool && p@ == "bool"@)),
        ASTType::Named(n) => j == i + 1 && toks[i] is Identifier && toks[i]->Identifier_0@ == n@,
        ASTType::List(inner) => toks[i] is List && spec_type_at(toks, i + 1, *inner, j),
    }
}

/// The token carries exactly the literal `v`.
pub open spec fn spec_literal_tok(tok: Token, v: Literal) -> bool {
    match v {
        Literal::String(s) => tok is StringLiteral && tok->StringLiteral_0@ == s@,
        Literal::Number(n) => tok is NumberLiteral && tok->NumberLiteral_0 == n,
        Literal::Bool(b) => (b && tok is True) || (!b && tok is False),
    }
}

/// The tokens from `i` to `j` spell the field `f`, starting from the given
/// attribute flags: attributes in any order (later `default(...)` wins),
/// then the type, then the field's name.
pub open spec fn spec_field_from(
    toks: Seq<Token>,
    i: int,
    nullable0: bool,
    optional0: bool,
    default0: Option<DefaultValue>,
    f: Field,
    j: int,
) -> bool
    decreases j - i,
{
    if i < 0 || i >= toks.len() || j <= i {
        false
    } else {
        match toks[i] {
            Token::Nullable => spec_field_from(toks, i + 1, true, optional0, default0, f, j),
            Token::Optional => spec_field_from(toks, i + 1, nullable0, true, default0, f, j),
            Token::Default => i + 4 < j && 0 <= i + 3 < toks.len() && toks[i + 1] is LeftParen
                && toks[i + 3] is RightParen && (exists|v: Literal|
                #[trigger] spec_literal_tok(toks[i + 2], v) && spec_field_from(
                    toks,
                    i + 4,
                    nullable0,
                    optional0,
                    Some(DefaultValue { value: v }),
                    f,
                    j,
                )),
            _ => exists|k: int|
                #[trigger] spec_type_at(toks, i, f.field_type, k) && 0 <= k < toks.len() && j == k
                    + 1 && toks[k] is Identifier && f.name@ == toks[k]->Identifier_0@ && f.nullable
                    == nullable0 && f.optional == optional0 && f.default == default0,
        }
    }
}

/// The tokens from `i` to `j` spell the field `f` with no attribute seen
/// yet.
pub open spec fn spec_field_at(toks: Seq<Token>, i: int, f: Field, j: int) -> bool {
    spec_field_from(toks, i, false, false, None, f, j)
}

/// The tokens from `i` to `j` spell the fields of the sequence from
/// position `m` on, one after the other.
pub open spec fn spec_fields_at(
    toks: Seq<Token>,
    i: int,
    fields: Seq<Field>,
    m: int,
    j: int,
) -> bool
    decreases fields.len() - m,
{
    if m < 0 || m > fields.len() {
        false
    } else if m == fields.len() {
        j == i
    } else {
        exists|k: int|
            #[trigger] spec_field_at(toks, i, fields[m], k) && spec_fields_at(
                toks,
                k,
                fields,
                m + 1,
                j,
            )
    }
}

/// The tokens from `i` to `j` spell the whole resource: the `resource`
/// keyword, its name, and its brace-enclosed fields.
pub open spec fn spec_resource_at(toks: Seq<Token>, i: int, r: Resource, j: int) -> bool {
    &&& 0 <= i
    &&& i + 2 < toks.len()
    &&& toks[i] is Resource
    &&& toks[i + 1] is Identifier
    &&& r.name@ == toks[i + 1]->Identifier_0@
    &&& spec_pascal_name(r.name@)
    &&& toks[i + 2] is LeftBrace
    &&& exists|k: int|
        #[trigger] spec_fields_at(toks, i + 3, r.fields@, 0, k) && 0 <= k < toks.len() && toks[k]
            is RightBrace && j == k + 1
}

/// The tokens from `i` to `j` spell the resources of the program from
/// position `m` on.
pub open spec fn spec_resources_at(
    toks: Seq<Token>,
    i: int,
    resources: Seq<Resource>,
    m: int,
    j: int,
) -> bool
    decreases resources.len() - m,
{
    if m < 0 || m > resources.len() {
        false
    } else if m == resources.len() {
        j == i
    } else {
        exists|k: int|
            #[trigger] spec_resource_at(toks, i, resources[m], k) && spec_resources_at(
                toks,
                k,
                resources,
                m + 1,
                j,
            )
    }
}

/// The whole token list spells the program: its resources in order, ending
/// where the input ends.
pub open spec fn spec_program_at(toks: Seq<Token>, i: int, resources: Seq<Resource>, j: int) -> bool {
    spec_resources_at(toks, i, resources, 0, j) && (j >= toks.len() || toks[j] is Eof)
}

/// The token list is exactly what lexing the text from position `i`
/// produces: token after token, closed by a final `Eof`.
pub open spec fn spec_lexes_to(s: Seq<char>, i: int, toks: Seq<Token>) -> bool
    decreases toks.len(),
{
    if toks.len() == 0 {
        false
    } else {
        let st = crate::lexer::spec_scan_start(s, i);
        if st == s.len() {
            toks.len() == 1 && toks[0] is Eof
        } else {
            crate::lexer::spec_token_at(s, st, toks[0]) && spec_lexes_to(
                s,
                crate::lexer::spec_token_end(s, st),
                toks.drop_first(),
            )
        }
    }
}

/// The program is what parsing the text yields: the text lexes to a token
/// list that spells exactly the program's resources, closed by `Eof`.
pub open spec fn spec_parses_to(s: Seq<char>, p: Program) -> bool {
    exists|toks: Seq<Token>, j: int|
        spec_lexes_to(s, 0, toks) && #[trigger] spec_program_at(toks, 0, p.resources@, j)
}

/// The token carries some literal.
pub open spec fn spec_literal_start(t: Token) -> bool {
    t is StringLiteral || t is NumberLiteral || t is True || t is False
}

/// The tokens from `i` to `j` have the shape of a type, regardless of which
/// type they spell.
pub open spec fn spec_type_span(toks: Seq<Token>, i: int, j: int) -> bool
    decreases j - i,
{
    if i < 0 || i >= toks.len() || j <= i {
        false
    } else {
        match toks[i] {
            Token::String => j == i + 1,
            Token::Number => j == i + 1,
            Token::Bool => j == i + 1,
            Token::Identifier(_) => j == i + 1,
            Token::List => spec_type_span(toks, i + 1, j),
            _ => false,
        }
    }
}

/// The tokens from `i` to `j` have the shape of a field: attributes, a
/// type, a name.
pub open spec fn spec_field_span(toks: Seq<Token>, i: int, j: int) -> bool
    decreases j - i,
{
    if i < 0 || i >= toks.len() || j <= i {
        false
    } else {
        match toks[i] {
            Token::Nullable => spec_field_span(toks, i + 1, j),
            Token::Optional => spec_field_span(toks, i + 1, j),
            Token::Default => j > i + 4 && 0 <= i + 3 < toks.len() && toks[i + 1] is LeftParen
                && spec_literal_start(toks[i + 2]) && toks[i + 3] is RightParen
                && spec_field_span(toks, i + 4, j),
            _ => exists|k: int|
                #[trigger] spec_type_span(toks, i, k) && j == k + 1 && 0 <= k < toks.len()
                    && toks[k] is Identifier,
        }
    }
}

/// The tokens from `i` to `j` have the shape of a resource body: fields up
/// to and including the closing brace.
pub open spec fn spec_fields_span(toks: Seq<Token>, i: int, j: int) -> bool
    decreases j - i,
{
    if i < 0 || i >= toks.len() || j <= i {
        false
    } else if toks[i] is RightBrace {
        j == i + 1
    } else {
        exists|k: int|
            i < k < j && #[trigger] spec_field_span(toks, i, k) && spec_fields_span(toks, k, j)
    }
}

/// The tokens from `i` to `j` have the shape of one resource declaration,
/// its name passing the PascalCase gate.
pub open spec fn spec_resource_span(toks: Seq<Token>, i: int, j: int) -> bool {
    &&& 0 <= i
    &&& i + 2 < toks.len()
    &&& toks[i] is Resource
    &&& toks[i + 1] is Identifier
    &&& spec_pascal_name(toks[i + 1]->Identifier_0@)
    &&& toks[i + 2] is LeftBrace
    &&& spec_fields_span(toks, i + 3, j)
}

/// The tokens from `i` on have the shape of a program: resource after
/// resource until the end of input.
pub open spec fn spec_program_span(toks: Seq<Token>, i: int) -> bool
    decreases toks.len() - i,
{
    if i >= toks.len() || toks[i] is Eof {
        true
    } else {
        exists|k: int|
            i < k <= toks.len() && #[trigger] spec_resource_span(toks, i, k) && spec_program_span(
                toks,
                k,
            )
    }
}

pub struct Parser {

    tokens: Vec<Token>,
    position: usize,
}

impl Parser {
    /// The cursor never passes the end of the token list.
    pub open spec fn wf(&self) -> bool {
        0 <= self.spec_position() <= self.spec_tokens().len()
    }

    pub closed spec fn spec_tokens(&self) -> Seq<Token> {
        self.tokens@
    }

    pub closed spec fn spec_position(&self) -> int {
        self.position as int
    }

    /// The token under the cursor; `Eof` once the list is exhausted.
    pub open spec fn spec_current(&self) -> Token {
        if self.spec_position() < self.spec_tokens().len() {
            self.spec_tokens()[self.spec_position()]
        } else {
            Token::Eof
        }
    }

    /// Runs the lexer eagerly over the whole input; the token list always
    /// ends with `Eof`.
    pub fn new(input: &str) -> (p: Parser)
        ensures
            p.wf(),
            p.spec_position() == 0,
            p.spec_tokens().len() >= 1,
            p.spec_tokens().last() is Eof,
            spec_lexes_to(input@, 0, p.spec_tokens()),
    {
        let mut lexer = Lexer::new(input);
        let ghost s = lexer.spec_input();
        let mut tokens: Vec<Token> = Vec::new();
        proof {
            assert forall|rest: Seq<Token>| spec_lexes_to(s, 0, rest) implies #[trigger] spec_lexes_to(
                s,
                0,
                tokens@ + rest,
            ) by {
                assert(tokens@ + rest =~= rest);
            }
        }
        loop
            invariant_except_break
                tokens@.len() == 0 || !(tokens@.last() is Eof),
                forall|rest: Seq<Token>|
                    spec_lexes_to(s, lexer.spec_position(), rest) ==> #[trigger] spec_lexes_to(
                        s,
                        0,
                        tokens@ + rest,
                    ),
            invariant
                lexer.wf(),
                lexer.spec_input() == s,
                s == input@,
            ensures
                tokens@.len() >= 1,
                tokens@.last() is Eof,
                spec_lexes_to(s, 0, tokens@),
            decreases lexer.spec_input().len() - lexer.spec_position(),
        {
            let ghost p0 = lexer.spec_position();
            let ghost old_tokens = tokens@;
            let token = lexer.next_token();
            proof {
                crate::lexer::lemma_scan_bounds(s, p0);
                if spec_scan_ok(s, p0) {
                    crate::lexer::lemma_token_end_progress(
                        s,
                        crate::lexer::spec_scan_start(s, p0),
                    );
                }
            }
            let is_eof = match &token {
                Token::Eof => true,
                _ => false,
            };
            let ghost t = token;
            tokens.push(token);
            if is_eof {
                proof {
                    assert(spec_lexes_to(s, p0, seq![t])) by {
                        assert(crate::lexer::spec_scan_start(s, p0) == s.len());
                    }
                    assert(spec_lexes_to(s, 0, old_tokens + seq![t]));
                    assert(tokens@ =~= old_tokens + seq![t]);
                }
                break ;
            }
            proof {
                let st = crate::lexer::spec_scan_start(s, p0);
                assert(st < s.len());
                assert forall|rest: Seq<Token>|
                    spec_lexes_to(s, lexer.spec_position(), rest) implies #[trigger] spec_lexes_to(
                    s,
                    0,
                    tokens@ + rest,
                ) by {
                    assert((seq![t] + rest).drop_first() =~= rest);
                    assert(spec_lexes_to(s, p0, seq![t] + rest));
                    assert(spec_lexes_to(s, 0, old_tokens + (seq![t] + rest)));
                    assert(tokens@ + rest =~= old_tokens + (seq![t] + rest));
                }
            }
        }
        Parser { tokens, position: 0 }
    }

    fn current_token(&self) -> (r: &Token)
        ensures
            *r == self.spec_current(),
    {
        if self.position < self.tokens.len() {
            &self.tokens[self.position]
        } else {
            &Token::Eof
        }
    }

    #[allow(dead_code)]
    fn peek_token(&self, offset: usize) -> (r: &Token)
        requires
            self.wf(),
        ensures
            *r == (if self.spec_position() + offset < self.spec_tokens().len() {
                self.spec_tokens()[self.spec_position() + offset]
            } else {
                Token::Eof
            }),
    {
        if self.tokens.len() - self.position > offset {
            &self.tokens[self.position + offset]
        } else {
            &Token::Eof
        }
    }

    fn advance(&mut self) -> (t: Token)
        requires
            old(self).wf(),
        ensures
            final(self).wf(),
            final(self).spec_tokens() == old(self).spec_tokens(),
            t == old(self).spec_current(),
            final(self).spec_position() == (if old(self).spec_position() < old(
                self,
            ).spec_tokens().len() {
                old(self).spec_position() + 1
            } else {
                old(self).spec_position()
            }),
    {
        let token = self.current_token().clone();
        if self.position < self.tokens.len() {
            self.position = self.position + 1;
        }
        token
    }

    fn expect(&mut self, expected: Token) -> (r: Result<(), String>)
        requires
            old(self).wf(),
            !(expected is Eof),
        ensures
            final(self).wf(),
            final(self).spec_tokens() == old(self).spec_tokens(),
            r is Ok <==> spec_same_kind(expected, old(self).spec_current()),
            r is Ok ==> final(self).spec_position() == old(self).spec_position() + 1 && old(
                self,
            ).spec_position() < old(self).spec_tokens().len(),
            r is Err ==> final(self).spec_position() == old(self).spec_position(),
    {
        let matches_kind = same_kind(&expected, self.current_token());
        if matches_kind {
            proof {
                assert(!(old(self).spec_current() is Eof));
            }
            self.advance();
            Ok(())
        } else {
            let mut msg = "Expected ".to_owned();
            msg.append(token_kind_name(&expected));
            msg.append(", got ");
            msg.append(token_kind_name(self.current_token()));
            Err(msg)
        }
    }

    /// Parses a whole program: resources until the end of input, failing on
    /// the first mismatched token, exactly when the tokens spell no program.
    ///
    /// A parsed program is pinned by `spec_program_at`; in particular every
    /// resource has its fields indexed 0, 1, 2, ... in declaration order, a
    /// name that starts with an uppercase letter, and only the three known
    /// primitive type names in its field types.
    pub fn parse(&mut self) -> (r: Result<Program, String>)
        requires
            old(self).wf(),
        ensures
            final(self).wf(),
            r is Ok ==> forall|i: int|
                0 <= i < r->Ok_0.resources@.len() ==> spec_fields_indexed(
                    #[trigger] r->Ok_0.resources@[i],
                ) && spec_pascal_name(r->Ok_0.resources@[i].name@) && spec_resource_prims_ok(
                    r->Ok_0.resources@[i],
                ),
            r is Ok ==> spec_program_at(
                old(self).spec_tokens(),
                old(self).spec_position(),
                r->Ok_0.resources@,
                final(self).spec_position(),
            ),
            r is Err ==> !exists|rs: Seq<Resource>, jj: int|
                spec_program_at(old(self).spec_tokens(), old(self).spec_position(), rs, jj),
    {
        let ghost toks = self.spec_tokens();
        let ghost p0 = self.spec_position();
        let mut resources: Vec<Resource> = Vec::new();
        let ghost mut ps: Seq<int> = seq![p0];
        loop
            invariant
                self.wf(),
                self.spec_tokens() == toks,
                toks == old(self).spec_tokens(),
                p0 == old(self).spec_position(),
                forall|i: int|
                    0 <= i < resources@.len() ==> spec_fields_indexed(#[trigger] resources@[i])
                        && spec_pascal_name(resources@[i].name@) && spec_resource_prims_ok(
                        resources@[i],
                    ),
                ps.len() == resources@.len() + 1,
                ps[0] == p0,
                ps[ps.len() - 1] == self.spec_position(),
                forall|m: int|
                    0 <= m < resources@.len() ==> spec_resource_at(
                        toks,
                        ps[m],
                        #[trigger] resources@[m],
                        ps[m + 1],
                    ),
                spec_program_span(toks, p0) ==> spec_program_span(toks, self.spec_position()),
            ensures
                self.wf(),
                self.spec_tokens() == toks,
                forall|i: int|
                    0 <= i < resources@.len() ==> spec_fields_indexed(#[trigger] resources@[i])
                        && spec_pascal_name(resources@[i].name@) && spec_resource_prims_ok(
                        resources@[i],
                    ),
                ps.len() == resources@.len() + 1,
                ps[0] == p0,
                ps[ps.len() - 1] == self.spec_position(),
                forall|m: int|
                    0 <= m < resources@.len() ==> spec_resource_at(
                        toks,
                        ps[m],
                        #[trigger] resources@[m],
                        ps[m + 1],
                    ),
                self.spec_position() >= toks.len() || toks[self.spec_position()] is Eof,
            decreases self.spec_tokens().len() - self.spec_position(),
        {
            let at_end = match self.current_token() {
                Token::Eof => true,
                _ => false,
            };
            if at_end {
                break ;
            }
            let ghost pr = self.spec_position();
            match self.parse_resource() {
                Ok(resource) => {
                    proof {
                        ps = ps + seq![self.spec_position()];
                        lemma_resource_at_span(toks, pr, resource, self.spec_position());
                        if spec_program_span(toks, p0) {
                            assert(spec_program_span(toks, pr));
                            let k = choose|k: int|
                                pr < k <= toks.len() && #[trigger] spec_resource_span(toks, pr, k)
                                    && spec_program_span(toks, k);
                            lemma_resource_span_unique(toks, pr, k, self.spec_position());
                        }
                    }
                    resources.push(resource);
                },
                Err(e) => {
                    proof {
                        if exists|rs: Seq<Resource>, jj: int| spec_program_at(toks, p0, rs, jj) {
                            let (rs, jj) = choose|rs: Seq<Resource>, jj: int|
                                spec_program_at(toks, p0, rs, jj);
                            lemma_program_at_span(toks, p0, rs, 0, jj);
                            assert(spec_program_span(toks, pr));
                            let k = choose|k: int|
                                pr < k <= toks.len() && #[trigger] spec_resource_span(toks, pr, k)
                                    && spec_program_span(toks, k);
                            assert(false);
                        }
                    }
                    return Err(e);
                },
            }
        }
        let program = Program { resources };
        proof {
            lemma_resources_at_positions(toks, ps, program.resources@, 0);
        }
        Ok(program)
    }

    fn parse_resource(&mut self) -> (r: Result<Resource, String>)
        requires
            old(self).wf(),
        ensures
            final(self).wf(),
            final(self).spec_tokens() == old(self).spec_tokens(),
            r is Ok ==> old(self).spec_position() < final(self).spec_position(),
            r is Ok ==> spec_fields_indexed(r->Ok_0) && spec_pascal_name(r->Ok_0.name@)
                && spec_resource_prims_ok(r->Ok_0),
            r is Ok ==> spec_resource_at(
                old(self).spec_tokens(),
                old(self).spec_position(),
                r->Ok_0,
                final(self).spec_position(),
            ),
            r is Err ==> !exists|jj: int|
                spec_resource_span(old(self).spec_tokens(), old(self).spec_position(), jj),
    {
        let ghost toks = self.spec_tokens();
        let ghost p0 = self.spec_position();
        self.expect(Token::Resource)?;

        let name = match self.advance() {
            Token::Identifier(id) => id,
            _ => {
                return Err("Expected resource name".to_owned());
            },
        };
        proof {
            assert(toks[p0] is Resource);
            assert(toks[p0 + 1] is Identifier);
            assert(name@ == toks[p0 + 1]->Identifier_0@);
            assert(self.spec_position() == p0 + 2);
        }

        // The PascalCase gate: the name must begin with an uppercase letter.
        let pascal = if name.as_str().unicode_len() == 0 {
            false
        } else {
            is_upper_char(name.as_str().get_char(0))
        };
        if !pascal {
            let mut msg = "Resource name must be PascalCase: ".to_owned();
            msg.append(name.as_str());
            return Err(msg);
        }

        self.expect(Token::LeftBrace)?;
        proof {
            assert(toks[p0 + 2] is LeftBrace);
            assert(self.spec_position() == p0 + 3);
        }

        let mut fields: Vec<Field> = Vec::new();
        let mut index: usize = 0;
        let ghost mut ps: Seq<int> = seq![p0 + 3];

        loop
            invariant
                self.wf(),
                self.spec_tokens() == toks,
                toks == old(self).spec_tokens(),
                p0 == old(self).spec_position(),
                p0 < self.spec_position(),
                index == fields@.len(),
                index + p0 + 3 <= self.spec_position(),
                forall|k: int|
                    0 <= k < fields@.len() ==> (#[trigger] fields@[k]).index as int == k
                        && spec_field_prims_ok(fields@[k]),
                ps.len() == fields@.len() + 1,
                ps[0] == p0 + 3,
                ps[ps.len() - 1] == self.spec_position(),
                forall|m: int|
                    0 <= m < fields@.len() ==> spec_field_at(
                        toks,
                        ps[m],
                        #[trigger] fields@[m],
                        ps[m + 1],
                    ),
                forall|jj: int|
                    #[trigger] spec_fields_span(toks, p0 + 3, jj) ==> spec_fields_span(
                        toks,
                        self.spec_position(),
                        jj,
                    ),
            ensures
                self.wf(),
                self.spec_tokens() == toks,
                p0 < self.spec_position(),
                index == fields@.len(),
                forall|k: int|
                    0 <= k < fields@.len() ==> (#[trigger] fields@[k]).index as int == k
                        && spec_field_prims_ok(fields@[k]),
                ps.len() == fields@.len() + 1,
                ps[0] == p0 + 3,
                ps[ps.len() - 1] == self.spec_position(),
                forall|m: int|
                    0 <= m < fields@.len() ==> spec_field_at(
                        toks,
                        ps[m],
                        #[trigger] fields@[m],
                        ps[m + 1],
                    ),
                forall|jj: int|
                    #[trigger] spec_fields_span(toks, p0 + 3, jj) ==> spec_fields_span(
                        toks,
                        self.spec_position(),
                        jj,
                    ),
                self.spec_current() is RightBrace || self.spec_current() is Eof,
            decreases self.spec_tokens().len() - self.spec_position(),
        {
            let done = match self.current_token() {
                Token::RightBrace => true,
                Token::Eof => true,
                _ => false,
            };
            if done {
                break ;
            }
            let ghost pf = self.spec_position();
            match self.parse_field(index) {
                Ok(field) => {
                    proof {
                        ps = ps + seq![self.spec_position()];
                        lemma_field_from_span(toks, pf, false, false, None, field, self.spec_position());
                        assert forall|jj: int| #[trigger] spec_fields_span(toks, p0 + 3, jj) implies
                            spec_fields_span(toks, self.spec_position(), jj) by {
                            assert(spec_fields_span(toks, pf, jj));
                            let k = choose|k: int|
                                pf < k < jj && #[trigger] spec_field_span(toks, pf, k)
                                    && spec_fields_span(toks, k, jj);
                            lemma_field_span_unique(toks, pf, k, self.spec_position());
                        }
                    }
                    fields.push(field);
                    if index < usize::MAX {
                        index = index + 1;
                    } else {
                        // Unreachable: each field consumes at least one
                        // token, so the count stays below the cursor.
                        proof {
                            assert(false);
                        }
                        return Err("Too many fields in one resource".to_owned());
                    }
                },
                Err(e) => {
                    proof {
                        assert forall|jj: int| !#[trigger] spec_fields_span(toks, pf, jj) by {
                            if spec_fields_span(toks, pf, jj) {
                                let k = choose|k: int|
                                    pf < k < jj && #[trigger] spec_field_span(toks, pf, k)
                                        && spec_fields_span(toks, k, jj);
                            }
                        }
                    }
                    return Err(e);
                },
            }
        }

        let ghost pe = self.spec_position();
        match self.expect(Token::RightBrace) {
            Ok(()) => {},
            Err(e) => {
                proof {
                    assert forall|jj: int| !#[trigger] spec_fields_span(toks, pe, jj) by {
                        if spec_fields_span(toks, pe, jj) {
                            let k = choose|k: int|
                                pe < k < jj && #[trigger] spec_field_span(toks, pe, k)
                                    && spec_fields_span(toks, k, jj);
                            lemma_field_span_not_brace(toks, pe, k);
                        }
                    }
                }
                return Err(e);
            },
        }
        proof {
            assert(toks[pe] is RightBrace);
            assert(pe < toks.len());
        }

        let resource = Resource { name, fields };
        proof {
            lemma_fields_at_positions(toks, ps, resource.fields@, 0);
            assert(spec_fields_at(toks, p0 + 3, resource.fields@, 0, pe));
        }
        Ok(resource)
    }

    fn parse_field(&mut self, index: usize) -> (r: Result<Field, String>)
        requires
            old(self).wf(),
        ensures
            final(self).wf(),
            final(self).spec_tokens() == old(self).spec_tokens(),
            r is Ok ==> old(self).spec_position() < final(self).spec_position(),
            r is Ok ==> r->Ok_0.index == index && spec_field_prims_ok(r->Ok_0),
            r is Ok ==> spec_field_at(
                old(self).spec_tokens(),
                old(self).spec_position(),
                r->Ok_0,
                final(self).spec_position(),
            ),
            r is Err ==> !exists|jj: int|
                spec_field_span(old(self).spec_tokens(), old(self).spec_position(), jj),
    {
        let ghost toks = self.spec_tokens();
        let ghost p0 = self.spec_position();
        let mut nullable: bool = false;
        let mut optional: bool = false;
        let mut default: Option<DefaultValue> = None;

        // Attributes, in any order; repeats are idempotent, a repeated
        // `default(...)` overwrites the earlier literal.
        loop
            invariant
                self.wf(),
                self.spec_tokens() == toks,
                toks == old(self).spec_tokens(),
                0 <= p0 <= self.spec_position(),
                p0 == old(self).spec_position(),
                forall|ff: Field, jj: int|
                    #[trigger] spec_field_from(
                        toks,
                        self.spec_position(),
                        nullable,
                        optional,
                        default,
                        ff,
                        jj,
                    ) ==> spec_field_at(toks, p0, ff, jj),
                forall|jj: int|
                    #[trigger] spec_field_span(toks, p0, jj) ==> spec_field_span(
                        toks,
                        self.spec_position(),
                        jj,
                    ),
            ensures
                self.wf(),
                self.spec_tokens() == toks,
                p0 <= self.spec_position(),
                forall|ff: Field, jj: int|
                    #[trigger] spec_field_from(
                        toks,
                        self.spec_position(),
                        nullable,
                        optional,
                        default,
                        ff,
                        jj,
                    ) ==> spec_field_at(toks, p0, ff, jj),
                forall|jj: int|
                    #[trigger] spec_field_span(toks, p0, jj) ==> spec_field_span(
                        toks,
                        self.spec_position(),
                        jj,
                    ),
                !(self.spec_current() is Nullable),
                !(self.spec_current() is Optional),
                !(self.spec_current() is Default),
            decreases self.spec_tokens().len() - self.spec_position(),
        {
            let which: u8 = match self.current_token() {
                Token::Nullable => 1,
                Token::Optional => 2,
                Token::Default => 3,
                _ => 0,
            };
            let ghost pa = self.spec_position();
            let ghost nb0 = nullable;
            let ghost ob0 = optional;
            let ghost df0 = default;
            if which == 1 {
                nullable = true;
                self.advance();
                proof {
                    assert forall|ff: Field, jj: int|
                        #[trigger] spec_field_from(
                            toks,
                            self.spec_position(),
                            nullable,
                            optional,
                            default,
                            ff,
                            jj,
                        ) implies spec_field_at(toks, p0, ff, jj) by {
                        assert(spec_field_from(toks, pa, nb0, ob0, df0, ff, jj));
                    }
                    assert forall|jj: int| #[trigger] spec_field_span(toks, p0, jj) implies
                        spec_field_span(toks, self.spec_position(), jj) by {
                        assert(spec_field_span(toks, pa, jj));
                    }
                }
            } else if which == 2 {
                optional = true;
                self.advance();
                proof {
                    assert forall|ff: Field, jj: int|
                        #[trigger] spec_field_from(
                            toks,
                            self.spec_position(),
                            nullable,
                            optional,
                            default,
                            ff,
                            jj,
                        ) implies spec_field_at(toks, p0, ff, jj) by {
                        assert(spec_field_from(toks, pa, nb0, ob0, df0, ff, jj));
                    }
                    assert forall|jj: int| #[trigger] spec_field_span(toks, p0, jj) implies
                        spec_field_span(toks, self.spec_position(), jj) by {
                        assert(spec_field_span(toks, pa, jj));
                    }
                }
            } else if which == 3 {
                self.advance();
                match self.expect(Token::LeftParen) {
                    Ok(()) => {},
                    Err(e) => {
                        proof {
                            assert(forall|jj: int| !spec_field_span(toks, pa, jj));
                        }
                        return Err(e);
                    },
                }
                let literal = match self.parse_literal() {
                    Ok(l) => l,
                    Err(e) => {
                        proof {
                            assert(forall|jj: int| !spec_field_span(toks, pa, jj));
                        }
                        return Err(e);
                    },
                };
                match self.expect(Token::RightParen) {
                    Ok(()) => {},
                    Err(e) => {
                        proof {
                            assert(forall|jj: int| !spec_field_span(toks, pa, jj));
                        }
                        return Err(e);
                    },
                }
                proof {
                    assert(toks[pa] is Default);
                    assert(toks[pa + 1] is LeftParen);
                    assert(spec_literal_tok(toks[pa + 2], literal));
                    assert(toks[pa + 3] is RightParen);
                    assert(self.spec_position() == pa + 4);
                }
                default = Some(DefaultValue { value: literal });
                proof {
                    assert forall|ff: Field, jj: int|
                        #[trigger] spec_field_from(
                            toks,
                            self.spec_position(),
                            nullable,
                            optional,
                            default,
                            ff,
                            jj,
                        ) implies spec_field_at(toks, p0, ff, jj) by {
                        assert(jj > pa + 4);
                        assert(spec_field_from(toks, pa, nb0, ob0, df0, ff, jj));
                    }
                    assert forall|jj: int| #[trigger] spec_field_span(toks, p0, jj) implies
                        spec_field_span(toks, self.spec_position(), jj) by {
                        assert(spec_field_span(toks, pa, jj));
                    }
                }
            } else {
                break ;
            }
        }

        let ghost pt = self.spec_position();
        let ghost nb = nullable;
        let ghost ob = optional;
        let ghost df = default;
        let field_type = match self.parse_type() {
            Ok(t) => t,
            Err(e) => {
                proof {
                    assert forall|jj: int| !#[trigger] spec_field_span(toks, pt, jj) by {
                        if spec_field_span(toks, pt, jj) {
                            let k = choose|k: int|
                                #[trigger] spec_type_span(toks, pt, k) && jj == k + 1 && 0 <= k
                                    < toks.len() && toks[k] is Identifier;
                            lemma_type_span_start(toks, pt, k);
                        }
                    }
                }
                return Err(e);
            },
        };
        let ghost pn = self.spec_position();

        let name = match self.advance() {
            Token::Identifier(id) => id,
            _ => {
                proof {
                    assert forall|jj: int| !#[trigger] spec_field_span(toks, pt, jj) by {
                        if spec_field_span(toks, pt, jj) {
                            let k = choose|k: int|
                                #[trigger] spec_type_span(toks, pt, k) && jj == k + 1 && 0 <= k
                                    < toks.len() && toks[k] is Identifier;
                            lemma_type_at_span(toks, pt, field_type, pn);
                            lemma_type_span_unique(toks, pt, k, pn);
                        }
                    }
                }
                return Err("Expected field name".to_owned());
            },
        };

        let field = Field { name, field_type, nullable, optional, default, index };
        proof {
            assert(toks[pn] is Identifier);
            assert(pn < toks.len());
            assert(field.name@ == toks[pn]->Identifier_0@);
            assert(spec_type_at(toks, pt, field.field_type, pn));
            assert(!(toks[pt] is Nullable) && !(toks[pt] is Optional) && !(toks[pt] is Default));
            assert(spec_field_from(toks, pt, nb, ob, df, field, pn + 1));
        }
        Ok(field)
    }

    fn parse_type(&mut self) -> (r: Result<ASTType, String>)
        requires
            old(self).wf(),
        ensures
            final(self).wf(),
            final(self).spec_tokens() == old(self).spec_tokens(),
            r is Ok ==> old(self).spec_position() < final(self).spec_position(),
            r is Ok ==> spec_type_prims_ok(r->Ok_0),
            r is Ok <==> spec_type_start(old(self).spec_tokens(), old(self).spec_position()),
            r is Ok ==> spec_type_at(
                old(self).spec_tokens(),
                old(self).spec_position(),
                r->Ok_0,
                final(self).spec_position(),
            ),
        decreases old(self).spec_tokens().len() - old(self).spec_position(),
    {
        let kind: u8 = match self.current_token() {
            Token::String => 1,
            Token::Number => 2,
            Token::Bool => 3,
            Token::List => 4,
            Token::Identifier(_) => 5,
            _ => 0,
        };
        if kind == 1 {
            self.advance();
            Ok(ASTType::Primitive("string".to_owned()))
        } else if kind == 2 {
            self.advance();
            Ok(ASTType::Primitive("number".to_owned()))
        } else if kind == 3 {
            self.advance();
            Ok(ASTType::Primitive("bool".to_owned()))
        } else if kind == 4 {
            self.advance();
            match self.parse_type() {
                Ok(inner_type) => Ok(ASTType::List(Box::new(inner_type))),
                Err(e) => Err(e),
            }
        } else if kind == 5 {
            let name = match self.advance() {
                Token::Identifier(id) => id,
                _ => {
                    return Err("Expected type".to_owned());
                },
            };
            Ok(ASTType::Named(name))
        } else {
            Err("Expected type".to_owned())
        }
    }

    fn parse_literal(&mut self) -> (r: Result<Literal, String>)
        requires
            old(self).wf(),
        ensures
            final(self).wf(),
            final(self).spec_tokens() == old(self).spec_tokens(),
            ({
                let c = old(self).spec_current();
                &&& (r is Ok <==> (c is StringLiteral || c is NumberLiteral || c is True
                    || c is False))
                &&& (r is Ok ==> final(self).spec_position() == old(self).spec_position() + 1)
                &&& (r is Err ==> final(self).spec_position() == old(self).spec_position())
                &&& (c is StringLiteral ==> r is Ok && r->Ok_0 is String
                    && r->Ok_0->String_0@ == c->StringLiteral_0@)
                &&& (c is NumberLiteral ==> r is Ok && r->Ok_0 is Number && r->Ok_0->Number_0
                    == c->NumberLiteral_0)
                &&& (c is True ==> r is Ok && r->Ok_0 == Literal::Bool(true))
                &&& (c is False ==> r is Ok && r->Ok_0 == Literal::Bool(false))
                &&& (r is Ok ==> spec_literal_tok(c, r->Ok_0))
            }),
    {
        let kind: u8 = match self.current_token() {
            Token::StringLiteral(_) => 1,
            Token::NumberLiteral(_) => 2,
            Token::True => 3,
            Token::False => 4,
            _ => 0,
        };
        if kind == 1 {
            match self.advance() {
                Token::StringLiteral(s) => Ok(Literal::String(s)),
                _ => Err("Expected literal".to_owned()),
            }
        } else if kind == 2 {
            match self.advance() {
                Token::NumberLiteral(n) => Ok(Literal::Number(n)),
                _ => Err("Expected literal".to_owned()),
            }
        } else if kind == 3 {
            self.advance();
            Ok(Literal::Bool(true))
        } else if kind == 4 {
            self.advance();
            Ok(Literal::Bool(false))
        } else {
            Err("Expected literal".to_owned())
        }
    }
}

fn same_kind(a: &Token, b: &Token) -> (r: bool)
    ensures
        r == spec_same_kind(*a, *b),
{
    match (a, b) {
        (Token::Resource, Token::Resource) => true,
        (Token::String, Token::String) => true,
        (Token::Number, Token::Number) => true,
        (Token::Bool, Token::Bool) => true,
        (Token::Nullable, Token::Nullable) => true,
        (Token::Optional, Token::Optional) => true,
        (Token::Default, Token::Default) => true,
        (Token::List, Token::List) => true,
        (Token::True, Token::True) => true,
        (Token::False, Token::False) => true,
        (Token::Identifier(_), Token::Identifier(_)) => true,
        (Token::StringLiteral(_), Token::StringLiteral(_)) => true,
        (Token::NumberLiteral(_), Token::NumberLiteral(_)) => true,
        (Token::LeftBrace, Token::LeftBrace) => true,
        (Token::RightBrace, Token::RightBrace) => true,
        (Token::LeftParen, Token::LeftParen) => true,
        (Token::RightParen, Token::RightParen) => true,
        (Token::Eof, Token::Eof) => true,
        _ => false,
    }
}

/// A printable name for a token's kind, used in parse error messages.
fn token_kind_name(t: &Token) -> (r: &'static str) {
    match t {
        Token::Resource => "'resource'",
        Token::String => "'string'",
        Token::Number => "'number'",
        Token::Bool => "'bool'",
        Token::Nullable => "'nullable'",
        Token::Optional => "'optional'",
        Token::Default => "'default'",
        Token::List => "'list'",
        Token::True => "'true'",
        Token::False => "'false'",
        Token::Identifier(_) => "identifier",
        Token::StringLiteral(_) => "string literal",
        Token::NumberLiteral(_) => "number literal",
        Token::LeftBrace => "'{'",
        Token::RightBrace => "'}'",
        Token::LeftParen => "'('",
        Token::RightParen => "')'",
        Token::Eof => "end of input",
    }
}

/// From one certified step per field, the whole chain: the fields from
/// position `m` on span the token range from `ps[m]` to the last recorded
/// position.
proof fn lemma_fields_at_positions(toks: Seq<Token>, ps: Seq<int>, fields: Seq<Field>, m: int)
    requires
        0 <= m <= fields.len(),
        ps.len() == fields.len() + 1,
        forall|k: int|
            0 <= k < fields.len() ==> spec_field_at(toks, ps[k], #[trigger] fields[k], ps[k + 1]),
    ensures
        spec_fields_at(toks, ps[m], fields, m, ps[ps.len() - 1]),
    decreases fields.len() - m,
{
    if m == fields.len() {
    } else {
        lemma_fields_at_positions(toks, ps, fields, m + 1);
        assert(spec_field_at(toks, ps[m], fields[m], ps[m + 1]));
    }
}

/// From one certified step per resource, the whole chain.
proof fn lemma_resources_at_positions(
    toks: Seq<Token>,
    ps: Seq<int>,
    resources: Seq<Resource>,
    m: int,
)
    requires
        0 <= m <= resources.len(),
        ps.len() == resources.len() + 1,
        forall|k: int|
            0 <= k < resources.len() ==> spec_resource_at(
                toks,
                ps[k],
                #[trigger] resources[k],
                ps[k + 1],
            ),
    ensures
        spec_resources_at(toks, ps[m], resources, m, ps[ps.len() - 1]),
    decreases resources.len() - m,
{
    if m == resources.len() {
    } else {
        lemma_resources_at_positions(toks, ps, resources, m + 1);
        assert(spec_resource_at(toks, ps[m], resources[m], ps[m + 1]));
    }
}

/// A spelled type occupies a type-shaped span.
proof fn lemma_type_at_span(toks: Seq<Token>, i: int, t: ASTType, j: int)
    requires
        spec_type_at(toks, i, t, j),
    ensures
        spec_type_span(toks, i, j),
    decreases t,
{
    match t {
        ASTType::Primitive(_) => {},
        ASTType::Named(_) => {},
        ASTType::List(inner) => {
            lemma_type_at_span(toks, i + 1, *inner, j);
        },
    }
}

/// A type-shaped span begins with a type-start token.
proof fn lemma_type_span_start(toks: Seq<Token>, i: int, j: int)
    requires
        spec_type_span(toks, i, j),
    ensures
        spec_type_start(toks, i),
    decreases j - i,
{
    if toks[i] is List {
        lemma_type_span_start(toks, i + 1, j);
    }
}

/// Type spans from one position all end at the same place.
proof fn lemma_type_span_unique(toks: Seq<Token>, i: int, j1: int, j2: int)
    requires
        spec_type_span(toks, i, j1),
        spec_type_span(toks, i, j2),
    ensures
        j1 == j2,
    decreases j1 - i,
{
    if toks[i] is List {
        lemma_type_span_unique(toks, i + 1, j1, j2);
    }
}

/// A spelled field occupies a field-shaped span.
proof fn lemma_field_from_span(
    toks: Seq<Token>,
    i: int,
    nullable0: bool,
    optional0: bool,
    default0: Option<DefaultValue>,
    f: Field,
    j: int,
)
    requires
        spec_field_from(toks, i, nullable0, optional0, default0, f, j),
    ensures
        spec_field_span(toks, i, j),
    decreases j - i,
{
    match toks[i] {
        Token::Nullable => {
            lemma_field_from_span(toks, i + 1, true, optional0, default0, f, j);
        },
        Token::Optional => {
            lemma_field_from_span(toks, i + 1, nullable0, true, default0, f, j);
        },
        Token::Default => {
            let v = choose|v: Literal|
                #[trigger] spec_literal_tok(toks[i + 2], v) && spec_field_from(
                    toks,
                    i + 4,
                    nullable0,
                    optional0,
                    Some(DefaultValue { value: v }),
                    f,
                    j,
                );
            lemma_field_from_span(
                toks,
                i + 4,
                nullable0,
                optional0,
                Some(DefaultValue { value: v }),
                f,
                j,
            );
        },
        _ => {
            let k = choose|k: int|
                #[trigger] spec_type_at(toks, i, f.field_type, k) && 0 <= k < toks.len() && j == k
                    + 1 && toks[k] is Identifier && f.name@ == toks[k]->Identifier_0@ && f.nullable
                    == nullable0 && f.optional == optional0 && f.default == default0;
            lemma_type_at_span(toks, i, f.field_type, k);
        },
    }
}

/// Field spans from one position all end at the same place.
proof fn lemma_field_span_unique(toks: Seq<Token>, i: int, j1: int, j2: int)
    requires
        spec_field_span(toks, i, j1),
        spec_field_span(toks, i, j2),
    ensures
        j1 == j2,
    decreases j1 - i,
{
    match toks[i] {
        Token::Nullable => {
            lemma_field_span_unique(toks, i + 1, j1, j2);
        },
        Token::Optional => {
            lemma_field_span_unique(toks, i + 1, j1, j2);
        },
        Token::Default => {
            lemma_field_span_unique(toks, i + 4, j1, j2);
        },
        _ => {
            let k1 = choose|k: int|
                #[trigger] spec_type_span(toks, i, k) && j1 == k + 1 && 0 <= k < toks.len()
                    && toks[k] is Identifier;
            let k2 = choose|k: int|
                #[trigger] spec_type_span(toks, i, k) && j2 == k + 1 && 0 <= k < toks.len()
                    && toks[k] is Identifier;
            lemma_type_span_unique(toks, i, k1, k2);
        },
    }
}

/// A spelled field list followed by its closing brace occupies a
/// fields-shaped span.
proof fn lemma_fields_at_span(toks: Seq<Token>, i: int, fields: Seq<Field>, m: int, k: int)
    requires
        spec_fields_at(toks, i, fields, m, k),
        0 <= k < toks.len(),
        toks[k] is RightBrace,
    ensures
        spec_fields_span(toks, i, k + 1),
    decreases fields.len() - m,
{
    if m == fields.len() {
    } else {
        let k0 = choose|k0: int|
            #[trigger] spec_field_at(toks, i, fields[m], k0) && spec_fields_at(
                toks,
                k0,
                fields,
                m + 1,
                k,
            );
        lemma_field_from_span(toks, i, false, false, None, fields[m], k0);
        lemma_fields_at_span(toks, k0, fields, m + 1, k);
        lemma_fields_span_low(toks, k0, k + 1);
        assert(!(toks[i] is RightBrace)) by {
            lemma_field_span_not_brace(toks, i, k0);
        }
    }
}

/// A fields-shaped span reaches past its start.
proof fn lemma_fields_span_low(toks: Seq<Token>, i: int, j: int)
    requires
        spec_fields_span(toks, i, j),
    ensures
        i < j,
{
}

/// A field-shaped span never starts on a closing brace.
proof fn lemma_field_span_not_brace(toks: Seq<Token>, i: int, j: int)
    requires
        spec_field_span(toks, i, j),
    ensures
        !(toks[i] is RightBrace),
        !(toks[i] is Eof),
{
}

/// A spelled resource occupies a resource-shaped span.
proof fn lemma_resource_at_span(toks: Seq<Token>, i: int, r: Resource, j: int)
    requires
        spec_resource_at(toks, i, r, j),
    ensures
        spec_resource_span(toks, i, j),
{
    let k = choose|k: int|
        #[trigger] spec_fields_at(toks, i + 3, r.fields@, 0, k) && 0 <= k < toks.len() && toks[k]
            is RightBrace && j == k + 1;
    lemma_fields_at_span(toks, i + 3, r.fields@, 0, k);
}

/// Fields-shaped spans from one position all end at the same place.
proof fn lemma_fields_span_unique(toks: Seq<Token>, i: int, j1: int, j2: int)
    requires
        spec_fields_span(toks, i, j1),
        spec_fields_span(toks, i, j2),
    ensures
        j1 == j2,
    decreases j1 - i,
{
    if toks[i] is RightBrace {
    } else {
        let k1 = choose|k: int|
            i < k < j1 && #[trigger] spec_field_span(toks, i, k) && spec_fields_span(toks, k, j1);
        let k2 = choose|k: int|
            i < k < j2 && #[trigger] spec_field_span(toks, i, k) && spec_fields_span(toks, k, j2);
        lemma_field_span_unique(toks, i, k1, k2);
        lemma_fields_span_unique(toks, k1, j1, j2);
    }
}

/// Resource-shaped spans from one position all end at the same place.
proof fn lemma_resource_span_unique(toks: Seq<Token>, i: int, j1: int, j2: int)
    requires
        spec_resource_span(toks, i, j1),
        spec_resource_span(toks, i, j2),
    ensures
        j1 == j2,
{
    lemma_fields_span_unique(toks, i + 3, j1, j2);
}

/// A spelled program occupies a program-shaped region.
proof fn lemma_program_at_span(toks: Seq<Token>, i: int, resources: Seq<Resource>, m: int, j: int)
    requires
        spec_resources_at(toks, i, resources, m, j),
        j >= toks.len() || toks[j] is Eof,
        i <= toks.len(),
    ensures
        spec_program_span(toks, i),
    decreases resources.len() - m,
{
    if m == resources.len() {
    } else {
        let k = choose|k: int|
            #[trigger] spec_resource_at(toks, i, resources[m], k) && spec_resources_at(
                toks,
                k,
                resources,
                m + 1,
                j,
            );
        lemma_resource_at_span(toks, i, resources[m], k);
        assert(i < k <= toks.len()) by {
            lemma_fields_span_low(toks, i + 3, k);
            lemma_fields_span_high(toks, i + 3, k);
        }
        lemma_program_at_span(toks, k, resources, m + 1, j);
    }
}

/// A fields-shaped span ends within the input.
proof fn lemma_fields_span_high(toks: Seq<Token>, i: int, j: int)
    requires
        spec_fields_span(toks, i, j),
    ensures
        j <= toks.len(),
    decreases j - i,
{
    if toks[i] is RightBrace {
    } else {
        let k = choose|k: int|
            i < k < j && #[trigger] spec_field_span(toks, i, k) && spec_fields_span(toks, k, j);
        lemma_fields_span_high(toks, k, j);
    }
}

/// Whether the scan from `i` finds a further token.


pub open spec fn spec_scan_ok(s: Seq<char>, i: int) -> bool {
    crate::lexer::spec_scan_start(s, i) < s.len()
}

} // verus!
