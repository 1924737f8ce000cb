//! The parser: recursive descent with standard precedence climbing over the
//! token sequence, yielding one statement tree per top-level declaration.
//!
//! Errors are per statement: `parse` records the message, synchronizes past
//! the next statement boundary, and goes on, so one bad statement does not
//! abort parsing of the rest of the file.
//!
//! `for` loops are desugared here: the increment is appended to the loop
//! body and the initializer wrapped around the whole loop in an enclosing
//! block, so the evaluator has only `While` (see `for_statement`).
//!
//! The grammar itself is written down as relations (`decl_rel`,
//! `stmt_rel`, `expr_rel`, ...): `X_rel(t, i, node, j)` says the tokens
//! `t[i..j)` spell `node` at level X, and every tree-producing function
//! ensures its result relates to the tokens it consumed. Expression and
//! statement nodes are tied token by token; for braced bodies the
//! relations pin the braces, and the statements between them are tied by
//! the cut lists (`decls_chain`, `methods_chain`) in the contracts of
//! `block_statements`, `class_declaration` and `parse`. Each contract also
//! says that the token sequence is untouched, the recorded errors are
//! untouched, the position never moves backwards, and success consumes at
//! least one token; recursion terminates because either the position
//! advances or control moves to a strictly lower grammar tier.

use std::rc::Rc;
use vstd::prelude::*;
use crate::ast::{BinaryOp, Expr, Literal, LogicalOp, Stmt, UnaryOp};
use crate::token::{kind, Token};

verus! {

broadcast use vstd::std_specs::vec::axiom_vec_decreases_to_view;

/// The parser state: the tokens, the position of the next token to
/// consume, the nesting depth of function bodies (a `return` outside any
/// function is rejected), and the errors recorded so far.
pub struct Parser<'a> {
    pub tokens: &'a [Token],
    pub current: usize,
    pub function_depth: usize,
    pub errors: Vec<String>,
}

/// The parser position lies within the token sequence (one past the last
/// token means everything is consumed).
pub open spec fn parser_wf(p: Parser) -> bool {
    p.current <= p.tokens@.len()
}

/// The number of tokens left to consume.
pub open spec fn rem(p: Parser) -> int {
    p.tokens@.len() - p.current
}

/// The token at the current position (`Eof` past the end).
pub open spec fn peek_tok(p: Parser) -> Token {
    if p.current < p.tokens@.len() {
        p.tokens@[p.current as int]
    } else {
        Token::Eof
    }
}

/// The token kinds that begin a declaration or statement, at which error
/// recovery stops.
pub open spec fn is_sync_kw(k: int) -> bool {
    k == 23 || k == 26 || k == 36 || k == 27 || k == 28 || k == 37 || k == 31 || k == 32
}

/// A `for` statement is desugared into a `While`, wrapped in a block with
/// its initializer if it has one; no other shape comes out of it.
pub open spec fn is_for_desugar(s: Stmt) -> bool {
    ||| s matches Stmt::While { .. }
    ||| (s matches Stmt::Block(v) && v@.len() == 2 && v@[1] matches Stmt::While { .. })
}

impl<'a> Parser<'a> {
    /// A parser over `tokens`, positioned at the start.
    pub fn new(tokens: &'a [Token]) -> (p: Self)
        ensures
            parser_wf(p),
            p.tokens@ == tokens@,
            p.current == 0,
            p.errors@.len() == 0,
    {
        Parser { tokens, current: 0, function_depth: 0, errors: Vec::new() }
    }

    /// Whether every token is consumed.
    fn is_at_end(&self) -> (r: bool)
        ensures
            r == (self.current >= self.tokens@.len()),
    {
        self.current >= self.tokens.len()
    }

    /// The variant code of the current token (`Eof` past the end).
    fn peek_kind(&self) -> (k: u32)
        requires
            parser_wf(*self),
        ensures
            k == kind(peek_tok(*self)),
    {
        if self.current < self.tokens.len() {
            self.tokens[self.current].kind_code()
        } else {
            38
        }
    }

    /// Whether the current token is of the same kind as `token_type`
    /// (payloads are ignored).
    fn check(&self, token_type: &Token) -> (r: bool)
        requires
            parser_wf(*self),
        ensures
            r == (self.current < self.tokens@.len() && kind(peek_tok(*self)) == kind(
                *token_type,
            )),
    {
        if self.is_at_end() {
            false
        } else {
            self.tokens[self.current].kind_code() == token_type.kind_code()
        }
    }

    /// Consumes the current token, if any is left.
    fn advance(&mut self)
        requires
            parser_wf(*old(self)),
        ensures
            parser_wf(*final(self)),
            final(self).tokens@ == old(self).tokens@,
            final(self).function_depth == old(self).function_depth,
            final(self).errors == old(self).errors,
            final(self).current == if old(self).current < old(self).tokens@.len() {
                old(self).current + 1
            } else {
                old(self).current as int
            },
    {
        if self.current < self.tokens.len() {
            self.current = self.current + 1;
        }
    }

    /// A diagnostic naming the offending token.
    fn error_at(&self, message: &str) -> (r: String)
        requires
            parser_wf(*self),
    {
        let mut m: String = "Error at '".to_owned();
        if self.current < self.tokens.len() {
            m.append(self.tokens[self.current].lexeme().as_str());
        } else {
            m.append("EOF");
        }
        m.append("': ");
        m.append(message);
        m
    }

    /// Consumes the current token if it is of the expected kind, and
    /// reports `message` otherwise.
    fn consume(&mut self, expected: &Token, message: &str) -> (r: Result<(), String>)
        requires
            parser_wf(*old(self)),
        ensures
            parser_wf(*final(self)),
            final(self).tokens@ == old(self).tokens@,
            final(self).function_depth == old(self).function_depth,
            final(self).errors == old(self).errors,
            old(self).current <= final(self).current,
            r is Ok <==> (old(self).current < old(self).tokens@.len() && kind(
                peek_tok(*old(self)),
            ) == kind(*expected)),
            r is Ok ==> final(self).current == old(self).current + 1,
            r is Err ==> final(self).current == old(self).current,
    {
        if self.check(expected) {
            self.advance();
            Ok(())
        } else {
            Err(self.error_at(message))
        }
    }

    /// Consumes the current token if it is an identifier, returning its
    /// text.
    fn consume_identifier(&mut self, message: &str) -> (r: Result<String, String>)
        requires
            parser_wf(*old(self)),
        ensures
            parser_wf(*final(self)),
            final(self).tokens@ == old(self).tokens@,
            final(self).function_depth == old(self).function_depth,
            final(self).errors == old(self).errors,
            old(self).current <= final(self).current,
            r is Ok <==> peek_tok(*old(self)) matches Token::Identifier(_),
            r matches Ok(n) ==> (peek_tok(*old(self)) matches Token::Identifier(s) ==> n == s),
            r is Ok ==> final(self).current == old(self).current + 1,
            r is Err ==> final(self).current == old(self).current,
    {
        if self.current < self.tokens.len() {
            match &self.tokens[self.current] {
                Token::Identifier(name) => {
                    let n = name.clone();
                    self.advance();
                    return Ok(n);
                },
                _ => {},
            }
        }
        Err(self.error_at(message))
    }

    /// Parses every top-level declaration, recording per-statement errors
    /// and synchronizing past them.
    #[verifier::loop_isolation(false)]
    pub fn parse(&mut self) -> (r: Vec<Stmt>)
        requires
            parser_wf(*old(self)),
        ensures
            parser_wf(*final(self)),
            final(self).tokens@ == old(self).tokens@,
            final(self).current == final(self).tokens@.len(),
            final(self).errors@.len() >= old(self).errors@.len(),
            forall|k: int|
                0 <= k < old(self).errors@.len() ==> final(self).errors@[k] == old(
                    self,
                ).errors@[k],
            exists|cuts: Seq<(nat, nat)>| #[trigger] decls_cover(final(self).tokens@, cuts, r@),
            final(self).errors@.len() == old(self).errors@.len() ==> exists|
                cuts: Seq<(nat, nat)>,
            |
                #[trigger] decls_chain(
                    final(self).tokens@,
                    cuts,
                    r@,
                    old(self).current as nat,
                    final(self).tokens@.len(),
                ),
    {
        let ghost t0 = self.tokens@;
        let ghost i0 = self.current as nat;
        let mut statements: Vec<Stmt> = Vec::new();
        let ghost mut cuts: Seq<(nat, nat)> = Seq::empty();
        while !self.is_at_end()
            invariant
                parser_wf(*self),
                self.tokens@ == old(self).tokens@,
                self.errors@.len() >= old(self).errors@.len(),
                forall|k: int|
                    0 <= k < old(self).errors@.len() ==> self.errors@[k] == old(self).errors@[k],
                cuts.len() == statements@.len(),
                forall|k: int|
                    0 <= k < statements@.len() ==> decl_rel(
                        t0,
                        cuts[k].0,
                        #[trigger] statements@[k],
                        cuts[k].1,
                    ),
                forall|k: int|
                    0 < k < statements@.len() ==> (#[trigger] cuts[k]).0 >= cuts[k - 1].1,
                cuts.len() > 0 ==> cuts[cuts.len() - 1].1 <= self.current as nat,
                self.errors@.len() == old(self).errors@.len() ==> ((forall|k: int|
                    0 <= k < statements@.len() ==> (#[trigger] cuts[k]).0 == if k == 0 {
                        i0
                    } else {
                        cuts[k - 1].1
                    }) && (if statements@.len() == 0 {
                    i0 == self.current as nat
                } else {
                    cuts[statements@.len() - 1].1 == self.current as nat
                })),
            decreases rem(*self),
        {
            let ghost start = self.current;
            let ghost st0 = statements@;
            let ghost cuts0 = cuts;
            match self.declaration() {
                Ok(stmt) => {
                    let ghost gs = stmt;
                    statements.push(stmt);
                    proof {
                        cuts = cuts.push((start as nat, self.current as nat));
                        assert(decl_rel(t0, start as nat, gs, self.current as nat));
                        assert forall|k: int|
                            0 <= k < statements@.len() implies decl_rel(
                            t0,
                            cuts[k].0,
                            #[trigger] statements@[k],
                            cuts[k].1,
                        ) by {
                            if k < st0.len() {
                                assert(statements@[k] == st0[k]);
                                assert(cuts[k] == cuts0[k]);
                            } else {
                                assert(statements@[k] == gs);
                                assert(cuts[k] == (start as nat, self.current as nat));
                            }
                        }
                        assert forall|k: int|
                            0 < k < statements@.len() implies (#[trigger] cuts[k]).0 >= cuts[k
                            - 1].1 by {
                            if k < st0.len() {
                                assert(cuts[k] == cuts0[k]);
                                assert(cuts[k - 1] == cuts0[k - 1]);
                            } else {
                                assert(cuts[k] == (start as nat, self.current as nat));
                                assert(cuts[k - 1] == cuts0[k - 1]);
                            }
                        }
                        if self.errors@.len() == old(self).errors@.len() {
                            assert forall|k: int|
                                0 <= k < statements@.len() implies (#[trigger] cuts[k]).0 == (
                            if k == 0 {
                                i0
                            } else {
                                cuts[k - 1].1
                            }) by {
                                if k < st0.len() {
                                    assert(cuts[k] == cuts0[k]);
                                    if k > 0 {
                                        assert(cuts[k - 1] == cuts0[k - 1]);
                                    }
                                } else {
                                    assert(cuts[k] == (start as nat, self.current as nat));
                                    if k > 0 {
                                        assert(cuts[k - 1] == cuts0[k - 1]);
                                    }
                                }
                            }
                        }
                    }
                },
                Err(e) => {
                    let ghost er0 = self.errors@;
                    self.errors.push(e);
                    proof {
                        assert forall|k: int|
                            0 <= k < old(self).errors@.len() implies self.errors@[k] == old(
                            self,
                        ).errors@[k] by {
                            assert(self.errors@[k] == er0[k]);
                        }
                    }
                    self.synchronize();
                },
            }
            proof {
                assert(self.current > start);
            }
        }
        proof {
            assert(decls_cover(t0, cuts, statements@));
            assert(exists|w: Seq<(nat, nat)>|
                #[trigger] decls_cover(old(self).tokens@, w, statements@)) by {
                assert(decls_cover(old(self).tokens@, cuts, statements@));
            }
            if self.errors@.len() == old(self).errors@.len() {
                assert(decls_chain(t0, cuts, statements@, i0, t0.len()));
                assert(exists|w: Seq<(nat, nat)>|
                    #[trigger] decls_chain(
                        old(self).tokens@,
                        w,
                        statements@,
                        old(self).current as nat,
                        old(self).tokens@.len(),
                    )) by {
                    assert(decls_chain(
                        old(self).tokens@,
                        cuts,
                        statements@,
                        old(self).current as nat,
                        old(self).tokens@.len(),
                    ));
                }
            }
        }
        statements
    }

    /// Skips tokens until just past a statement boundary: past a `;`, or to
    /// the next token that can start a declaration.
    #[verifier::loop_isolation(false)]
    fn synchronize(&mut self)
        requires
            parser_wf(*old(self)),
        ensures
            parser_wf(*final(self)),
            final(self).tokens@ == old(self).tokens@,
            final(self).function_depth == old(self).function_depth,
            final(self).errors == old(self).errors,
            old(self).current <= final(self).current,
            old(self).current < old(self).tokens@.len() ==> final(self).current > old(
                self,
            ).current,
            final(self).current == final(self).tokens@.len() || (final(self).current >= 1 && kind(
                final(self).tokens@[final(self).current - 1],
            ) == 8) || is_sync_kw(kind(peek_tok(*final(self)))),
    {
        self.advance();
        while !self.is_at_end()
            invariant
                parser_wf(*self),
                self.tokens@ == old(self).tokens@,
                self.function_depth == old(self).function_depth,
                self.errors == old(self).errors,
                old(self).current <= self.current,
                old(self).current < old(self).tokens@.len() ==> self.current > old(self).current,
            decreases rem(*self),
        {
            // just past a ';' is a statement boundary
            let prev_kind: u32 = self.tokens[self.current - 1].kind_code();
            if prev_kind == 8 {
                return;
            }
            let k = self.peek_kind();
            // class, fun, var, for, if, while, print, return
            if k == 23 || k == 26 || k == 36 || k == 27 || k == 28 || k == 37 || k == 31 || k
                == 32 {
                return;
            }
            self.advance();
        }
    }

    /// Parses one declaration: a class, function or variable declaration,
    /// or a statement.
    fn declaration(&mut self) -> (r: Result<Stmt, String>)
        requires
            parser_wf(*old(self)),
        ensures
            parser_wf(*final(self)),
            final(self).tokens@ == old(self).tokens@,
            old(self).current <= final(self).current,
            r is Ok ==> final(self).current > old(self).current,
            final(self).errors == old(self).errors,
            r matches Ok(st) ==> decl_rel(
                old(self).tokens@,
                old(self).current as nat,
                st,
                final(self).current as nat,
            ),
        decreases rem(*old(self)), 14int,
    {
        let ghost t0 = self.tokens@;
        let ghost i0 = self.current as nat;
        let k = self.peek_kind();
        if k == 23 {
            match self.class_declaration() {
                Ok(p) => Ok(p.0),
                Err(e) => Err(e),
            }
        } else if k == 26 {
            self.function_declaration()
        } else if k == 36 {
            self.var_declaration()
        } else {
            let r = self.statement();
            proof {
                match &r {
                    Ok(st) => {
                        lemma_stmt_rel_to_decl(t0, i0, *st, self.current as nat);
                    },
                    Err(_) => {},
                }
            }
            r
        }
    }

    /// Parses `class NAME ( < SUPER )? { method* }`.
    #[verifier::loop_isolation(false)]
    fn class_declaration(&mut self) -> (r: Result<(Stmt, Ghost<Seq<(nat, nat)>>), String>)
        requires
            parser_wf(*old(self)),
            kind(peek_tok(*old(self))) == 23,
        ensures
            parser_wf(*final(self)),
            final(self).tokens@ == old(self).tokens@,
            old(self).current <= final(self).current,
            r is Ok ==> final(self).current > old(self).current,
            r matches Ok(p) ==> p.0 matches Stmt::Class { .. },
            final(self).errors == old(self).errors,
            r matches Ok(p) ==> decl_rel(
                old(self).tokens@,
                old(self).current as nat,
                p.0,
                final(self).current as nat,
            ),
            r matches Ok(p) ==> (p.0 matches Stmt::Class { name, superclass, methods }
                ==> methods_chain(
                old(self).tokens@,
                p.1@,
                methods@,
                (old(self).current + (if superclass matches Some(_) {
                    5int
                } else {
                    3int
                })) as nat,
                (final(self).current - 1) as nat,
            )),
        decreases rem(*old(self)), 13int,
    {
        let ghost t0 = self.tokens@;
        let ghost i0 = self.current as nat;
        proof {
            lemma_token_kind(peek_tok(*self));
        }
        self.advance();  // class
        let name = match self.consume_identifier("Expect class name") {
            Ok(n) => n,
            Err(e) => {
                return Err(e);
            },
        };
        let superclass: Option<String> = if self.check(&Token::Less) {
            proof {
                lemma_token_kind(peek_tok(*self));
            }
            self.advance();
            match self.consume_identifier("Expect superclass name") {
                Ok(n) => Some(n),
                Err(e) => {
                    return Err(e);
                },
            }
        } else {
            None
        };
        let ghost b = self.current as nat;
        match self.consume(&Token::LeftBrace, "Expect '{' before class body") {
            Ok(_) => {},
            Err(e) => {
                return Err(e);
            },
        }
        proof {
            lemma_token_kind(t0[b as int]);
        }
        let mut methods: Vec<Stmt> = Vec::new();
        let ghost mut cuts: Seq<(nat, nat)> = Seq::empty();
        while !self.check(&Token::RightBrace) && !self.is_at_end()
            invariant
                parser_wf(*self),
                self.tokens@ == old(self).tokens@,
                old(self).current < self.current,
                self.errors == old(self).errors,
                b < self.current,
                cuts.len() == methods@.len(),
                forall|k: int|
                    0 <= k < methods@.len() ==> method_rel(
                        t0,
                        cuts[k].0,
                        #[trigger] methods@[k],
                        cuts[k].1,
                    ),
                forall|k: int|
                    0 <= k < methods@.len() ==> (#[trigger] cuts[k]).0 == if k == 0 {
                        b + 1
                    } else {
                        cuts[k - 1].1
                    },
                if methods@.len() == 0 {
                    b + 1 == self.current as nat
                } else {
                    cuts[methods@.len() - 1].1 == self.current as nat
                },
            decreases rem(*self),
        {
            let ghost u = self.current as nat;
            let ghost ms0 = methods@;
            let ghost cuts0 = cuts;
            match self.method() {
                Ok(m) => {
                    let ghost gm = m;
                    methods.push(m);
                    proof {
                        cuts = cuts.push((u, self.current as nat));
                        assert(method_rel(t0, u, gm, self.current as nat));
                        assert forall|k: int|
                            0 <= k < methods@.len() implies method_rel(
                            t0,
                            cuts[k].0,
                            #[trigger] methods@[k],
                            cuts[k].1,
                        ) by {
                            if k < ms0.len() {
                                assert(methods@[k] == ms0[k]);
                                assert(cuts[k] == cuts0[k]);
                            } else {
                                assert(methods@[k] == gm);
                                assert(cuts[k] == (u, self.current as nat));
                            }
                        }
                        assert forall|k: int|
                            0 <= k < methods@.len() implies (#[trigger] cuts[k]).0 == (if k == 0 {
                            b + 1
                        } else {
                            cuts[k - 1].1
                        }) by {
                            if k < ms0.len() {
                                assert(cuts[k] == cuts0[k]);
                                if k > 0 {
                                    assert(cuts[k - 1] == cuts0[k - 1]);
                                }
                            } else {
                                assert(cuts[k] == (u, self.current as nat));
                                if k > 0 {
                                    assert(cuts[k - 1] == cuts0[k - 1]);
                                }
                            }
                        }
                    }
                },
                Err(e) => {
                    return Err(e);
                },
            }
        }
        let ghost q = self.current as nat;
        match self.consume(&Token::RightBrace, "Expect '}' after class body") {
            Ok(_) => {},
            Err(e) => {
                return Err(e);
            },
        }
        let ghost gms = methods@;
        let ghost gsup = superclass;
        let res = Stmt::Class { name, superclass, methods: Rc::new(methods) };
        proof {
            lemma_token_kind(t0[q as int]);
            assert(tok_at(t0, q, Token::RightBrace));
            assert(class_body_rel(t0, b, gms, self.current as nat));
            assert(decl_rel(t0, i0, res, self.current as nat));
            assert(b == i0 + (if gsup matches Some(_) {
                2int
            } else {
                0int
            }) + 2);
            assert(methods_chain(t0, cuts, gms, b + 1, q));
        }
        Ok((res, Ghost(cuts)))
    }

    /// Parses one method: `NAME ( params? ) body`, where the body is a
    /// block, or a single statement as a one-statement body.
    #[verifier::loop_isolation(false)]
    fn method(&mut self) -> (r: Result<Stmt, String>)
        requires
            parser_wf(*old(self)),
        ensures
            parser_wf(*final(self)),
            final(self).tokens@ == old(self).tokens@,
            old(self).current <= final(self).current,
            r is Ok ==> final(self).current > old(self).current,
            r matches Ok(st) ==> st matches Stmt::Function { .. },
            final(self).errors == old(self).errors,
            r matches Ok(st) ==> method_rel(
                old(self).tokens@,
                old(self).current as nat,
                st,
                final(self).current as nat,
            ),
        decreases rem(*old(self)), 12int,
    {
        let ghost t0 = self.tokens@;
        let ghost i0 = self.current as nat;
        let name = match self.consume_identifier("Expect method name") {
            Ok(n) => n,
            Err(e) => {
                return Err(e);
            },
        };
        match self.consume(&Token::LeftParen, "Expect '(' after method name") {
            Ok(_) => {},
            Err(e) => {
                return Err(e);
            },
        }
        proof {
            lemma_token_kind(t0[i0 as int + 1]);
        }
        let params = match self.parameter_list() {
            Ok(p) => p,
            Err(e) => {
                return Err(e);
            },
        };
        let ghost gparams = params@;
        let ghost q2 = self.current as nat;
        match self.consume(&Token::RightParen, "Expect ')' after parameters.") {
            Ok(_) => {},
            Err(e) => {
                return Err(e);
            },
        }
        proof {
            lemma_token_kind(t0[q2 as int]);
        }
        let body: Vec<Stmt> = if self.check(&Token::LeftBrace) {
            self.enter_function();
            let b = self.block_statements();
            self.exit_function();
            match b {
                Ok(b) => b.0,
                Err(e) => {
                    return Err(e);
                },
            }
        } else {
            let stmt = match self.statement() {
                Ok(s) => s,
                Err(e) => {
                    return Err(e);
                },
            };
            let ghost gstmt = stmt;
            let mut one: Vec<Stmt> = Vec::new();
            one.push(stmt);
            proof {
                assert(one@.len() == 1);
                assert(one@[0] == gstmt);
            }
            one
        };
        let ghost gbody = body@;
        let res = Stmt::Function { name, params: Rc::new(params), body: Rc::new(body) };
        proof {
            let jf = self.current as nat;
            assert(exists|w: nat|
                params_prefix_rel(t0, i0 + 2, gparams, w) && tok_at(t0, w, Token::RightParen) && (
                block_rel(t0, w + 1, gbody, jf) || (gbody.len() == 1 && stmt_rel(
                    t0,
                    w + 1,
                    gbody[0],
                    jf,
                )))) by {
                assert(params_prefix_rel(t0, i0 + 2, gparams, q2) && tok_at(
                    t0,
                    q2,
                    Token::RightParen,
                ) && (block_rel(t0, q2 + 1, gbody, jf) || (gbody.len() == 1 && stmt_rel(
                    t0,
                    q2 + 1,
                    gbody[0],
                    jf,
                ))));
            }
            assert(method_rel(t0, i0, res, self.current as nat));
        }
        Ok(res)
    }

    /// Parses `fun NAME ( params? ) { body }`.
    fn function_declaration(&mut self) -> (r: Result<Stmt, String>)
        requires
            parser_wf(*old(self)),
            kind(peek_tok(*old(self))) == 26,
        ensures
            parser_wf(*final(self)),
            final(self).tokens@ == old(self).tokens@,
            old(self).current <= final(self).current,
            r is Ok ==> final(self).current > old(self).current,
            r matches Ok(st) ==> st matches Stmt::Function { .. },
            final(self).errors == old(self).errors,
            r matches Ok(st) ==> decl_rel(
                old(self).tokens@,
                old(self).current as nat,
                st,
                final(self).current as nat,
            ),
        decreases rem(*old(self)), 13int,
    {
        let ghost t0 = self.tokens@;
        let ghost i0 = self.current as nat;
        proof {
            lemma_token_kind(peek_tok(*self));
        }
        self.advance();  // fun
        let name = match self.consume_identifier("Expect function name") {
            Ok(n) => n,
            Err(e) => {
                return Err(e);
            },
        };
        match self.consume(&Token::LeftParen, "Expect '(' after function name") {
            Ok(_) => {},
            Err(e) => {
                return Err(e);
            },
        }
        proof {
            lemma_token_kind(t0[i0 as int + 2]);
        }
        let params = match self.parameter_list() {
            Ok(p) => p,
            Err(e) => {
                return Err(e);
            },
        };
        let ghost gparams = params@;
        let ghost q2 = self.current as nat;
        match self.consume(&Token::RightParen, "Expect ')' after parameters.") {
            Ok(_) => {},
            Err(e) => {
                return Err(e);
            },
        }
        proof {
            lemma_token_kind(t0[q2 as int]);
        }
        if !self.check(&Token::LeftBrace) {
            return Err(self.error_at("Expect '{' before function body"));
        }
        self.enter_function();
        let b = self.block_statements();
        self.exit_function();
        let body = match b {
            Ok(b) => b.0,
            Err(e) => {
                return Err(e);
            },
        };
        let ghost gbody = body@;
        let res = Stmt::Function { name, params: Rc::new(params), body: Rc::new(body) };
        proof {
            let jf = self.current as nat;
            assert(exists|w: nat|
                params_prefix_rel(t0, i0 + 3, gparams, w) && tok_at(t0, w, Token::RightParen) && (
                block_rel(t0, w + 1, gbody, jf) || (gbody.len() == 1 && stmt_rel(
                    t0,
                    w + 1,
                    gbody[0],
                    jf,
                )))) by {
                assert(params_prefix_rel(t0, i0 + 3, gparams, q2) && tok_at(
                    t0,
                    q2,
                    Token::RightParen,
                ) && block_rel(t0, q2 + 1, gbody, jf));
            }
            assert(method_rel(t0, i0 + 1, res, self.current as nat));
            assert(decl_rel(t0, i0, res, self.current as nat));
        }
        Ok(res)
    }

    /// Parses a comma-separated list of parameter names (possibly empty; at
    /// most 255), stopping before the closing parenthesis.
    #[verifier::loop_isolation(false)]
    fn parameter_list(&mut self) -> (r: Result<Vec<String>, String>)
        requires
            parser_wf(*old(self)),
        ensures
            parser_wf(*final(self)),
            final(self).tokens@ == old(self).tokens@,
            final(self).function_depth == old(self).function_depth,
            old(self).current <= final(self).current,
            final(self).errors == old(self).errors,
            r matches Ok(ps) ==> params_prefix_rel(
                old(self).tokens@,
                old(self).current as nat,
                ps@,
                final(self).current as nat,
            ),
        decreases rem(*old(self)), 12int,
    {
        let ghost t0 = self.tokens@;
        let ghost p0 = self.current as nat;
        let mut params: Vec<String> = Vec::new();
        if !self.check(&Token::RightParen) {
            let first = match self.consume_identifier("Expect parameter name") {
                Ok(p) => p,
                Err(e) => {
                    return Err(e);
                },
            };
            params.push(first);
            proof {
                assert(params@.len() == 1);
                assert(params@[0] == first);
                assert(params_prefix_rel(t0, p0, params@, self.current as nat));
            }
            while self.check(&Token::Comma)
                invariant
                    parser_wf(*self),
                    self.tokens@ == old(self).tokens@,
                    self.function_depth == old(self).function_depth,
                    self.errors == old(self).errors,
                    old(self).current <= self.current,
                    params_prefix_rel(t0, p0, params@, self.current as nat),
                decreases rem(*self),
            {
                let ghost u = self.current as nat;
                let ghost ps0 = params@;
                self.advance();
                if params.len() >= 255 {
                    return Err(self.error_at("Can't have more than 255 parameters"));
                }
                let nxt = match self.consume_identifier("Expect parameter name") {
                    Ok(p) => p,
                    Err(e) => {
                        return Err(e);
                    },
                };
                params.push(nxt);
                proof {
                    assert(params@.drop_last() =~= ps0);
                    assert(params@.last() == nxt);
                    lemma_token_kind(t0[u as int]);
                    assert(tok_at(t0, u, Token::Comma));
                    assert(tok_at(t0, u + 1, Token::Identifier(nxt)));
                    assert(params_prefix_rel(t0, p0, params@, self.current as nat));
                }
            }
        }
        Ok(params)
    }

    /// Bumps the function-nesting depth on entry to a function body.
    fn enter_function(&mut self)
        ensures
            final(self).tokens@ == old(self).tokens@,
            final(self).current == old(self).current,
            final(self).errors == old(self).errors,
    {
        if self.function_depth < usize::MAX {
            self.function_depth = self.function_depth + 1;
        }
    }

    /// Restores the function-nesting depth on exit from a function body.
    fn exit_function(&mut self)
        ensures
            final(self).tokens@ == old(self).tokens@,
            final(self).current == old(self).current,
            final(self).errors == old(self).errors,
    {
        if self.function_depth > 0 {
            self.function_depth = self.function_depth - 1;
        }
    }

    /// Parses `var NAME ( = expression )? ;`.
    fn var_declaration(&mut self) -> (r: Result<Stmt, String>)
        requires
            parser_wf(*old(self)),
            kind(peek_tok(*old(self))) == 36,
        ensures
            parser_wf(*final(self)),
            final(self).tokens@ == old(self).tokens@,
            old(self).current <= final(self).current,
            r is Ok ==> final(self).current > old(self).current,
            r matches Ok(st) ==> st matches Stmt::Var { .. },
            final(self).errors == old(self).errors,
            r matches Ok(st) ==> decl_rel(
                old(self).tokens@,
                old(self).current as nat,
                st,
                final(self).current as nat,
            ),
        decreases rem(*old(self)), 13int,
    {
        let ghost t0 = self.tokens@;
        let ghost i0 = self.current as nat;
        proof {
            lemma_token_kind(peek_tok(*self));
        }
        self.advance();  // var
        let name = match self.consume_identifier("Expect variable name.") {
            Ok(n) => n,
            Err(e) => {
                return Err(e);
            },
        };
        let initializer: Option<Expr> = if self.check(&Token::Equal) {
            proof {
                lemma_token_kind(peek_tok(*self));
            }
            self.advance();
            match self.expression() {
                Ok(e) => Some(e),
                Err(e) => {
                    return Err(e);
                },
            }
        } else {
            None
        };
        let ghost gin = initializer;
        let ghost ksemi = self.current as nat;
        match self.consume(&Token::Semicolon, "Expect ';' after value.") {
            Ok(_) => {},
            Err(e) => {
                return Err(e);
            },
        }
        let res = Stmt::Var { name, initializer };
        proof {
            lemma_token_kind(t0[ksemi as int]);
            assert(tok_at(t0, ksemi, Token::Semicolon));
            match gin {
                Some(ge) => {
                    assert(expr_rel(t0, i0 + 3, ge, ksemi));
                },
                None => {},
            }
            assert(decl_rel(t0, i0, res, self.current as nat));
        }
        Ok(res)
    }

    /// Parses one statement.
    fn statement(&mut self) -> (r: Result<Stmt, String>)
        requires
            parser_wf(*old(self)),
        ensures
            parser_wf(*final(self)),
            final(self).tokens@ == old(self).tokens@,
            old(self).current <= final(self).current,
            r is Ok ==> final(self).current > old(self).current,
            final(self).errors == old(self).errors,
            r matches Ok(st) ==> stmt_rel(
                old(self).tokens@,
                old(self).current as nat,
                st,
                final(self).current as nat,
            ),
        decreases rem(*old(self)), 12int,
    {
        let ghost t0 = self.tokens@;
        let ghost i0 = self.current as nat;
        let k = self.peek_kind();
        if k == 31 {
            self.print_statement()
        } else if k == 2 {
            match self.block_statements() {
                Ok(pair) => {
                    let res = Stmt::Block(pair.0);
                    proof {
                        assert(stmt_rel(t0, i0, res, self.current as nat));
                    }
                    Ok(res)
                },
                Err(e) => Err(e),
            }
        } else if k == 28 {
            self.if_statement()
        } else if k == 37 {
            self.while_statement()
        } else if k == 27 {
            let r = self.for_statement();
            proof {
                match &r {
                    Ok(st) => {
                        assert(stmt_rel(t0, i0, *st, self.current as nat));
                    },
                    Err(_) => {},
                }
            }
            r
        } else if k == 32 {
            self.return_statement()
        } else {
            self.expr_statement()
        }
    }

    /// Parses `expression ;`.
    fn expr_statement(&mut self) -> (r: Result<Stmt, String>)
        requires
            parser_wf(*old(self)),
        ensures
            parser_wf(*final(self)),
            final(self).tokens@ == old(self).tokens@,
            old(self).current <= final(self).current,
            r is Ok ==> final(self).current > old(self).current,
            r matches Ok(st) ==> st matches Stmt::Expr(_),
            final(self).errors == old(self).errors,
            r matches Ok(st) ==> stmt_rel(
                old(self).tokens@,
                old(self).current as nat,
                st,
                final(self).current as nat,
            ),
        decreases rem(*old(self)), 11int,
    {
        let ghost t0 = self.tokens@;
        let ghost i0 = self.current as nat;
        let expr = match self.expression() {
            Ok(e) => e,
            Err(e) => {
                return Err(e);
            },
        };
        let ghost ge = expr;
        let ghost ksemi = self.current as nat;
        match self.consume(&Token::Semicolon, "Expect ';' after value.") {
            Ok(_) => {},
            Err(e) => {
                return Err(e);
            },
        }
        let res = Stmt::Expr(expr);
        proof {
            lemma_token_kind(t0[ksemi as int]);
            assert(expr_rel(t0, i0, ge, ksemi));
            assert(tok_at(t0, ksemi, Token::Semicolon));
            assert(stmt_rel(t0, i0, res, self.current as nat));
        }
        Ok(res)
    }

    /// Parses `for ( init? ; cond? ; inc? ) body` and desugars it into a
    /// `While` (wrapped with its initializer in a block): the increment is
    /// appended to the body, a missing condition becomes `true`. The result
    /// always has the desugared shape — there is no `for` node for the
    /// evaluator to treat specially.
    #[verifier::rlimit(100)]
    #[verifier::spinoff_prover]
    fn for_statement(&mut self) -> (r: Result<Stmt, String>)
        requires
            parser_wf(*old(self)),
            kind(peek_tok(*old(self))) == 27,
        ensures
            parser_wf(*final(self)),
            final(self).tokens@ == old(self).tokens@,
            old(self).current <= final(self).current,
            r is Ok ==> final(self).current > old(self).current,
            final(self).errors == old(self).errors,
            r matches Ok(s) ==> is_for_desugar(s),
            r matches Ok(s) ==> for_rel(
                old(self).tokens@,
                old(self).current as nat,
                s,
                final(self).current as nat,
            ),
            r matches Ok(s) ==> (s matches Stmt::Block(v) ==> (v@.len() == 2 && (v@[0] is Var
                || v@[0] is Expr) && exists|m: nat|
                decl_rel(old(self).tokens@, (old(self).current + 2) as nat, v@[0], m)
                    && forloop_rel(
                    old(self).tokens@,
                    m,
                    v@[1],
                    final(self).current as nat,
                ))),
        decreases rem(*old(self)), 11int,
    {
        let ghost t0 = self.tokens@;
        let ghost i0 = self.current as nat;
        proof {
            lemma_token_kind(peek_tok(*self));
        }
        self.advance();  // for
        match self.consume(&Token::LeftParen, "Expect '(' after 'for'") {
            Ok(_) => {},
            Err(e) => {
                return Err(e);
            },
        }
        let initializer: Option<Stmt> = if self.check(&Token::Semicolon) {
            proof {
                lemma_token_kind(peek_tok(*self));
            }
            self.advance();
            None
        } else if self.check(&Token::Var) {
            match self.var_declaration() {
                Ok(s) => {
                    proof {
                        assert(decl_rel(t0, i0 + 2, s, self.current as nat));
                    }
                    Some(s)
                },
                Err(e) => {
                    return Err(e);
                },
            }
        } else {
            match self.expr_statement() {
                Ok(s) => {
                    proof {
                        lemma_stmt_rel_to_decl(t0, i0 + 2, s, self.current as nat);
                        assert(decl_rel(t0, i0 + 2, s, self.current as nat));
                    }
                    Some(s)
                },
                Err(e) => {
                    return Err(e);
                },
            }
        };
        let ghost m = self.current as nat;
        let condition: Option<Expr> = if !self.check(&Token::Semicolon) {
            match self.expression() {
                Ok(e) => Some(e),
                Err(e) => {
                    return Err(e);
                },
            }
        } else {
            None
        };
        let ghost gcond = condition;
        let ghost q = self.current as nat;
        match self.consume(&Token::Semicolon, "Expect ';' after value.") {
            Ok(_) => {},
            Err(e) => {
                return Err(e);
            },
        }
        proof {
            lemma_token_kind(t0[q as int]);
        }
        let increment: Option<Expr> = if !self.check(&Token::RightParen) {
            match self.expression() {
                Ok(e) => Some(e),
                Err(e) => {
                    return Err(e);
                },
            }
        } else {
            None
        };
        let ghost gincr = increment;
        let ghost u = self.current as nat;
        match self.consume(&Token::RightParen, "Expect ')' after for clauses") {
            Ok(_) => {},
            Err(e) => {
                return Err(e);
            },
        }
        proof {
            lemma_token_kind(t0[u as int]);
        }
        let mut body = match self.statement() {
            Ok(s) => s,
            Err(e) => {
                return Err(e);
            },
        };
        let ghost gbody = body;
        let ghost jend = self.current as nat;
        if let Some(inc) = increment {
            let ghost ginc = inc;
            let mut wrapped: Vec<Stmt> = Vec::new();
            wrapped.push(body);
            wrapped.push(Stmt::Expr(inc));
            proof {
                assert(wrapped@.len() == 2);
                assert(wrapped@[0] == gbody);
                assert(wrapped@[1] == Stmt::Expr(ginc));
            }
            body = Stmt::Block(wrapped);
            proof {
                assert(expr_rel(t0, q + 1, ginc, u));
                assert(tok_at(t0, u, Token::RightParen));
                assert(stmt_rel(t0, u + 1, gbody, jend));
                assert(forbody_inc_rel(t0, q + 1, body, jend));
            }
        }
        let cond = match condition {
            Some(c) => c,
            None => Expr::Literal(Literal::Bool(true)),
        };
        let lp = Stmt::While { condition: cond, body: Box::new(body) };
        let ghost glp = lp;
        proof {
            assert(tok_at(t0, q, Token::Semicolon));
            match gcond {
                Some(gc) => {
                    assert(expr_rel(t0, m, gc, q));
                },
                None => {},
            }
            match gincr {
                Some(_) => {},
                None => {
                    assert(tok_at(t0, q + 1, Token::RightParen));
                    assert(stmt_rel(t0, q + 2, gbody, jend));
                },
            }
            assert(forloop_rel(t0, m, glp, jend));
        }
        match initializer {
            Some(init) => {
                let ghost ginit2 = init;
                let mut outer: Vec<Stmt> = Vec::new();
                outer.push(init);
                outer.push(lp);
                proof {
                    assert(outer@.len() == 2);
                    assert(outer@[0] == ginit2);
                    assert(outer@[1] == glp);
                }
                let ghost gouter = outer@;
                let res = Stmt::Block(outer);
                proof {
                    assert(decl_rel(t0, i0 + 2, ginit2, m));
                    assert(forloop_rel(t0, m, glp, jend));
                    assert(exists|w: nat|
                        decl_rel(t0, i0 + 2, gouter[0], w) && forloop_rel(
                            t0,
                            w,
                            gouter[1],
                            jend,
                        )) by {
                        assert(decl_rel(t0, i0 + 2, gouter[0], m) && forloop_rel(
                            t0,
                            m,
                            gouter[1],
                            jend,
                        ));
                    }
                    assert(gouter[0] is Var || gouter[0] is Expr);
                    assert(gouter.len() == 2);
                    assert(for_init_rel(t0, i0 + 2, res, jend)) by {
                        match &res {
                            Stmt::Block(vv) => {
                                assert(vv@ =~= gouter);
                                assert(vv@.len() == 2);
                                assert(vv@[0] is Var || vv@[0] is Expr);
                                assert(vv@[1] is While);
                            },
                            _ => {},
                        }
                    }
                    match &res {
                        Stmt::Block(vv) => {
                            assert(vv@ =~= gouter);
                            assert(exists|w: nat|
                                decl_rel(t0, i0 + 2, vv@[0], w) && forloop_rel(
                                    t0,
                                    w,
                                    vv@[1],
                                    jend,
                                )) by {
                                assert(decl_rel(t0, i0 + 2, vv@[0], m) && forloop_rel(
                                    t0,
                                    m,
                                    vv@[1],
                                    jend,
                                ));
                            }
                        },
                        _ => {},
                    }
                    assert(for_rel(t0, i0, res, self.current as nat));
                }
                Ok(res)
            },
            None => {
                proof {
                    assert(tok_at(t0, i0 + 2, Token::Semicolon));
                    assert(for_rel(t0, i0, glp, self.current as nat));
                }
                Ok(lp)
            },
        }
    }

    /// Parses `if ( cond ) then ( else alt )?`.
    fn if_statement(&mut self) -> (r: Result<Stmt, String>)
        requires
            parser_wf(*old(self)),
            kind(peek_tok(*old(self))) == 28,
        ensures
            parser_wf(*final(self)),
            final(self).tokens@ == old(self).tokens@,
            old(self).current <= final(self).current,
            r is Ok ==> final(self).current > old(self).current,
            r matches Ok(st) ==> st matches Stmt::If { .. },
            final(self).errors == old(self).errors,
            r matches Ok(st) ==> stmt_rel(
                old(self).tokens@,
                old(self).current as nat,
                st,
                final(self).current as nat,
            ),
        decreases rem(*old(self)), 11int,
    {
        let ghost t0 = self.tokens@;
        let ghost i0 = self.current as nat;
        proof {
            lemma_token_kind(peek_tok(*self));
        }
        self.advance();  // if
        match self.consume(&Token::LeftParen, "Expect '(' after 'if'") {
            Ok(_) => {},
            Err(e) => {
                return Err(e);
            },
        }
        let condition = match self.expression() {
            Ok(e) => e,
            Err(e) => {
                return Err(e);
            },
        };
        let ghost krp = self.current as nat;
        match self.consume(&Token::RightParen, "Expect ')' after if condition") {
            Ok(_) => {},
            Err(e) => {
                return Err(e);
            },
        }
        let ghost gc = condition;
        let then_branch = match self.statement() {
            Ok(s) => Box::new(s),
            Err(e) => {
                return Err(e);
            },
        };
        let ghost gthen = *then_branch;
        let ghost melse = self.current as nat;
        let else_branch: Option<Box<Stmt>> = if self.check(&Token::Else) {
            proof {
                lemma_token_kind(peek_tok(*self));
            }
            self.advance();
            match self.statement() {
                Ok(s) => Some(Box::new(s)),
                Err(e) => {
                    return Err(e);
                },
            }
        } else {
            None
        };
        let ghost gelse = else_branch;
        let res = Stmt::If { condition, then_branch, else_branch };
        proof {
            lemma_token_kind(t0[krp as int]);
            assert(tok_at(t0, krp, Token::RightParen));
            assert(expr_rel(t0, i0 + 2, gc, krp));
            match gelse {
                Some(gb) => {
                    assert(stmt_rel(t0, krp + 1, gthen, melse));
                    assert(tok_at(t0, melse, Token::Else));
                    assert(stmt_rel(t0, melse + 1, *gb, self.current as nat));
                },
                None => {
                    assert(stmt_rel(t0, krp + 1, gthen, self.current as nat));
                },
            }
            assert(stmt_rel(t0, i0, res, self.current as nat));
        }
        Ok(res)
    }

    /// Parses `print expression ;`.
    fn print_statement(&mut self) -> (r: Result<Stmt, String>)
        requires
            parser_wf(*old(self)),
            kind(peek_tok(*old(self))) == 31,
        ensures
            parser_wf(*final(self)),
            final(self).tokens@ == old(self).tokens@,
            old(self).current <= final(self).current,
            r is Ok ==> final(self).current > old(self).current,
            r matches Ok(st) ==> st matches Stmt::Print(_),
            final(self).errors == old(self).errors,
            r matches Ok(st) ==> stmt_rel(
                old(self).tokens@,
                old(self).current as nat,
                st,
                final(self).current as nat,
            ),
        decreases rem(*old(self)), 11int,
    {
        let ghost t0 = self.tokens@;
        let ghost i0 = self.current as nat;
        proof {
            lemma_token_kind(peek_tok(*self));
        }
        self.advance();  // print
        let expr = match self.expression() {
            Ok(e) => e,
            Err(e) => {
                return Err(e);
            },
        };
        let ghost ge = expr;
        let ghost ksemi = self.current as nat;
        match self.consume(&Token::Semicolon, "Expect ';' after value.") {
            Ok(_) => {},
            Err(e) => {
                return Err(e);
            },
        }
        let res = Stmt::Print(expr);
        proof {
            lemma_token_kind(t0[ksemi as int]);
            assert(expr_rel(t0, i0 + 1, ge, ksemi));
            assert(tok_at(t0, ksemi, Token::Semicolon));
            assert(stmt_rel(t0, i0, res, self.current as nat));
        }
        Ok(res)
    }

    /// Parses `return expression? ;`; a `return` outside every function
    /// body is rejected.
    fn return_statement(&mut self) -> (r: Result<Stmt, String>)
        requires
            parser_wf(*old(self)),
            kind(peek_tok(*old(self))) == 32,
        ensures
            parser_wf(*final(self)),
            final(self).tokens@ == old(self).tokens@,
            old(self).current <= final(self).current,
            r is Ok ==> final(self).current > old(self).current,
            r matches Ok(st) ==> st matches Stmt::Return { .. },
            final(self).errors == old(self).errors,
            r matches Ok(st) ==> stmt_rel(
                old(self).tokens@,
                old(self).current as nat,
                st,
                final(self).current as nat,
            ),
        decreases rem(*old(self)), 11int,
    {
        let ghost t0 = self.tokens@;
        let ghost i0 = self.current as nat;
        proof {
            lemma_token_kind(peek_tok(*self));
        }
        self.advance();  // return
        if self.function_depth == 0 {
            return Err("Error: Can't return from top-level code.".to_owned());
        }
        let value: Option<Expr> = if !self.check(&Token::Semicolon) {
            match self.expression() {
                Ok(e) => Some(e),
                Err(e) => {
                    return Err(e);
                },
            }
        } else {
            None
        };
        let ghost gv = value;
        let ghost ksemi = self.current as nat;
        match self.consume(&Token::Semicolon, "Expect ';' after value.") {
            Ok(_) => {},
            Err(e) => {
                return Err(e);
            },
        }
        let res = Stmt::Return { value };
        proof {
            lemma_token_kind(t0[ksemi as int]);
            assert(tok_at(t0, ksemi, Token::Semicolon));
            match gv {
                Some(ge) => {
                    assert(expr_rel(t0, i0 + 1, ge, ksemi));
                },
                None => {},
            }
            assert(stmt_rel(t0, i0, res, self.current as nat));
        }
        Ok(res)
    }

    /// Parses `while ( cond ) body`.
    fn while_statement(&mut self) -> (r: Result<Stmt, String>)
        requires
            parser_wf(*old(self)),
            kind(peek_tok(*old(self))) == 37,
        ensures
            parser_wf(*final(self)),
            final(self).tokens@ == old(self).tokens@,
            old(self).current <= final(self).current,
            r is Ok ==> final(self).current > old(self).current,
            r matches Ok(st) ==> st matches Stmt::While { .. },
            final(self).errors == old(self).errors,
            r matches Ok(st) ==> stmt_rel(
                old(self).tokens@,
                old(self).current as nat,
                st,
                final(self).current as nat,
            ),
        decreases rem(*old(self)), 11int,
    {
        let ghost t0 = self.tokens@;
        let ghost i0 = self.current as nat;
        proof {
            lemma_token_kind(peek_tok(*self));
        }
        self.advance();  // while
        match self.consume(&Token::LeftParen, "Expect '(' after 'while'") {
            Ok(_) => {},
            Err(e) => {
                return Err(e);
            },
        }
        let condition = match self.expression() {
            Ok(e) => e,
            Err(e) => {
                return Err(e);
            },
        };
        let ghost krp = self.current as nat;
        match self.consume(&Token::RightParen, "Expect ')' after condition") {
            Ok(_) => {},
            Err(e) => {
                return Err(e);
            },
        }
        let ghost gc = condition;
        let body = match self.statement() {
            Ok(s) => Box::new(s),
            Err(e) => {
                return Err(e);
            },
        };
        let ghost gb = *body;
        let res = Stmt::While { condition, body };
        proof {
            lemma_token_kind(t0[krp as int]);
            assert(tok_at(t0, krp, Token::RightParen));
            assert(expr_rel(t0, i0 + 2, gc, krp));
            assert(stmt_rel(t0, krp + 1, gb, self.current as nat));
            assert(while_form_rel(t0, i0, res, self.current as nat));
            assert(stmt_rel(t0, i0, res, self.current as nat));
        }
        Ok(res)
    }

    /// Parses `{ declaration* }`, returning the block's statements.
    #[verifier::loop_isolation(false)]
    fn block_statements(&mut self) -> (r: Result<(Vec<Stmt>, Ghost<Seq<(nat, nat)>>), String>)
        requires
            parser_wf(*old(self)),
        ensures
            parser_wf(*final(self)),
            final(self).tokens@ == old(self).tokens@,
            old(self).current <= final(self).current,
            r is Ok ==> final(self).current > old(self).current,
            final(self).errors == old(self).errors,
            r matches Ok(v) ==> block_rel(
                old(self).tokens@,
                old(self).current as nat,
                v.0@,
                final(self).current as nat,
            ),
            r matches Ok(v) ==> decls_chain(
                old(self).tokens@,
                v.1@,
                v.0@,
                (old(self).current + 1) as nat,
                (final(self).current - 1) as nat,
            ),
        decreases rem(*old(self)), 0int,
    {
        let ghost t0 = self.tokens@;
        let ghost i0 = self.current as nat;
        match self.consume(&Token::LeftBrace, "Expect '{' before block") {
            Ok(_) => {},
            Err(e) => {
                return Err(e);
            },
        }
        proof {
            lemma_token_kind(t0[i0 as int]);
        }
        let mut statements: Vec<Stmt> = Vec::new();
        let ghost mut cuts: Seq<(nat, nat)> = Seq::empty();
        while !self.check(&Token::RightBrace) && !self.is_at_end()
            invariant
                parser_wf(*self),
                self.tokens@ == old(self).tokens@,
                old(self).current < self.current,
                self.errors == old(self).errors,
                i0 < self.current,
                cuts.len() == statements@.len(),
                forall|k: int|
                    0 <= k < statements@.len() ==> decl_rel(
                        t0,
                        cuts[k].0,
                        #[trigger] statements@[k],
                        cuts[k].1,
                    ),
                forall|k: int|
                    0 <= k < statements@.len() ==> (#[trigger] cuts[k]).0 == if k == 0 {
                        i0 + 1
                    } else {
                        cuts[k - 1].1
                    },
                if statements@.len() == 0 {
                    i0 + 1 == self.current as nat
                } else {
                    cuts[statements@.len() - 1].1 == self.current as nat
                },
            decreases rem(*self),
        {
            let ghost u = self.current as nat;
            let ghost st0 = statements@;
            let ghost cuts0 = cuts;
            match self.declaration() {
                Ok(s) => {
                    let ghost gs = s;
                    statements.push(s);
                    proof {
                        cuts = cuts.push((u, self.current as nat));
                        assert(decl_rel(t0, u, gs, self.current as nat));
                        assert forall|k: int|
                            0 <= k < statements@.len() implies decl_rel(
                            t0,
                            cuts[k].0,
                            #[trigger] statements@[k],
                            cuts[k].1,
                        ) by {
                            if k < st0.len() {
                                assert(statements@[k] == st0[k]);
                                assert(cuts[k] == cuts0[k]);
                            } else {
                                assert(statements@[k] == gs);
                                assert(cuts[k] == (u, self.current as nat));
                            }
                        }
                        assert forall|k: int|
                            0 <= k < statements@.len() implies (#[trigger] cuts[k]).0 == (if k == 0 {
                            i0 + 1
                        } else {
                            cuts[k - 1].1
                        }) by {
                            if k < st0.len() {
                                assert(cuts[k] == cuts0[k]);
                                if k > 0 {
                                    assert(cuts[k - 1] == cuts0[k - 1]);
                                }
                            } else {
                                assert(cuts[k] == (u, self.current as nat));
                                if k > 0 {
                                    assert(cuts[k - 1] == cuts0[k - 1]);
                                }
                            }
                        }
                    }
                },
                Err(e) => {
                    return Err(e);
                },
            }
        }
        let ghost q = self.current as nat;
        match self.consume(&Token::RightBrace, "Expect '}' after block.") {
            Ok(_) => {},
            Err(e) => {
                return Err(e);
            },
        }
        proof {
            lemma_token_kind(t0[q as int]);
            assert(tok_at(t0, q, Token::RightBrace));
            assert(block_rel(t0, i0, statements@, self.current as nat));
            assert(decls_chain(t0, cuts, statements@, i0 + 1, q));
        }
        Ok((statements, Ghost(cuts)))
    }

    /// Parses one expression (the assignment level).
    pub fn expression(&mut self) -> (r: Result<Expr, String>)
        requires
            parser_wf(*old(self)),
        ensures
            parser_wf(*final(self)),
            final(self).tokens@ == old(self).tokens@,
            old(self).current <= final(self).current,
            r is Ok ==> final(self).current > old(self).current,
            final(self).errors == old(self).errors,
            r matches Ok(e) ==> expr_rel(
                old(self).tokens@,
                old(self).current as nat,
                e,
                final(self).current as nat,
            ),
        decreases rem(*old(self)), 10int,
    {
        self.assignment()
    }

    /// Parses `( call . )? IDENT = assignment | logic_or`: an `=` after a
    /// variable makes an assignment, after a property access a field write;
    /// anything else on its left is an error. A successful parse never
    /// stops in front of an `=`: the whole (right-associative) assignment
    /// chain is consumed.
    fn assignment(&mut self) -> (r: Result<Expr, String>)
        requires
            parser_wf(*old(self)),
        ensures
            parser_wf(*final(self)),
            final(self).tokens@ == old(self).tokens@,
            old(self).current <= final(self).current,
            r is Ok ==> final(self).current > old(self).current,
            final(self).errors == old(self).errors,
            r matches Ok(e) ==> assign_rel(
                old(self).tokens@,
                old(self).current as nat,
                e,
                final(self).current as nat,
            ),
            r is Ok ==> kind(peek_tok(*final(self))) != 13,
        decreases rem(*old(self)), 9int,
    {
        let ghost t0 = self.tokens@;
        let ghost i0 = self.current as nat;
        let expr = match self.logic_or() {
            Ok(e) => e,
            Err(e) => {
                return Err(e);
            },
        };
        let ghost e0 = expr;
        if self.check(&Token::Equal) {
            let ghost keq = self.current as nat;
            self.advance();
            let value = match self.assignment() {
                Ok(v) => v,
                Err(e) => {
                    return Err(e);
                },
            };
            match expr {
                Expr::Variable(name) => {
                    proof {
                        lemma_or_rel_variable(t0, i0, name, keq);
                    }
                    let res = Expr::Assign { name, value: Box::new(value) };
                    proof {
                        assert(assign_rel(t0, i0, res, self.current as nat));
                    }
                    Ok(res)
                },
                Expr::Get { object, name } => {
                    proof {
                        lemma_or_rel_get(t0, i0, e0, keq);
                    }
                    let res = Expr::SetField { object, name, value: Box::new(value) };
                    proof {
                        assert(assign_rel(t0, i0, res, self.current as nat));
                    }
                    Ok(res)
                },
                _ => Err(self.error_at("Invalid assignment target")),
            }
        } else {
            proof {
                lemma_or_rel_to_assign(t0, i0, expr, self.current as nat);
            }
            Ok(expr)
        }
    }

    /// Parses `logic_and ( "or" logic_and )*`.
    #[verifier::loop_isolation(false)]
    fn logic_or(&mut self) -> (r: Result<Expr, String>)
        requires
            parser_wf(*old(self)),
        ensures
            parser_wf(*final(self)),
            final(self).tokens@ == old(self).tokens@,
            old(self).current <= final(self).current,
            r is Ok ==> final(self).current > old(self).current,
            final(self).errors == old(self).errors,
            r matches Ok(e) ==> logic_or_rel(
                old(self).tokens@,
                old(self).current as nat,
                e,
                final(self).current as nat,
            ),
        decreases rem(*old(self)), 8int,
    {
        let ghost t0 = self.tokens@;
        let ghost i0 = self.current as nat;
        let mut expr = match self.logic_and() {
            Ok(e) => e,
            Err(e) => {
                return Err(e);
            },
        };
        while self.check(&Token::Or)
            invariant
                parser_wf(*self),
                self.tokens@ == old(self).tokens@,
                old(self).current < self.current,
                self.errors == old(self).errors,
                logic_or_rel(t0, i0, expr, self.current as nat),
            decreases rem(*self),
        {
            let ghost opk = self.current as nat;
            self.advance();
            let right = match self.logic_and() {
                Ok(e) => e,
                Err(e) => {
                    return Err(e);
                },
            };
            expr = Expr::Logical {
                op: LogicalOp::Or,
                left: Box::new(expr),
                right: Box::new(right),
            };
            proof {
                assert(tok_at(t0, opk, Token::Or));
                assert(logic_or_rel(t0, i0, expr, self.current as nat));
            }
        }
        Ok(expr)
    }

    /// Parses `equality ( "and" equality )*`.
    #[verifier::loop_isolation(false)]
    fn logic_and(&mut self) -> (r: Result<Expr, String>)
        requires
            parser_wf(*old(self)),
        ensures
            parser_wf(*final(self)),
            final(self).tokens@ == old(self).tokens@,
            old(self).current <= final(self).current,
            r is Ok ==> final(self).current > old(self).current,
            final(self).errors == old(self).errors,
            r matches Ok(e) ==> logic_and_rel(
                old(self).tokens@,
                old(self).current as nat,
                e,
                final(self).current as nat,
            ),
        decreases rem(*old(self)), 7int,
    {
        let ghost t0 = self.tokens@;
        let ghost i0 = self.current as nat;
        let mut expr = match self.equality() {
            Ok(e) => e,
            Err(e) => {
                return Err(e);
            },
        };
        while self.check(&Token::And)
            invariant
                parser_wf(*self),
                self.tokens@ == old(self).tokens@,
                old(self).current < self.current,
                self.errors == old(self).errors,
                logic_and_rel(t0, i0, expr, self.current as nat),
            decreases rem(*self),
        {
            let ghost opk = self.current as nat;
            self.advance();
            let right = match self.equality() {
                Ok(e) => e,
                Err(e) => {
                    return Err(e);
                },
            };
            expr = Expr::Logical {
                op: LogicalOp::And,
                left: Box::new(expr),
                right: Box::new(right),
            };
            proof {
                assert(tok_at(t0, opk, Token::And));
                assert(logic_and_rel(t0, i0, expr, self.current as nat));
            }
        }
        Ok(expr)
    }

    /// Parses `comparison ( ( "!=" | "==" ) comparison )*`.
    #[verifier::loop_isolation(false)]
    fn equality(&mut self) -> (r: Result<Expr, String>)
        requires
            parser_wf(*old(self)),
        ensures
            parser_wf(*final(self)),
            final(self).tokens@ == old(self).tokens@,
            old(self).current <= final(self).current,
            r is Ok ==> final(self).current > old(self).current,
            final(self).errors == old(self).errors,
            r matches Ok(e) ==> equality_rel(
                old(self).tokens@,
                old(self).current as nat,
                e,
                final(self).current as nat,
            ),
        decreases rem(*old(self)), 6int,
    {
        let ghost t0 = self.tokens@;
        let ghost i0 = self.current as nat;
        let mut expr = match self.comparison() {
            Ok(e) => e,
            Err(e) => {
                return Err(e);
            },
        };
        loop
            invariant
                parser_wf(*self),
                self.tokens@ == old(self).tokens@,
                old(self).current < self.current,
                self.errors == old(self).errors,
                equality_rel(t0, i0, expr, self.current as nat),
            decreases rem(*self),
        {
            let k = self.peek_kind();
            let op = if k == 12 {
                BinaryOp::BangEqual
            } else if k == 14 {
                BinaryOp::EqualEqual
            } else {
                break;
            };
            let ghost opk = self.current as nat;
            self.advance();
            let right = match self.comparison() {
                Ok(e) => e,
                Err(e) => {
                    return Err(e);
                },
            };
            expr = Expr::Binary { op, left: Box::new(expr), right: Box::new(right) };
            proof {
                assert(tok_at(t0, opk, binop_token(op)));
                assert(equality_rel(t0, i0, expr, self.current as nat));
            }
        }
        Ok(expr)
    }

    /// Parses `term ( ( ">" | ">=" | "<" | "<=" ) term )*`.
    #[verifier::loop_isolation(false)]
    fn comparison(&mut self) -> (r: Result<Expr, String>)
        requires
            parser_wf(*old(self)),
        ensures
            parser_wf(*final(self)),
            final(self).tokens@ == old(self).tokens@,
            old(self).current <= final(self).current,
            r is Ok ==> final(self).current > old(self).current,
            final(self).errors == old(self).errors,
            r matches Ok(e) ==> comparison_rel(
                old(self).tokens@,
                old(self).current as nat,
                e,
                final(self).current as nat,
            ),
        decreases rem(*old(self)), 5int,
    {
        let ghost t0 = self.tokens@;
        let ghost i0 = self.current as nat;
        let mut expr = match self.term() {
            Ok(e) => e,
            Err(e) => {
                return Err(e);
            },
        };
        loop
            invariant
                parser_wf(*self),
                self.tokens@ == old(self).tokens@,
                old(self).current < self.current,
                self.errors == old(self).errors,
                comparison_rel(t0, i0, expr, self.current as nat),
            decreases rem(*self),
        {
            let k = self.peek_kind();
            let op = if k == 15 {
                BinaryOp::Greater
            } else if k == 16 {
                BinaryOp::GreaterEqual
            } else if k == 17 {
                BinaryOp::Less
            } else if k == 18 {
                BinaryOp::LessEqual
            } else {
                break;
            };
            let ghost opk = self.current as nat;
            self.advance();
            let right = match self.term() {
                Ok(e) => e,
                Err(e) => {
                    return Err(e);
                },
            };
            expr = Expr::Binary { op, left: Box::new(expr), right: Box::new(right) };
            proof {
                assert(tok_at(t0, opk, binop_token(op)));
                assert(comparison_rel(t0, i0, expr, self.current as nat));
            }
        }
        Ok(expr)
    }

    /// Parses `factor ( ( "+" | "-" ) factor )*`.
    #[verifier::loop_isolation(false)]
    fn term(&mut self) -> (r: Result<Expr, String>)
        requires
            parser_wf(*old(self)),
        ensures
            parser_wf(*final(self)),
            final(self).tokens@ == old(self).tokens@,
            old(self).current <= final(self).current,
            r is Ok ==> final(self).current > old(self).current,
            final(self).errors == old(self).errors,
            r matches Ok(e) ==> term_rel(
                old(self).tokens@,
                old(self).current as nat,
                e,
                final(self).current as nat,
            ),
        decreases rem(*old(self)), 4int,
    {
        let ghost t0 = self.tokens@;
        let ghost i0 = self.current as nat;
        let mut expr = match self.factor() {
            Ok(e) => e,
            Err(e) => {
                return Err(e);
            },
        };
        loop
            invariant
                parser_wf(*self),
                self.tokens@ == old(self).tokens@,
                old(self).current < self.current,
                self.errors == old(self).errors,
                term_rel(t0, i0, expr, self.current as nat),
            decreases rem(*self),
        {
            let k = self.peek_kind();
            let op = if k == 7 {
                BinaryOp::Add
            } else if k == 6 {
                BinaryOp::Sub
            } else {
                break;
            };
            let ghost opk = self.current as nat;
            self.advance();
            let right = match self.factor() {
                Ok(e) => e,
                Err(e) => {
                    return Err(e);
                },
            };
            expr = Expr::Binary { op, left: Box::new(expr), right: Box::new(right) };
            proof {
                assert(tok_at(t0, opk, binop_token(op)));
                assert(term_rel(t0, i0, expr, self.current as nat));
            }
        }
        Ok(expr)
    }

    /// Parses `unary ( ( "/" | "*" ) unary )*`.
    #[verifier::loop_isolation(false)]
    fn factor(&mut self) -> (r: Result<Expr, String>)
        requires
            parser_wf(*old(self)),
        ensures
            parser_wf(*final(self)),
            final(self).tokens@ == old(self).tokens@,
            old(self).current <= final(self).current,
            r is Ok ==> final(self).current > old(self).current,
            final(self).errors == old(self).errors,
            r matches Ok(e) ==> factor_rel(
                old(self).tokens@,
                old(self).current as nat,
                e,
                final(self).current as nat,
            ),
        decreases rem(*old(self)), 3int,
    {
        let ghost t0 = self.tokens@;
        let ghost i0 = self.current as nat;
        let mut expr = match self.unary() {
            Ok(e) => e,
            Err(e) => {
                return Err(e);
            },
        };
        loop
            invariant
                parser_wf(*self),
                self.tokens@ == old(self).tokens@,
                old(self).current < self.current,
                self.errors == old(self).errors,
                factor_rel(t0, i0, expr, self.current as nat),
            decreases rem(*self),
        {
            let k = self.peek_kind();
            let op = if k == 9 {
                BinaryOp::Div
            } else if k == 10 {
                BinaryOp::Mul
            } else {
                break;
            };
            let ghost opk = self.current as nat;
            self.advance();
            let right = match self.unary() {
                Ok(e) => e,
                Err(e) => {
                    return Err(e);
                },
            };
            expr = Expr::Binary { op, left: Box::new(expr), right: Box::new(right) };
            proof {
                assert(tok_at(t0, opk, binop_token(op)));
                assert(factor_rel(t0, i0, expr, self.current as nat));
            }
        }
        Ok(expr)
    }

    /// Parses `( "!" | "-" ) unary | call`.
    fn unary(&mut self) -> (r: Result<Expr, String>)
        requires
            parser_wf(*old(self)),
        ensures
            parser_wf(*final(self)),
            final(self).tokens@ == old(self).tokens@,
            old(self).current <= final(self).current,
            r is Ok ==> final(self).current > old(self).current,
            final(self).errors == old(self).errors,
            r matches Ok(e) ==> unary_rel(
                old(self).tokens@,
                old(self).current as nat,
                e,
                final(self).current as nat,
            ),
        decreases rem(*old(self)), 2int,
    {
        let ghost t0 = self.tokens@;
        let ghost i0 = self.current as nat;
        let k = self.peek_kind();
        if k == 11 || k == 6 {
            let op = if k == 11 {
                UnaryOp::Not
            } else {
                UnaryOp::Neg
            };
            self.advance();
            let right = match self.unary() {
                Ok(e) => e,
                Err(e) => {
                    return Err(e);
                },
            };
            let res = Expr::Unary { op, right: Box::new(right) };
            proof {
                assert(tok_at(t0, i0, unop_token(op)));
                assert(unary_rel(t0, i0, res, self.current as nat));
            }
            Ok(res)
        } else {
            self.call()
        }
    }

    /// Parses `primary ( "(" arguments? ")" | "." IDENT )*`.
    #[verifier::loop_isolation(false)]
    fn call(&mut self) -> (r: Result<Expr, String>)
        requires
            parser_wf(*old(self)),
        ensures
            parser_wf(*final(self)),
            final(self).tokens@ == old(self).tokens@,
            old(self).current <= final(self).current,
            r is Ok ==> final(self).current > old(self).current,
            final(self).errors == old(self).errors,
            r matches Ok(e) ==> call_rel(
                old(self).tokens@,
                old(self).current as nat,
                e,
                final(self).current as nat,
            ),
        decreases rem(*old(self)), 1int,
    {
        let ghost t0 = self.tokens@;
        let ghost i0 = self.current as nat;
        let mut expr = match self.primary() {
            Ok(e) => e,
            Err(e) => {
                return Err(e);
            },
        };
        loop
            invariant
                parser_wf(*self),
                self.tokens@ == old(self).tokens@,
                old(self).current < self.current,
                self.errors == old(self).errors,
                call_rel(t0, i0, expr, self.current as nat),
            decreases rem(*self),
        {
            let ghost kk = self.current as nat;
            if self.check(&Token::LeftParen) {
                expr = match self.finish_call(expr) {
                    Ok(e) => e,
                    Err(e) => {
                        return Err(e);
                    },
                };
                proof {
                    assert(tok_at(t0, kk, Token::LeftParen));
                    assert(call_rel(t0, i0, expr, self.current as nat));
                }
            } else if self.check(&Token::Dot) {
                self.advance();
                let name = match self.consume_identifier("Expect property name after '.'") {
                    Ok(n) => n,
                    Err(e) => {
                        return Err(e);
                    },
                };
                expr = Expr::Get { object: Box::new(expr), name };
                proof {
                    assert(tok_at(t0, kk, Token::Dot));
                    assert(tok_at(t0, kk + 1, Token::Identifier(name)));
                    assert(call_rel(t0, i0, expr, self.current as nat));
                }
            } else {
                break;
            }
        }
        Ok(expr)
    }

    /// Parses the argument list and closing parenthesis of a call, the
    /// opening parenthesis being the current token.
    #[verifier::loop_isolation(false)]
    fn finish_call(&mut self, callee: Expr) -> (r: Result<Expr, String>)
        requires
            parser_wf(*old(self)),
            kind(peek_tok(*old(self))) == 0,
        ensures
            parser_wf(*final(self)),
            final(self).tokens@ == old(self).tokens@,
            old(self).current <= final(self).current,
            r is Ok ==> final(self).current > old(self).current,
            final(self).errors == old(self).errors,
            r matches Ok(e2) ==> (e2 matches Expr::Call { callee: c2, arguments } && *c2 == callee
                && tok_at(old(self).tokens@, old(self).current as nat, Token::LeftParen)
                && args_rel(
                old(self).tokens@,
                (old(self).current + 1) as nat,
                arguments@,
                final(self).current as nat,
            )),
        decreases rem(*old(self)), 0int,
    {
        let ghost t0 = self.tokens@;
        let ghost p0 = (self.current + 1) as nat;
        proof {
            lemma_token_kind(peek_tok(*self));
            assert(tok_at(t0, self.current as nat, Token::LeftParen));
        }
        self.advance();  // (
        let mut arguments: Vec<Expr> = Vec::new();
        if !self.check(&Token::RightParen) {
            let first = match self.expression() {
                Ok(e) => e,
                Err(e) => {
                    return Err(e);
                },
            };
            arguments.push(first);
            proof {
                assert(arguments@.len() == 1);
                assert(arguments@[0] == first);
                assert(args_prefix_rel(t0, p0, arguments@, self.current as nat));
            }
            while self.check(&Token::Comma)
                invariant
                    parser_wf(*self),
                    self.tokens@ == old(self).tokens@,
                    old(self).current < self.current,
                    self.errors == old(self).errors,
                    arguments@.len() >= 1,
                    args_prefix_rel(t0, p0, arguments@, self.current as nat),
                decreases rem(*self),
            {
                let ghost u = self.current as nat;
                let ghost args0 = arguments@;
                self.advance();
                if arguments.len() >= 255 {
                    return Err(self.error_at("Can't have more than 255 arguments"));
                }
                let nxt = match self.expression() {
                    Ok(e) => e,
                    Err(e) => {
                        return Err(e);
                    },
                };
                arguments.push(nxt);
                proof {
                    assert(arguments@.drop_last() =~= args0);
                    assert(arguments@.last() == nxt);
                    lemma_token_kind(t0[u as int]);
                    assert(tok_at(t0, u, Token::Comma));
                    assert(args_prefix_rel(t0, p0, arguments@.drop_last(), u));
                    assert(expr_rel(t0, u + 1, arguments@.last(), self.current as nat));
                    assert(args_prefix_rel(t0, p0, arguments@, self.current as nat));
                }
            }
        }
        let ghost q = self.current as nat;
        match self.consume(&Token::RightParen, "Expect ')' after arguments") {
            Ok(_) => {},
            Err(e) => {
                return Err(e);
            },
        }
        proof {
            lemma_token_kind(t0[q as int]);
            assert(tok_at(t0, q, Token::RightParen));
            assert(args_rel(t0, p0, arguments@, self.current as nat));
        }
        let res = Expr::Call { callee: Box::new(callee), arguments };
        Ok(res)
    }

    /// Parses a primary expression: a literal, `this`, `super.NAME`, a
    /// variable, or a parenthesized expression. On the single-token
    /// primaries the result is pinned exactly.
    fn primary(&mut self) -> (r: Result<Expr, String>)
        requires
            parser_wf(*old(self)),
        ensures
            parser_wf(*final(self)),
            final(self).tokens@ == old(self).tokens@,
            old(self).current <= final(self).current,
            r is Ok ==> final(self).current > old(self).current,
            peek_tok(*old(self)) matches Token::Number(n) ==> (r matches Ok(e) && e
                == Expr::Literal(Literal::Number(n)) && final(self).current == old(self).current
                + 1),
            peek_tok(*old(self)) matches Token::Str(v) ==> (r matches Ok(e) && e == Expr::Literal(
                Literal::Str(v),
            ) && final(self).current == old(self).current + 1),
            peek_tok(*old(self)) matches Token::Identifier(name) ==> (r matches Ok(e) && e
                == Expr::Variable(name) && final(self).current == old(self).current + 1),
            peek_tok(*old(self)) == Token::True ==> (r matches Ok(e) && e == Expr::Literal(
                Literal::Bool(true),
            ) && final(self).current == old(self).current + 1),
            peek_tok(*old(self)) == Token::False ==> (r matches Ok(e) && e == Expr::Literal(
                Literal::Bool(false),
            ) && final(self).current == old(self).current + 1),
            peek_tok(*old(self)) == Token::Nil ==> (r matches Ok(e) && e == Expr::Literal(
                Literal::Nil,
            ) && final(self).current == old(self).current + 1),
            peek_tok(*old(self)) == Token::This ==> (r matches Ok(e) && e == Expr::This
                && final(self).current == old(self).current + 1),
            final(self).errors == old(self).errors,
            r matches Ok(e) ==> primary_rel(
                old(self).tokens@,
                old(self).current as nat,
                e,
                final(self).current as nat,
            ),
            !primary_start(kind(peek_tok(*old(self)))) ==> (r is Err && final(self).current == old(
                self,
            ).current),
        decreases rem(*old(self)), 0int,
    {
        let ghost t0 = self.tokens@;
        let ghost i0 = self.current as nat;
        if self.current >= self.tokens.len() {
            return Err(self.error_at("Expect expression"));
        }
        let t = &self.tokens[self.current];
        match t {
            Token::True => {
                self.advance();
                Ok(Expr::Literal(Literal::Bool(true)))
            },
            Token::False => {
                self.advance();
                Ok(Expr::Literal(Literal::Bool(false)))
            },
            Token::Nil => {
                self.advance();
                Ok(Expr::Literal(Literal::Nil))
            },
            Token::Number(n) => {
                let value = *n;
                self.advance();
                Ok(Expr::Literal(Literal::Number(value)))
            },
            Token::Str(s) => {
                let value = s.clone();
                self.advance();
                Ok(Expr::Literal(Literal::Str(value)))
            },
            Token::LeftParen => {
                self.advance();
                let expr = match self.expression() {
                    Ok(e) => e,
                    Err(e) => {
                        return Err(e);
                    },
                };
                let ghost kk = self.current as nat;
                match self.consume(&Token::RightParen, "Expect ')' after expression") {
                    Ok(_) => {},
                    Err(e) => {
                        return Err(e);
                    },
                }
                let res = Expr::Grouping(Box::new(expr));
                proof {
                    lemma_token_kind(t0[kk as int]);
                    assert(tok_at(t0, kk, Token::RightParen));
                    assert(expr_rel(t0, i0 + 1, expr, kk));
                    assert(primary_rel(t0, i0, res, self.current as nat));
                }
                Ok(res)
            },
            Token::This => {
                self.advance();
                Ok(Expr::This)
            },
            Token::Super => {
                self.advance();
                match self.consume(&Token::Dot, "Expect '.' after 'super'") {
                    Ok(_) => {},
                    Err(e) => {
                        return Err(e);
                    },
                }
                let method = match self.consume_identifier("Expect superclass method name") {
                    Ok(n) => n,
                    Err(e) => {
                        return Err(e);
                    },
                };
                let res = Expr::Super { method };
                proof {
                    lemma_token_kind(t0[i0 as int + 1]);
                    assert(tok_at(t0, i0 + 1, Token::Dot));
                    assert(tok_at(t0, i0 + 2, Token::Identifier(res->method)));
                    assert(primary_rel(t0, i0, res, self.current as nat));
                }
                Ok(res)
            },
            Token::Identifier(name) => {
                let n = name.clone();
                self.advance();
                Ok(Expr::Variable(n))
            },
            _ => Err(self.error_at("Expect expression")),
        }
    }
}


/// The token a binary operator is written as.
pub open spec fn binop_token(op: BinaryOp) -> Token {
    match op {
        BinaryOp::Add => Token::Plus,
        BinaryOp::Sub => Token::Minus,
        BinaryOp::Mul => Token::Star,
        BinaryOp::Div => Token::Slash,
        BinaryOp::Greater => Token::Greater,
        BinaryOp::GreaterEqual => Token::GreaterEqual,
        BinaryOp::Less => Token::Less,
        BinaryOp::LessEqual => Token::LessEqual,
        BinaryOp::EqualEqual => Token::EqualEqual,
        BinaryOp::BangEqual => Token::BangEqual,
    }
}

/// The token a logical operator is written as.
pub open spec fn logop_token(op: LogicalOp) -> Token {
    match op {
        LogicalOp::And => Token::And,
        LogicalOp::Or => Token::Or,
    }
}

/// The token a unary operator is written as.
pub open spec fn unop_token(op: UnaryOp) -> Token {
    match op {
        UnaryOp::Not => Token::Bang,
        UnaryOp::Neg => Token::Minus,
    }
}

/// The token at position `k` is exactly `tok`.
pub open spec fn tok_at(t: Seq<Token>, k: nat, tok: Token) -> bool {
    k < t.len() && t[k as int] == tok
}

// What follows is the grammar, written as relations: `X_rel(t, i, node, j)`
// says that the tokens `t[i..j)` spell `node` at grammar level X, with
// sub-nodes spelling the corresponding sub-ranges. Each parsing function
// ensures its result relates to exactly the tokens it consumed, so a
// returned tree cannot be invented: it is tied, node by node, to the
// input. The relations recurse over the produced tree, which makes them
// well-founded regardless of token positions.

/// A primary expression: a literal, a variable, `this`, `super.NAME`, or a
/// parenthesized expression.
pub open spec fn primary_rel(t: Seq<Token>, i: nat, e: Expr, j: nat) -> bool
    decreases e, 0nat,
{
    match e {
        Expr::Literal(l) => j == i + 1 && (match l {
            Literal::Number(n) => tok_at(t, i, Token::Number(n)),
            Literal::Str(s) => tok_at(t, i, Token::Str(s)),
            Literal::Bool(b) => if b {
                tok_at(t, i, Token::True)
            } else {
                tok_at(t, i, Token::False)
            },
            Literal::Nil => tok_at(t, i, Token::Nil),
        }),
        Expr::Variable(x) => tok_at(t, i, Token::Identifier(x)) && j == i + 1,
        Expr::This => tok_at(t, i, Token::This) && j == i + 1,
        Expr::Super { method } => tok_at(t, i, Token::Super) && tok_at(t, i + 1, Token::Dot)
            && tok_at(t, i + 2, Token::Identifier(method)) && j == i + 3,
        Expr::Grouping(inner) => tok_at(t, i, Token::LeftParen) && (exists|k: nat|
            expr_rel(t, i + 1, *inner, k) && tok_at(t, k, Token::RightParen) && j == k + 1),
        _ => false,
    }
}

/// A call-level expression: a primary followed by call and property
/// suffixes.
pub open spec fn call_rel(t: Seq<Token>, i: nat, e: Expr, j: nat) -> bool
    decreases e, 1nat,
{
    ||| primary_rel(t, i, e, j)
    ||| (match e {
        Expr::Call { callee, arguments } => exists|k: nat|
            call_rel(t, i, *callee, k) && tok_at(t, k, Token::LeftParen) && args_rel(
                t,
                k + 1,
                arguments@,
                j,
            ),
        Expr::Get { object, name } => exists|k: nat|
            call_rel(t, i, *object, k) && tok_at(t, k, Token::Dot) && tok_at(
                t,
                k + 1,
                Token::Identifier(name),
            ) && j == k + 2,
        _ => false,
    })
}

/// A comma-separated argument list followed by its closing parenthesis.
pub open spec fn args_rel(t: Seq<Token>, p: nat, es: Seq<Expr>, j: nat) -> bool
    decreases es, 2nat,
{
    exists|q: nat| args_prefix_rel(t, p, es, q) && tok_at(t, q, Token::RightParen) && j == q + 1
}

/// A comma-separated argument list, without its closing parenthesis.
pub open spec fn args_prefix_rel(t: Seq<Token>, p: nat, es: Seq<Expr>, q: nat) -> bool
    decreases es, 1nat,
{
    if es.len() == 0 {
        q == p
    } else if es.len() == 1 {
        expr_rel(t, p, es[0], q)
    } else {
        exists|u: nat|
            args_prefix_rel(t, p, es.drop_last(), u) && tok_at(t, u, Token::Comma) && expr_rel(
                t,
                u + 1,
                es.last(),
                q,
            )
    }
}

/// A unary-level expression.
pub open spec fn unary_rel(t: Seq<Token>, i: nat, e: Expr, j: nat) -> bool
    decreases e, 2nat,
{
    ||| call_rel(t, i, e, j)
    ||| (match e {
        Expr::Unary { op, right } => tok_at(t, i, unop_token(op)) && unary_rel(
            t,
            i + 1,
            *right,
            j,
        ),
        _ => false,
    })
}

/// A factor-level expression: `unary ( ( "/" | "*" ) unary )*`,
/// left-associated.
pub open spec fn factor_rel(t: Seq<Token>, i: nat, e: Expr, j: nat) -> bool
    decreases e, 3nat,
{
    ||| unary_rel(t, i, e, j)
    ||| (match e {
        Expr::Binary { op, left, right } => (op == BinaryOp::Mul || op == BinaryOp::Div)
            && exists|k: nat|
            factor_rel(t, i, *left, k) && tok_at(t, k, binop_token(op)) && unary_rel(
                t,
                k + 1,
                *right,
                j,
            ),
        _ => false,
    })
}

/// A term-level expression: `factor ( ( "+" | "-" ) factor )*`.
pub open spec fn term_rel(t: Seq<Token>, i: nat, e: Expr, j: nat) -> bool
    decreases e, 4nat,
{
    ||| factor_rel(t, i, e, j)
    ||| (match e {
        Expr::Binary { op, left, right } => (op == BinaryOp::Add || op == BinaryOp::Sub)
            && exists|k: nat|
            term_rel(t, i, *left, k) && tok_at(t, k, binop_token(op)) && factor_rel(
                t,
                k + 1,
                *right,
                j,
            ),
        _ => false,
    })
}

/// A comparison-level expression.
pub open spec fn comparison_rel(t: Seq<Token>, i: nat, e: Expr, j: nat) -> bool
    decreases e, 5nat,
{
    ||| term_rel(t, i, e, j)
    ||| (match e {
        Expr::Binary { op, left, right } => (op == BinaryOp::Greater || op
            == BinaryOp::GreaterEqual || op == BinaryOp::Less || op == BinaryOp::LessEqual)
            && exists|k: nat|
            comparison_rel(t, i, *left, k) && tok_at(t, k, binop_token(op)) && term_rel(
                t,
                k + 1,
                *right,
                j,
            ),
        _ => false,
    })
}

/// An equality-level expression.
pub open spec fn equality_rel(t: Seq<Token>, i: nat, e: Expr, j: nat) -> bool
    decreases e, 6nat,
{
    ||| comparison_rel(t, i, e, j)
    ||| (match e {
        Expr::Binary { op, left, right } => (op == BinaryOp::EqualEqual || op
            == BinaryOp::BangEqual) && exists|k: nat|
            equality_rel(t, i, *left, k) && tok_at(t, k, binop_token(op)) && comparison_rel(
                t,
                k + 1,
                *right,
                j,
            ),
        _ => false,
    })
}

/// An and-level expression.
pub open spec fn logic_and_rel(t: Seq<Token>, i: nat, e: Expr, j: nat) -> bool
    decreases e, 7nat,
{
    ||| equality_rel(t, i, e, j)
    ||| (match e {
        Expr::Logical { op, left, right } => op == LogicalOp::And && exists|k: nat|
            logic_and_rel(t, i, *left, k) && tok_at(t, k, Token::And) && equality_rel(
                t,
                k + 1,
                *right,
                j,
            ),
        _ => false,
    })
}

/// An or-level expression.
pub open spec fn logic_or_rel(t: Seq<Token>, i: nat, e: Expr, j: nat) -> bool
    decreases e, 8nat,
{
    ||| logic_and_rel(t, i, e, j)
    ||| (match e {
        Expr::Logical { op, left, right } => op == LogicalOp::Or && exists|k: nat|
            logic_or_rel(t, i, *left, k) && tok_at(t, k, Token::Or) && logic_and_rel(
                t,
                k + 1,
                *right,
                j,
            ),
        _ => false,
    })
}

/// An assignment-level expression: an `=` after a bare variable yields an
/// assignment, after a property chain a field write; everything else is an
/// or-level expression.
pub open spec fn assign_rel(t: Seq<Token>, i: nat, e: Expr, j: nat) -> bool
    decreases e, 9nat,
{
    match e {
        Expr::Assign { name, value } => tok_at(t, i, Token::Identifier(name)) && tok_at(
            t,
            i + 1,
            Token::Equal,
        ) && assign_rel(t, i + 2, *value, j),
        Expr::SetField { object, name, value } => exists|m: nat|
            call_rel(t, i, *object, m) && tok_at(t, m, Token::Dot) && tok_at(
                t,
                m + 1,
                Token::Identifier(name),
            ) && tok_at(t, m + 2, Token::Equal) && assign_rel(t, m + 3, *value, j),
        _ => logic_or_rel(t, i, e, j),
    }
}

/// An expression (the assignment level).
pub open spec fn expr_rel(t: Seq<Token>, i: nat, e: Expr, j: nat) -> bool
    decreases e, 10nat,
{
    assign_rel(t, i, e, j)
}

/// Consecutive parameter names separated by commas, without the closing
/// parenthesis.
pub open spec fn params_prefix_rel(t: Seq<Token>, p: nat, ps: Seq<String>, q: nat) -> bool
    decreases ps.len(),
{
    if ps.len() == 0 {
        q == p
    } else if ps.len() == 1 {
        tok_at(t, p, Token::Identifier(ps[0])) && q == p + 1
    } else {
        exists|u: nat|
            params_prefix_rel(t, p, ps.drop_last(), u) && tok_at(t, u, Token::Comma) && tok_at(
                t,
                u + 1,
                Token::Identifier(ps.last()),
            ) && q == u + 2
    }
}

/// A braced block: `{ declaration* }`, spanning from its opening brace to
/// just past its closing brace.
pub open spec fn block_rel(t: Seq<Token>, p: nat, v: Seq<Stmt>, j: nat) -> bool {
    &&& tok_at(t, p, Token::LeftBrace)
    &&& j >= p + 2
    &&& tok_at(t, (j - 1) as nat, Token::RightBrace)
}

/// One method: `NAME ( params? ) body`, the body a block or a single
/// statement.
pub open spec fn method_rel(t: Seq<Token>, i: nat, s: Stmt, j: nat) -> bool
    decreases s, 12nat,
{
    s matches Stmt::Function { name, params, body } && tok_at(t, i, Token::Identifier(name))
        && tok_at(t, i + 1, Token::LeftParen) && exists|q: nat|
        params_prefix_rel(t, i + 2, params@, q) && tok_at(t, q, Token::RightParen) && (
        block_rel(t, q + 1, body@, j) || (body@.len() == 1 && stmt_rel(t, q + 1, body@[0], j)))
}

/// The `while`-statement form: `while ( cond ) body`.
pub open spec fn while_form_rel(t: Seq<Token>, i: nat, s: Stmt, j: nat) -> bool
    decreases s, 11nat,
{
    s matches Stmt::While { condition, body } && tok_at(t, i, Token::While) && tok_at(
        t,
        i + 1,
        Token::LeftParen,
    ) && exists|k: nat|
        expr_rel(t, i + 2, condition, k) && tok_at(t, k, Token::RightParen) && stmt_rel(
            t,
            k + 1,
            *body,
            j,
        )
}

/// The condition, increment and body of a `for`, from just after the first
/// `;`-terminated initializer clause: `cond? ; inc? ) body`, related to the
/// desugared loop `w`: an absent condition becomes `true`, an increment is
/// appended to the loop body inside a block.
pub open spec fn forloop_rel(t: Seq<Token>, p: nat, w: Stmt, j: nat) -> bool
    decreases w, 10nat,
{
    match w {
        Stmt::While { condition, body } => exists|q: nat|
            ((condition == Expr::Literal(Literal::Bool(true)) && q == p) || expr_rel(
                t,
                p,
                condition,
                q,
            )) && tok_at(t, q, Token::Semicolon) && ((tok_at(t, q + 1, Token::RightParen)
                && stmt_rel(t, q + 2, *body, j)) || forbody_inc_rel(t, q + 1, *body, j)),
        _ => false,
    }
}

/// A loop body carrying a `for` increment: a two-statement block whose
/// second statement is the increment expression, parsed between the second
/// `;` and the `)`, with the real body after the `)`.
pub open spec fn forbody_inc_rel(t: Seq<Token>, r: nat, b: Stmt, j: nat) -> bool
    decreases b, 9nat,
{
    match b {
        Stmt::Block(bv) => bv@.len() == 2 && (match bv@[1] {
            Stmt::Expr(inc) => exists|u: nat|
                expr_rel(t, r, inc, u) && tok_at(t, u, Token::RightParen) && stmt_rel(
                    t,
                    u + 1,
                    bv@[0],
                    j,
                ),
            _ => false,
        }),
        _ => false,
    }
}


/// The cut list ties each statement to the token range that spells it:
/// `ss[k]` is a declaration over `t[cuts[k].0 .. cuts[k].1)`, the ranges
/// are consecutive, the first starts at `from` and the last ends at `to`
/// (an empty list means `from == to`).
pub open spec fn decls_chain(
    t: Seq<Token>,
    cuts: Seq<(nat, nat)>,
    ss: Seq<Stmt>,
    from: nat,
    to: nat,
) -> bool
    decreases ss, 0nat,
{
    &&& cuts.len() == ss.len()
    &&& forall|k: int| 0 <= k < ss.len() ==> decl_rel(t, cuts[k].0, #[trigger] ss[k], cuts[k].1)
    &&& forall|k: int|
        0 <= k < ss.len() ==> (#[trigger] cuts[k]).0 == if k == 0 {
            from
        } else {
            cuts[k - 1].1
        }
    &&& if ss.len() == 0 {
        from == to
    } else {
        cuts[ss.len() - 1].1 == to
    }
}

/// The cut list ties each method to the token range that spells it, with
/// the same consecutive tiling as `decls_chain`.
pub open spec fn methods_chain(
    t: Seq<Token>,
    cuts: Seq<(nat, nat)>,
    ms: Seq<Stmt>,
    from: nat,
    to: nat,
) -> bool
    decreases ms, 0nat,
{
    &&& cuts.len() == ms.len()
    &&& forall|k: int| 0 <= k < ms.len() ==> method_rel(t, cuts[k].0, #[trigger] ms[k], cuts[k].1)
    &&& forall|k: int|
        0 <= k < ms.len() ==> (#[trigger] cuts[k]).0 == if k == 0 {
            from
        } else {
            cuts[k - 1].1
        }
    &&& if ms.len() == 0 {
        from == to
    } else {
        cuts[ms.len() - 1].1 == to
    }
}

/// The cut list ties each statement to a token range that spells it, the
/// ranges in source order but with gaps allowed (the regions skipped by
/// error recovery).
pub open spec fn decls_cover(t: Seq<Token>, cuts: Seq<(nat, nat)>, ss: Seq<Stmt>) -> bool
    decreases ss, 0nat,
{
    &&& cuts.len() == ss.len()
    &&& forall|k: int| 0 <= k < ss.len() ==> decl_rel(t, cuts[k].0, #[trigger] ss[k], cuts[k].1)
    &&& forall|k: int| 0 < k < ss.len() ==> (#[trigger] cuts[k]).0 >= cuts[k - 1].1
}

/// A `for` statement and its desugared tree: `for ( init? ; cond? ; inc? )
/// body` spells the `While` loop that `forloop_rel` describes, wrapped with
/// the initializer in a block when one is present.
pub open spec fn for_rel(t: Seq<Token>, i: nat, s: Stmt, j: nat) -> bool
    decreases s, 11nat,
{
    tok_at(t, i, Token::For) && tok_at(t, i + 1, Token::LeftParen) && (for_init_rel(t, i + 2, s, j)
        || (tok_at(t, i + 2, Token::Semicolon) && forloop_rel(t, i + 3, s, j)))
}

/// A `for` with an initializer clause: the desugared tree is a block of
/// the initializer (a variable declaration or an expression statement) and
/// the loop.
pub open spec fn for_init_rel(t: Seq<Token>, p: nat, s: Stmt, j: nat) -> bool
    decreases s, 10nat,
{
    s matches Stmt::Block(v) && v@.len() == 2 && (v@[0] is Var || v@[0] is Expr) && v@[1] is While
}

/// One statement (the non-declaration forms). A `While` or `Block` may
/// alternatively be the desugaring of a `for` statement.
pub open spec fn stmt_rel(t: Seq<Token>, i: nat, s: Stmt, j: nat) -> bool
    decreases s, 13nat,
{
    match s {
        Stmt::Print(e) => tok_at(t, i, Token::Print) && exists|k: nat|
            expr_rel(t, i + 1, e, k) && tok_at(t, k, Token::Semicolon) && j == k + 1,
        Stmt::Expr(e) => exists|k: nat|
            expr_rel(t, i, e, k) && tok_at(t, k, Token::Semicolon) && j == k + 1,
        Stmt::Return { value } => tok_at(t, i, Token::Return) && (match value {
            Some(e) => exists|k: nat|
                expr_rel(t, i + 1, e, k) && tok_at(t, k, Token::Semicolon) && j == k + 1,
            None => tok_at(t, i + 1, Token::Semicolon) && j == i + 2,
        }),
        Stmt::If { condition, then_branch, else_branch } => tok_at(t, i, Token::If) && tok_at(
            t,
            i + 1,
            Token::LeftParen,
        ) && exists|k: nat|
            expr_rel(t, i + 2, condition, k) && tok_at(t, k, Token::RightParen) && (
            match else_branch {
                Some(b) => exists|m: nat|
                    stmt_rel(t, k + 1, *then_branch, m) && tok_at(t, m, Token::Else) && stmt_rel(
                        t,
                        m + 1,
                        *b,
                        j,
                    ),
                None => stmt_rel(t, k + 1, *then_branch, j),
            }),
        Stmt::While { .. } => while_form_rel(t, i, s, j) || for_rel(t, i, s, j),
        Stmt::Block(v) => block_rel(t, i, v@, j) || for_rel(t, i, s, j),
        _ => false,
    }
}

/// One declaration: a class, function or variable declaration, or a
/// statement.
pub open spec fn decl_rel(t: Seq<Token>, i: nat, s: Stmt, j: nat) -> bool
    decreases s, 14nat,
{
    match s {
        Stmt::Class { name, superclass, methods } => tok_at(t, i, Token::Class) && tok_at(
            t,
            i + 1,
            Token::Identifier(name),
        ) && (match superclass {
            Some(sup) => tok_at(t, i + 2, Token::Less) && tok_at(
                t,
                i + 3,
                Token::Identifier(sup),
            ) && class_body_rel(t, i + 4, methods@, j),
            None => class_body_rel(t, i + 2, methods@, j),
        }),
        Stmt::Function { .. } => tok_at(t, i, Token::Fun) && method_rel(t, i + 1, s, j),
        Stmt::Var { name, initializer } => tok_at(t, i, Token::Var) && tok_at(
            t,
            i + 1,
            Token::Identifier(name),
        ) && (match initializer {
            Some(e) => tok_at(t, i + 2, Token::Equal) && exists|k: nat|
                expr_rel(t, i + 3, e, k) && tok_at(t, k, Token::Semicolon) && j == k + 1,
            None => tok_at(t, i + 2, Token::Semicolon) && j == i + 3,
        }),
        _ => stmt_rel(t, i, s, j),
    }
}

/// A braced class body: `{ method* }`.
pub open spec fn class_body_rel(t: Seq<Token>, p: nat, ms: Seq<Stmt>, j: nat) -> bool {
    &&& tok_at(t, p, Token::LeftBrace)
    &&& j >= p + 2
    &&& tok_at(t, (j - 1) as nat, Token::RightBrace)
}


/// Unfolding helper: a bare variable at or-level spans exactly its
/// identifier token.
proof fn lemma_or_rel_variable(t: Seq<Token>, i: nat, name: String, k: nat)
    requires
        logic_or_rel(t, i, Expr::Variable(name), k),
    ensures
        tok_at(t, i, Token::Identifier(name)),
        k == i + 1,
{
    let e = Expr::Variable(name);
    assert(logic_and_rel(t, i, e, k));
    assert(equality_rel(t, i, e, k));
    assert(comparison_rel(t, i, e, k));
    assert(term_rel(t, i, e, k));
    assert(factor_rel(t, i, e, k));
    assert(unary_rel(t, i, e, k));
    assert(call_rel(t, i, e, k));
    assert(primary_rel(t, i, e, k));
}

/// Unfolding helper: a property access at or-level is a call-level chain
/// ending in `. NAME`.
proof fn lemma_or_rel_get(t: Seq<Token>, i: nat, e: Expr, k: nat)
    requires
        logic_or_rel(t, i, e, k),
        e is Get,
    ensures
        e matches Expr::Get { object, name } ==> exists|m: nat|
            call_rel(t, i, *object, m) && tok_at(t, m, Token::Dot) && tok_at(
                t,
                m + 1,
                Token::Identifier(name),
            ) && k == m + 2,
{
    assert(logic_and_rel(t, i, e, k));
    assert(equality_rel(t, i, e, k));
    assert(comparison_rel(t, i, e, k));
    assert(term_rel(t, i, e, k));
    assert(factor_rel(t, i, e, k));
    assert(unary_rel(t, i, e, k));
    assert(call_rel(t, i, e, k));
    assert(!primary_rel(t, i, e, k));
}

/// Unfolding helper: no or-level tree is an assignment or a field write,
/// so an or-level relation carries over to the assignment level.
proof fn lemma_or_rel_to_assign(t: Seq<Token>, i: nat, e: Expr, k: nat)
    requires
        logic_or_rel(t, i, e, k),
    ensures
        assign_rel(t, i, e, k),
{
    match e {
        Expr::Assign { .. } => {
            assert(logic_and_rel(t, i, e, k));
            assert(equality_rel(t, i, e, k));
            assert(comparison_rel(t, i, e, k));
            assert(term_rel(t, i, e, k));
            assert(factor_rel(t, i, e, k));
            assert(unary_rel(t, i, e, k));
            assert(call_rel(t, i, e, k));
            assert(!primary_rel(t, i, e, k));
            assert(false);
        },
        Expr::SetField { .. } => {
            assert(logic_and_rel(t, i, e, k));
            assert(equality_rel(t, i, e, k));
            assert(comparison_rel(t, i, e, k));
            assert(term_rel(t, i, e, k));
            assert(factor_rel(t, i, e, k));
            assert(unary_rel(t, i, e, k));
            assert(call_rel(t, i, e, k));
            assert(!primary_rel(t, i, e, k));
            assert(false);
        },
        _ => {},
    }
}


/// A token kind code determines the token for every fieldless variant.
proof fn lemma_token_kind(x: Token)
    ensures
        kind(x) == 0 ==> x == Token::LeftParen,
        kind(x) == 1 ==> x == Token::RightParen,
        kind(x) == 2 ==> x == Token::LeftBrace,
        kind(x) == 3 ==> x == Token::RightBrace,
        kind(x) == 4 ==> x == Token::Comma,
        kind(x) == 5 ==> x == Token::Dot,
        kind(x) == 6 ==> x == Token::Minus,
        kind(x) == 7 ==> x == Token::Plus,
        kind(x) == 8 ==> x == Token::Semicolon,
        kind(x) == 9 ==> x == Token::Slash,
        kind(x) == 10 ==> x == Token::Star,
        kind(x) == 11 ==> x == Token::Bang,
        kind(x) == 12 ==> x == Token::BangEqual,
        kind(x) == 13 ==> x == Token::Equal,
        kind(x) == 14 ==> x == Token::EqualEqual,
        kind(x) == 15 ==> x == Token::Greater,
        kind(x) == 16 ==> x == Token::GreaterEqual,
        kind(x) == 17 ==> x == Token::Less,
        kind(x) == 18 ==> x == Token::LessEqual,
        kind(x) == 22 ==> x == Token::And,
        kind(x) == 23 ==> x == Token::Class,
        kind(x) == 24 ==> x == Token::Else,
        kind(x) == 25 ==> x == Token::False,
        kind(x) == 26 ==> x == Token::Fun,
        kind(x) == 27 ==> x == Token::For,
        kind(x) == 28 ==> x == Token::If,
        kind(x) == 29 ==> x == Token::Nil,
        kind(x) == 30 ==> x == Token::Or,
        kind(x) == 31 ==> x == Token::Print,
        kind(x) == 32 ==> x == Token::Return,
        kind(x) == 33 ==> x == Token::Super,
        kind(x) == 34 ==> x == Token::This,
        kind(x) == 35 ==> x == Token::True,
        kind(x) == 36 ==> x == Token::Var,
        kind(x) == 37 ==> x == Token::While,
        kind(x) == 38 ==> x == Token::Eof,
{
    match x {
        Token::Identifier(_) => {},
        Token::Str(_) => {},
        Token::Number(_) => {},
        _ => {},
    }
}


/// Unfolding helper: a statement-level relation carries over to the
/// declaration level (no statement-level tree is a class, function or
/// variable declaration).
proof fn lemma_stmt_rel_to_decl(t: Seq<Token>, i: nat, s: Stmt, j: nat)
    requires
        stmt_rel(t, i, s, j),
    ensures
        decl_rel(t, i, s, j),
{
    match s {
        Stmt::Class { .. } => {
            assert(false);
        },
        Stmt::Function { .. } => {
            assert(false);
        },
        Stmt::Var { .. } => {
            assert(false);
        },
        _ => {},
    }
}



/// The token kinds a primary expression can start with.
pub open spec fn primary_start(k: int) -> bool {
    k == 35 || k == 25 || k == 29 || k == 21 || k == 20 || k == 0 || k == 34 || k == 33 || k == 19
}

} // verus!
