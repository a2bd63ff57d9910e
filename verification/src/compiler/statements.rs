use vstd::prelude::*;
use vstd::string::*;

use super::model;
use super::token::TokenType;
use super::model::locals_view;
use super::{
    closed_except, intact, is_prefix, lands, layout_ok, nested_ok, Compiler, FunctionType, Local,
};
use crate::vm::chunk::object::{FunctionObject, Obj, StringObject};
use crate::vm::chunk::value::Val;
use crate::vm::chunk::OpCode;

verus! {

impl<F: Fn(&Vec<u8>) -> u64> Compiler<F> {
    /// Compiles an expression statement: the expression, a `;`, and the instruction that
    /// discards the value.
    fn expression_statement(&mut self)
        requires
            old(self).inv(),
        ensures
            final(self).extends(old(self)),
            !old(self).at_end() ==> old(self).scanner.start < final(self).scanner.start,
            final(self)@ == model::expression_statement(old(self)@, old(self).number),
            final(self)@.locals == old(self)@.locals,
        decreases old(self).remaining(), 3nat,
    {
        proof {
            reveal(model::expression_statement);
            reveal(model::expression);
        }
        let ghost s0 = *self;
        self.expression();
        let ghost s1 = *self;
        self.consume(TokenType::Semicolon, "Expect ';' after expression.".as_bytes());
        proof {
            Self::lemma_extends_trans(s0, s1, *self);
        }
        let ghost s2 = *self;
        self.emit_op(OpCode::OpPop);
        proof {
            Self::lemma_extends_trans(s0, s2, *self);
        }
    }

    /// Compiles the rest of a print statement: the expression, a `;`, and the instruction
    /// that prints.
    fn print_statement(&mut self)
        requires
            old(self).inv(),
        ensures
            final(self).extends(old(self)),
            final(self)@ == model::print_statement(old(self)@, old(self).number),
            final(self)@.locals == old(self)@.locals,
        decreases old(self).remaining(), 3nat,
    {
        proof {
            reveal(model::print_statement);
            reveal(model::expression);
        }
        let ghost s0 = *self;
        self.expression();
        let ghost s1 = *self;
        self.consume(TokenType::Semicolon, "Expect ';' after value.".as_bytes());
        proof {
            Self::lemma_extends_trans(s0, s1, *self);
        }
        let ghost s2 = *self;
        self.emit_op(OpCode::OpPrint);
        proof {
            Self::lemma_extends_trans(s0, s2, *self);
        }
    }

    /// Compiles the rest of a return statement. At the top level it is an error.
    fn return_statement(&mut self)
        requires
            old(self).inv(),
        ensures
            final(self).extends(old(self)),
            old(self).function_type == FunctionType::Script ==> final(self).parser.had_error,
            final(self)@ == model::return_statement(old(self)@, old(self).number),
            final(self)@.locals == old(self)@.locals,
        decreases old(self).remaining(), 3nat,
    {
        proof {
            reveal(model::return_statement);
            reveal(model::expression);
            reveal(model::match_token);
        }
        let ghost s0 = *self;
        proof {
            Self::lemma_extends_refl(s0);
        }
        if self.function_type == FunctionType::Script {
            self.error_at_current("Can't return from top-level code.".as_bytes());
        }
        let ghost s1 = *self;
        if self.match_token(TokenType::Semicolon) {
            proof {
                Self::lemma_extends_trans(s0, s1, *self);
            }
            let ghost s2 = *self;
            self.emit_return();
            proof {
                Self::lemma_extends_trans(s0, s2, *self);
            }
        } else {
            self.expression();
            proof {
                Self::lemma_extends_trans(s0, s1, *self);
            }
            let ghost s2 = *self;
            self.consume(TokenType::Semicolon, "Expect ';' after return value.".as_bytes());
            proof {
                Self::lemma_extends_trans(s0, s2, *self);
            }
            let ghost s3 = *self;
            self.emit_op(OpCode::OpReturn);
            proof {
                Self::lemma_extends_trans(s0, s3, *self);
            }
        }
    }

    /// Compiles the rest of a variable declaration: the name, the initializer or else nil,
    /// a `;`, and the definition.
    fn var_declaration(&mut self)
        requires
            old(self).inv(),
        ensures
            final(self).extends(old(self)),
            final(self)@ == model::var_declaration(old(self)@, old(self).number),
            model::settled(old(self)@) && !final(self).parser.had_error ==> model::scoped(
                final(self)@,
                old(self)@,
            ),
        decreases old(self).remaining(), 3nat,
    {
        proof {
            reveal(model::var_declaration);
            reveal(model::expression);
            reveal(model::match_token);
        }
        let ghost s0 = *self;
        let global = self.parse_variable("Expected variable name.".as_bytes());
        let ghost s1 = *self;
        if self.match_token(TokenType::Equal) {
            proof {
                Self::lemma_extends_trans(s0, s1, *self);
            }
            let ghost s2 = *self;
            self.expression();
            proof {
                Self::lemma_extends_trans(s0, s2, *self);
            }
        } else {
            self.emit_op(OpCode::OpNil);
            proof {
                Self::lemma_extends_trans(s0, s1, *self);
            }
        }
        let ghost s3 = *self;
        self.consume(TokenType::Semicolon, "Expect ';' after variable declaration.".as_bytes());
        proof {
            Self::lemma_extends_trans(s0, s3, *self);
        }
        let ghost s4 = *self;
        self.define_variable(global);
        proof {
            Self::lemma_extends_trans(s0, s4, *self);
        }
    }

    /// Compiles a statement.
    #[verifier::rlimit(50)]
    fn statement(&mut self)
        requires
            old(self).inv(),
        ensures
            final(self).extends(old(self)),
            !old(self).at_end() ==> old(self).scanner.start < final(self).scanner.start,
            final(self)@ == model::statement(old(self)@, old(self).number),
            model::settled(old(self)@) && !final(self).parser.had_error ==> model::scoped(
                final(self)@,
                old(self)@,
            ),
        decreases old(self).remaining(), 4nat,
    {
        proof {
            reveal(model::statement);
            reveal(model::match_token);
            reveal(model::print_statement);
            reveal(model::for_statement);
            reveal(model::if_statement);
            reveal(model::return_statement);
            reveal(model::while_statement);
            reveal(model::block);
            reveal(model::expression_statement);
        }
        let ghost s0 = *self;
        if self.match_token(TokenType::Print) {
            let ghost s1 = *self;
            self.print_statement();
            proof {
                Self::lemma_extends_trans(s0, s1, *self);
            }
        } else if self.match_token(TokenType::For) {
            let ghost s1 = *self;
            self.for_statement();
            proof {
                Self::lemma_extends_trans(s0, s1, *self);
            }
        } else if self.match_token(TokenType::If) {
            let ghost s1 = *self;
            self.if_statement();
            proof {
                Self::lemma_extends_trans(s0, s1, *self);
            }
        } else if self.match_token(TokenType::Return) {
            let ghost s1 = *self;
            self.return_statement();
            proof {
                Self::lemma_extends_trans(s0, s1, *self);
            }
        } else if self.match_token(TokenType::While) {
            let ghost s1 = *self;
            self.while_statement();
            proof {
                Self::lemma_extends_trans(s0, s1, *self);
            }
        } else if self.match_token(TokenType::LeftBrace) {
            let ghost s1 = *self;
            self.block();
            proof {
                Self::lemma_extends_trans(s0, s1, *self);
            }
        } else {
            self.expression_statement();
        }
    }

    /// Compiles the rest of an if statement.
    #[verifier::rlimit(80)]
    fn if_statement(&mut self)
        requires
            old(self).inv(),
        ensures
            final(self).extends(old(self)),
            final(self)@ == model::if_statement(old(self)@, old(self).number),
            model::settled(old(self)@) && !final(self).parser.had_error ==> model::scoped(
                final(self)@,
                old(self)@,
            ),
        decreases old(self).remaining(), 5nat,
    {
        proof {
            reveal(model::if_statement);
            reveal(model::expression);
            reveal(model::statement);
            reveal(model::match_token);
        }
        let ghost s0 = *self;
        let ghost mut pending = Map::<int, int>::empty();
        proof {
            Self::lemma_pending_start(s0);
        }
        self.consume(TokenType::LeftParen, "Expect '(' after 'if'.".as_bytes());
        proof {
            Self::lemma_step(s0, s0, *self, pending);
        }
        let ghost s1 = *self;
        self.expression();
        proof {
            Self::lemma_step(s0, s1, *self, pending);
        }
        let ghost s2 = *self;
        self.consume(TokenType::RightParen, "Expect ')' after condition.".as_bytes());
        proof {
            Self::lemma_step(s0, s2, *self, pending);
        }
        let ghost s3 = *self;
        let ghost k1 = self.starts@.len() as int;
        let then_jump = self.emit_jump(OpCode::OpJumpFalse);
        proof {
            Self::lemma_jump(s0, s3, *self, pending);
            pending = pending.insert(k1, then_jump as int);
        }
        let ghost s4 = *self;
        self.emit_op(OpCode::OpPop);
        proof {
            Self::lemma_step(s0, s4, *self, pending);
        }
        let ghost s5 = *self;
        self.statement();
        proof {
            Self::lemma_step(s0, s5, *self, pending);
        }
        let ghost s6 = *self;
        let ghost k2 = self.starts@.len() as int;
        let else_jump = self.emit_jump(OpCode::OpJump);
        proof {
            Self::lemma_jump(s0, s6, *self, pending);
            pending = pending.insert(k2, else_jump as int);
            Self::lemma_patch_ready(s0, *self, pending, k1);
        }
        let ghost s7 = *self;
        self.patch_jump(then_jump, Ghost(k1));
        proof {
            Self::lemma_patch(s0, s7, *self, pending, k1);
            pending = pending.remove(k1);
        }
        let ghost s8 = *self;
        self.emit_op(OpCode::OpPop);
        proof {
            Self::lemma_step(s0, s8, *self, pending);
        }
        let ghost s9 = *self;
        if self.match_token(TokenType::Else) {
            proof {
                Self::lemma_step(s0, s9, *self, pending);
            }
            let ghost s10 = *self;
            self.statement();
            proof {
                Self::lemma_step(s0, s10, *self, pending);
            }
        }
        proof {
            Self::lemma_patch_ready(s0, *self, pending, k2);
        }
        let ghost s11 = *self;
        self.patch_jump(else_jump, Ghost(k2));
        proof {
            Self::lemma_patch(s0, s11, *self, pending, k2);
            assert(pending.remove(k2) =~= Map::<int, int>::empty());
            Self::lemma_pending_done(s0, *self);
        }
    }

    /// Compiles the rest of a while statement.
    #[verifier::rlimit(60)]
    fn while_statement(&mut self)
        requires
            old(self).inv(),
        ensures
            final(self).extends(old(self)),
            final(self)@ == model::while_statement(old(self)@, old(self).number),
            model::settled(old(self)@) && !final(self).parser.had_error ==> model::scoped(
                final(self)@,
                old(self)@,
            ),
        decreases old(self).remaining(), 5nat,
    {
        proof {
            reveal(model::while_statement);
            reveal(model::expression);
            reveal(model::statement);
        }
        let ghost s0 = *self;
        let ghost mut pending = Map::<int, int>::empty();
        proof {
            Self::lemma_pending_start(s0);
        }
        let loop_start = self.function.chunk.code.len();
        let ghost mark = loop_start as int;
        proof {
            assert(lands(s0.starts@, s0.code().len() as int, mark));
        }
        self.consume(TokenType::LeftParen, "Expect '(' after 'while'.".as_bytes());
        proof {
            Self::lemma_step(s0, s0, *self, pending);
            Self::lemma_mark(s0, *self, mark);
        }
        let ghost s1 = *self;
        self.expression();
        proof {
            Self::lemma_step(s0, s1, *self, pending);
            Self::lemma_mark(s1, *self, mark);
        }
        let ghost s2 = *self;
        self.consume(TokenType::RightParen, "Expect ')' after condition.".as_bytes());
        proof {
            Self::lemma_step(s0, s2, *self, pending);
            Self::lemma_mark(s2, *self, mark);
        }
        let ghost s3 = *self;
        let ghost k = self.starts@.len() as int;
        let exit_jump = self.emit_jump(OpCode::OpJumpFalse);
        proof {
            Self::lemma_jump(s0, s3, *self, pending);
            Self::lemma_mark(s3, *self, mark);
            pending = pending.insert(k, exit_jump as int);
        }
        let ghost s4 = *self;
        self.emit_op(OpCode::OpPop);
        proof {
            Self::lemma_step(s0, s4, *self, pending);
            Self::lemma_mark(s4, *self, mark);
        }
        let ghost s5 = *self;
        self.statement();
        proof {
            Self::lemma_step(s0, s5, *self, pending);
            Self::lemma_mark(s5, *self, mark);
        }
        let ghost s6 = *self;
        self.emit_loop(loop_start);
        proof {
            Self::lemma_loop(s0, s6, *self, pending, loop_start as int);
            Self::lemma_patch_ready(s0, *self, pending, k);
        }
        let ghost s7 = *self;
        self.patch_jump(exit_jump, Ghost(k));
        proof {
            Self::lemma_patch(s0, s7, *self, pending, k);
            pending = pending.remove(k);
            assert(pending =~= Map::<int, int>::empty());
        }
        let ghost s8 = *self;
        self.emit_op(OpCode::OpPop);
        proof {
            Self::lemma_step(s0, s8, *self, pending);
            Self::lemma_pending_done(s0, *self);
        }
    }

    /// Compiles the opening parenthesis and the initializer of a for statement, and
    /// begins the scope of the loop.
    fn for_initializer(&mut self)
        requires
            old(self).inv(),
            old(self).scope_depth <= old(self).scanner.start,
        ensures
            final(self).grows(old(self)),
            final(self).scope_depth == old(self).scope_depth + 1,
            final(self)@ == model::for_initializer(old(self)@, old(self).number),
            model::settled(old(self)@) && !final(self).parser.had_error ==> model::scoped(
                model::CompilerView { scope_depth: old(self).scope_depth, ..final(self)@ },
                old(self)@,
            ),
        decreases old(self).remaining(), 4nat,
    {
        proof {
            reveal(model::for_initializer);
            reveal(model::var_declaration);
            reveal(model::expression_statement);
        }
        let ghost s0 = *self;
        self.consume(TokenType::LeftParen, "Expect '(' after 'for'.".as_bytes());
        let ghost s1 = *self;
        if self.check(TokenType::Semicolon) {
            self.advance();
            proof {
                Self::lemma_extends_trans(s0, s1, *self);
            }
        } else if self.check(TokenType::Var) {
            self.advance();
            proof {
                Self::lemma_extends_trans(s0, s1, *self);
            }
            let ghost s2 = *self;
            self.var_declaration();
            proof {
                Self::lemma_extends_trans(s0, s2, *self);
            }
        } else {
            self.expression_statement();
            proof {
                Self::lemma_extends_trans(s0, s1, *self);
            }
        }
        let ghost s3 = *self;
        self.begin_scope();
        proof {
            Self::lemma_grows_trans(s0, s3, *self);
        }
    }

    /// Compiles the rest of a for statement.
    #[verifier::rlimit(80)]
    fn for_statement(&mut self)
        requires
            old(self).inv(),
            old(self).scope_depth <= old(self).scanner.start,
        ensures
            final(self).extends(old(self)),
            final(self)@ == model::for_statement(old(self)@, old(self).number),
            model::settled(old(self)@) && !final(self).parser.had_error ==> model::scoped(
                final(self)@,
                old(self)@,
            ),
        decreases old(self).remaining(), 5nat,
    {
        proof {
            reveal(model::for_statement);
            reveal(model::for_initializer);
            reveal(model::for_condition);
            reveal(model::for_increment);
            reveal(model::expression);
            reveal(model::statement);
            reveal(model::match_token);
        }
        let ghost s0 = *self;
        let ghost mut pending = Map::<int, int>::empty();
        self.for_initializer();
        proof {
            Self::lemma_pending_none(s0, *self);
        }
        let mut loop_start = self.function.chunk.code.len();
        let ghost mut mark = loop_start as int;
        proof {
            assert(lands(self.starts@, self.code().len() as int, mark));
        }
        let mut exit_jump: Option<usize> = None;
        let ghost mut exit_k: int = 0;
        let ghost s4 = *self;
        if !self.check(TokenType::Semicolon) {
            self.expression();
            proof {
                Self::lemma_step(s0, s4, *self, pending);
                Self::lemma_mark(s4, *self, mark);
            }
            let ghost s5 = *self;
            self.consume(TokenType::Semicolon, "Expect ';' after loop condition.".as_bytes());
            proof {
                Self::lemma_step(s0, s5, *self, pending);
                Self::lemma_mark(s5, *self, mark);
            }
            let ghost s6 = *self;
            let jump = self.emit_jump(OpCode::OpJumpFalse);
            proof {
                exit_k = s6.starts@.len() as int;
                Self::lemma_jump(s0, s6, *self, pending);
                Self::lemma_mark(s6, *self, mark);
                pending = pending.insert(exit_k, jump as int);
            }
            exit_jump = Some(jump);
            let ghost s7 = *self;
            self.emit_op(OpCode::OpPop);
            proof {
                Self::lemma_step(s0, s7, *self, pending);
                Self::lemma_mark(s7, *self, mark);
            }
        } else {
            self.advance();
            proof {
                Self::lemma_step(s0, s4, *self, pending);
                Self::lemma_mark(s4, *self, mark);
            }
        }
        let ghost s8 = *self;
        let ghost exits = pending;
        if !self.check(TokenType::RightParen) {
            let ghost kb = self.starts@.len() as int;
            let body_jump = self.emit_jump(OpCode::OpJump);
            proof {
                Self::lemma_jump(s0, s8, *self, pending);
                Self::lemma_mark(s8, *self, mark);
                pending = pending.insert(kb, body_jump as int);
            }
            let increment_start = self.function.chunk.code.len();
            let ghost next_mark = increment_start as int;
            proof {
                assert(lands(self.starts@, self.code().len() as int, next_mark));
            }
            let ghost s9 = *self;
            self.expression();
            proof {
                Self::lemma_step(s0, s9, *self, pending);
                Self::lemma_mark(s9, *self, mark);
                Self::lemma_mark(s9, *self, next_mark);
            }
            let ghost s10 = *self;
            self.emit_op(OpCode::OpPop);
            proof {
                Self::lemma_step(s0, s10, *self, pending);
                Self::lemma_mark(s10, *self, mark);
                Self::lemma_mark(s10, *self, next_mark);
            }
            let ghost s11 = *self;
            self.emit_loop(loop_start);
            proof {
                Self::lemma_loop(s0, s11, *self, pending, loop_start as int);
                Self::lemma_mark(s11, *self, next_mark);
                Self::lemma_patch_ready(s0, *self, pending, kb);
                mark = next_mark;
            }
            loop_start = increment_start;
            let ghost s12 = *self;
            self.patch_jump(body_jump, Ghost(kb));
            proof {
                Self::lemma_patch(s0, s12, *self, pending, kb);
                pending = pending.remove(kb);
                assert(pending =~= exits);
            }
            let ghost s13 = *self;
            self.consume(TokenType::RightParen, "Expect ')' after for clauses.".as_bytes());
            proof {
                Self::lemma_step(s0, s13, *self, pending);
                Self::lemma_mark(s13, *self, mark);
            }
        } else {
            self.advance();
            proof {
                Self::lemma_step(s0, s8, *self, pending);
                Self::lemma_mark(s8, *self, mark);
            }
        }
        let ghost s14 = *self;
        self.statement();
        proof {
            Self::lemma_step(s0, s14, *self, pending);
            Self::lemma_mark(s14, *self, mark);
        }
        let ghost s15 = *self;
        self.emit_loop(loop_start);
        proof {
            Self::lemma_loop(s0, s15, *self, pending, loop_start as int);
        }
        match exit_jump {
            Some(jump) => {
                proof {
                    Self::lemma_patch_ready(s0, *self, pending, exit_k);
                }
                let ghost s16 = *self;
                self.patch_jump(jump, Ghost(exit_k));
                proof {
                    Self::lemma_patch(s0, s16, *self, pending, exit_k);
                    pending = pending.remove(exit_k);
                    assert(pending =~= Map::<int, int>::empty());
                }
                let ghost s17 = *self;
                self.emit_op(OpCode::OpPop);
                proof {
                    Self::lemma_step(s0, s17, *self, pending);
                }
            },
            None => {},
        }
        let ghost s18 = *self;
        self.end_scope();
        proof {
            Self::lemma_step(s0, s18, *self, pending);
            Self::lemma_pending_done(s0, *self);
            if model::settled(s0@) && !self.parser.had_error {
                model::lemma_floor(s18@.locals, s4@.locals.len() as int, s0.scope_depth as int);
                assert(self@.locals =~= s4@.locals);
            }
        }
    }

    /// Compiles a declaration: of a function, of a variable, or else a statement.
    pub(super) fn declaration(&mut self)
        requires
            old(self).inv(),
        ensures
            final(self).extends(old(self)),
            !old(self).at_end() ==> old(self).scanner.start < final(self).scanner.start,
            final(self)@ == model::declaration(old(self)@, old(self).number),
            model::settled(old(self)@) && !final(self).parser.had_error ==> model::scoped(
                final(self)@,
                old(self)@,
            ),
        decreases old(self).remaining(), 5nat,
    {
        proof {
            reveal(model::declaration);
            reveal(model::match_token);
            reveal(model::fun_declaration);
            reveal(model::var_declaration);
            reveal(model::statement);
        }
        let ghost s0 = *self;
        if self.match_token(TokenType::Fun) {
            let ghost s1 = *self;
            self.fun_declaration();
            proof {
                Self::lemma_extends_trans(s0, s1, *self);
            }
        } else if self.match_token(TokenType::Var) {
            let ghost s1 = *self;
            self.var_declaration();
            proof {
                Self::lemma_extends_trans(s0, s1, *self);
            }
        } else {
            self.statement();
        }
    }

    /// Compiles the rest of a function declaration: the name, which the body may refer
    /// to, the function, and the definition.
    fn fun_declaration(&mut self)
        requires
            old(self).inv(),
            old(self).scanner.start >= 1,
        ensures
            final(self).extends(old(self)),
            final(self)@ == model::fun_declaration(old(self)@, old(self).number),
            model::settled(old(self)@) && !final(self).parser.had_error ==> model::scoped(
                final(self)@,
                old(self)@,
            ),
        decreases old(self).remaining(), 8nat,
    {
        proof {
            reveal(model::fun_declaration);
            reveal(model::function);
        }
        let ghost s0 = *self;
        let global = self.parse_variable("Expect function name".as_bytes());
        let ghost s1 = *self;
        self.mark_initialized();
        proof {
            Self::lemma_extends_trans(s0, s1, *self);
        }
        let ghost s2 = *self;
        self.function(FunctionType::Function);
        proof {
            Self::lemma_extends_trans(s0, s2, *self);
        }
        let ghost s3 = *self;
        self.define_variable(global);
        proof {
            Self::lemma_extends_trans(s0, s3, *self);
        }
    }

    /// Compiles a block up to its closing brace, in a scope of its own. Unless an error
    /// is reported, the locals are afterwards those from before the block.
    fn block(&mut self)
        requires
            old(self).inv(),
            old(self).scope_depth <= old(self).scanner.start,
        ensures
            final(self).extends(old(self)),
            final(self)@ == model::block(old(self)@, old(self).number),
            model::settled(old(self)@) && !final(self).parser.had_error ==> final(self)@.locals
                == old(self)@.locals,
        decreases old(self).remaining(), 6nat,
    {
        proof {
            reveal(model::block);
            reveal(model::block_body);
        }
        let ghost s0 = *self;
        self.begin_scope();
        let ghost s1 = *self;
        loop
            invariant_except_break
                model::block_body(self@, self.number) == model::block_body(s1@, s0.number),
            invariant
                self.grows(&s0),
                self.scope_depth == s0.scope_depth + 1,
                s0 == *old(self),
                s1@.locals == s0@.locals,
                s1.scope_depth == s0.scope_depth + 1,
                model::settled(s0@) && !self.parser.had_error ==> model::scoped(self@, s1@),
            ensures
                self.grows(&s0),
                self.scope_depth == s0.scope_depth + 1,
                self@ == model::block_body(s1@, s0.number),
                model::settled(s0@) && !self.parser.had_error ==> model::scoped(self@, s1@),
            decreases self.remaining(),
        {
            proof {
                reveal(model::block_body);
                reveal(model::declaration);
            }
            if self.check(TokenType::RightBrace) || self.check(TokenType::EOF) {
                break ;
            }
            let ghost mid = *self;
            self.declaration();
            proof {
                Self::lemma_grows_trans(s0, mid, *self);
            }
        }
        let ghost s2 = *self;
        self.consume(TokenType::RightBrace, "Expect '}' after block.".as_bytes());
        proof {
            Self::lemma_grows_trans(s0, s2, *self);
        }
        let ghost s3 = *self;
        self.end_scope();
        proof {
            Self::lemma_grows_trans(s0, s3, *self);
            if model::settled(s0@) && !self.parser.had_error {
                model::lemma_floor(s3@.locals, s0@.locals.len() as int, s0.scope_depth as int);
                assert(self@.locals =~= s0@.locals);
            }
        }
    }

    /// Counts one more parameter of the function being compiled. More than 255
    /// parameters are an error.
    fn add_parameter(&mut self)
        requires
            old(self).inv(),
        ensures
            final(self).grows_open(old(self)),
            final(self).closed_since(old(self)),
            final(self).scope_depth == old(self).scope_depth,
            final(self).function.name@ == old(self).function.name@,
            final(self).code() == old(self).code(),
            old(self).function.arity < 255 ==> final(self).function.arity == old(self).function.arity + 1 && final(self).same_input(old(self)),
            old(self).function.arity >= 255 ==> final(self).function.arity == 255 && final(self).parser.had_error,
            final(self)@ == model::add_parameter(old(self)@),
            final(self)@.locals == old(self)@.locals,
    {
        proof {
            reveal(model::add_parameter);
        }
        proof {
            reveal(is_prefix);
            reveal(layout_ok);
            reveal(nested_ok);
            reveal(closed_except);
        }
        if self.function.arity >= 255 {
            self.error_at_current("Can't have more than 255 parameters.".as_bytes());
        } else {
            self.function.arity += 1;
        }
    }

    /// Compiles a function: its parameters and its body, in a function state of their
    /// own, and then, in the enclosing function, the constant that holds it.
    fn function(&mut self, function_type: FunctionType)
        requires
            old(self).inv(),
            old(self).scanner.start >= 1,
        ensures
            final(self).extends(old(self)),
            final(self)@ == model::function(old(self)@, function_type, old(self).number),
            final(self)@.locals == old(self)@.locals,
        decreases old(self).remaining(), 7nat,
    {
        proof {
            reveal(model::function);
            reveal(model::function_body);
            reveal(model::block);
        }
        let ghost s0 = *self;
        let name = StringObject::from_bytes(self.parser.previous.lexeme.as_slice());
        let mut held = FunctionObject::new();
        held.name = name;
        core::mem::swap(&mut self.function, &mut held);
        let mut held_locals: Vec<Local> = Vec::new();
        core::mem::swap(&mut self.locals, &mut held_locals);
        let held_depth = self.scope_depth;
        self.scope_depth = 0;
        let held_type = self.function_type;
        self.function_type = function_type;
        let ghost held_starts = self.starts@;
        self.starts = Ghost(Seq::empty());
        proof {
            reveal(layout_ok);
            reveal(nested_ok);
            assert(self.function.chunk@.constants =~= Seq::empty());
            assert(self.inv());
            assert(locals_view(self.locals@) =~= Seq::empty());
            assert(self@ == model::entered(s0@, function_type));
        }
        let ghost s1 = *self;
        let ghost pending = Map::<int, int>::empty();
        proof {
            Self::lemma_pending_start(s1);
        }
        self.begin_scope();
        proof {
            Self::lemma_step(s1, s1, *self, pending);
        }
        let ghost s2 = *self;
        self.consume(TokenType::LeftParen, "Expect '(' after function name.".as_bytes());
        proof {
            Self::lemma_step(s1, s2, *self, pending);
        }
        let ghost s2b = *self;
        if !self.check(TokenType::RightParen) {
            loop
                invariant_except_break
                    model::parameters(self@) == model::parameters(s2b@),
                invariant
                    self.grows_open(&s1),
                    self.pending_since(&s1, pending),
                    pending == Map::<int, int>::empty(),
                    self.scope_depth == 1,
                    self.function.name@ == s1.function.name@,
                ensures
                    self.grows_open(&s1),
                    self.pending_since(&s1, pending),
                    self.scope_depth == 1,
                    self.function.name@ == s1.function.name@,
                    self@ == model::parameters(s2b@),
                decreases self.remaining(),
            {
                proof {
                    reveal(model::parameters);
                    reveal(model::match_token);
                }
                let ghost s3 = *self;
                self.add_parameter();
                proof {
                    Self::lemma_step(s1, s3, *self, pending);
                }
                let ghost s4 = *self;
                let constant = self.parse_variable("Expect parameter name".as_bytes());
                proof {
                    Self::lemma_step(s1, s4, *self, pending);
                }
                let ghost s5 = *self;
                self.define_variable(constant);
                proof {
                    Self::lemma_step(s1, s5, *self, pending);
                }
                let ghost s6 = *self;
                if !self.match_token(TokenType::Comma) {
                    break ;
                }
                proof {
                    Self::lemma_step(s1, s6, *self, pending);
                }
            }
        }
        let ghost s7 = *self;
        self.consume(TokenType::RightParen, "Expect ')' after parameters.".as_bytes());
        proof {
            Self::lemma_step(s1, s7, *self, pending);
        }
        let ghost s8 = *self;
        self.consume(TokenType::LeftBrace, "Expect '{' before function body.".as_bytes());
        proof {
            Self::lemma_step(s1, s8, *self, pending);
        }
        let ghost s9 = *self;
        self.block();
        proof {
            Self::lemma_step(s1, s9, *self, pending);
            Self::lemma_pending_done(s1, *self);
            reveal(layout_ok);
            reveal(is_prefix);
        }
        let ghost s10 = *self;
        proof {
            assert(s10@ == model::function_body(s0@, function_type, s0.number));
        }
        let function = self.end_compiler();
        core::mem::swap(&mut self.function, &mut held);
        core::mem::swap(&mut self.locals, &mut held_locals);
        self.scope_depth = held_depth;
        self.function_type = held_type;
        self.starts = Ghost(held_starts);
        proof {
            reveal(is_prefix);
            reveal(closed_except);
            assert(self.inv());
            assert(self.extends(&s0));
            assert(self@ == model::left(s10@, s0@));
            reveal(model::emit_constant);
        }
        let ghost s11 = *self;
        let constant = self.make_constant(Val::object(Obj::Function(function)));
        proof {
            Self::lemma_extends_trans(s0, s11, *self);
        }
        let ghost s12 = *self;
        self.emit_bytes(OpCode::OpConstant, constant);
        proof {
            Self::lemma_extends_trans(s0, s12, *self);
        }
    }

    /// Passes tokens over up to the start of the next statement: behind a `;`, or before
    /// a keyword that begins a statement. Reports are no longer held back.
    pub(super) fn synchronize(&mut self)
        requires
            old(self).inv(),
        ensures
            final(self).extends(old(self)),
            final(self).same_output(old(self)),
            final(self)@ == model::synchronize(old(self)@),
            final(self)@.locals == old(self)@.locals,
    {
        proof {
            reveal(model::synchronize);
        }
        proof {
            reveal(is_prefix);
            reveal(closed_except);
        }
        self.parser.panic_mode = false;
        let ghost s0 = *self;
        loop
            invariant_except_break
                model::resume(self@) == model::resume(s0@),
            invariant
                self.extends(old(self)),
                self.same_output(old(self)),
            ensures
                self.extends(old(self)),
                self.same_output(old(self)),
                self@ == model::resume(s0@),
            decreases self.remaining(),
        {
            proof {
                reveal(model::resume);
            }
            if self.parser.current.token_type == TokenType::EOF {
                break ;
            }
            if self.parser.previous.token_type == TokenType::Semicolon {
                break ;
            }
            match self.parser.current.token_type {
                TokenType::Class
                | TokenType::Fun
                | TokenType::Var
                | TokenType::For
                | TokenType::If
                | TokenType::While
                | TokenType::Print
                | TokenType::Return => {
                    break ;
                },
                _ => {},
            }
            let ghost s1 = *self;
            self.advance();
            proof {
                Self::lemma_extends_trans(*old(self), s1, *self);
            }
        }
    }
}

} // verus!
