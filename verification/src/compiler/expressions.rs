use vstd::prelude::*;
use vstd::string::*;

use super::model;
use super::parser::Precedence;
use super::scanner::copy_range;
use super::token::{Token, TokenType};
use super::utils::{rule_for, rules_table, ParseFn};
use super::Compiler;
use crate::vm::chunk::object::{interned, Obj, StringObject};
use crate::vm::chunk::value::{ObjView, Val, ValView};
use crate::vm::chunk::OpCode;

verus! {

impl<F: Fn(&Vec<u8>) -> u64> Compiler<F> {
    /// Compiles `true`, `false` or `nil`.
    fn literal(&mut self)
        requires
            old(self).inv(),
        ensures
            final(self).extends(old(self)),
            final(self).same_input(old(self)),
            final(self)@ == model::literal(old(self)@),
            final(self)@.locals == old(self)@.locals,
    {
        proof {
            reveal(model::literal);
        }
        match self.parser.previous.token_type {
            TokenType::False => self.emit_op(OpCode::OpFalse),
            TokenType::True => self.emit_op(OpCode::OpTrue),
            _ => self.emit_op(OpCode::OpNil),
        }
    }

    /// Compiles a string literal: its text without the quotes becomes a constant.
    fn string(&mut self)
        requires
            old(self).inv(),
        ensures
            final(self).extends(old(self)),
            final(self).scanner == old(self).scanner,
            final(self)@ == model::string(old(self)@),
            final(self)@.locals == old(self)@.locals,
    {
        proof {
            reveal(model::string);
        }
        let n = self.parser.previous.lexeme.len();
        let text = if n >= 2 {
            copy_range(&self.parser.previous.lexeme, 1, n - 1)
        } else {
            Vec::new()
        };
        assert(text@ =~= model::unquoted(self.parser.previous.lexeme@));
        let value = StringObject::from_bytes(text.as_slice());
        self.emit_constant(Val::object(Obj::String(value)));
    }

    /// Compiles a number literal: what `number` makes of its text becomes a constant.
    fn number(&mut self)
        requires
            old(self).inv(),
        ensures
            final(self).extends(old(self)),
            final(self).scanner == old(self).scanner,
            final(self)@ == model::number(old(self)@, old(self).number),
            final(self)@.locals == old(self)@.locals,
    {
        proof {
            reveal(model::number);
        }
        let bits = (self.number)(&self.parser.previous.lexeme);
        proof {
            let text = self.parser.previous.lexeme@;
            assert(model::gives(self.number, text, bits));
            let chosen = model::number_value(self.number, text);
            assert(model::gives(self.number, text, chosen));
            let t = choose|t: Vec<u8>| t@ == text && #[trigger] call_ensures(
                self.number,
                (&t,),
                chosen,
            );
            assert(call_ensures(self.number, (&self.parser.previous.lexeme,), bits));
            assert(chosen == bits);
        }
        self.emit_constant(Val::number(bits));
    }

    /// Compiles a reference to the variable that the token just consumed names.
    fn variable(&mut self, can_assign: bool)
        requires
            old(self).inv(),
        ensures
            final(self).extends(old(self)),
            final(self)@ == model::variable(old(self)@, can_assign, old(self).number),
            final(self)@.locals == old(self)@.locals,
        decreases old(self).remaining(), 4nat,
    {
        proof {
            reveal(model::variable);
            reveal(model::named_variable);
        }
        let name = self.parser.previous.clone();
        self.named_variable(name, can_assign);
    }

    /// Compiles a read of a variable, or, where an `=` follows and assignment is allowed,
    /// an assignment to it.
    fn access(&mut self, can_assign: bool, get: OpCode, set: OpCode, operand: u8)
        requires
            old(self).inv(),
            get == OpCode::OpGetLocal && set == OpCode::OpSetLocal || get == OpCode::OpGetGlobal
                && set == OpCode::OpSetGlobal && operand < old(self).pool().len(),
        ensures
            final(self).extends(old(self)),
            final(self)@ == model::access(
                old(self)@,
                can_assign,
                get.spec_byte(),
                set.spec_byte(),
                operand,
                old(self).number,
            ),
            final(self)@.locals == old(self)@.locals,
        decreases old(self).remaining(), 2nat,
    {
        proof {
            reveal(model::access);
            reveal(model::expression);
        }
        let ghost s0 = *self;
        if can_assign && self.check(TokenType::Equal) {
            self.advance();
            let ghost s1 = *self;
            self.expression();
            proof {
                Self::lemma_extends_trans(s0, s1, *self);
            }
            let ghost s2 = *self;
            self.emit_bytes(set, operand);
            proof {
                Self::lemma_extends_trans(s0, s2, *self);
            }
        } else {
            self.emit_bytes(get, operand);
        }
    }

    /// Compiles a read of the variable `name`, or, where an `=` follows and assignment is
    /// allowed, an assignment to it. The last local of that name is meant; without one,
    /// the global.
    #[verifier::rlimit(40)]
    pub(super) fn named_variable(&mut self, name: Token, can_assign: bool)
        requires
            old(self).inv(),
        ensures
            final(self).extends(old(self)),
            final(self)@ == model::named_variable(
                old(self)@,
                name.lexeme@,
                can_assign,
                old(self).number,
            ),
            final(self)@.locals == old(self)@.locals,
        decreases old(self).remaining(), 3nat,
    {
        proof {
            reveal(model::named_variable);
            reveal(model::access);
        }
        let ghost s0 = *self;
        match self.resolve_local(&name) {
            Some(slot) => {
                let ghost s1 = *self;
                self.access(can_assign, OpCode::OpGetLocal, OpCode::OpSetLocal, slot as u8);
                proof {
                    Self::lemma_extends_trans(s0, s1, *self);
                }
            },
            None => {
                let ghost s1 = *self;
                let arg = self.identifier_constant(&name);
                proof {
                    Self::lemma_extends_trans(s0, s1, *self);
                }
                let ghost s2 = *self;
                self.access(can_assign, OpCode::OpGetGlobal, OpCode::OpSetGlobal, arg);
                proof {
                    Self::lemma_extends_trans(s0, s2, *self);
                }
            },
        }
    }

    /// Compiles an expression in parentheses.
    fn grouping_expression(&mut self)
        requires
            old(self).inv(),
        ensures
            final(self).extends(old(self)),
            final(self)@ == model::grouping_expression(old(self)@, old(self).number),
            final(self)@.locals == old(self)@.locals,
        decreases old(self).remaining(), 2nat,
    {
        proof {
            reveal(model::grouping_expression);
            reveal(model::expression);
        }
        self.expression();
        let ghost s1 = *self;
        self.consume(TokenType::RightParen, "Expect ')' after expression.".as_bytes());
        proof {
            Self::lemma_extends_trans(*old(self), s1, *self);
        }
    }

    /// Compiles the operand of `-` or `!` and then the operator.
    fn unary_expression(&mut self)
        requires
            old(self).inv(),
        ensures
            final(self).extends(old(self)),
            final(self)@ == model::unary_expression(old(self)@, old(self).number),
            final(self)@.locals == old(self)@.locals,
        decreases old(self).remaining(), 2nat,
    {
        proof {
            reveal(model::unary_expression);
            reveal(model::parse_precedence);
        }
        let operator_type = self.parser.previous.token_type;
        self.parse_precedence(Precedence::Unary);
        let ghost s1 = *self;
        match operator_type {
            TokenType::Minus => self.emit_op(OpCode::OpNegate),
            _ => self.emit_op(OpCode::OpNot),
        }
        proof {
            Self::lemma_extends_trans(*old(self), s1, *self);
        }
    }

    /// Compiles the right operand of a binary operator, one level above the operator's
    /// own precedence, and then the operator.
    fn binary_expression(&mut self)
        requires
            old(self).inv(),
        ensures
            final(self).extends(old(self)),
            final(self)@ == model::binary_expression(old(self)@, old(self).number),
            final(self)@.locals == old(self)@.locals,
        decreases old(self).remaining(), 2nat,
    {
        proof {
            reveal(model::binary_expression);
            reveal(model::parse_precedence);
        }
        let operator_type = self.parser.previous.token_type;
        let rule = self.rules[operator_type.index()];
        self.parse_precedence(rule.precedence.next());
        let ghost s1 = *self;
        self.emit_operator(operator_type);
        proof {
            Self::lemma_extends_trans(*old(self), s1, *self);
        }
    }

    /// Appends the code of a binary operator.
    fn emit_operator(&mut self, operator_type: TokenType)
        requires
            old(self).inv(),
        ensures
            final(self).extends(old(self)),
            final(self).same_input(old(self)),
            final(self)@ == model::emit_operator(old(self)@, operator_type),
            final(self)@.locals == old(self)@.locals,
    {
        proof {
            reveal(model::emit_operator);
        }
        match operator_type {
            TokenType::BangEqual => {
                self.emit_op(OpCode::OpEqual);
                let ghost s1 = *self;
                self.emit_op(OpCode::OpNot);
                proof {
                    Self::lemma_extends_trans(*old(self), s1, *self);
                }
            },
            TokenType::EqualEqual => self.emit_op(OpCode::OpEqual),
            TokenType::Greater => self.emit_op(OpCode::OpGreater),
            TokenType::GreaterEqual => self.emit_op(OpCode::OpGreaterEqual),
            TokenType::Less => self.emit_op(OpCode::OpLess),
            TokenType::LessEqual => self.emit_op(OpCode::OpLessEqual),
            TokenType::Minus => self.emit_op(OpCode::OpSubtract),
            TokenType::Plus => self.emit_op(OpCode::OpAdd),
            TokenType::Star => self.emit_op(OpCode::OpMultiply),
            _ => self.emit_op(OpCode::OpDivide),
        }
    }

    /// Compiles the arguments of a call and then the call.
    fn call(&mut self)
        requires
            old(self).inv(),
        ensures
            final(self).extends(old(self)),
            final(self)@ == model::call(old(self)@, old(self).number),
            final(self)@.locals == old(self)@.locals,
        decreases old(self).remaining(), 4nat,
    {
        proof {
            reveal(model::call);
            reveal(model::argument_list);
        }
        let arg_count = self.argument_list();
        let ghost s1 = *self;
        self.emit_bytes(OpCode::Call, arg_count);
        proof {
            Self::lemma_extends_trans(*old(self), s1, *self);
        }
    }

    /// Compiles the arguments of a call up to the closing parenthesis, and returns their
    /// number. More than 255 arguments are an error.
    fn argument_list(&mut self) -> (count: u8)
        requires
            old(self).inv(),
        ensures
            final(self).extends(old(self)),
            final(self)@ == model::argument_list(old(self)@, old(self).number).state,
            count == model::argument_list(old(self)@, old(self).number).count,
            final(self)@.locals == old(self)@.locals,
        decreases old(self).remaining(), 3nat,
    {
        proof {
            reveal(model::argument_list);
            reveal(model::arguments_from);
            Self::lemma_extends_refl(*self);
        }
        let mut arg_count: u8 = 0;
        if !self.check(TokenType::RightParen) {
            loop
                invariant_except_break
                    model::arguments_from(self@, arg_count, self.number) == model::arguments_from(
                        old(self)@,
                        0,
                        old(self).number,
                    ),
                invariant
                    self.extends(old(self)),
                    self@.locals == old(self)@.locals,
                    old(self)@.ahead.token_type != TokenType::RightParen,
                ensures
                    self.extends(old(self)),
                    self@.locals == old(self)@.locals,
                    !model::arguments_from(old(self)@, 0, old(self).number).over,
                    self@ == model::arguments_from(old(self)@, 0, old(self).number).state,
                    arg_count == model::arguments_from(old(self)@, 0, old(self).number).count,
                decreases self.remaining(),
            {
                proof {
                    reveal(model::arguments_from);
                    reveal(model::argument_list);
                    reveal(model::expression);
                }
                let ghost s1 = *self;
                self.expression();
                proof {
                    Self::lemma_extends_trans(*old(self), s1, *self);
                }
                let ghost s2 = *self;
                if arg_count == 255 {
                    self.error_at_current("Can't have more than 255 arguments.".as_bytes());
                    proof {
                        Self::lemma_extends_trans(*old(self), s2, *self);
                    }
                    return 0;
                }
                arg_count += 1;
                if !self.match_token(TokenType::Comma) {
                    break ;
                }
                proof {
                    reveal(model::match_token);
                    Self::lemma_extends_trans(*old(self), s2, *self);
                }
            }
        }
        let ghost s3 = *self;
        self.consume(TokenType::RightParen, "Expect ')' after arguments.".as_bytes());
        proof {
            Self::lemma_extends_trans(*old(self), s3, *self);
        }
        arg_count
    }

    /// Compiles the right operand of `and`, which is skipped where the left one is false.
    fn and(&mut self)
        requires
            old(self).inv(),
        ensures
            final(self).extends(old(self)),
            final(self)@ == model::and(old(self)@, old(self).number),
            final(self)@.locals == old(self)@.locals,
        decreases old(self).remaining(), 2nat,
    {
        proof {
            reveal(model::and);
            reveal(model::parse_precedence);
        }
        let ghost s0 = *self;
        let ghost k = self.starts@.len() as int;
        let ghost mut pending = Map::<int, int>::empty();
        proof {
            Self::lemma_pending_start(s0);
        }
        let jump = self.emit_jump(OpCode::OpJumpFalse);
        proof {
            Self::lemma_jump(s0, s0, *self, pending);
            pending = pending.insert(k, jump as int);
        }
        let ghost s1 = *self;
        self.emit_op(OpCode::OpPop);
        proof {
            Self::lemma_step(s0, s1, *self, pending);
        }
        let ghost s2 = *self;
        self.parse_precedence(Precedence::And);
        proof {
            Self::lemma_step(s0, s2, *self, pending);
            Self::lemma_patch_ready(s0, *self, pending, k);
        }
        let ghost s3 = *self;
        self.patch_jump(jump, Ghost(k));
        proof {
            Self::lemma_patch(s0, s3, *self, pending, k);
            assert(pending.remove(k) =~= Map::<int, int>::empty());
            Self::lemma_pending_done(s0, *self);
        }
    }

    /// Compiles the right operand of `or`, which is skipped where the left one is true.
    fn or(&mut self)
        requires
            old(self).inv(),
        ensures
            final(self).extends(old(self)),
            final(self)@ == model::or(old(self)@, old(self).number),
            final(self)@.locals == old(self)@.locals,
        decreases old(self).remaining(), 2nat,
    {
        proof {
            reveal(model::or);
            reveal(model::parse_precedence);
        }
        let ghost s0 = *self;
        let ghost k = self.starts@.len() as int;
        let ghost mut pending = Map::<int, int>::empty();
        proof {
            Self::lemma_pending_start(s0);
        }
        let else_jump = self.emit_jump(OpCode::OpJumpFalse);
        proof {
            Self::lemma_jump(s0, s0, *self, pending);
            pending = pending.insert(k, else_jump as int);
        }
        let ghost s1 = *self;
        let end_jump = self.emit_jump(OpCode::OpJump);
        proof {
            Self::lemma_jump(s0, s1, *self, pending);
            pending = pending.insert(k + 1, end_jump as int);
            Self::lemma_patch_ready(s0, *self, pending, k);
        }
        let ghost s2 = *self;
        self.patch_jump(else_jump, Ghost(k));
        proof {
            Self::lemma_patch(s0, s2, *self, pending, k);
            pending = pending.remove(k);
        }
        let ghost s3 = *self;
        self.emit_op(OpCode::OpPop);
        proof {
            Self::lemma_step(s0, s3, *self, pending);
        }
        let ghost s4 = *self;
        self.parse_precedence(Precedence::Or);
        proof {
            Self::lemma_step(s0, s4, *self, pending);
            Self::lemma_patch_ready(s0, *self, pending, k + 1);
        }
        let ghost s5 = *self;
        self.patch_jump(end_jump, Ghost(k + 1));
        proof {
            Self::lemma_patch(s0, s5, *self, pending, k + 1);
            assert(pending.remove(k + 1) =~= Map::<int, int>::empty());
            Self::lemma_pending_done(s0, *self);
        }
    }

    /// Compiles an expression.
    pub(super) fn expression(&mut self)
        requires
            old(self).inv(),
        ensures
            final(self).extends(old(self)),
            !old(self).at_end() ==> old(self).scanner.start < final(self).scanner.start,
            final(self)@ == model::expression(old(self)@, old(self).number),
            final(self)@.locals == old(self)@.locals,
        decreases old(self).remaining(), 1nat,
    {
        proof {
            reveal(model::expression);
            reveal(model::parse_precedence);
        }
        self.parse_precedence(Precedence::Assignment);
    }

    /// Compiles an expression of the given precedence or above: the token ahead is
    /// consumed and parsed by its prefix rule, and then, as long as the token ahead is an
    /// infix operator of at least that precedence, it is consumed and parsed by its infix
    /// rule. A token without a prefix rule is an error, and so is an `=` left over where
    /// assignment was allowed.
    #[verifier::rlimit(40)]
    pub(super) fn parse_precedence(&mut self, precedence: Precedence)
        requires
            old(self).inv(),
        ensures
            final(self).extends(old(self)),
            !old(self).at_end() ==> old(self).scanner.start < final(self).scanner.start,
            final(self)@ == model::parse_precedence(old(self)@, precedence, old(self).number),
            final(self)@.locals == old(self)@.locals,
        decreases old(self).remaining(), 0nat,
    {
        proof {
            reveal(model::parse_precedence);
            reveal(model::infix_loop);
            reveal(model::grouping_expression);
            reveal(model::unary_expression);
            reveal(model::variable);
        }
        let ghost s0 = *self;
        self.advance();
        let ghost s1 = *self;
        let kind = self.parser.previous.token_type;
        let rule = self.rules[kind.index()];
        let can_assign = precedence.level() <= Precedence::Assignment.level();
        match rule.prefix {
            None => {
                self.error_at_current("Expect expression.".as_bytes());
                proof {
                    Self::lemma_extends_trans(s0, s1, *self);
                }
                return ;
            },
            Some(ParseFn::Grouping) => self.grouping_expression(),
            Some(ParseFn::Unary) => self.unary_expression(),
            Some(ParseFn::Variable) => self.variable(can_assign),
            Some(ParseFn::String) => self.string(),
            Some(ParseFn::Number) => self.number(),
            Some(ParseFn::Literal) => self.literal(),
            Some(_) => {
                proof {
                    Self::lemma_extends_refl(s1);
                }
            },
        }
        proof {
            Self::lemma_extends_trans(s0, s1, *self);
        }
        let ghost s2 = *self;
        loop
            invariant_except_break
                model::infix_loop(self@, precedence, can_assign, self.number) == model::infix_loop(
                    s2@,
                    precedence,
                    can_assign,
                    s0.number,
                ),
            invariant
                self.extends(&s0),
                s0 == *old(self),
                s0.scanner.start < self.scanner.start,
                self@.locals == s0@.locals,
            ensures
                self.extends(&s0),
                s0.scanner.start < self.scanner.start,
                self@.locals == s0@.locals,
                self@ == model::infix_loop(s2@, precedence, can_assign, s0.number),
            decreases self.remaining(),
        {
            proof {
                reveal(model::infix_loop);
                reveal(model::call);
                reveal(model::binary_expression);
                reveal(model::and);
                reveal(model::or);
            }
            let ahead = self.rules[self.parser.current.token_type.index()];
            if precedence.level() > ahead.precedence.level() {
                break ;
            }
            let ghost s3 = *self;
            self.advance();
            proof {
                Self::lemma_extends_trans(s0, s3, *self);
            }
            let ghost s4 = *self;
            let infix = self.rules[self.parser.previous.token_type.index()].infix;
            match infix {
                Some(ParseFn::Call) => self.call(),
                Some(ParseFn::Binary) => self.binary_expression(),
                Some(ParseFn::And) => self.and(),
                Some(ParseFn::Or) => self.or(),
                _ => {
                    break ;
                },
            }
            proof {
                Self::lemma_extends_trans(s0, s4, *self);
            }
        }
        let ghost s5 = *self;
        if can_assign && self.check(TokenType::Equal) {
            self.advance();
            proof {
                Self::lemma_extends_trans(s0, s5, *self);
            }
            let ghost s6 = *self;
            self.error_at_current("Invalid assignment target.".as_bytes());
            proof {
                Self::lemma_extends_trans(s0, s6, *self);
            }
        }
    }
}

} // verus!
