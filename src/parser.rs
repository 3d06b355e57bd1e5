use vstd::prelude::*;
use crate::chunk::{jump_target, jumps_in_bounds, Ins};
use crate::compiler::{innermost, lemma_innermost_bound, Compiler, FunctionType, PResult, LOCALS_MAX, UPVALUES_MAX};
use crate::error::{ErrorLevel, ParseError};
use crate::module::LoxFunction;
use crate::span::Span;
use crate::token::{discriminant_of, Token, TokenType};
use crate::rules::{spec_from_level, spec_level, spec_rule, ParseFn, ParseRule, Precedence};
use crate::value::{LoxObject, Value};
use crate::error::ScanError;
use vstd::string::StringExecFns;

verus! {

/// At most this many parameters, and arguments in a call.
pub const MAX_ARGS: usize = 255;

/// A finished function: its spans run parallel to its code, every jump lands
/// inside the code, and the code ends with `Return`.
pub open spec fn function_ok(f: LoxFunction) -> bool {
    &&& f.chunk.wf()
    &&& jumps_in_bounds(f.chunk.spec_code())
    &&& f.chunk.spec_code().len() > 0
    &&& f.chunk.spec_code().last() == Ins::Return
}

/// The single-pass compiler: a Pratt parser over the token stream that
/// emits bytecode into a stack of function compilers.
pub struct Parser {
    tokens: Vec<Token>,
    numbers: Vec<Option<u64>>,
    current: usize,
    previous: usize,
    panic_mode: bool,
    pub diagnostics: Vec<ParseError>,
    compiler: Compiler,
    enclosing: Vec<Compiler>,
    base: usize,
    pub functions: Vec<LoxFunction>,
}

/// What every parsing step keeps: the input, the stack of compilers, and a
/// position that only moves forward.
pub open spec fn frame(a: &Parser, b: &Parser) -> bool {
    &&& a.spec_tokens() == b.spec_tokens()
    &&& a.spec_numbers() == b.spec_numbers()
    &&& a.spec_current() <= b.spec_current()
    &&& a.depth() == b.depth()
    &&& a.spec_base() == b.spec_base()
    &&& enclosing_kept(a, b)
    &&& diagnostics_kept(a, b)
}

/// Diagnostics are only ever added.
pub open spec fn diagnostics_kept(a: &Parser, b: &Parser) -> bool {
    &&& a.spec_diagnostics().len() <= b.spec_diagnostics().len()
    &&& forall|i: int| 0 <= i < a.spec_diagnostics().len() ==> #[trigger] b.spec_diagnostics()[i] == a.spec_diagnostics()[i]
}

/// The enclosing compilers keep their code, depth and kind; only their
/// locals' capture flags and their captured variables may change.
pub closed spec fn enclosing_kept(a: &Parser, b: &Parser) -> bool {
    &&& a.enclosing@.len() == b.enclosing@.len()
    &&& forall|i: int| 0 <= i < a.enclosing@.len() ==> {
        &&& (#[trigger] b.enclosing@[i]).code() == a.enclosing@[i].code()
        &&& b.enclosing@[i].scope_depth == a.enclosing@[i].scope_depth
        &&& b.enclosing@[i].fun_type == a.enclosing@[i].fun_type
        &&& b.enclosing@[i].function.arity == a.enclosing@[i].function.arity
        &&& i == 0 ==> b.enclosing@[i].upvalues == a.enclosing@[i].upvalues
    }
}

impl Parser {
    pub closed spec fn spec_tokens(&self) -> Seq<Token> {
        self.tokens@
    }

    pub closed spec fn spec_numbers(&self) -> Seq<Option<u64>> {
        self.numbers@
    }

    pub closed spec fn spec_current(&self) -> int {
        self.current as int
    }

    pub closed spec fn spec_base(&self) -> int {
        self.base as int
    }

    /// How many functions enclose the one being compiled.
    pub closed spec fn depth(&self) -> nat {
        self.enclosing@.len()
    }

    /// The diagnostics so far.
    pub closed spec fn spec_diagnostics(&self) -> Seq<ParseError> {
        self.diagnostics@
    }

    /// A block may open here and declare one more local.
    pub closed spec fn room(&self) -> bool {
        self.compiler.scope_depth < i32::MAX && self.compiler.locals@.len() < LOCALS_MAX
    }

    /// The parser is skipping tokens after an error.
    pub closed spec fn in_panic(&self) -> bool {
        self.panic_mode
    }

    /// The code of the function being compiled.
    pub closed spec fn spec_code(&self) -> Seq<Ins> {
        self.compiler.code()
    }

    /// The number of parameters of the function being compiled.
    pub closed spec fn arity(&self) -> usize {
        self.compiler.function.arity
    }

    /// Tokens left, the current one included.
    pub open spec fn remaining(&self) -> int {
        self.spec_tokens().len() - self.spec_current()
    }

    pub closed spec fn at_end(&self) -> bool {
        self.tokens@[self.current as int].kind is EOF
    }

    pub closed spec fn wf(&self) -> bool {
        &&& self.tokens@.len() > 0
        &&& self.tokens@.last().kind is EOF
        &&& forall|i: int| 0 <= i < self.tokens@.len() - 1 ==> !(#[trigger] self.tokens@[i].kind is EOF)
        &&& self.numbers@.len() == self.tokens@.len()
        &&& self.current < self.tokens@.len()
        &&& self.previous < self.tokens@.len()
        &&& self.compiler.wf()
        &&& forall|i: int| 0 <= i < self.enclosing@.len() ==> (#[trigger] self.enclosing@[i]).wf()
        &&& forall|i: int| 0 <= i < self.functions@.len() ==> function_ok(#[trigger] self.functions@[i])
        &&& self.outermost().upvalues@.len() == 0
    }

    /// The script's compiler: the current one at depth 0, else the first
    /// enclosing one. The script captures nothing.
    pub closed spec fn outermost(&self) -> Compiler {
        if self.enclosing@.len() == 0 { self.compiler } else { self.enclosing@[0] }
    }

    /// The compiled functions, in the order they were finished.
    pub closed spec fn spec_functions(&self) -> Seq<LoxFunction> {
        self.functions@
    }

    /// A parser over the given tokens, the last of which is the only
    /// end-of-file token. `numbers` holds, for each number token, the value
    /// the host read from its text. Functions will be numbered from `base`.
    pub fn new(tokens: Vec<Token>, numbers: Vec<Option<u64>>, base: usize) -> (r: Parser)
        requires
            tokens@.len() > 0,
            tokens@.last().kind is EOF,
            forall|i: int| 0 <= i < tokens@.len() - 1 ==> !(#[trigger] tokens@[i].kind is EOF),
            numbers@.len() == tokens@.len(),
        ensures
            r.wf(),
            r.depth() == 0,
            r.arity() == 0,
            r.spec_base() == base,
            r.spec_functions().len() == 0,
            r.spec_tokens() == tokens@,
            r.spec_numbers() == numbers@,
            r.spec_code().len() == 0,
            !ignorable_kind(tokens@[0].kind) ==> r.spec_current() == 0 && r.spec_diagnostics().len() == 0 && !r.in_panic(),
            r.room(),
    {
        let mut p = Parser {
            tokens,
            numbers,
            current: 0,
            previous: 0,
            panic_mode: false,
            diagnostics: Vec::new(),
            compiler: Compiler::new(),
            enclosing: Vec::new(),
            base,
            functions: Vec::new(),
        };
        p.skip_ignored();
        p
    }

    /// Moves past comments and scanner errors, reporting the first error
    /// outside panic mode.
    fn skip_ignored(&mut self)
        requires
            old(self).wf(),
        ensures
            final(self).compiler == old(self).compiler,
            final(self).enclosing == old(self).enclosing,
            final(self).wf(),
            frame(old(self), final(self)),
            final(self).previous == old(self).previous,
            final(self).functions == old(self).functions,
            old(self).current == final(self).current || !old(self).at_end(),
            !ignorable_kind(old(self).tokens@[old(self).current as int].kind) ==> final(self).current == old(self).current,
            !ignorable_kind(old(self).tokens@[old(self).current as int].kind) ==> quiet(old(self), final(self)),
    {
        while self.current < self.tokens.len() - 1 && self.ignorable(self.current)
            invariant
                self.wf(),
                frame(old(self), self),
                self.previous == old(self).previous,
                self.functions == old(self).functions,
                self.compiler == old(self).compiler,
                self.enclosing == old(self).enclosing,
                old(self).current == self.current || !old(self).at_end(),
                !ignorable_kind(old(self).tokens@[old(self).current as int].kind) ==> self.current == old(self).current
                    && quiet(old(self), self),
            decreases self.tokens@.len() - self.current,
        {
            match &self.tokens[self.current].kind {
                TokenType::Error(e) => {
                    if !self.panic_mode {
                        self.panic_mode = true;
                        let err = ParseError::ScanError { error: *e, span: self.tokens[self.current].span };
                        self.diagnostics.push(err);
                    }
                },
                _ => {},
            }
            self.current = self.current + 1;
        }
    }

    fn ignorable(&self, i: usize) -> (r: bool)
        requires
            i < self.tokens@.len(),
        ensures
            r == ignorable_kind(self.tokens@[i as int].kind),
    {
        match &self.tokens[i].kind {
            TokenType::Error(_) | TokenType::Comment(_) | TokenType::BlockComment(_, _) => true,
            _ => false,
        }
    }

    /// Makes the current token the previous one and moves to the next
    /// meaningful token; at the end of file it stays.
    fn advance(&mut self)
        requires
            old(self).wf(),
        ensures
            final(self).compiler == old(self).compiler,
            final(self).enclosing == old(self).enclosing,
            final(self).wf(),
            frame(old(self), final(self)),
            final(self).functions == old(self).functions,
            final(self).previous == old(self).current,
            !old(self).at_end() ==> final(self).spec_current() > old(self).spec_current(),
            old(self).current + 1 < old(self).tokens@.len() && !ignorable_kind(old(self).tokens@[old(self).current + 1].kind)
                ==> final(self).current == old(self).current + 1,
            old(self).current + 1 < old(self).tokens@.len() && !ignorable_kind(old(self).tokens@[old(self).current + 1].kind)
                ==> quiet(old(self), final(self)),
    {
        self.previous = self.current;
        if self.current < self.tokens.len() - 1 {
            self.current = self.current + 1;
            self.skip_ignored();
        }
    }

    pub closed spec fn previous_spec(&self) -> TokenType {
        self.tokens@[self.previous as int].kind
    }

    pub closed spec fn current_kind(&self) -> TokenType {
        self.tokens@[self.current as int].kind
    }

    /// Whether the current token has the kind of `expected`.
    fn check(&self, expected: &TokenType) -> (r: bool)
        requires
            self.wf(),
        ensures
            r == (discriminant_of(self.current_kind()) == discriminant_of(*expected)),
    {
        self.tokens[self.current].kind.same_kind(expected)
    }

    fn is_at_end(&self) -> (r: bool)
        requires
            self.wf(),
        ensures
            r == self.at_end(),
    {
        self.tokens[self.current].kind.is_eof()
    }

    /// Moves past the current token if it has the kind of `expected`.
    fn take(&mut self, expected: &TokenType) -> (r: bool)
        requires
            old(self).wf(),
        ensures
            final(self).compiler == old(self).compiler,
            final(self).enclosing == old(self).enclosing,
            final(self).wf(),
            frame(old(self), final(self)),
            final(self).functions == old(self).functions,
            r == (discriminant_of(old(self).current_kind()) == discriminant_of(*expected)),
            r && !(*expected is EOF) ==> final(self).spec_current() > old(self).spec_current(),
            !r ==> final(self).spec_current() == old(self).spec_current(),
            r && old(self).current + 1 < old(self).tokens@.len() && !ignorable_kind(old(self).tokens@[old(self).current + 1].kind)
                ==> final(self).current == old(self).current + 1,
            !r ==> quiet(old(self), final(self)),
            r && old(self).current + 1 < old(self).tokens@.len() && !ignorable_kind(old(self).tokens@[old(self).current + 1].kind)
                ==> quiet(old(self), final(self)),
    {
        if self.check(expected) {
            self.advance();
            true
        } else {
            false
        }
    }

    fn current_span(&self) -> (r: Span)
        requires
            self.wf(),
    {
        self.tokens[self.current].span
    }

    fn previous_span(&self) -> (r: Span)
        requires
            self.wf(),
    {
        self.tokens[self.previous].span
    }

    /// An error naming the current token.
    fn unexpected(&self, message: &str) -> (r: ParseError)
        requires
            self.wf(),
        ensures
            r is UnexpectedToken,
    {
        ParseError::UnexpectedToken {
            message: String::from_str(message),
            offending: self.tokens[self.current].clone(),
            expected: None,
        }
    }

    /// Moves past a token of the kind of `expected`, returning its span, or
    /// fails with `message`.
    fn consume(&mut self, expected: &TokenType, message: &str) -> (r: PResult<Span>)
        requires
            old(self).wf(),
            !(*expected is EOF),
        ensures
            final(self).compiler == old(self).compiler,
            final(self).enclosing == old(self).enclosing,
            final(self).wf(),
            frame(old(self), final(self)),
            final(self).functions == old(self).functions,
            r is Ok <==> discriminant_of(old(self).current_kind()) == discriminant_of(*expected),
            r is Ok ==> final(self).spec_current() > old(self).spec_current(),
            r is Err ==> final(self).spec_current() == old(self).spec_current(),
            r is Ok && old(self).current + 1 < old(self).tokens@.len() && !ignorable_kind(old(self).tokens@[old(self).current + 1].kind)
                ==> final(self).current == old(self).current + 1,
            r is Ok && old(self).current + 1 < old(self).tokens@.len() && !ignorable_kind(old(self).tokens@[old(self).current + 1].kind)
                ==> quiet(old(self), final(self)),
    {
        if self.check(expected) {
            let span = self.current_span();
            self.advance();
            Ok(span)
        } else {
            Err(self.unexpected(message))
        }
    }

    /// Moves past an identifier, returning its name and span.
    fn consume_ident(&mut self, message: &str) -> (r: PResult<(String, Span)>)
        requires
            old(self).wf(),
        ensures
            final(self).compiler == old(self).compiler,
            final(self).enclosing == old(self).enclosing,
            final(self).wf(),
            frame(old(self), final(self)),
            final(self).functions == old(self).functions,
            r is Ok ==> final(self).spec_current() > old(self).spec_current(),
            old(self).current_kind() is Identifier ==> r is Ok,
            r is Ok && old(self).current + 1 < old(self).tokens@.len() && !ignorable_kind(old(self).tokens@[old(self).current + 1].kind)
                ==> final(self).current == old(self).current + 1,
            old(self).current_kind() matches TokenType::Identifier(n) ==> (r matches Ok((m, _)) && m == n),
    {
        match &self.tokens[self.current].kind {
            TokenType::Identifier(name) => {
                let name = name.clone();
                let span = self.current_span();
                self.advance();
                Ok((name, span))
            },
            _ => Err(self.unexpected(message)),
        }
    }

    /// Skips to a statement boundary after an error: past the next `;`, or up
    /// to a keyword that starts a statement.
    fn sync(&mut self)
        requires
            old(self).wf(),
        ensures
            final(self).compiler == old(self).compiler,
            final(self).enclosing == old(self).enclosing,
            final(self).wf(),
            frame(old(self), final(self)),
            final(self).functions == old(self).functions,
    {
        self.panic_mode = false;
        while !self.is_at_end()
            invariant
                self.wf(),
                frame(old(self), self),
                self.functions == old(self).functions,
                self.compiler == old(self).compiler,
                self.enclosing == old(self).enclosing,
            decreases self.tokens@.len() - self.current,
        {
            match &self.tokens[self.current].kind {
                TokenType::Semicolon => {
                    self.advance();
                    return;
                },
                TokenType::Class | TokenType::For | TokenType::Fun | TokenType::If | TokenType::Print
                | TokenType::Return | TokenType::Var | TokenType::While => {
                    return;
                },
                _ => {
                    self.advance();
                },
            }
        }
    }

    /// Records a diagnostic.
    fn report(&mut self, e: ParseError)
        requires
            old(self).wf(),
        ensures
            final(self).diagnostics@ == old(self).diagnostics@.push(e),
            final(self).wf(),
            frame(old(self), final(self)),
            final(self).functions == old(self).functions,
            final(self).current == old(self).current,
            final(self).previous == old(self).previous,
            final(self).compiler == old(self).compiler,
    {
        self.diagnostics.push(e);
    }

    /// Appends an instruction to the function being compiled.
    fn emit(&mut self, ins: Ins, span: Span) -> (r: usize)
        requires
            old(self).wf(),
            crate::compiler::lands_within(ins, old(self).compiler.code().len() as int),
        ensures
            final(self).wf(),
            frame(old(self), final(self)),
            final(self).functions == old(self).functions,
            final(self).current == old(self).current,
            final(self).previous == old(self).previous,
            r == old(self).compiler.code().len(),
            final(self).compiler.code() == old(self).compiler.code().push(ins),
            final(self).compiler.scope_depth == old(self).compiler.scope_depth,
            final(self).compiler.locals == old(self).compiler.locals,
            final(self).compiler.fun_type == old(self).compiler.fun_type,
            final(self).compiler.function.arity == old(self).compiler.function.arity,
            quiet(old(self), final(self)),
    {
        self.compiler.emit(ins, span)
    }
}


/// The code one literal token stands for, if it is a literal.
pub open spec fn literal_code(p: &Parser, i: int) -> Option<Ins> {
    match p.spec_tokens()[i].kind {
        TokenType::True => Some(Ins::True),
        TokenType::False => Some(Ins::False),
        TokenType::Nil => Some(Ins::Nil),
        TokenType::String(t) => Some(Ins::Constant(Value::Object(LoxObject::String(t)))),
        TokenType::Number(_) => match p.spec_numbers()[i] {
            Some(bits) => Some(Ins::Constant(Value::Number(bits))),
            None => None,
        },
        _ => None,
    }
}

/// A prefix routine for a literal emits exactly that literal and leaves the
/// position alone.
spec fn leaf_step(a: &Parser, b: &Parser, f: ParseFn, ok: bool) -> bool {
    (f == ParseFn::Literal || f == ParseFn::Number || f == ParseFn::String)
        && spec_rule(a.previous_spec()).0 == f
        && literal_code(a, a.previous as int) is Some
        ==> ok && b.current == a.current && quiet(a, b)
            && b.compiler.code() == a.compiler.code().push(literal_code(a, a.previous as int)->Some_0)
}

/// The token at `i` ends an operand parsed at `prec`: no infix operator of
/// that strength, and no `=` where an assignment could stand.
pub open spec fn ends_operand(k: TokenType, prec: Precedence) -> bool {
    &&& (spec_level(spec_rule(k).2) < spec_level(prec) || k is EOF)
    &&& !(k is Equal && spec_level(prec) <= 2)
}

/// From index `i` the tokens are `n` names separated by commas and closed
/// by `)`, with nothing else between them.
pub open spec fn names_from(t: Seq<Token>, i: int, n: nat) -> bool
    decreases n,
{
    if n == 0 {
        false
    } else {
        &&& 0 <= i && i + 1 < t.len()
        &&& t[i].kind is Identifier
        &&& if n == 1 { t[i + 1].kind is RightParen } else { t[i + 1].kind is Comma && names_from(t, i + 2, (n - 1) as nat) }
    }
}

/// From index `i` the tokens are `n` literals separated by commas and
/// closed by `)`, with nothing else between them.
pub open spec fn args_from(p: &Parser, i: int, n: nat) -> bool
    decreases n,
{
    if n == 0 {
        false
    } else {
        &&& 0 <= i && i + 1 < p.spec_tokens().len()
        &&& literal_code(p, i) is Some
        &&& if n == 1 { p.spec_tokens()[i + 1].kind is RightParen } else {
            p.spec_tokens()[i + 1].kind is Comma && args_from(p, i + 2, (n - 1) as nat)
        }
    }
}

/// A list of literal arguments has one length.
pub proof fn lemma_args_unique(p: &Parser, i: int, n: nat, m: nat)
    requires
        args_from(p, i, n),
        args_from(p, i, m),
    ensures
        n == m,
    decreases n,
{
    if n > 1 && m > 1 {
        lemma_args_unique(p, i + 2, (n - 1) as nat, (m - 1) as nat);
    }
}

/// After `( ` and `n` parameter names with their commas and `)`, the
/// tokens are `{ }`.
pub open spec fn empty_block_after(p: &Parser, n: nat) -> bool {
    let i = p.spec_current() + 2 * n + 1;
    &&& i + 1 < p.spec_tokens().len()
    &&& p.spec_tokens()[i].kind is LeftBrace
    &&& p.spec_tokens()[i + 1].kind is RightBrace
}

/// The tokens from the current one are `{ }`.
pub open spec fn empty_block_at(p: &Parser) -> bool {
    let c = p.spec_current();
    &&& c + 1 < p.spec_tokens().len()
    &&& p.spec_tokens()[c].kind is LeftBrace
    &&& p.spec_tokens()[c + 1].kind is RightBrace
}

/// A list of names has one length.
pub proof fn lemma_names_unique(t: Seq<Token>, i: int, n: nat, m: nat)
    requires
        names_from(t, i, n),
        names_from(t, i, m),
    ensures
        n == m,
    decreases n,
{
    if n > 1 && m > 1 {
        lemma_names_unique(t, i + 2, (n - 1) as nat, (m - 1) as nat);
    }
}

/// Comments and scanner errors, which the parser steps over.
pub open spec fn ignorable_kind(k: TokenType) -> bool {
    k is Error || k is Comment || k is BlockComment
}

/// At token `i` stands `print <literal>;`, and the token after it is
/// neither a comment nor a scanner error.
pub open spec fn print_stmt_at(p: &Parser, i: int) -> bool {
    &&& 0 <= i && i + 3 < p.spec_tokens().len()
    &&& p.spec_tokens()[i].kind is Print
    &&& literal_code(p, i + 1) is Some
    &&& p.spec_tokens()[i + 2].kind is Semicolon
    &&& !ignorable_kind(p.spec_tokens()[i + 3].kind)
}

/// From token `i` the program is `k` print statements of literals, then
/// the end of file.
pub open spec fn print_program(p: &Parser, i: int, k: nat) -> bool
    decreases k,
{
    if k == 0 {
        0 <= i < p.spec_tokens().len() && p.spec_tokens()[i].kind is EOF
    } else {
        print_stmt_at(p, i) && print_program(p, i + 3, (k - 1) as nat)
    }
}

/// The code of `k` print statements from token `i`: each literal, then `Print`.
pub open spec fn print_code(p: &Parser, i: int, k: nat) -> Seq<Ins>
    decreases k,
{
    if k == 0 {
        Seq::empty()
    } else {
        seq![literal_code(p, i + 1)->Some_0, Ins::Print] + print_code(p, i + 3, (k - 1) as nat)
    }
}

proof fn lemma_print_code_step(p: &Parser, i: int, j: nat)
    ensures
        print_code(p, i, j + 1) == print_code(p, i, j) + seq![literal_code(p, i + 3 * j + 1)->Some_0, Ins::Print],
    decreases j,
{
    if j == 0 {
        assert(print_code(p, i + 3, 0) =~= Seq::<Ins>::empty());
        assert(print_code(p, i, 1) =~= print_code(p, i, 0) + seq![literal_code(p, i + 1)->Some_0, Ins::Print]);
    } else {
        lemma_print_code_step(p, i + 3, (j - 1) as nat);
        assert(print_code(p, i, j + 1) =~= print_code(p, i, j)
            + seq![literal_code(p, i + 3 * j + 1)->Some_0, Ins::Print]);
    }
}

proof fn lemma_print_program_unique(p: &Parser, i: int, k: nat, m: nat)
    requires
        print_program(p, i, k),
        print_program(p, i, m),
    ensures
        k == m,
    decreases k,
{
    if k > 0 && m > 0 {
        lemma_print_program_unique(p, i + 3, (k - 1) as nat, (m - 1) as nat);
    }
}

/// The instruction a literal token other than a number stands for.
pub open spec fn plain_literal(k: TokenType) -> Option<Ins> {
    match k {
        TokenType::True => Some(Ins::True),
        TokenType::False => Some(Ins::False),
        TokenType::Nil => Some(Ins::Nil),
        TokenType::String(t) => Some(Ins::Constant(Value::Object(LoxObject::String(t)))),
        _ => None,
    }
}

/// From token `i` the tokens are `k` statements `print <literal>;` with
/// literals other than numbers, then the end of file.
pub open spec fn literal_prints(t: Seq<Token>, i: int, k: nat) -> bool
    decreases k,
{
    if k == 0 {
        0 <= i < t.len() && t[i].kind is EOF
    } else {
        &&& 0 <= i && i + 3 < t.len()
        &&& t[i].kind is Print
        &&& plain_literal(t[i + 1].kind) is Some
        &&& t[i + 2].kind is Semicolon
        &&& literal_prints(t, i + 3, (k - 1) as nat)
    }
}

/// The code of those statements: each literal, then `Print`.
pub open spec fn literal_print_code(t: Seq<Token>, i: int, k: nat) -> Seq<Ins>
    decreases k,
{
    if k == 0 {
        Seq::empty()
    } else {
        seq![plain_literal(t[i + 1].kind)->Some_0, Ins::Print] + literal_print_code(t, i + 3, (k - 1) as nat)
    }
}

/// Such a token sequence is a print program for any parser over it.
pub proof fn lemma_literal_prints(p: &Parser, i: int, k: nat)
    requires
        literal_prints(p.spec_tokens(), i, k),
    ensures
        print_program(p, i, k),
        print_code(p, i, k) == literal_print_code(p.spec_tokens(), i, k),
    decreases k,
{
    if k > 0 {
        lemma_literal_prints(p, i + 3, (k - 1) as nat);
        let t = p.spec_tokens();
        assert(t[i + 3].kind is Print || t[i + 3].kind is EOF) by {
            if k - 1 > 0 {} else {}
        }
        assert(literal_code(p, i + 1) == plain_literal(t[i + 1].kind));
    }
}

/// From offset `from` on, `code` holds a backward `Jump` to an offset at
/// or after `from`.
pub open spec fn has_back_jump(code: Seq<Ins>, from: int) -> bool {
    exists|j: int| from <= j < code.len() && (#[trigger] code[j]) is Jump
        && (jump_target(code[j], j) matches Some(t) && from <= t <= j)
}

/// `code` ends with a `Pop` that a forward jump at or after `from` lands on.
pub open spec fn exit_lands(code: Seq<Ins>, from: int) -> bool {
    &&& code.len() > 0 && code.last() == Ins::Pop
    &&& exists|j: int| from <= j < code.len() - 1 && jump_target(#[trigger] code[j], j) == Some(code.len() - 1)
}

/// The innermost local called `n` of `c` is still being initialised.
pub open spec fn reads_uninitialised(c: Compiler, n: Seq<char>) -> bool {
    innermost(c.locals@, n) matches Some(i) && c.locals@[i].depth == -1
}

/// An error (not a warning) about a variable read in its own initializer.
pub open spec fn is_init_error(r: PResult<Span>) -> bool {
    r is Err && (r->Err_0 matches ParseError::Error { level, .. } && level == ErrorLevel::Error)
}

/// From token `c` stands `var x = x` (the same name twice).
pub open spec fn self_init_at(p: &Parser, c: int) -> bool {
    self_init_tokens(p.spec_tokens(), c)
}

/// From token `c` of `t` stands `var x = x` (the same name twice).
pub open spec fn self_init_tokens(t: Seq<Token>, c: int) -> bool {
    &&& 0 <= c && c + 4 < t.len()
    &&& t[c].kind is Var
    &&& t[c + 1].kind is Identifier
    &&& t[c + 2].kind is Equal
    &&& t[c + 3].kind is Identifier
    &&& t[c + 1].kind->Identifier_0@ == t[c + 3].kind->Identifier_0@
}

/// A diagnostic of level `Error` was added after the first `from`.
pub open spec fn error_added(d: Seq<ParseError>, from: int) -> bool {
    exists|i: int| from <= i < d.len() && (#[trigger] d[i]).spec_level() == ErrorLevel::Error
}

/// From token `c` stands `{ var x = x`: a block whose first statement
/// reads its own variable in its initializer.
pub open spec fn self_init_block_at(p: &Parser, c: int) -> bool {
    self_init_block_tokens(p.spec_tokens(), c)
}

/// From token `c` of `t` stands `{ var x = x`.
pub open spec fn self_init_block_tokens(t: Seq<Token>, c: int) -> bool {
    &&& 0 <= c < t.len()
    &&& t[c].kind is LeftBrace
    &&& self_init_tokens(t, c + 1)
}

/// An added error stays in the log.
pub proof fn lemma_error_kept(a: &Parser, b: &Parser, from: int)
    requires
        0 <= from,
        diagnostics_kept(a, b),
        error_added(a.spec_diagnostics(), from),
    ensures
        error_added(b.spec_diagnostics(), from),
{
    let d = a.spec_diagnostics();
    assert(exists|i: int| from <= i < d.len() && (#[trigger] d[i]).spec_level() == ErrorLevel::Error);
    let i = choose|i: int| from <= i < d.len() && (#[trigger] d[i]).spec_level() == ErrorLevel::Error;
    assert(b.spec_diagnostics()[i] == d[i]);
}

/// No diagnostic was added and panic mode is as it was.
pub closed spec fn quiet(a: &Parser, b: &Parser) -> bool {
    b.diagnostics == a.diagnostics && b.panic_mode == a.panic_mode
}

/// One parsing step: the parser stays well formed, keeps its frame, only
/// appends to the code of the current function and leaves its scope depth.
pub closed spec fn stepped(a: &Parser, b: &Parser) -> bool {
    &&& b.wf()
    &&& frame(a, b)
    &&& a.compiler.code().len() <= b.compiler.code().len()
    &&& a.compiler.scope_depth == b.compiler.scope_depth
    &&& a.compiler.fun_type == b.compiler.fun_type
    &&& a.compiler.function.arity == b.compiler.function.arity
}

/// The step consumed at least one token if any was left.
pub closed spec fn progressed(a: &Parser, b: &Parser) -> bool {
    !a.at_end() ==> b.spec_current() > a.spec_current()
}

impl Parser {
    fn code_len(&self) -> (r: usize)
        ensures
            r == self.compiler.code().len(),
    {
        self.compiler.function.chunk.len()
    }

    fn previous_kind(&self) -> (r: &TokenType)
        requires
            self.wf(),
        ensures
            *r == self.tokens@[self.previous as int].kind,
    {
        &self.tokens[self.previous].kind
    }

    /// Binds the declared variable: a local becomes initialised, a global is
    /// defined by name.
    fn define_var(&mut self, name: String, span: Span)
        requires
            old(self).wf(),
        ensures
            stepped(old(self), final(self)),
            final(self).current == old(self).current,
            final(self).compiler.locals@.len() == old(self).compiler.locals@.len(),
            old(self).compiler.scope_depth == 0 ==> final(self).compiler.code() == old(self).compiler.code().push(Ins::DefGlobal(name)),
            old(self).compiler.scope_depth > 0 ==> final(self).compiler.code() == old(self).compiler.code(),
            final(self).functions == old(self).functions,
    {
        if self.compiler.scope_depth > 0 {
            self.compiler.mark_init();
        } else {
            self.emit(Ins::DefGlobal(name), span);
        }
    }

    /// Moves past an identifier and declares it in the current scope; a
    /// redeclaration is reported as a warning.
    fn consume_var(&mut self, message: &str) -> (r: PResult<(String, Span)>)
        requires
            old(self).wf(),
        ensures
            stepped(old(self), final(self)),
            r is Ok ==> final(self).spec_current() > old(self).spec_current(),
            old(self).current_kind() is Identifier && old(self).compiler.scope_depth > 0
                && old(self).compiler.locals@.len() < LOCALS_MAX ==> r is Ok,
            r is Ok && old(self).compiler.scope_depth > 0
                ==> final(self).compiler.locals@.len() == old(self).compiler.locals@.len() + 1,
            final(self).compiler.code() == old(self).compiler.code(),
            final(self).functions == old(self).functions,
            r is Ok && old(self).current + 1 < old(self).tokens@.len() && !ignorable_kind(old(self).tokens@[old(self).current + 1].kind)
                ==> final(self).current == old(self).current + 1,
    {
        let (name, span) = self.consume_ident(message)?;
        match self.compiler.declare_variable(&name, span) {
            Ok(()) => {},
            Err(e) => {
                if e.get_level() == ErrorLevel::Warning {
                    self.report(e);
                } else {
                    return Err(e);
                }
            },
        }
        Ok((name, span))
    }

    /// Compiles declarations up to the end of the source.
    pub fn parse_program(&mut self)
        requires
            old(self).wf(),
        ensures
            stepped(old(self), final(self)),
            final(self).wf(),
            final(self).depth() == old(self).depth(),
            final(self).arity() == old(self).arity(),
            final(self).at_end(),
            self_init_block_at(old(self), old(self).spec_current()) && old(self).room() && !old(self).in_panic()
                ==> error_added(final(self).spec_diagnostics(), old(self).spec_diagnostics().len() as int),
            forall|k: nat| #[trigger] print_program(old(self), old(self).spec_current(), k) && !old(self).in_panic()
                ==> quiet(old(self), final(self)) && final(self).spec_diagnostics() == old(self).spec_diagnostics()
                    && final(self).spec_code() == old(self).spec_code() + print_code(old(self), old(self).spec_current(), k),
    {
        let ghost c = old(self).spec_current();
        let ghost listed = !old(self).in_panic() && exists|k: nat| #[trigger] print_program(old(self), c, k);
        let ghost total: nat = if listed { choose|k: nat| #[trigger] print_program(old(self), c, k) } else { 0 };
        let ghost mut done: nat = 0;
        let ghost want = self_init_block_at(old(self), c) && old(self).room() && !old(self).in_panic();
        let ghost n0 = old(self).spec_diagnostics().len() as int;
        let ghost mut hit = false;
        proof {
            if listed {
                assert forall|k: nat| #[trigger] print_program(old(self), c, k) implies k == total by {
                    lemma_print_program_unique(old(self), c, k, total);
                }
                assert(old(self).compiler.code() =~= old(self).compiler.code() + print_code(old(self), c, 0));
            }
        }
        while !self.is_at_end()
            invariant
                stepped(old(self), self),
                c == old(self).spec_current(),
                listed == (!old(self).in_panic() && exists|k: nat| #[trigger] print_program(old(self), c, k)),
                listed ==> forall|k: nat| #[trigger] print_program(old(self), c, k) ==> k == total,
                want == (self_init_block_at(old(self), c) && old(self).room() && !old(self).in_panic()),
                n0 == old(self).spec_diagnostics().len(),
                want && !hit ==> *self == *old(self),
                hit ==> error_added(self.spec_diagnostics(), n0),
                listed ==> done <= total && self.spec_current() == c + 3 * done
                    && print_program(old(self), c + 3 * done, (total - done) as nat)
                    && quiet(old(self), self)
                    && self.compiler.code() == old(self).compiler.code() + print_code(old(self), c, done),
            decreases self.remaining(),
        {
            proof {
                if listed {
                    assert(done < total);
                    lemma_print_code_step(old(self), c, done);
                }
            }
            let ghost before = *self;
            self.declaration();
            proof {
                if hit {
                    lemma_error_kept(&before, self, n0);
                } else if want {
                    hit = true;
                }
            }
            proof {
                if listed {
                    assert(self.compiler.code() =~= old(self).compiler.code() + print_code(old(self), c, done + 1));
                    done = done + 1;
                }
            }
        }
    }

    /// A declaration or a statement. An error is recorded, and the parser
    /// skips to the next statement boundary.
    fn declaration(&mut self)
        requires
            old(self).wf(),
        ensures
            stepped(old(self), final(self)),
            progressed(old(self), final(self)),
            print_stmt_at(old(self), old(self).spec_current()) && !old(self).panic_mode
                ==> final(self).spec_current() == old(self).spec_current() + 3 && quiet(old(self), final(self))
                && final(self).compiler.code() == old(self).compiler.code()
                    .push(literal_code(old(self), old(self).spec_current() + 1)->Some_0).push(Ins::Print),
            self_init_at(old(self), old(self).spec_current()) && old(self).compiler.scope_depth > 0
                && old(self).compiler.locals@.len() < LOCALS_MAX
                ==> error_added(final(self).spec_diagnostics(), old(self).spec_diagnostics().len() as int),
            self_init_block_at(old(self), old(self).spec_current()) && old(self).room() && !old(self).panic_mode
                ==> error_added(final(self).spec_diagnostics(), old(self).spec_diagnostics().len() as int),
        decreases old(self).remaining(), 30int,
    {
        let start = self.current;
        let r = if self.check(&TokenType::Var) {
            self.var_decl()
        } else if self.check(&TokenType::Fun) {
            self.fun_decl()
        } else {
            self.statement()
        };
        let ghost n0 = old(self).spec_diagnostics().len() as int;
        let ghost err_in = self_init_at(old(self), old(self).spec_current()) && old(self).compiler.scope_depth > 0
            && old(self).compiler.locals@.len() < LOCALS_MAX;
        let ghost k0 = self.spec_diagnostics().len() as int;
        let ghost after_stmt = *self;
        let ghost blk = self_init_block_at(old(self), old(self).spec_current()) && old(self).room() && !old(self).panic_mode;
        if let Err(e) = r {
            self.report(e);
            self.panic_mode = true;
        }
        proof {
            if err_in {
                assert(self.spec_diagnostics()[k0].spec_level() == ErrorLevel::Error);
                assert(error_added(self.spec_diagnostics(), n0));
            }
        }
        let ghost mid = *self;
        if self.panic_mode {
            self.sync();
        }
        if self.current == start && !self.is_at_end() {
            self.advance();
        }
        proof {
            if err_in {
                assert(mid.spec_diagnostics()[k0].spec_level() == ErrorLevel::Error);
                assert(diagnostics_kept(&mid, self));
                assert(self.spec_diagnostics()[k0] == mid.spec_diagnostics()[k0]);
                assert(error_added(self.spec_diagnostics(), n0));
            }
            if blk {
                assert(diagnostics_kept(&after_stmt, self));
                lemma_error_kept(&after_stmt, self, n0);
            }
        }
    }

    /// `var name [= init];`
    fn var_decl(&mut self) -> (r: PResult<()>)
        requires
            old(self).wf(),
            old(self).current_kind() is Var,
        ensures
            stepped(old(self), final(self)),
            r is Ok && old(self).compiler.scope_depth == 0 ==> final(self).compiler.code().last() is DefGlobal,
            self_init_at(old(self), old(self).spec_current()) && old(self).compiler.scope_depth > 0
                && old(self).compiler.locals@.len() < LOCALS_MAX
                ==> r is Err && (r->Err_0 matches ParseError::Error { level, .. } && level == ErrorLevel::Error),
        decreases old(self).remaining(), 29int,
    {
        let var_span = self.consume(&TokenType::Var, "Expected `var`")?;
        let (name, name_span) = self.consume_ident("Expected variable name")?;
        match self.compiler.declare_variable(&name, name_span) {
            Ok(()) => {},
            Err(e) => {
                if e.get_level() == ErrorLevel::Warning {
                    self.report(e);
                } else {
                    return Err(e);
                }
            },
        }
        if self.take(&TokenType::Equal) {
            self.parse_expr()?;
        } else {
            self.emit(Ins::Nil, name_span);
        }
        let semicolon = self.consume(&TokenType::Semicolon, "Expected `;` after variable declaration")?;
        self.define_var(name, var_span.to(semicolon));
        Ok(())
    }

    /// `fun name(params) { body }`
    fn fun_decl(&mut self) -> (r: PResult<()>)
        requires
            old(self).wf(),
            old(self).current_kind() is Fun,
        ensures
            stepped(old(self), final(self)),
        decreases old(self).remaining(), 29int,
    {
        let fun_span = self.consume(&TokenType::Fun, "Expected `fun`")?;
        let (name, name_span) = self.consume_var("Expected function name")?;
        self.compiler.mark_init();
        self.function(name.clone(), fun_span)?;
        self.define_var(name, name_span);
        Ok(())
    }

    /// Compiles a function's parameters and body in a compiler of its own,
    /// registers the function and emits the closure that captures its
    /// variables.
    fn function(&mut self, name: String, span: Span) -> (r: PResult<()>)
        requires
            old(self).wf(),
        ensures
            stepped(old(self), final(self)),
            forall|n: nat| old(self).current_kind() is LeftParen
                && #[trigger] names_from(old(self).spec_tokens(), old(self).spec_current() + 1, n) ==> {
                &&& n <= MAX_ARGS && r is Ok ==> final(self).spec_functions().last().arity == n
                &&& n <= MAX_ARGS && empty_block_after(old(self), n)
                    && old(self).spec_functions().len() < usize::MAX - old(self).spec_base()
                    ==> r is Ok && final(self).spec_functions().last().chunk.spec_code() == seq![Ins::Nil, Ins::Return]
                &&& n > MAX_ARGS ==> r is Err && (r->Err_0 matches ParseError::Error { level, message, .. }
                    && level == ErrorLevel::Error && message@ == "Can't have more than 255 parameters"@)
            },
            r is Ok ==> final(self).spec_functions().len() > 0
                && (final(self).compiler.code().last() matches Ins::Closure(idx, _)
                    && idx == final(self).spec_base() + final(self).spec_functions().len() - 1),
        decreases old(self).remaining(), 28int,
    {
        let mut inner = Compiler::build(name, FunctionType::Function);
        std::mem::swap(&mut self.compiler, &mut inner);
        self.enclosing.push(inner);
        let body = self.function_body(span);
        if body.is_ok() {
            let prev = self.previous_span();
            self.compiler.emit_return(prev);
        }
        let mut done = self.enclosing.pop().unwrap();
        std::mem::swap(&mut self.compiler, &mut done);
        let block = body?;
        if self.functions.len() >= usize::MAX - self.base {
            return Err(ParseError::StackOverflow { message: String::from_str("Too many functions"), span });
        }
        let index = self.base + self.functions.len();
        let Compiler { function, upvalues, .. } = done;
        self.functions.push(function);
        self.emit(Ins::Closure(index, upvalues), span.to(block));
        Ok(())
    }

    /// `(params) { body }` of a function, in its own compiler.
    fn function_body(&mut self, span: Span) -> (r: PResult<Span>)
        requires
            old(self).wf(),
            old(self).arity() == 0,
            old(self).compiler.locals@.len() == 1,
            old(self).compiler.scope_depth == 0,
        ensures
            final(self).wf(),
            frame(old(self), final(self)),
            r is Ok ==> final(self).arity() <= MAX_ARGS,
            forall|n: nat| old(self).current_kind() is LeftParen
                && #[trigger] names_from(old(self).spec_tokens(), old(self).spec_current() + 1, n) ==> {
                &&& n <= MAX_ARGS && r is Ok ==> final(self).arity() == n
                &&& n > MAX_ARGS ==> r is Err && (r->Err_0 matches ParseError::Error { level, message, .. }
                    && level == ErrorLevel::Error && message@ == "Can't have more than 255 parameters"@)
            },
            forall|n: nat| old(self).current_kind() is LeftParen
                && #[trigger] names_from(old(self).spec_tokens(), old(self).spec_current() + 1, n)
                && n <= MAX_ARGS && empty_block_after(old(self), n)
                ==> r is Ok && final(self).arity() == n && final(self).compiler.code() == old(self).compiler.code()
                    && final(self).functions == old(self).functions,
        decreases old(self).remaining(), 27int,
    {
        let ghost t = old(self).spec_tokens();
        let ghost c = old(self).spec_current();
        let ghost listed = old(self).current_kind() is LeftParen && exists|n: nat| #[trigger] names_from(t, c + 1, n);
        let ghost count: nat = if listed { choose|n: nat| #[trigger] names_from(t, c + 1, n) } else { 0 };
        proof {
            if listed {
                assert(names_from(t, c + 1, count));
                assert forall|n: nat| #[trigger] names_from(t, c + 1, n) implies n == count by {
                    lemma_names_unique(t, c + 1, n, count);
                }
            }
        }
        self.compiler.begin_scope(span)?;
        self.consume(&TokenType::LeftParen, "Expected `(` after function name")?;
        if !self.check(&TokenType::RightParen) {
            let start = self.previous_span();
            loop
                invariant_except_break
                    listed ==> self.arity() < count && self.spec_current() == c + 1 + 2 * self.arity()
                        && names_from(t, c + 1 + 2 * self.arity(), (count - self.arity()) as nat),
                invariant
                    self.wf(),
                    frame(old(self), self),
                    self.remaining() < old(self).remaining(),
                    self.arity() <= MAX_ARGS,
                    t == old(self).spec_tokens(),
                    self.compiler.scope_depth == 1,
                    self.compiler.locals@.len() == 1 + self.arity(),
                    self.compiler.code() == old(self).compiler.code(),
                    self.functions == old(self).functions,
                    listed ==> self.arity() <= count,
                    c == old(self).spec_current(),
                    listed == (old(self).current_kind() is LeftParen && exists|n: nat| #[trigger] names_from(t, c + 1, n)),
                    listed ==> forall|n: nat| #[trigger] names_from(t, c + 1, n) ==> n == count,
                ensures
                    listed ==> self.arity() == count && count <= MAX_ARGS && self.spec_current() == c + 2 * count
                        && t[c + 2 * count].kind is RightParen,
                    self.compiler.code() == old(self).compiler.code(),
                    self.arity() <= MAX_ARGS,
                    self.compiler.scope_depth == 1,
                decreases self.remaining(),
            {
                if self.compiler.function.arity >= MAX_ARGS {
                    return Err(ParseError::Error {
                        level: ErrorLevel::Error,
                        message: String::from_str("Can't have more than 255 parameters"),
                        span: start.to(self.current_span()),
                    });
                }
                let ghost a = self.arity();
                self.compiler.function.arity = self.compiler.function.arity + 1;
                proof {
                    if listed {
                        assert(self.current_kind() is Identifier);
                        assert(self.compiler.locals@.len() < LOCALS_MAX);
                        assert(self.compiler.scope_depth > 0);
                        if count - a >= 2 {
                            assert(names_from(t, c + 1 + 2 * a + 2, (count - a - 1) as nat));
                        }
                    }
                }
                let (param, pspan) = self.consume_var("Expected parameter name")?;
                self.define_var(param, pspan);
                if !self.take(&TokenType::Comma) {
                    break;
                }
            }
        } else {
            proof {
                if listed {
                    assert(t[c + 1].kind is Identifier);
                }
            }
        }
        let ghost before_close = self.spec_current();
        self.consume(&TokenType::RightParen, "Expected `)` after parameters")?;
        proof {
            if listed && count <= MAX_ARGS && empty_block_after(old(self), count) {
                assert(before_close == c + 2 * count);
                assert(self.spec_current() == c + 2 * count + 1);
                assert(empty_block_at(self));
            }
        }
        self.parse_block()
    }

    /// A statement.
    fn statement(&mut self) -> (r: PResult<()>)
        requires
            old(self).wf(),
        ensures
            stepped(old(self), final(self)),
            print_stmt_at(old(self), old(self).spec_current()) ==> r is Ok
                && final(self).spec_current() == old(self).spec_current() + 3 && quiet(old(self), final(self))
                && final(self).compiler.code() == old(self).compiler.code()
                    .push(literal_code(old(self), old(self).spec_current() + 1)->Some_0).push(Ins::Print),
            self_init_block_at(old(self), old(self).spec_current()) && old(self).room()
                ==> error_added(final(self).spec_diagnostics(), old(self).spec_diagnostics().len() as int),
        decreases old(self).remaining(), 27int,
    {
        if self.check(&TokenType::LeftBrace) {
            let open = self.current_span();
            self.compiler.begin_scope(open)?;
            let r = self.parse_block();
            let close = self.previous_span();
            let ghost mid = *self;
            self.compiler.end_scope(close);
            proof {
                if self_init_block_at(old(self), old(self).spec_current()) && old(self).room() {
                    lemma_error_kept(&mid, self, old(self).spec_diagnostics().len() as int);
                }
            }
            r?;
            Ok(())
        } else if self.check(&TokenType::If) {
            self.parse_if()
        } else if self.check(&TokenType::While) {
            self.parse_while()
        } else if self.check(&TokenType::For) {
            self.parse_for()
        } else if self.check(&TokenType::Print) {
            self.parse_print()
        } else if self.check(&TokenType::Return) {
            self.parse_return()
        } else {
            self.expression_statement()
        }
    }

    /// `{ declarations }`; returns the span of the whole block.
    fn parse_block(&mut self) -> (r: PResult<Span>)
        requires
            old(self).wf(),
        ensures
            stepped(old(self), final(self)),
            empty_block_at(old(self)) ==> r is Ok && final(self).compiler.code() == old(self).compiler.code()
                && final(self).functions == old(self).functions,
            self_init_block_at(old(self), old(self).spec_current()) && old(self).compiler.scope_depth > 0
                && old(self).compiler.locals@.len() < LOCALS_MAX
                ==> error_added(final(self).spec_diagnostics(), old(self).spec_diagnostics().len() as int),
        decreases old(self).remaining(), 26int,
    {
        let ghost empty = empty_block_at(old(self));
        let ghost want = self_init_block_at(old(self), old(self).spec_current()) && old(self).compiler.scope_depth > 0
            && old(self).compiler.locals@.len() < LOCALS_MAX;
        let ghost n0 = old(self).spec_diagnostics().len() as int;
        let ghost mut hit = false;
        let start = self.consume(&TokenType::LeftBrace, "Expected block to be opened")?;
        while !self.check(&TokenType::RightBrace) && !self.is_at_end()
            invariant
                stepped(old(self), self),
                want == (self_init_block_at(old(self), old(self).spec_current()) && old(self).compiler.scope_depth > 0
                    && old(self).compiler.locals@.len() < LOCALS_MAX),
                n0 == old(self).spec_diagnostics().len(),
                want && !hit ==> self.spec_current() == old(self).spec_current() + 1 && self.compiler == old(self).compiler
                    && self.spec_diagnostics().len() >= n0,
                hit ==> error_added(self.spec_diagnostics(), n0),
                want && !hit ==> self.current_kind() is Var,
                self.remaining() < old(self).remaining(),
                empty == empty_block_at(old(self)),
                empty ==> self.spec_current() == old(self).spec_current() + 1
                    && self.compiler.code() == old(self).compiler.code() && self.functions == old(self).functions,
            decreases self.remaining(),
        {
            proof {
                if empty {
                    assert(self.current_kind() is RightBrace);
                }
            }
            let ghost before = *self;
            self.declaration();
            proof {
                if hit {
                    lemma_error_kept(&before, self, n0);
                } else if want {
                    let d = self.spec_diagnostics();
                    let i = choose|i: int| before.spec_diagnostics().len() <= i < d.len()
                        && (#[trigger] d[i]).spec_level() == ErrorLevel::Error;
                    assert(n0 <= i);
                    hit = true;
                }
            }
        }
        let ghost before_close = *self;
        let end = self.consume(&TokenType::RightBrace, "Expected block to be closed");
        proof {
            if want {
                lemma_error_kept(&before_close, self, n0);
            }
        }
        let end = end?;
        Ok(start.to(end))
    }
}


impl Parser {
    /// `if (cond) then [else other]`
    fn parse_if(&mut self) -> (r: PResult<()>)
        requires
            old(self).wf(),
            old(self).current_kind() is If,
        ensures
            stepped(old(self), final(self)),
        decreases old(self).remaining(), 26int,
    {
        let if_span = self.consume(&TokenType::If, "Expected `if`")?;
        self.consume(&TokenType::LeftParen, "Expected `(` after `if`.")?;
        let cond = self.parse_expr()?;
        let close = self.consume(&TokenType::RightParen, "Expected `)` after condition.")?;
        let then_jmp = self.emit(Ins::JumpIfFalse(-1), if_span.to(close));
        self.emit(Ins::Pop, cond);
        let then_start = self.current_span();
        self.statement()?;
        let then_span = then_start.to(self.previous_span());
        let prev = self.previous_span();
        let else_jmp = self.emit(Ins::Jump(-1), prev);
        self.compiler.patch_jump(then_jmp, then_span)?;
        self.emit(Ins::Pop, prev);
        let else_span = if self.take(&TokenType::Else) {
            let start = self.current_span();
            self.statement()?;
            start.to(self.previous_span())
        } else {
            self.previous_span()
        };
        self.compiler.patch_jump(else_jmp, else_span)?;
        Ok(())
    }

    /// `while (cond) body`
    fn parse_while(&mut self) -> (r: PResult<()>)
        requires
            old(self).wf(),
            old(self).current_kind() is While,
        ensures
            stepped(old(self), final(self)),
        decreases old(self).remaining(), 26int,
    {
        let loop_start = self.code_len();
        let while_span = self.consume(&TokenType::While, "Expected `while`")?;
        self.consume(&TokenType::LeftParen, "Expected `(` after `while`.")?;
        let cond = self.parse_expr()?;
        let close = self.consume(&TokenType::RightParen, "Expected `)` after condition.")?;
        let exit_jmp = self.emit(Ins::JumpIfFalse(-1), while_span.to(close));
        self.emit(Ins::Pop, cond);
        let start = self.current_span();
        self.statement()?;
        let span = start.to(self.previous_span());
        self.compiler.emit_loop(loop_start, span)?;
        self.compiler.patch_jump(exit_jmp, span)?;
        self.emit(Ins::Pop, span);
        Ok(())
    }

    /// `for (init; cond; incr) body`, in a scope of its own.
    fn parse_for(&mut self) -> (r: PResult<()>)
        requires
            old(self).wf(),
            old(self).current_kind() is For,
        ensures
            stepped(old(self), final(self)),
            r is Ok ==> has_back_jump(final(self).compiler.code(), old(self).compiler.code().len() as int),
        decreases old(self).remaining(), 26int,
    {
        let for_span = self.current_span();
        self.compiler.begin_scope(for_span)?;
        let r = self.for_clauses(for_span);
        let close = self.previous_span();
        let ghost mid = self.compiler.code();
        self.compiler.end_scope(close);
        proof {
            if r is Ok {
                let base = old(self).compiler.code().len() as int;
                let j = choose|j: int| base <= j < mid.len() && (#[trigger] mid[j]) is Jump
                    && (jump_target(mid[j], j) matches Some(t) && base <= t <= j);
                assert(self.compiler.code()[j] == self.compiler.code().subrange(0, mid.len() as int)[j]);
                assert(self.compiler.code()[j] is Jump);
            }
        }
        r
    }

    fn for_clauses(&mut self, for_span: Span) -> (r: PResult<()>)
        requires
            old(self).wf(),
            old(self).current_kind() is For,
        ensures
            stepped(old(self), final(self)),
            r is Ok ==> has_back_jump(final(self).compiler.code(), old(self).compiler.code().len() as int),
            r is Ok ==> final(self).compiler.code().last() is Jump
                || exit_lands(final(self).compiler.code(), old(self).compiler.code().len() as int),
        decreases old(self).remaining(), 25int,
    {
        self.consume(&TokenType::For, "Expected `for`")?;
        self.consume(&TokenType::LeftParen, "Expected `(` after `for`")?;
        if self.take(&TokenType::Semicolon) {
        } else if self.check(&TokenType::Var) {
            self.var_decl()?;
        } else {
            self.expression_statement()?;
        }
        let loop_start = self.code_len();
        let exit = self.for_condition()?;
        let loop_start = self.for_increment(loop_start)?;
        self.consume(&TokenType::RightParen, "Expected `)` to close `for` group")?;
        self.statement()?;
        let span = for_span.to(self.current_span());
        let ghost base = old(self).compiler.code().len() as int;
        let back = self.compiler.emit_loop(loop_start, span)?;
        let ghost after_loop = self.compiler.code();
        proof {
            assert(after_loop[back as int] is Jump);
            assert(has_back_jump(after_loop, base));
        }
        if let Some((jmp, span)) = exit {
            self.compiler.patch_jump(jmp, span)?;
            let ghost patched = self.compiler.code();
            self.emit(Ins::Pop, span);
            proof {
                assert(self.compiler.code()[back as int] == after_loop[back as int]);
                assert(self.compiler.code()[back as int] is Jump);
                assert(has_back_jump(self.compiler.code(), base));
                assert(self.compiler.code()[jmp as int] == patched[jmp as int]);
                assert(exit_lands(self.compiler.code(), base));
            }
        }
        Ok(())
    }

    /// The condition clause of a `for`: the exit jump and its span, if the
    /// clause is not empty.
    fn for_condition(&mut self) -> (r: PResult<Option<(usize, Span)>>)
        requires
            old(self).wf(),
        ensures
            stepped(old(self), final(self)),
            r matches Ok(Some((j, _))) ==> old(self).compiler.code().len() <= j < final(self).compiler.code().len(),
        decreases old(self).remaining() + 1, 24int,
    {
        let mut exit: Option<(usize, Span)> = None;
        if !self.check(&TokenType::Semicolon) {
            let span = self.parse_expr()?;
            let jmp = self.emit(Ins::JumpIfFalse(-1), span);
            self.emit(Ins::Pop, span);
            exit = Some((jmp, span));
        }
        self.consume(&TokenType::Semicolon, "Expected `;` after `for` condition")?;
        Ok(exit)
    }

    /// The increment clause of a `for`: compiled before the body, jumped over
    /// on the first pass. Returns where the body's loop jump goes back to.
    fn for_increment(&mut self, loop_start: usize) -> (r: PResult<usize>)
        requires
            old(self).wf(),
            loop_start <= old(self).compiler.code().len(),
        ensures
            stepped(old(self), final(self)),
            r matches Ok(s) ==> loop_start <= s <= final(self).compiler.code().len(),
        decreases old(self).remaining() + 1, 24int,
    {
        if self.check(&TokenType::RightParen) {
            return Ok(loop_start);
        }
        let span = self.current_span();
        let body_jmp = self.emit(Ins::Jump(-1), span);
        let inc_start = self.code_len();
        let inc_span = self.parse_expr()?;
        self.emit(Ins::Pop, inc_span);
        self.compiler.emit_loop(loop_start, inc_span)?;
        self.compiler.patch_jump(body_jmp, inc_span)?;
        Ok(inc_start)
    }

    /// `print expr;`
    fn parse_print(&mut self) -> (r: PResult<()>)
        requires
            old(self).wf(),
            old(self).current_kind() is Print,
        ensures
            stepped(old(self), final(self)),
            r is Ok ==> final(self).compiler.code().last() == Ins::Print,
            print_stmt_at(old(self), old(self).spec_current()) ==> r is Ok
                && final(self).spec_current() == old(self).spec_current() + 3 && quiet(old(self), final(self))
                && final(self).compiler.code() == old(self).compiler.code()
                    .push(literal_code(old(self), old(self).spec_current() + 1)->Some_0).push(Ins::Print),
        decreases old(self).remaining(), 26int,
    {
        let print_span = self.consume(&TokenType::Print, "Expected `print`")?;
        self.parse_expr()?;
        let semicolon = self.consume(&TokenType::Semicolon, "Expected `;` after value")?;
        self.emit(Ins::Print, print_span.to(semicolon));
        Ok(())
    }

    /// `return [expr];`, a warning at the top level.
    fn parse_return(&mut self) -> (r: PResult<()>)
        requires
            old(self).wf(),
            old(self).current_kind() is Return,
        ensures
            stepped(old(self), final(self)),
            old(self).compiler.fun_type == FunctionType::Script ==> r is Err
                && (r->Err_0 matches ParseError::Error { level: ErrorLevel::Warning, .. }),
            old(self).compiler.fun_type != FunctionType::Script && r is Ok ==> final(self).compiler.code().last() == Ins::Return,
        decreases old(self).remaining(), 26int,
    {
        let return_span = self.consume(&TokenType::Return, "Expected `return`")?;
        if self.compiler.fun_type == FunctionType::Script {
            return Err(ParseError::Error {
                level: ErrorLevel::Warning,
                message: String::from_str("Detected return from top-level code"),
                span: return_span,
            });
        }
        if self.take(&TokenType::Semicolon) {
            self.emit(Ins::Nil, return_span);
            self.emit(Ins::Return, return_span);
        } else {
            self.parse_expr()?;
            let semicolon = self.consume(&TokenType::Semicolon, "Expected `;` after return value")?;
            self.emit(Ins::Return, return_span.to(semicolon));
        }
        Ok(())
    }

    /// `expr;`, whose value is discarded.
    fn expression_statement(&mut self) -> (r: PResult<()>)
        requires
            old(self).wf(),
        ensures
            stepped(old(self), final(self)),
            progressed(old(self), final(self)),
            r is Ok ==> final(self).compiler.code().last() == Ins::Pop,
        decreases old(self).remaining(), 26int,
    {
        let start = self.parse_expr()?;
        let semicolon = self.consume(&TokenType::Semicolon, "Expected end of expression")?;
        self.emit(Ins::Pop, start.to(semicolon));
        Ok(())
    }

    /// An expression, commas included.
    fn parse_expr(&mut self) -> (r: PResult<Span>)
        requires
            old(self).wf(),
        ensures
            stepped(old(self), final(self)),
            progressed(old(self), final(self)),
            ({
                let c = old(self).spec_current();
                literal_code(old(self), c) is Some && c + 1 < old(self).spec_tokens().len()
                    && !ignorable_kind(old(self).spec_tokens()[c + 1].kind)
                    && ends_operand(old(self).spec_tokens()[c + 1].kind, Precedence::Sequence)
                    ==> r is Ok && final(self).spec_current() == c + 1 && quiet(old(self), final(self))
                        && final(self).compiler.code() == old(self).compiler.code().push(literal_code(old(self), c)->Some_0)
            }),
            old(self).current_kind() matches TokenType::Identifier(n) && reads_uninitialised(old(self).compiler, n@)
                ==> is_init_error(r),
        decreases old(self).remaining(), 10int,
    {
        self.parse_precedence(Precedence::Sequence)
    }

    /// Parses an expression whose operators bind at least as tightly as `prec`.
    fn parse_precedence(&mut self, prec: Precedence) -> (r: PResult<Span>)
        requires
            old(self).wf(),
        ensures
            stepped(old(self), final(self)),
            progressed(old(self), final(self)),
            ({
                let c = old(self).spec_current();
                literal_code(old(self), c) is Some && c + 1 < old(self).spec_tokens().len()
                    && !ignorable_kind(old(self).spec_tokens()[c + 1].kind)
                    && ends_operand(old(self).spec_tokens()[c + 1].kind, prec)
                    ==> r is Ok && final(self).spec_current() == c + 1 && quiet(old(self), final(self))
                        && final(self).compiler.code() == old(self).compiler.code().push(literal_code(old(self), c)->Some_0)
            }),
            old(self).current_kind() matches TokenType::Identifier(n) && reads_uninitialised(old(self).compiler, n@)
                ==> is_init_error(r),
        decreases old(self).remaining(), 9int,
    {
        self.advance();
        let start = self.previous_span();
        let rule = ParseRule::from_token(self.previous_kind());
        if rule.0 == ParseFn::Nothing {
            return Err(ParseError::UnexpectedToken {
                message: String::from_str("Expected expression"),
                offending: self.tokens[self.previous].clone(),
                expected: None,
            });
        }
        let can_assign = prec.le(&Precedence::Assignment);
        proof {
            if old(self).current_kind() is Identifier {
                assert(self.previous_spec() == old(self).current_kind());
                assert(rule.0 == ParseFn::Variable);
                let n = old(self).current_kind()->Identifier_0;
                if reads_uninitialised(old(self).compiler, n@) {
                    assert(self.compiler == old(self).compiler);
                    assert(self.previous_spec() matches TokenType::Identifier(m) && reads_uninitialised(self.compiler, m@));
                }
            }
        }
        match self.prefix(rule.0, can_assign) {
            Err(e) => {
                return Err(e);
            },
            Ok(()) => {},
        }
        let ghost c = old(self).spec_current();
        let ghost base_case = literal_code(old(self), c) is Some && c + 1 < old(self).spec_tokens().len()
            && !ignorable_kind(old(self).spec_tokens()[c + 1].kind)
            && ends_operand(old(self).spec_tokens()[c + 1].kind, prec);
        loop
            invariant
                stepped(old(self), self),
                self.remaining() < old(self).remaining(),
                c == old(self).spec_current(),
                !(old(self).current_kind() is Identifier
                    && reads_uninitialised(old(self).compiler, old(self).current_kind()->Identifier_0@)),
                base_case == (literal_code(old(self), c) is Some && c + 1 < old(self).spec_tokens().len()
                    && !ignorable_kind(old(self).spec_tokens()[c + 1].kind)
                    && ends_operand(old(self).spec_tokens()[c + 1].kind, prec)),
                base_case ==> ends_operand(old(self).spec_tokens()[c + 1].kind, prec)
                    && literal_code(old(self), c) is Some,
                base_case ==> quiet(old(self), self),
                base_case ==> self.spec_current() == c + 1 && self.previous == c
                    && self.compiler.code() == old(self).compiler.code().push(literal_code(old(self), c)->Some_0),
            decreases self.remaining(),
        {
            if self.is_at_end() {
                break;
            }
            let next_rule = ParseRule::from_token(&self.tokens[self.current].kind);
            if !prec.le(&next_rule.2) {
                break;
            }
            proof {
                if base_case {
                    let k = self.tokens@[self.current as int].kind;
                    assert(k == old(self).spec_tokens()[c + 1].kind);
                    assert(next_rule == spec_rule(k));
                }
                assert(!base_case);
            }
            self.advance();
            let infix = ParseRule::from_token(self.previous_kind()).1;
            self.infix(infix, prec)?;
        }
        if can_assign && self.check(&TokenType::Equal) {
            return Err(ParseError::Error {
                level: ErrorLevel::Error,
                message: String::from_str("Invalid assignment target"),
                span: self.current_span(),
            });
        }
        if prec.le(&Precedence::Sequence) && self.previous_kind().same_kind(&TokenType::Comma) {
            let span = self.previous_span();
            self.emit(Ins::Pop, span);
            self.parse_expr()?;
        }
        Ok(start.to(self.current_span()))
    }

    /// Runs the prefix routine of the token just consumed.
    fn prefix(&mut self, f: ParseFn, can_assign: bool) -> (r: PResult<()>)
        requires
            old(self).wf(),
        ensures
            stepped(old(self), final(self)),
            leaf_step(old(self), final(self), f, r is Ok),
            (f == ParseFn::Literal || f == ParseFn::Number || f == ParseFn::String) ==> final(self).previous == old(self).previous,
            f == ParseFn::Variable && (old(self).previous_spec() matches TokenType::Identifier(n)
                && reads_uninitialised(old(self).compiler, n@))
                ==> r is Err && (r->Err_0 matches ParseError::Error { level, .. } && level == ErrorLevel::Error),
        decreases old(self).remaining() + 1, 8int,
    {
        match f {
            ParseFn::Group => self.parse_group(),
            ParseFn::Unary => self.parse_unary(),
            ParseFn::Number => self.parse_number(),
            ParseFn::Literal => self.parse_literal(),
            ParseFn::String => self.parse_string(),
            ParseFn::Variable => self.parse_variable(can_assign),
            _ => Err(ParseError::UnexpectedToken {
                message: String::from_str("Expected expression"),
                offending: self.tokens[self.previous].clone(),
                expected: None,
            }),
        }
    }

    /// Runs the infix routine of the operator just consumed.
    fn infix(&mut self, f: ParseFn, prec: Precedence) -> (r: PResult<()>)
        requires
            old(self).wf(),
        ensures
            stepped(old(self), final(self)),
        decreases old(self).remaining() + 1, 8int,
    {
        match f {
            ParseFn::Binary => self.parse_binary(prec.le(&Precedence::Sequence)),
            ParseFn::Call => self.parse_call(),
            ParseFn::And => self.parse_and(),
            ParseFn::Or => self.parse_or(),
            _ => Ok(()),
        }
    }

    /// `( expr )`
    fn parse_group(&mut self) -> (r: PResult<()>)
        requires
            old(self).wf(),
        ensures
            stepped(old(self), final(self)),
        decreases old(self).remaining() + 1, 7int,
    {
        self.parse_expr()?;
        self.consume(&TokenType::RightParen, "Expected `)` after expression")?;
        Ok(())
    }

    /// `-x` or `!x`
    fn parse_unary(&mut self) -> (r: PResult<()>)
        requires
            old(self).wf(),
        ensures
            stepped(old(self), final(self)),
            r is Ok ==> final(self).compiler.code().last() == if old(self).previous_spec() is Minus { Ins::Negate } else { Ins::Not },
        decreases old(self).remaining() + 1, 7int,
    {
        let negate = self.previous_kind().same_kind(&TokenType::Minus);
        let span = self.previous_span();
        self.parse_precedence(Precedence::Unary)?;
        if negate {
            self.emit(Ins::Negate, span);
        } else {
            self.emit(Ins::Not, span);
        }
        Ok(())
    }

    /// The right operand of a binary operator, then the operator.
    fn parse_binary(&mut self, can_seq: bool) -> (r: PResult<()>)
        requires
            old(self).wf(),
        ensures
            stepped(old(self), final(self)),
            r is Ok ==> final(self).compiler.code().last() == match old(self).previous_spec() {
                TokenType::Plus => Ins::Add,
                TokenType::Minus => Ins::Subtract,
                TokenType::Star => Ins::Multiply,
                TokenType::Slash => Ins::Divide,
                TokenType::EqualEqual => Ins::Equal,
                TokenType::Greater => Ins::Greater,
                TokenType::Less => Ins::Less,
                TokenType::BangEqual | TokenType::GreaterEqual | TokenType::LessEqual => Ins::Not,
                _ => final(self).compiler.code().last(),
            },
            ({
                let c = old(self).spec_current();
                let prec = spec_from_level(spec_level(spec_rule(old(self).previous_spec()).2) as int + 1);
                binary_code(old(self).previous_spec()) != 0
                    && literal_code(old(self), c) is Some && c + 1 < old(self).spec_tokens().len()
                    && !ignorable_kind(old(self).spec_tokens()[c + 1].kind)
                    && ends_operand(old(self).spec_tokens()[c + 1].kind, prec)
                    ==> r is Ok && final(self).spec_current() == c + 1
                        && final(self).compiler.code().len() > old(self).compiler.code().len()
                        && final(self).compiler.code()[old(self).compiler.code().len() as int] == literal_code(old(self), c)->Some_0
            }),
        decreases old(self).remaining() + 1, 7int,
    {
        let op = binary_op(self.previous_kind());
        let span = self.previous_span();
        if op == 0 {
            return Ok(());
        }
        let rule = ParseRule::from_token(self.previous_kind());
        self.parse_precedence(rule.2.update(1))?;
        if op == 1 {
            self.emit(Ins::Add, span);
        } else if op == 2 {
            self.emit(Ins::Subtract, span);
        } else if op == 3 {
            self.emit(Ins::Multiply, span);
        } else if op == 4 {
            self.emit(Ins::Divide, span);
        } else if op == 5 {
            self.emit(Ins::Equal, span);
            self.emit(Ins::Not, span);
        } else if op == 6 {
            self.emit(Ins::Equal, span);
        } else if op == 7 {
            self.emit(Ins::Greater, span);
        } else if op == 8 {
            self.emit(Ins::Less, span);
            self.emit(Ins::Not, span);
        } else if op == 9 {
            self.emit(Ins::Less, span);
        } else {
            self.emit(Ins::Greater, span);
            self.emit(Ins::Not, span);
        }
        Ok(())
    }

    /// A number literal, with the value the host read from its text.
    fn parse_number(&mut self) -> (r: PResult<()>)
        requires
            old(self).wf(),
        ensures
            final(self).current == old(self).current,
            final(self).previous == old(self).previous,
            stepped(old(self), final(self)),
            match old(self).spec_numbers()[old(self).previous as int] {
                Some(bits) => r is Ok && final(self).compiler.code() == old(self).compiler.code().push(Ins::Constant(Value::Number(bits))),
                None => r is Err && (r->Err_0 matches ParseError::ScanError { error: ScanError::InvalidNumberLiteral, .. }),
            },
            quiet(old(self), final(self)),
    {
        let span = self.previous_span();
        match self.numbers[self.previous] {
            Some(bits) => {
                self.emit(Ins::Constant(Value::Number(bits)), span);
                Ok(())
            },
            None => Err(ParseError::ScanError { error: ScanError::InvalidNumberLiteral, span }),
        }
    }

    /// `true`, `false` or `nil`.
    fn parse_literal(&mut self) -> (r: PResult<()>)
        requires
            old(self).wf(),
        ensures
            final(self).current == old(self).current,
            final(self).previous == old(self).previous,
            stepped(old(self), final(self)),
            r is Ok,
            final(self).compiler.code() == old(self).compiler.code().push(match old(self).previous_spec() {
                TokenType::True => Ins::True,
                TokenType::False => Ins::False,
                _ => Ins::Nil,
            }),
            quiet(old(self), final(self)),
    {
        let span = self.previous_span();
        let ins = match self.previous_kind() {
            TokenType::True => Ins::True,
            TokenType::False => Ins::False,
            _ => Ins::Nil,
        };
        self.emit(ins, span);
        Ok(())
    }

    /// A string literal.
    fn parse_string(&mut self) -> (r: PResult<()>)
        requires
            old(self).wf(),
        ensures
            final(self).current == old(self).current,
            final(self).previous == old(self).previous,
            stepped(old(self), final(self)),
            r is Ok,
            old(self).previous_spec() matches TokenType::String(t) ==> final(self).compiler.code()
                == old(self).compiler.code().push(Ins::Constant(Value::Object(LoxObject::String(t)))),
            quiet(old(self), final(self)),
    {
        let span = self.previous_span();
        let text = match self.previous_kind() {
            TokenType::String(s) => s.clone(),
            _ => String::new(),
        };
        self.emit(Ins::Constant(Value::Object(LoxObject::String(text))), span);
        Ok(())
    }

    /// A variable reference, or an assignment where one may stand.
    fn parse_variable(&mut self, can_assign: bool) -> (r: PResult<()>)
        requires
            old(self).wf(),
        ensures
            stepped(old(self), final(self)),
            old(self).previous_spec() matches TokenType::Identifier(n) && reads_uninitialised(old(self).compiler, n@)
                ==> r is Err && (r->Err_0 matches ParseError::Error { level, .. } && level == ErrorLevel::Error),
        decreases old(self).remaining() + 1, 7int,
    {
        let span = self.previous_span();
        let name = match self.previous_kind() {
            TokenType::Identifier(n) => n.clone(),
            _ => {
                return Err(ParseError::UnexpectedToken {
                    message: String::from_str("Expected identifier"),
                    offending: self.tokens[self.previous].clone(),
                    expected: None,
                });
            },
        };
        self.named_variable(name, span, can_assign)
    }

    /// Reads or assigns a variable: a local by slot, a captured variable by
    /// upvalue index, otherwise a global by name.
    fn named_variable(&mut self, name: String, span: Span, can_assign: bool) -> (r: PResult<()>)
        requires
            old(self).wf(),
        ensures
            stepped(old(self), final(self)),
            reads_uninitialised(old(self).compiler, name@) ==> r is Err
                && (r->Err_0 matches ParseError::Error { level, .. } && level == ErrorLevel::Error),
        decreases old(self).remaining() + 1, 6int,
    {
        let (get, set) = match self.compiler.resolve_local(&name)? {
            Some(slot) => (Ins::GetLocal(slot), Ins::SetLocal(slot)),
            None => {
                let level = self.enclosing.len();
                match self.resolve_upvalue(level, &name, span)? {
                    Some(u) => (Ins::GetUpval(u), Ins::SetUpval(u)),
                    None => (Ins::GetGlobal(name.clone()), Ins::SetGlobal(name)),
                }
            },
        };
        if can_assign && self.take(&TokenType::Equal) {
            self.parse_precedence(Precedence::Assignment)?;
            self.emit(set, span);
        } else {
            self.emit(get, span);
        }
        Ok(())
    }

    /// A call: the arguments, then `Call`.
    fn parse_call(&mut self) -> (r: PResult<()>)
        requires
            old(self).wf(),
        ensures
            stepped(old(self), final(self)),
            r is Ok ==> (final(self).compiler.code().last() matches Ins::Call(n) && n <= MAX_ARGS),
        decreases old(self).remaining() + 1, 7int,
    {
        let open = self.previous_span();
        let (count, close) = self.argument_list()?;
        self.emit(Ins::Call(count), open.to(close));
        Ok(())
    }

    /// Comma-separated arguments up to `)`; at most 255.
    fn argument_list(&mut self) -> (r: PResult<(usize, Span)>)
        requires
            old(self).wf(),
        ensures
            stepped(old(self), final(self)),
            r matches Ok((n, _)) ==> n <= MAX_ARGS,
            forall|n: nat| #[trigger] args_from(old(self), old(self).spec_current(), n) ==> {
                &&& n <= MAX_ARGS ==> r is Ok && r->Ok_0.0 == n
                &&& n > MAX_ARGS ==> r is Err && (r->Err_0 matches ParseError::Error { level, message, .. }
                    && level == ErrorLevel::Error && message@ == "Can't have more than 255 arguments"@)
            },
        decreases old(self).remaining() + 1, 6int,
    {
        let start = self.previous_span();
        let mut count: usize = 0;
        let ghost c = old(self).spec_current();
        let ghost listed = exists|n: nat| #[trigger] args_from(old(self), c, n);
        let ghost total: nat = if listed { choose|n: nat| #[trigger] args_from(old(self), c, n) } else { 0 };
        proof {
            if listed {
                assert(args_from(old(self), c, total));
                assert forall|n: nat| #[trigger] args_from(old(self), c, n) implies n == total by {
                    lemma_args_unique(old(self), c, n, total);
                }
            }
        }
        if !self.check(&TokenType::RightParen) {
            loop
                invariant_except_break
                    listed ==> count < total && self.spec_current() == c + 2 * count
                        && args_from(old(self), c + 2 * count, (total - count) as nat),
                invariant
                    stepped(old(self), self),
                    count <= MAX_ARGS,
                    c == old(self).spec_current(),
                    listed == exists|n: nat| #[trigger] args_from(old(self), c, n),
                    listed ==> forall|n: nat| #[trigger] args_from(old(self), c, n) ==> n == total,
                    listed ==> count <= total,
                ensures
                    listed ==> count == total && total <= MAX_ARGS && self.spec_current() == c + 2 * total - 1
                        && old(self).spec_tokens()[c + 2 * total - 1].kind is RightParen,
                    count <= MAX_ARGS,
                decreases self.remaining(),
            {
                let ghost k = count;
                proof {
                    if listed {
                        let i = c + 2 * k;
                        assert(literal_code(old(self), i) is Some);
                        if total - k >= 2 {
                            assert(args_from(old(self), i + 2, (total - k - 1) as nat));
                            assert(literal_code(old(self), i + 2) is Some);
                        }
                        assert(literal_code(self, i) == literal_code(old(self), i));
                    }
                }
                self.parse_precedence(Precedence::Assignment)?;
                if count == MAX_ARGS {
                    return Err(ParseError::Error {
                        level: ErrorLevel::Error,
                        message: String::from_str("Can't have more than 255 arguments"),
                        span: start.to(self.previous_span()),
                    });
                }
                count = count + 1;
                if !self.take(&TokenType::Comma) {
                    break;
                }
            }
        } else {
            proof {
                if listed {
                    assert(literal_code(old(self), c) is Some);
                }
            }
        }
        proof {
            if listed {
                assert(self.spec_tokens()[self.spec_current()].kind is RightParen);
            }
        }
        let close = self.consume(&TokenType::RightParen, "Expected `)` after arguments")?;
        Ok((count, close))
    }

    /// `a and b`: skips `b` when `a` is false.
    fn parse_and(&mut self) -> (r: PResult<()>)
        requires
            old(self).wf(),
        ensures
            stepped(old(self), final(self)),
        decreases old(self).remaining() + 1, 7int,
    {
        let span = self.previous_span();
        let end_jmp = self.emit(Ins::JumpIfFalse(-1), span);
        self.emit(Ins::Pop, span);
        let start = self.current_span();
        self.parse_precedence(Precedence::And)?;
        let end_span = start.to(self.previous_span());
        self.compiler.patch_jump(end_jmp, end_span)?;
        Ok(())
    }

    /// `a or b`: skips `b` when `a` is true.
    fn parse_or(&mut self) -> (r: PResult<()>)
        requires
            old(self).wf(),
        ensures
            stepped(old(self), final(self)),
        decreases old(self).remaining() + 1, 7int,
    {
        let span = self.previous_span();
        let else_jmp = self.emit(Ins::JumpIfFalse(-1), span);
        let end_jmp = self.emit(Ins::Jump(-1), span);
        self.compiler.patch_jump(else_jmp, span)?;
        self.emit(Ins::Pop, span);
        let start = self.current_span();
        self.parse_precedence(Precedence::Or)?;
        let end_span = start.to(self.previous_span());
        self.compiler.patch_jump(end_jmp, end_span)?;
        Ok(())
    }
}

/// The code of a binary operator: 0 for any other token.
pub open spec fn binary_code(k: TokenType) -> u8 {
    match k {
        TokenType::Plus => 1u8,
        TokenType::Minus => 2u8,
        TokenType::Star => 3u8,
        TokenType::Slash => 4u8,
        TokenType::BangEqual => 5u8,
        TokenType::EqualEqual => 6u8,
        TokenType::Greater => 7u8,
        TokenType::GreaterEqual => 8u8,
        TokenType::Less => 9u8,
        TokenType::LessEqual => 10u8,
        _ => 0u8,
    }
}

/// The code of a binary operator: 0 for the comma, 1 to 10 for `+ - * / != ==
/// > >= < <=` in that order.
fn binary_op(kind: &TokenType) -> (r: u8)
    ensures
        r <= 10,
        r == binary_code(*kind),
{
    match kind {
        TokenType::Plus => 1,
        TokenType::Minus => 2,
        TokenType::Star => 3,
        TokenType::Slash => 4,
        TokenType::BangEqual => 5,
        TokenType::EqualEqual => 6,
        TokenType::Greater => 7,
        TokenType::GreaterEqual => 8,
        TokenType::Less => 9,
        TokenType::LessEqual => 10,
        _ => 0,
    }
}


impl Parser {
    /// The compiler `level` steps from the outermost: 0 is the script's, and
    /// `depth()` is the current one.
    spec fn level_compiler(&self, level: int) -> Compiler {
        if level == self.enclosing@.len() { self.compiler } else { self.enclosing@[level] }
    }

    fn resolve_local_at(&self, level: usize, name: &String) -> (r: PResult<Option<usize>>)
        requires
            self.wf(),
            level <= self.enclosing@.len(),
        ensures
            r matches Ok(Some(i)) ==> i < self.level_compiler(level as int).locals@.len(),
            innermost(self.level_compiler(level as int).locals@, name@) is None ==> r == Ok::<Option<usize>, ParseError>(None),
            innermost(self.level_compiler(level as int).locals@, name@) matches Some(i)
                ==> (self.level_compiler(level as int).locals@[i].depth != -1
                    ==> r == Ok::<Option<usize>, ParseError>(Some(i as usize)))
                && (self.level_compiler(level as int).locals@[i].depth == -1 ==> r is Err),
    {
        if level == self.enclosing.len() {
            self.compiler.resolve_local(name)
        } else {
            self.enclosing[level].resolve_local(name)
        }
    }

    fn add_upvalue_at(&mut self, level: usize, capture: (bool, usize), span: Span) -> (r: PResult<usize>)
        requires
            old(self).wf(),
            1 <= level <= old(self).enclosing@.len(),
        ensures
            stepped(old(self), final(self)),
            final(self).current == old(self).current,
            final(self).previous == old(self).previous,
            forall|l: int| 0 <= l <= old(self).enclosing@.len() && l != level
                ==> #[trigger] final(self).level_compiler(l) == old(self).level_compiler(l),
            final(self).level_compiler(level as int).locals == old(self).level_compiler(level as int).locals,
            ({
                let ups = old(self).level_compiler(level as int).upvalues@;
                let ups2 = final(self).level_compiler(level as int).upvalues@;
                &&& ups.contains(capture) ==> r is Ok && r->Ok_0 < ups.len() && ups[r->Ok_0 as int] == capture && ups2 == ups
                &&& !ups.contains(capture) && ups.len() < UPVALUES_MAX ==> r is Ok && ups2 == ups.push(capture)
                    && r->Ok_0 == ups.len()
                &&& r matches Ok(k) ==> k < ups2.len() && ups2[k as int] == capture
            }),
    {
        if level == self.enclosing.len() {
            self.compiler.add_upvalue(capture, span)
        } else {
            self.enclosing[level].add_upvalue(capture, span)
        }
    }

    fn mark_captured_at(&mut self, level: usize, slot: usize)
        requires
            old(self).wf(),
            level <= old(self).enclosing@.len(),
            slot < old(self).level_compiler(level as int).locals@.len(),
        ensures
            stepped(old(self), final(self)),
            final(self).current == old(self).current,
            final(self).previous == old(self).previous,
            forall|l: int| 0 <= l <= old(self).enclosing@.len() && l != level
                ==> #[trigger] final(self).level_compiler(l) == old(self).level_compiler(l),
            final(self).level_compiler(level as int).locals@[slot as int].captured,
            final(self).level_compiler(level as int).locals@.len() == old(self).level_compiler(level as int).locals@.len(),
            forall|i: int| 0 <= i < old(self).level_compiler(level as int).locals@.len() ==>
                (#[trigger] final(self).level_compiler(level as int).locals@[i]).name
                    == old(self).level_compiler(level as int).locals@[i].name,
    {
        if level == self.enclosing.len() {
            self.compiler.mark_captured(slot);
        } else {
            self.enclosing[level].mark_captured(slot);
        }
    }

    /// Resolves `name` as a variable captured by the compiler at `level`:
    /// a local of the function just outside it, or, recursively, one that
    /// function captures itself. Each compiler on the way records the capture.
    fn resolve_upvalue(&mut self, level: usize, name: &String, span: Span) -> (r: PResult<Option<usize>>)
        requires
            old(self).wf(),
            level <= old(self).enclosing@.len(),
        ensures
            stepped(old(self), final(self)),
            final(self).current == old(self).current,
            final(self).previous == old(self).previous,
            (forall|l: int| 0 <= l < level ==> innermost(#[trigger] old(self).level_compiler(l).locals@, name@) is None)
                ==> r == Ok::<Option<usize>, ParseError>(None),
            r == Ok::<Option<usize>, ParseError>(None)
                ==> forall|l: int| 0 <= l < level ==> innermost(#[trigger] old(self).level_compiler(l).locals@, name@) is None,
            r matches Ok(Some(k)) ==> k < final(self).level_compiler(level as int).upvalues@.len(),
            level > 0 && innermost(old(self).level_compiler(level - 1).locals@, name@) is Some ==> ({
                let i = innermost(old(self).level_compiler(level - 1).locals@, name@)->Some_0;
                old(self).level_compiler(level - 1).locals@[i].depth != -1
                    && (old(self).level_compiler(level as int).upvalues@.contains((true, i as usize))
                        || old(self).level_compiler(level as int).upvalues@.len() < UPVALUES_MAX)
                    ==> (r matches Ok(Some(k))
                        && final(self).level_compiler(level as int).upvalues@[k as int] == (true, i as usize)
                        && final(self).level_compiler(level - 1).locals@[i].captured)
            }),
        decreases level,
    {
        if level == 0 {
            return Ok(None);
        }
        proof {
            lemma_innermost_bound(self.level_compiler(level - 1).locals@, name@);
        }
        match self.resolve_local_at(level - 1, name)? {
            Some(slot) => {
                self.mark_captured_at(level - 1, slot);
                let ghost mid = *self;
                let u = self.add_upvalue_at(level, (true, slot), span)?;
                assert(self.level_compiler(level - 1) == mid.level_compiler(level - 1));
                Ok(Some(u))
            },
            None => match self.resolve_upvalue(level - 1, name, span)? {
                Some(outer) => {
                    let u = self.add_upvalue_at(level, (false, outer), span)?;
                    Ok(Some(u))
                },
                None => Ok(None),
            },
        }
    }
}


impl Parser {
    /// Ends the script with an implicit `return nil` and hands out the
    /// functions compiled so far, the script, and the diagnostics.
    pub fn finish(self) -> (r: (Vec<LoxFunction>, LoxFunction, Vec<ParseError>))
        requires
            self.wf(),
            self.depth() == 0,
        ensures
            r.0@ == self.spec_functions(),
            function_ok(r.1),
            r.1.arity == self.arity(),
            r.1.upvalues == 0,
            r.1.chunk.spec_code() == self.spec_code().push(Ins::Nil).push(Ins::Return),
            r.2@ == self.spec_diagnostics(),
            forall|i: int| 0 <= i < r.0@.len() ==> function_ok(#[trigger] r.0@[i]),
    {
        let mut parser = self;
        let span = parser.previous_span();
        parser.compiler.emit_return(span);
        let Parser { compiler, functions, diagnostics, .. } = parser;
        (functions, compiler.function, diagnostics)
    }
}

} // verus!
