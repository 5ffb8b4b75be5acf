//! The grammar productions and the alternation driver, each stated as a function of the
//! tokens, the cursor index and the scope arena.
use vstd::prelude::*;
use crate::errors::{
    AssignmentDataError, BlockError, ErrorView, LiteralError, ParserError, SimpleError,
    stronger_or_equal, view_errors, lemma_view_errors, lemma_view_errors_push,
};
use crate::needle::{Loc, Needle, TextMetaData};
use crate::nodes::{
    AssignmentNode, BlockNode, CodeLocation, ErrorNode, LiteralNode, NilNode, NodeView, SyntaxTreeNode,
    VariableNode, returns_of, view_nodes, lemma_view_nodes_push,
};
use crate::errors::BLOCK_OPEN_STRENGTH;
use crate::token::{KeywordType, Token, TokenType};
use crate::type_handler::{
    constrained, lemma_owner_of_bounds, lookup, owner_of, pool_with_binding, pool_with_scope, ScopeHandle, ScopePool,
    ScopeView,
};

verus! {

/// Strength of a missing identifier or equals sign.
pub const EXPECTATION_STRENGTH: u8 = 0;

/// Strength of a name that no enclosing scope binds.
pub const UNBOUND_NAME_STRENGTH: u8 = 1;

/// Strength of a block that reached no closer.
pub const UNCLOSED_BLOCK_STRENGTH: u8 = 2;

/// Strength of an assignment whose right-hand side failed or has no type.
pub const ASSIGNMENT_STRENGTH: u8 = 3;

/// Strength of a block failure that gathers element failures, or whose trailing element has no type.
pub const BLOCK_STRENGTH: u8 = 4;

pub type ParseResult<T> = Result<T, ParserError>;

/// What a production leaves: its result, the cursor index, and the scope arena.
pub struct Parsed {
    pub result: Result<NodeView, ErrorView>,
    pub index: int,
    pub pool: Seq<ScopeView>,
}

pub open spec fn view_result(r: ParseResult<SyntaxTreeNode>) -> Result<NodeView, ErrorView> {
    match r {
        Ok(n) => Ok(n@),
        Err(e) => Err(e@),
    }
}

pub open spec fn token_at(toks: Seq<Token>, i: int) -> Option<Token> {
    if 0 <= i < toks.len() {
        Some(toks[i])
    } else {
        None
    }
}

pub open spec fn keyword_at(toks: Seq<Token>, i: int, k: KeywordType) -> bool {
    token_at(toks, i) matches Some(t) && t.is_keyword_spec(k)
}

/// The better of the best failure so far and a new one: the new one wins ties.
pub open spec fn pick(best: ErrorView, best_index: int, cand: ErrorView, cand_index: int) -> (ErrorView, int) {
    if stronger_or_equal(cand, Some(best)) {
        (cand, cand_index)
    } else {
        (best, best_index)
    }
}

/// A variable: an identifier that some enclosing scope binds.
pub open spec fn spec_parse_variable(toks: Seq<Token>, idx: int, end: Loc, scope: int, pool: Seq<ScopeView>) -> (Result<NodeView, ErrorView>, int) {
    match token_at(toks, idx) {
        None => (Err(ErrorView::Simple(SimpleError::ExpectedIdentifier(end, EXPECTATION_STRENGTH))), idx),
        Some(t) => match t.token_type {
            TokenType::Identifier(name) => if lookup(pool, scope, name@) is Some {
                (Ok(NodeView::Variable { start: t.start, identifier: name@ }), idx + 1)
            } else {
                (Err(ErrorView::Simple(SimpleError::InvalidVariableName(t.start, UNBOUND_NAME_STRENGTH))), idx + 1)
            },
            _ => (Err(ErrorView::Simple(SimpleError::ExpectedIdentifier(t.start, EXPECTATION_STRENGTH))), idx + 1),
        },
    }
}

/// A literal: one token that the lexer classified as one; any other token is left in place.
pub open spec fn spec_parse_literal(toks: Seq<Token>, idx: int, end: Loc) -> (Result<NodeView, ErrorView>, int) {
    match token_at(toks, idx) {
        None => (Err(ErrorView::Literal { start: end }), idx),
        Some(t) => match t.token_type {
            TokenType::Literal(l) => (Ok(NodeView::Literal { start: t.start, literal: l }), idx + 1),
            _ => (Err(ErrorView::Literal { start: t.start }), idx),
        },
    }
}

/// What an assignment to `name` at `start` comes to once its right-hand side gave `v`.
pub open spec fn assignment_outcome(start: Loc, name: Seq<char>, scope: int, v: Parsed) -> Parsed {
    match v.result {
        Err(e) => Parsed {
            result: Err(ErrorView::AssignmentData { start, strength: ASSIGNMENT_STRENGTH, cause: Box::new(e), var_name: name }),
            index: v.index,
            pool: v.pool,
        },
        Ok(data) => {
            let types = returns_of(data, scope, v.pool);
            let no_type = Err(
                ErrorView::AssignmentData {
                    start,
                    strength: ASSIGNMENT_STRENGTH,
                    cause: Box::new(ErrorView::Simple(SimpleError::ExpectedExpression(data.start(), ASSIGNMENT_STRENGTH))),
                    var_name: name,
                },
            );
            let node = Ok(NodeView::Assignment { start, identifier: name, data: Box::new(data) });
            if types.is_empty() {
                Parsed { result: no_type, index: v.index, pool: v.pool }
            } else {
                match lookup(v.pool, scope, name) {
                    None => Parsed { result: node, index: v.index, pool: pool_with_binding(v.pool, scope, name, types) },
                    Some(cur) => {
                        let narrowed = constrained(cur, types);
                        let pool = pool_with_binding(v.pool, owner_of(v.pool, scope, name).unwrap(), name, narrowed);
                        if narrowed.is_empty() {
                            Parsed { result: no_type, index: v.index, pool }
                        } else {
                            Parsed { result: node, index: v.index, pool }
                        }
                    },
                }
            }
        },
    }
}

/// An assignment: identifier, equals sign, value. A new name is bound in the current scope;
/// a bound one has its nearest binding narrowed by the value's types.
pub open spec fn spec_parse_assignment(toks: Seq<Token>, idx: int, end: Loc, scope: int, pool: Seq<ScopeView>) -> Parsed
    decreases toks.len() - idx, 1int,
{
    match token_at(toks, idx) {
        None => Parsed {
            result: Err(ErrorView::Simple(SimpleError::ExpectedIdentifier(end, EXPECTATION_STRENGTH))),
            index: idx,
            pool,
        },
        Some(t) => match t.token_type {
            TokenType::Identifier(name) => match token_at(toks, idx + 1) {
                None => Parsed {
                    result: Err(ErrorView::Simple(SimpleError::ExpectedEquals(end, EXPECTATION_STRENGTH))),
                    index: idx + 1,
                    pool,
                },
                Some(eq) => if !eq.is_keyword_spec(KeywordType::Assign) {
                    Parsed {
                        result: Err(ErrorView::Simple(SimpleError::ExpectedEquals(eq.start, EXPECTATION_STRENGTH))),
                        index: idx + 2,
                        pool,
                    }
                } else {
                    assignment_outcome(t.start, name@, scope, spec_parse_value(toks, idx + 2, end, scope, pool))
                },
            },
            _ => Parsed {
                result: Err(ErrorView::Simple(SimpleError::ExpectedIdentifier(t.start, EXPECTATION_STRENGTH))),
                index: idx + 1,
                pool,
            },
        },
    }
}

/// A value: the first of block, assignment, literal and variable that parses. Where all
/// fail, the strongest failure (the later one on a tie) with the index it reached.
pub open spec fn spec_parse_value(toks: Seq<Token>, idx: int, end: Loc, scope: int, pool: Seq<ScopeView>) -> Parsed
    decreases toks.len() - idx, 3int,
{
    let b = spec_parse_block(toks, idx, end, scope, pool);
    match b.result {
        Ok(_) => b,
        Err(eb) => {
            let a = spec_parse_assignment(toks, idx, end, scope, b.pool);
            match a.result {
                Ok(_) => a,
                Err(ea) => {
                    let best = pick(eb, b.index, ea, a.index);
                    let (lr, li) = spec_parse_literal(toks, idx, end);
                    match lr {
                        Ok(_) => Parsed { result: lr, index: li, pool: a.pool },
                        Err(el) => {
                            let best = pick(best.0, best.1, el, li);
                            let (vr, vi) = spec_parse_variable(toks, idx, end, scope, a.pool);
                            match vr {
                                Ok(_) => Parsed { result: vr, index: vi, pool: a.pool },
                                Err(ev) => {
                                    let best = pick(best.0, best.1, ev, vi);
                                    Parsed { result: Err(best.0), index: best.1, pool: a.pool }
                                },
                            }
                        },
                    }
                },
            }
        },
    }
}

/// A block failure that reached no closer, with the block as far as it parsed.
pub open spec fn unclosed_block(start: Loc, scope: int, contents: Seq<NodeView>, causes: Seq<ErrorView>) -> ErrorView {
    ErrorView::Block {
        start,
        strength: UNCLOSED_BLOCK_STRENGTH,
        causes,
        recover: Some(NodeView::Block { start, scope, contents, tail: None }),
    }
}

/// The end of a block whose closer was read: failures of elements make it fail as a whole,
/// and so does a trailing element with no type.
pub open spec fn finish_block(
    start: Loc,
    scope: int,
    pool: Seq<ScopeView>,
    contents: Seq<NodeView>,
    tail: Option<NodeView>,
    errors: Seq<ErrorView>,
    index: int,
) -> Parsed {
    let boxed = match tail {
        Some(t) => Some(Box::new(t)),
        None => None,
    };
    let result = if errors.len() > 0 {
        Err(
            ErrorView::Block {
                start,
                strength: BLOCK_STRENGTH,
                causes: errors,
                recover: Some(NodeView::Block { start, scope, contents, tail: boxed }),
            },
        )
    } else {
        match tail {
            Some(t) => if returns_of(t, scope, pool).is_empty() {
                Err(
                    ErrorView::Block {
                        start,
                        strength: BLOCK_STRENGTH,
                        causes: seq![ErrorView::Simple(SimpleError::ExpectedExpression(t.start(), BLOCK_STRENGTH))],
                        recover: Some(NodeView::Block { start, scope, contents: contents.push(t), tail: None }),
                    },
                )
            } else {
                Ok(NodeView::Block { start, scope, contents, tail: boxed })
            },
            None => Ok(NodeView::Block { start, scope, contents, tail: None }),
        }
    };
    Parsed { result, index, pool }
}

/// The elements of a block from `idx` on, given those read so far and their failures.
pub open spec fn block_loop(
    toks: Seq<Token>,
    idx: int,
    end: Loc,
    start: Loc,
    scope: int,
    pool: Seq<ScopeView>,
    contents: Seq<NodeView>,
    errors: Seq<ErrorView>,
) -> Parsed
    decreases toks.len() - idx, 4int,
{
    let v = spec_parse_value(toks, idx, end, scope, pool);
    let node = match v.result {
        Ok(n) => n,
        Err(e) => NodeView::Error { start: e.start() },
    };
    let errs = match v.result {
        Ok(_) => errors,
        Err(e) => errors.push(e),
    };
    let j = if v.index >= idx {
        v.index
    } else {
        idx
    };
    if !(0 <= j < toks.len()) {
        Parsed {
            result: Err(unclosed_block(start, scope, contents, errs.push(ErrorView::Simple(SimpleError::ExpectedBlockClose(end))))),
            index: j,
            pool: v.pool,
        }
    } else if toks[j].is_keyword_spec(KeywordType::BlockClose) {
        finish_block(start, scope, v.pool, contents, Some(node), errs, j + 1)
    } else if toks[j].is_keyword_spec(KeywordType::BlockSeparator) {
        if keyword_at(toks, j + 1, KeywordType::BlockClose) {
            finish_block(start, scope, v.pool, contents.push(node), None, errs, j + 2)
        } else {
            block_loop(toks, j + 1, end, start, scope, v.pool, contents.push(node), errs)
        }
    } else {
        Parsed {
            result: Err(unclosed_block(start, scope, contents, errs.push(ErrorView::Simple(SimpleError::ExpectedBlockClose(node.start()))))),
            index: j + 1,
            pool: v.pool,
        }
    }
}

/// A block: an opener, then either a closer (an empty block) or elements in a new child
/// scope, separated by separators and ended by a closer.
pub open spec fn spec_parse_block(toks: Seq<Token>, idx: int, end: Loc, parent: int, pool: Seq<ScopeView>) -> Parsed
    decreases toks.len() - idx, 2int,
{
    let start = match token_at(toks, idx) {
        Some(t) => t.start,
        None => end,
    };
    let no_open = seq![ErrorView::Simple(SimpleError::ExpectedBlockOpen(start))];
    if !keyword_at(toks, idx, KeywordType::BlockOpen) {
        Parsed {
            result: Err(ErrorView::Block { start, strength: BLOCK_OPEN_STRENGTH, causes: no_open, recover: None }),
            index: idx,
            pool,
        }
    } else if keyword_at(toks, idx + 1, KeywordType::BlockClose) {
        Parsed { result: Ok(NodeView::Nil { start }), index: idx + 2, pool }
    } else {
        block_loop(
            toks,
            idx + 1,
            end,
            start,
            pool.len() as int,
            pool_with_scope(pool, Some(parent)),
            Seq::empty(),
            Seq::empty(),
        )
    }
}

/// Alternation priority: from one index, a value is the first of block, assignment, literal
/// and variable that parses, each tried on the scope arena the ones before it left; where
/// all four fail the value fails.
pub proof fn lemma_alternation_priority(toks: Seq<Token>, idx: int, end: Loc, scope: int, pool: Seq<ScopeView>)
    ensures
        ({
            let v = spec_parse_value(toks, idx, end, scope, pool);
            let b = spec_parse_block(toks, idx, end, scope, pool);
            let a = spec_parse_assignment(toks, idx, end, scope, b.pool);
            let l = spec_parse_literal(toks, idx, end);
            let w = spec_parse_variable(toks, idx, end, scope, a.pool);
            &&& b.result is Ok ==> v == b
            &&& b.result is Err && a.result is Ok ==> v == a
            &&& b.result is Err && a.result is Err && l.0 is Ok ==> v.result == l.0 && v.index == l.1
            &&& b.result is Err && a.result is Err && l.0 is Err && w.0 is Ok ==> v.result == w.0 && v.index == w.1
            &&& b.result is Err && a.result is Err && l.0 is Err && w.0 is Err ==> v.result is Err
        }),
{
}

/// Parsing is a function of the tokens, the index, the end of the text, the scope and the
/// scope arena: equal inputs give equal results, cursor indices and arenas.
pub proof fn lemma_parse_is_pure(
    toks1: Seq<Token>,
    toks2: Seq<Token>,
    idx: int,
    end: Loc,
    scope: int,
    pool1: Seq<ScopeView>,
    pool2: Seq<ScopeView>,
)
    requires
        toks1 == toks2,
        pool1 == pool2,
    ensures
        spec_parse_value(toks1, idx, end, scope, pool1) == spec_parse_value(toks2, idx, end, scope, pool2),
{
}

/// Parses a variable at the cursor, as `spec_parse_variable` states.
pub fn parse_variable(tokens: &mut Needle<Token>, meta: &TextMetaData, scope: ScopeHandle, scopes: &ScopePool) -> (r: ParseResult<SyntaxTreeNode>)
    requires
        old(tokens)@.wf(),
        meta.wf(),
        scopes.wf(),
        scope.valid_in(scopes),
    ensures
        ({
            let (res, i) = spec_parse_variable(old(tokens)@.items, old(tokens)@.index, meta.end_loc(), scope@, scopes@);
            &&& view_result(r) == res
            &&& final(tokens)@ == old(tokens)@.with_index(i)
        }),
        final(tokens)@.wf(),
{
    let next = match tokens.read() {
        Some(token) => token,
        None => return Err(ParserError::Simple(SimpleError::ExpectedIdentifier(meta.get_end(), EXPECTATION_STRENGTH))),
    };
    match &next.token_type {
        TokenType::Identifier(name) => {
            if scope.get(scopes, name.as_str()).is_some() {
                Ok(SyntaxTreeNode::Variable(VariableNode::new(next.start, name.clone())))
            } else {
                Err(ParserError::Simple(SimpleError::InvalidVariableName(next.start, UNBOUND_NAME_STRENGTH)))
            }
        },
        _ => Err(ParserError::Simple(SimpleError::ExpectedIdentifier(next.start, EXPECTATION_STRENGTH))),
    }
}

/// Parses a literal at the cursor, as `spec_parse_literal` states.
pub fn parse_literal(tokens: &mut Needle<Token>, meta: &TextMetaData) -> (r: ParseResult<SyntaxTreeNode>)
    requires
        old(tokens)@.wf(),
        meta.wf(),
    ensures
        ({
            let (res, i) = spec_parse_literal(old(tokens)@.items, old(tokens)@.index, meta.end_loc());
            &&& view_result(r) == res
            &&& final(tokens)@ == old(tokens)@.with_index(i)
        }),
        final(tokens)@.wf(),
{
    let (start, literal) = match tokens.peek() {
        Some(token) => (token.start, token.as_literal()),
        None => return Err(ParserError::Literal(LiteralError::new(meta.get_end()))),
    };
    match literal {
        Some(literal) => {
            tokens.next();
            Ok(SyntaxTreeNode::Literal(LiteralNode { start: start, literal: literal }))
        },
        None => Err(ParserError::Literal(LiteralError::new(start))),
    }
}

/// Parses an assignment at the cursor and records its binding, as `spec_parse_assignment` states.
pub fn parse_assignment(tokens: &mut Needle<Token>, meta: &TextMetaData, scope: ScopeHandle, scopes: &mut ScopePool) -> (r: ParseResult<SyntaxTreeNode>)
    requires
        old(tokens)@.wf(),
        meta.wf(),
        old(scopes).wf(),
        scope.valid_in(old(scopes)),
    ensures
        ({
            let p = spec_parse_assignment(old(tokens)@.items, old(tokens)@.index, meta.end_loc(), scope@, old(scopes)@);
            &&& view_result(r) == p.result
            &&& final(tokens)@ == old(tokens)@.with_index(p.index)
            &&& final(scopes)@ == p.pool
        }),
        final(tokens)@.wf(),
        final(scopes).wf(),
        final(tokens)@.index >= old(tokens)@.index,
        final(scopes)@.len() >= old(scopes)@.len(),
    decreases old(tokens)@.items.len() - old(tokens)@.index, 1int,
{
    let (start, identifier) = match tokens.read() {
        Some(token) => match &token.token_type {
            TokenType::Identifier(name) => (token.start, name.clone()),
            _ => return Err(ParserError::Simple(SimpleError::ExpectedIdentifier(token.start, EXPECTATION_STRENGTH))),
        },
        None => return Err(ParserError::Simple(SimpleError::ExpectedIdentifier(meta.get_end(), EXPECTATION_STRENGTH))),
    };
    match tokens.read() {
        Some(token) => {
            if !token.is_keyword(KeywordType::Assign) {
                return Err(ParserError::Simple(SimpleError::ExpectedEquals(token.start, EXPECTATION_STRENGTH)));
            }
        },
        None => return Err(ParserError::Simple(SimpleError::ExpectedEquals(meta.get_end(), EXPECTATION_STRENGTH))),
    }
    let ghost p = spec_parse_assignment(old(tokens)@.items, old(tokens)@.index, meta.end_loc(), scope@, old(scopes)@);
    let ghost v = spec_parse_value(old(tokens)@.items, old(tokens)@.index + 2, meta.end_loc(), scope@, old(scopes)@);
    proof {
        assert(p == assignment_outcome(start, identifier@, scope@, v));
    }
    let data = parse_value(tokens, meta, scope, scopes);
    match data {
        Err(error) => Err(
            ParserError::AssignmentData(
                AssignmentDataError {
                    start: start,
                    strength: ASSIGNMENT_STRENGTH,
                    cause: Box::new(error),
                    var_name: identifier,
                },
            ),
        ),
        Ok(data) => {
            let possible_returns = data.get_possible_returns(scope, scopes);
            let cause = ParserError::Simple(SimpleError::ExpectedExpression(data.get_start(), ASSIGNMENT_STRENGTH));
            let var_name = identifier.clone();
            proof {
                assert(cause@ == ErrorView::Simple(SimpleError::ExpectedExpression(data@.start(), ASSIGNMENT_STRENGTH)));
                assert(var_name@ == identifier@);
            }
            let no_type = ParserError::AssignmentData(
                AssignmentDataError {
                    start: start,
                    strength: ASSIGNMENT_STRENGTH,
                    cause: Box::new(cause),
                    var_name: var_name,
                },
            );
            proof {
                assert(v.result == Ok::<NodeView, ErrorView>(data@));
                assert(no_type@ == ErrorView::AssignmentData {
                    start,
                    strength: ASSIGNMENT_STRENGTH,
                    cause: Box::new(ErrorView::Simple(SimpleError::ExpectedExpression(data@.start(), ASSIGNMENT_STRENGTH))),
                    var_name: identifier@,
                });
            }
            if possible_returns.is_undef() {
                return Err(no_type);
            }
            match scope.constrain(scopes, identifier.as_str(), &possible_returns) {
                None => {
                    scope.insert(scopes, identifier.as_str(), possible_returns);
                },
                Some(narrowed) => {
                    proof {
                        lemma_owner_of_bounds(v.pool, scope@, identifier@);
                    }
                    if narrowed.is_undef() {
                        return Err(no_type);
                    }
                },
            }
            Ok(SyntaxTreeNode::Assignment(AssignmentNode { start: start, identifier: identifier, data: Box::new(data) }))
        },
    }
}

/// Parses a value at the cursor by trying each production in turn, as `spec_parse_value` states;
/// the cursor's checkpoints are as they were before.
pub fn parse_value(tokens: &mut Needle<Token>, meta: &TextMetaData, scope: ScopeHandle, scopes: &mut ScopePool) -> (r: ParseResult<SyntaxTreeNode>)
    requires
        old(tokens)@.wf(),
        meta.wf(),
        old(scopes).wf(),
        scope.valid_in(old(scopes)),
    ensures
        ({
            let p = spec_parse_value(old(tokens)@.items, old(tokens)@.index, meta.end_loc(), scope@, old(scopes)@);
            &&& view_result(r) == p.result
            &&& final(tokens)@ == old(tokens)@.with_index(p.index)
            &&& final(scopes)@ == p.pool
        }),
        final(tokens)@.wf(),
        final(scopes).wf(),
        final(tokens)@.index >= old(tokens)@.index,
        final(scopes)@.len() >= old(scopes)@.len(),
    decreases old(tokens)@.items.len() - old(tokens)@.index, 3int,
{
    let ghost c0 = tokens@;
    proof {
        assert(c0.stack.push(c0.index).drop_last() =~= c0.stack);
    }
    tokens.push_state();
    let (mut best, mut best_end) = match parse_block(tokens, meta, scope, scopes) {
        Ok(value) => {
            tokens.pop_state_no_revert();
            return Ok(value);
        },
        Err(error) => (error, tokens.get_index()),
    };
    tokens.pop_state();

    tokens.push_state();
    match parse_assignment(tokens, meta, scope, scopes) {
        Ok(value) => {
            tokens.pop_state_no_revert();
            return Ok(value);
        },
        Err(error) => {
            if best.get_strength() <= error.get_strength() {
                best_end = tokens.get_index();
                best = error;
            }
        },
    }
    tokens.pop_state();

    tokens.push_state();
    match parse_literal(tokens, meta) {
        Ok(value) => {
            tokens.pop_state_no_revert();
            return Ok(value);
        },
        Err(error) => {
            if best.get_strength() <= error.get_strength() {
                best_end = tokens.get_index();
                best = error;
            }
        },
    }
    tokens.pop_state();

    tokens.push_state();
    match parse_variable(tokens, meta, scope, scopes) {
        Ok(value) => {
            tokens.pop_state_no_revert();
            return Ok(value);
        },
        Err(error) => {
            if best.get_strength() <= error.get_strength() {
                best_end = tokens.get_index();
                best = error;
            }
        },
    }
    tokens.pop_state();

    tokens.set_index(best_end);
    Err(best)
}

/// Builds the result of a block whose closer was read, as `finish_block` states.
fn finish_block_exec(
    start: Loc,
    scope: ScopeHandle,
    scopes: &ScopePool,
    contents: Vec<SyntaxTreeNode>,
    tail: Option<SyntaxTreeNode>,
    errors: Vec<ParserError>,
) -> (r: ParseResult<SyntaxTreeNode>)
    requires
        scopes.wf(),
    ensures
        view_result(r) == finish_block(
            start,
            scope@,
            scopes@,
            view_nodes(contents@),
            match tail {
                Some(t) => Some(t@),
                None => None,
            },
            view_errors(errors@),
            0,
        ).result,
{
    if errors.len() > 0 {
        proof {
            lemma_view_errors(errors@);
        }
        let tail = match tail {
            Some(t) => Some(Box::new(t)),
            None => None,
        };
        return Err(
            ParserError::Block(
                BlockError {
                    start: start,
                    strength: BLOCK_STRENGTH,
                    causes: errors,
                    recover: Some(Box::new(SyntaxTreeNode::Block(BlockNode { start: start, scope: scope, contents: contents, tail: tail }))),
                },
            ),
        );
    }
    proof {
        lemma_view_errors(errors@);
    }
    match tail {
        Some(t) => {
            if t.get_possible_returns(scope, scopes).is_undef() {
                let mut contents = contents;
                let cause = ParserError::Simple(SimpleError::ExpectedExpression(t.get_start(), BLOCK_STRENGTH));
                proof {
                    lemma_view_nodes_push(contents@, t);
                }
                contents.push(t);
                let causes = vec![cause];
                proof {
                    lemma_view_errors(causes@);
                    assert(view_errors(causes@) =~= seq![cause@]);
                }
                Err(
                    ParserError::Block(
                        BlockError {
                            start: start,
                            strength: BLOCK_STRENGTH,
                            causes: causes,
                            recover: Some(Box::new(SyntaxTreeNode::Block(BlockNode { start: start, scope: scope, contents: contents, tail: None }))),
                        },
                    ),
                )
            } else {
                Ok(SyntaxTreeNode::Block(BlockNode { start: start, scope: scope, contents: contents, tail: Some(Box::new(t)) }))
            }
        },
        None => Ok(SyntaxTreeNode::Block(BlockNode { start: start, scope: scope, contents: contents, tail: None })),
    }
}

/// Parses a block at the cursor in a new child scope of `parent_scope`, as `spec_parse_block` states.
pub fn parse_block(tokens: &mut Needle<Token>, meta: &TextMetaData, parent_scope: ScopeHandle, scopes: &mut ScopePool) -> (r: ParseResult<SyntaxTreeNode>)
    requires
        old(tokens)@.wf(),
        meta.wf(),
        old(scopes).wf(),
        parent_scope.valid_in(old(scopes)),
    ensures
        ({
            let p = spec_parse_block(old(tokens)@.items, old(tokens)@.index, meta.end_loc(), parent_scope@, old(scopes)@);
            &&& view_result(r) == p.result
            &&& final(tokens)@ == old(tokens)@.with_index(p.index)
            &&& final(scopes)@ == p.pool
        }),
        final(tokens)@.wf(),
        final(scopes).wf(),
        final(tokens)@.index >= old(tokens)@.index,
        final(scopes)@.len() >= old(scopes)@.len(),
    decreases old(tokens)@.items.len() - old(tokens)@.index, 2int,
{
    let ghost toks = tokens@.items;
    let ghost idx0 = tokens@.index;
    let ghost end = meta.end_loc();
    let start = match tokens.peek() {
        Some(token) => token.start,
        None => meta.get_end(),
    };
    let opens = match tokens.peek() {
        Some(token) => token.is_keyword(KeywordType::BlockOpen),
        None => false,
    };
    if !opens {
        let causes = vec![ParserError::Simple(SimpleError::ExpectedBlockOpen(start))];
        proof {
            lemma_view_errors(causes@);
            assert(view_errors(causes@) =~= seq![ErrorView::Simple(SimpleError::ExpectedBlockOpen(start))]);
        }
        return Err(ParserError::Block(BlockError { start: start, strength: BLOCK_OPEN_STRENGTH, causes: causes, recover: None }));
    }
    tokens.next();
    let closes = match tokens.peek() {
        Some(token) => token.is_keyword(KeywordType::BlockClose),
        None => false,
    };
    if closes {
        tokens.next();
        return Ok(SyntaxTreeNode::Nil(NilNode { start: start }));
    }

    let ghost base = scopes@;
    let scope = parent_scope.create_subscope(scopes);
    let mut contents: Vec<SyntaxTreeNode> = Vec::new();
    let mut errors: Vec<ParserError> = Vec::new();
    let ghost goal = block_loop(toks, idx0 + 1, end, start, base.len() as int, scopes@, Seq::empty(), Seq::empty());
    proof {
        assert(view_nodes(contents@) =~= Seq::<NodeView>::empty());
        assert(view_errors(errors@) =~= Seq::<ErrorView>::empty());
    }
    loop
        invariant
            tokens@.wf(),
            tokens@.items == toks,
            tokens@.stack == old(tokens)@.stack,
            toks == old(tokens)@.items,
            idx0 == old(tokens)@.index,
            idx0 < tokens@.index <= toks.len(),
            meta.wf(),
            end == meta.end_loc(),
            scopes.wf(),
            scope@ == base.len(),
            scope@ < scopes@.len(),
            scopes@.len() >= old(scopes)@.len(),
            goal == spec_parse_block(toks, idx0, end, parent_scope@, old(scopes)@),
            block_loop(toks, tokens@.index, end, start, scope@, scopes@, view_nodes(contents@), view_errors(errors@)) == goal,
        decreases toks.len() - tokens@.index,
    {
        let ghost i = tokens@.index;
        let ghost cs = view_nodes(contents@);
        let ghost es = view_errors(errors@);
        let ghost v = spec_parse_value(toks, i, end, scope@, scopes@);
        let current_value = match parse_value(tokens, meta, scope, scopes) {
            Ok(value) => value,
            Err(err) => {
                let err_start = err.get_start();
                proof {
                    lemma_view_errors_push(errors@, err);
                }
                errors.push(err);
                SyntaxTreeNode::Error(ErrorNode { start: err_start })
            },
        };
        let (is_close, is_separator) = match tokens.read() {
            Some(token) => (token.is_keyword(KeywordType::BlockClose), token.is_keyword(KeywordType::BlockSeparator)),
            None => {
                let cause = ParserError::Simple(SimpleError::ExpectedBlockClose(meta.get_end()));
                proof {
                    lemma_view_errors_push(errors@, cause);
                }
                errors.push(cause);
                return Err(
                    ParserError::Block(
                        BlockError {
                            start: start,
                            strength: UNCLOSED_BLOCK_STRENGTH,
                            causes: errors,
                            recover: Some(Box::new(SyntaxTreeNode::Block(BlockNode { start: start, scope: scope, contents: contents, tail: None }))),
                        },
                    ),
                );
            },
        };
        if is_close {
            return finish_block_exec(start, scope, scopes, contents, Some(current_value), errors);
        } else if is_separator {
            proof {
                lemma_view_nodes_push(contents@, current_value);
            }
            contents.push(current_value);
            let next_closes = match tokens.peek() {
                Some(token) => token.is_keyword(KeywordType::BlockClose),
                None => false,
            };
            if next_closes {
                tokens.next();
                return finish_block_exec(start, scope, scopes, contents, None, errors);
            }
        } else {
            let cause = ParserError::Simple(SimpleError::ExpectedBlockClose(current_value.get_start()));
            proof {
                lemma_view_errors_push(errors@, cause);
            }
            errors.push(cause);
            return Err(
                ParserError::Block(
                    BlockError {
                        start: start,
                        strength: UNCLOSED_BLOCK_STRENGTH,
                        causes: errors,
                        recover: Some(Box::new(SyntaxTreeNode::Block(BlockNode { start: start, scope: scope, contents: contents, tail: None }))),
                    },
                ),
            );
        }
    }
}

} // verus!
