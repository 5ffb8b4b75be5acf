//! Ranked diagnostics of the parser.
use vstd::prelude::*;
use crate::needle::Loc;
use crate::nodes::{CodeLocation, NodeView, SyntaxTreeNode};

verus! {

broadcast use vstd::std_specs::vec::axiom_vec_decreases_to_view, vstd::seq::axiom_seq_subrange_decreases;

/// Strength of a missing block opener: the weakest, as most tokens are not blocks.
pub const BLOCK_OPEN_STRENGTH: u8 = 0;

/// Strength of a missing block closer.
pub const BLOCK_CLOSE_STRENGTH: u8 = 4;

/// Strength of a token that is not a literal: low, so that a production that got further wins.
pub const LITERAL_STRENGTH: u8 = 1;

/// A token that should have been a literal.
#[derive(Clone, Copy, Debug, PartialEq, Eq, Structural)]
pub struct LiteralError {
    pub start: Loc,
}

impl LiteralError {
    pub fn new(start: Loc) -> (r: LiteralError)
        ensures
            r.start == start,
    {
        LiteralError { start: start }
    }
}

/// A structural expectation that did not hold; some carry the strength their context gave them.
#[derive(Clone, Copy, Debug, PartialEq, Eq, Structural)]
pub enum SimpleError {
    ExpectedBlockOpen(Loc),
    ExpectedBlockClose(Loc),
    ExpectedIdentifier(Loc, u8),
    ExpectedEquals(Loc, u8),
    InvalidVariableName(Loc, u8),
    ExpectedExpression(Loc, u8),
}

impl SimpleError {
    pub open spec fn start_spec(self) -> Loc {
        match self {
            SimpleError::ExpectedBlockOpen(l) => l,
            SimpleError::ExpectedBlockClose(l) => l,
            SimpleError::ExpectedIdentifier(l, _) => l,
            SimpleError::ExpectedEquals(l, _) => l,
            SimpleError::InvalidVariableName(l, _) => l,
            SimpleError::ExpectedExpression(l, _) => l,
        }
    }

    pub open spec fn strength_spec(self) -> u8 {
        match self {
            SimpleError::ExpectedBlockOpen(_) => BLOCK_OPEN_STRENGTH,
            SimpleError::ExpectedBlockClose(_) => BLOCK_CLOSE_STRENGTH,
            SimpleError::ExpectedIdentifier(_, s) => s,
            SimpleError::ExpectedEquals(_, s) => s,
            SimpleError::InvalidVariableName(_, s) => s,
            SimpleError::ExpectedExpression(_, s) => s,
        }
    }

    pub fn location(&self) -> (r: Loc)
        ensures
            r == self.start_spec(),
    {
        match self {
            SimpleError::ExpectedBlockOpen(l) => *l,
            SimpleError::ExpectedBlockClose(l) => *l,
            SimpleError::ExpectedIdentifier(l, _) => *l,
            SimpleError::ExpectedEquals(l, _) => *l,
            SimpleError::InvalidVariableName(l, _) => *l,
            SimpleError::ExpectedExpression(l, _) => *l,
        }
    }

    pub fn get_strength(&self) -> (r: u8)
        ensures
            r == self.strength_spec(),
    {
        match self {
            SimpleError::ExpectedBlockOpen(_) => BLOCK_OPEN_STRENGTH,
            SimpleError::ExpectedBlockClose(_) => BLOCK_CLOSE_STRENGTH,
            SimpleError::ExpectedIdentifier(_, s) => *s,
            SimpleError::ExpectedEquals(_, s) => *s,
            SimpleError::InvalidVariableName(_, s) => *s,
            SimpleError::ExpectedExpression(_, s) => *s,
        }
    }
}

/// The right-hand side of an assignment failed, or has no type.
pub struct AssignmentDataError {
    pub start: Loc,
    pub strength: u8,
    pub cause: Box<ParserError>,
    pub var_name: String,
}

/// A block failed: one cause per broken element or terminator, and the block as far as it parsed.
pub struct BlockError {
    pub start: Loc,
    pub strength: u8,
    pub causes: Vec<ParserError>,
    pub recover: Option<Box<SyntaxTreeNode>>,
}

pub enum ParserError {
    Literal(LiteralError),
    Simple(SimpleError),
    AssignmentData(AssignmentDataError),
    Block(BlockError),
}

/// A diagnostic seen as values.
pub enum ErrorView {
    Literal { start: Loc },
    Simple(SimpleError),
    AssignmentData { start: Loc, strength: u8, cause: Box<ErrorView>, var_name: Seq<char> },
    Block { start: Loc, strength: u8, causes: Seq<ErrorView>, recover: Option<NodeView> },
}

impl ErrorView {
    pub open spec fn start(self) -> Loc {
        match self {
            ErrorView::Literal { start } => start,
            ErrorView::Simple(e) => e.start_spec(),
            ErrorView::AssignmentData { start, .. } => start,
            ErrorView::Block { start, .. } => start,
        }
    }

    pub open spec fn strength(self) -> u8 {
        match self {
            ErrorView::Literal { .. } => LITERAL_STRENGTH,
            ErrorView::Simple(e) => e.strength_spec(),
            ErrorView::AssignmentData { strength, .. } => strength,
            ErrorView::Block { strength, .. } => strength,
        }
    }
}

/// Whether `candidate` beats the best diagnostic so far: anything beats none, and ties go to the candidate.
pub open spec fn stronger_or_equal(candidate: ErrorView, incumbent: Option<ErrorView>) -> bool {
    match incumbent {
        None => true,
        Some(e) => e.strength() <= candidate.strength(),
    }
}

/// The views of a sequence of diagnostics, one for one.
pub open spec fn view_errors(s: Seq<ParserError>) -> Seq<ErrorView>
    decreases s,
{
    if s.len() == 0 {
        Seq::empty()
    } else {
        view_errors(s.drop_last()).push(s.last().view())
    }
}

pub proof fn lemma_view_errors(s: Seq<ParserError>)
    ensures
        view_errors(s).len() == s.len(),
        forall|i: int| 0 <= i < s.len() ==> #[trigger] view_errors(s)[i] == s[i]@,
    decreases s.len(),
{
    assert(view_errors(s) == if s.len() == 0 {
        Seq::<ErrorView>::empty()
    } else {
        view_errors(s.drop_last()).push(s.last().view())
    });
    if s.len() > 0 {
        lemma_view_errors(s.drop_last());
    }
}

pub proof fn lemma_view_errors_push(s: Seq<ParserError>, e: ParserError)
    ensures
        view_errors(s.push(e)) == view_errors(s).push(e@),
{
    assert(s.push(e).drop_last() =~= s);
}

impl View for ParserError {
    type V = ErrorView;

    open spec fn view(&self) -> ErrorView
        decreases self,
    {
        match self {
            ParserError::Literal(e) => ErrorView::Literal { start: e.start },
            ParserError::Simple(e) => ErrorView::Simple(*e),
            ParserError::AssignmentData(e) => ErrorView::AssignmentData {
                start: e.start,
                strength: e.strength,
                cause: Box::new((*e.cause).view()),
                var_name: e.var_name@,
            },
            ParserError::Block(e) => ErrorView::Block {
                start: e.start,
                strength: e.strength,
                causes: view_errors(e.causes@),
                recover: match &e.recover {
                    Some(n) => Some((**n)@),
                    None => None,
                },
            },
        }
    }
}

impl CodeLocation for ParserError {
    open spec fn start_spec(&self) -> Loc {
        self@.start()
    }

    fn get_start(&self) -> (r: Loc) {
        match self {
            ParserError::Literal(e) => e.start,
            ParserError::Simple(e) => e.location(),
            ParserError::AssignmentData(e) => e.start,
            ParserError::Block(e) => e.start,
        }
    }
}

impl CodeLocation for SimpleError {
    open spec fn start_spec(&self) -> Loc {
        SimpleError::start_spec(*self)
    }

    fn get_start(&self) -> (r: Loc) {
        self.location()
    }
}

impl ParserError {

    pub fn get_strength(&self) -> (r: u8)
        ensures
            r == self@.strength(),
    {
        match self {
            ParserError::Literal(_) => LITERAL_STRENGTH,
            ParserError::Simple(e) => e.get_strength(),
            ParserError::AssignmentData(e) => e.strength,
            ParserError::Block(e) => e.strength,
        }
    }

    /// The diagnostics a block failure aggregates; other diagnostics list none.
    pub fn get_causes(&self) -> (r: &[ParserError])
        ensures
            view_errors(r@) == match self@ {
                ErrorView::Block { causes, .. } => causes,
                _ => Seq::<ErrorView>::empty(),
            },
    {
        match self {
            ParserError::Block(e) => {
                proof {
                    assert(view_errors(e.causes@) == self@->Block_causes);
                }
                e.causes.as_slice()
            },
            _ => {
                let r: &[ParserError] = &[];
                proof {
                    assert(view_errors(r@) =~= Seq::<ErrorView>::empty());
                }
                r
            },
        }
    }

    /// Whether this diagnostic beats `other`, the best so far.
    pub fn cmp_strength(&self, other: &Option<ParserError>) -> (r: bool)
        ensures
            r == stronger_or_equal(
                self@,
                match other {
                    Some(e) => Some(e@),
                    None => None,
                },
            ),
    {
        match other {
            None => true,
            Some(value) => value.get_strength() <= self.get_strength(),
        }
    }
}

impl CodeLocation for LiteralError {
    open spec fn start_spec(&self) -> Loc {
        self.start
    }

    fn get_start(&self) -> (r: Loc) {
        self.start
    }
}

impl CodeLocation for AssignmentDataError {
    open spec fn start_spec(&self) -> Loc {
        self.start
    }

    fn get_start(&self) -> (r: Loc) {
        self.start
    }
}

impl CodeLocation for BlockError {
    open spec fn start_spec(&self) -> Loc {
        self.start
    }

    fn get_start(&self) -> (r: Loc) {
        self.start
    }
}

} // verus!
