//! The syntax tree and the types its values can take.
use vstd::prelude::*;
use crate::needle::Loc;
use crate::token::LiteralType;
use crate::type_handler::{lookup, ScopeHandle, ScopePool, ScopeView, Type, TypeCollection};

verus! {

broadcast use vstd::std_specs::vec::axiom_vec_decreases_to_view, vstd::seq::axiom_seq_subrange_decreases;

/// Something that starts at a location of the source.
pub trait CodeLocation {
    spec fn start_spec(&self) -> Loc;

    fn get_start(&self) -> (r: Loc)
        ensures
            r == self.start_spec(),
    ;
}

/// A block: its elements, and the trailing element whose value the block takes, if any.
pub struct BlockNode {
    pub start: Loc,
    pub scope: ScopeHandle,
    pub contents: Vec<SyntaxTreeNode>,
    pub tail: Option<Box<SyntaxTreeNode>>,
}

pub struct AssignmentNode {
    pub start: Loc,
    pub identifier: String,
    pub data: Box<SyntaxTreeNode>,
}

pub struct LiteralNode {
    pub start: Loc,
    pub literal: LiteralType,
}

pub struct VariableNode {
    pub start: Loc,
    pub identifier: String,
}

/// The value of an empty block.
pub struct NilNode {
    pub start: Loc,
}

/// Stands where an element failed to parse.
pub struct ErrorNode {
    pub start: Loc,
}

pub enum SyntaxTreeNode {
    Block(BlockNode),
    Assignment(AssignmentNode),
    Literal(LiteralNode),
    Variable(VariableNode),
    Nil(NilNode),
    Error(ErrorNode),
}

/// A syntax tree seen as values.
pub enum NodeView {
    Block { start: Loc, scope: int, contents: Seq<NodeView>, tail: Option<Box<NodeView>> },
    Assignment { start: Loc, identifier: Seq<char>, data: Box<NodeView> },
    Literal { start: Loc, literal: LiteralType },
    Variable { start: Loc, identifier: Seq<char> },
    Nil { start: Loc },
    Error { start: Loc },
}

impl NodeView {
    pub open spec fn start(self) -> Loc {
        match self {
            NodeView::Block { start, .. } => start,
            NodeView::Assignment { start, .. } => start,
            NodeView::Literal { start, .. } => start,
            NodeView::Variable { start, .. } => start,
            NodeView::Nil { start } => start,
            NodeView::Error { start } => start,
        }
    }
}

/// The views of a sequence of nodes, one for one.
pub open spec fn view_nodes(s: Seq<SyntaxTreeNode>) -> Seq<NodeView>
    decreases s,
{
    if s.len() == 0 {
        Seq::empty()
    } else {
        view_nodes(s.drop_last()).push(s.last().view())
    }
}

pub proof fn lemma_view_nodes(s: Seq<SyntaxTreeNode>)
    ensures
        view_nodes(s).len() == s.len(),
        forall|i: int| 0 <= i < s.len() ==> #[trigger] view_nodes(s)[i] == s[i]@,
    decreases s.len(),
{
    assert(view_nodes(s) == if s.len() == 0 {
        Seq::<NodeView>::empty()
    } else {
        view_nodes(s.drop_last()).push(s.last().view())
    });
    if s.len() > 0 {
        lemma_view_nodes(s.drop_last());
    }
}

pub proof fn lemma_view_nodes_push(s: Seq<SyntaxTreeNode>, n: SyntaxTreeNode)
    ensures
        view_nodes(s.push(n)) == view_nodes(s).push(n@),
{
    assert(s.push(n).drop_last() =~= s);
}

impl View for SyntaxTreeNode {
    type V = NodeView;

    open spec fn view(&self) -> NodeView
        decreases self,
    {
        match self {
            SyntaxTreeNode::Block(b) => NodeView::Block {
                start: b.start,
                scope: b.scope@,
                contents: view_nodes(b.contents@),
                tail: match &b.tail {
                    Some(t) => Some(Box::new((**t).view())),
                    None => None,
                },
            },
            SyntaxTreeNode::Assignment(a) => NodeView::Assignment {
                start: a.start,
                identifier: a.identifier@,
                data: Box::new((*a.data).view()),
            },
            SyntaxTreeNode::Literal(l) => NodeView::Literal { start: l.start, literal: l.literal },
            SyntaxTreeNode::Variable(v) => NodeView::Variable {
                start: v.start,
                identifier: v.identifier@,
            },
            SyntaxTreeNode::Nil(n) => NodeView::Nil { start: n.start },
            SyntaxTreeNode::Error(e) => NodeView::Error { start: e.start },
        }
    }
}

/// The types a literal can take: a string is a string, a float a float, and an
/// integer either an int or a float.
pub open spec fn literal_types(l: LiteralType) -> Set<Type> {
    match l {
        LiteralType::Str(_) => set![Type::Str],
        LiteralType::Integer(_) => set![Type::Int, Type::Float],
        LiteralType::Float(_) => set![Type::Float],
    }
}

/// The types the value of a node can take, seen from scope `scope`: a variable has the set
/// bound to its name, a block that of its trailing element in its own scope; a node with no
/// value, or a name bound nowhere, has the empty set.
pub open spec fn returns_of(n: NodeView, scope: int, pool: Seq<ScopeView>) -> Set<Type>
    decreases n,
{
    match n {
        NodeView::Literal { literal, .. } => literal_types(literal),
        NodeView::Variable { identifier, .. } => match lookup(pool, scope, identifier) {
            Some(t) => t,
            None => Set::empty(),
        },
        NodeView::Block { scope: own, tail, .. } => match tail {
            Some(t) => returns_of(*t, own, pool),
            None => Set::empty(),
        },
        _ => Set::empty(),
    }
}

impl CodeLocation for SyntaxTreeNode {
    open spec fn start_spec(&self) -> Loc {
        self@.start()
    }

    fn get_start(&self) -> (r: Loc) {
        match self {
            SyntaxTreeNode::Block(b) => b.start,
            SyntaxTreeNode::Assignment(a) => a.start,
            SyntaxTreeNode::Literal(l) => l.start,
            SyntaxTreeNode::Variable(v) => v.start,
            SyntaxTreeNode::Nil(n) => n.start,
            SyntaxTreeNode::Error(e) => e.start,
        }
    }
}

impl SyntaxTreeNode {
    /// The types this node's value can take, seen from `scope`.
    pub fn get_possible_returns(&self, scope: ScopeHandle, scopes: &ScopePool) -> (r: TypeCollection)
        requires
            scopes.wf(),
        ensures
            r@ == returns_of(self@, scope@, scopes@),
        decreases self,
    {
        match self {
            SyntaxTreeNode::Literal(l) => l.get_possible_returns(),
            SyntaxTreeNode::Variable(v) => {
                if scope.id() >= scopes.len() {
                    return TypeCollection::undef();
                }
                match scope.get(scopes, v.identifier.as_str()) {
                    Some(t) => *t,
                    None => TypeCollection::undef(),
                }
            },
            SyntaxTreeNode::Block(b) => match &b.tail {
                Some(t) => (**t).get_possible_returns(b.scope, scopes),
                None => TypeCollection::undef(),
            },
            _ => TypeCollection::undef(),
        }
    }
}

impl VariableNode {
    pub fn new(start: Loc, identifier: String) -> (r: VariableNode)
        ensures
            r.start == start,
            r.identifier == identifier,
    {
        VariableNode { start: start, identifier: identifier }
    }
}

impl LiteralNode {
    pub fn get_possible_returns(&self) -> (r: TypeCollection)
        ensures
            r@ == literal_types(self.literal),
    {
        let r = match self.literal {
            LiteralType::Str(_) => TypeCollection::from(vec![Type::Str]),
            LiteralType::Integer(_) => TypeCollection::from(vec![Type::Int, Type::Float]),
            LiteralType::Float(_) => TypeCollection::from(vec![Type::Float]),
        };
        proof {
            assert(seq![Type::Str].to_set() =~= set![Type::Str]) by {
                assert(seq![Type::Str][0] == Type::Str);
            }
            assert(seq![Type::Float].to_set() =~= set![Type::Float]) by {
                assert(seq![Type::Float][0] == Type::Float);
            }
            assert(seq![Type::Int, Type::Float].to_set() =~= set![Type::Int, Type::Float]) by {
                let s = seq![Type::Int, Type::Float];
                assert(s[0] == Type::Int && s[1] == Type::Float);
            }
        }
        r
    }
}

impl CodeLocation for BlockNode {
    open spec fn start_spec(&self) -> Loc {
        self.start
    }

    fn get_start(&self) -> (r: Loc) {
        self.start
    }
}

impl CodeLocation for AssignmentNode {
    open spec fn start_spec(&self) -> Loc {
        self.start
    }

    fn get_start(&self) -> (r: Loc) {
        self.start
    }
}

impl CodeLocation for LiteralNode {
    open spec fn start_spec(&self) -> Loc {
        self.start
    }

    fn get_start(&self) -> (r: Loc) {
        self.start
    }
}

impl CodeLocation for VariableNode {
    open spec fn start_spec(&self) -> Loc {
        self.start
    }

    fn get_start(&self) -> (r: Loc) {
        self.start
    }
}

impl CodeLocation for NilNode {
    open spec fn start_spec(&self) -> Loc {
        self.start
    }

    fn get_start(&self) -> (r: Loc) {
        self.start
    }
}

impl CodeLocation for ErrorNode {
    open spec fn start_spec(&self) -> Loc {
        self.start
    }

    fn get_start(&self) -> (r: Loc) {
        self.start
    }
}

} // verus!
