//! Indented text dumps of syntax trees and diagnostics.
use vstd::prelude::*;
use crate::errors::{ErrorView, ParserError, SimpleError, view_errors};
use crate::needle::Loc;
use crate::nodes::{BlockNode, NodeView, SyntaxTreeNode, view_nodes, lemma_view_nodes};
use crate::render::{
    decimal, loc_text, push_char, repeat, signed_decimal, write_chars, write_decimal, write_loc,
    write_repeat, write_signed, decimal_digits,
};
use crate::token::{FloatLiteral, LiteralType, Token, TokenType};
use crate::type_handler::{ScopePool, ScopeView, types_text};

verus! {

broadcast use vstd::seq::axiom_seq_subrange_decreases, vstd::std_specs::vec::axiom_vec_index_decreases;

/// Something that renders itself as indented lines, one level of `indent_style` per depth.
pub trait TreeDump {
    /// The text of the dump, each line led by `prefix` and one more `style` per level below.
    spec fn dump_text(&self, prefix: Seq<char>, style: Seq<char>) -> Seq<char>;

    /// Appends the dump at depth `indent`.
    fn print_with_indent(&self, indent: usize, indent_style: &str, out: &mut String)
        ensures
            final(out)@ == old(out)@ + self.dump_text(repeat(indent_style@, indent as nat), indent_style@),
    ;

    /// Appends the dump at depth zero, with " : " as the indent.
    fn print(&self, out: &mut String)
        ensures
            final(out)@ == old(out)@ + self.dump_text(Seq::empty(), " : "@),
    {
        self.print_with_indent(0, " : ", out);
        proof {
            assert(repeat(" : "@, 0) =~= Seq::<char>::empty());
        }
    }
}

/// One line of a dump: the prefix, the location in parentheses, then the text.
pub open spec fn dump_line(prefix: Seq<char>, l: Loc, text: Seq<char>) -> Seq<char> {
    prefix + "("@ + loc_text(l) + "): "@ + text + "\n"@
}

/// A decimal fraction: the digits with a point `decimals` places from the right, zeros
/// filled in where the digits are fewer.
pub open spec fn float_text(f: FloatLiteral) -> Seq<char> {
    let sign = if f.digits < 0 {
        seq!['-']
    } else {
        Seq::empty()
    };
    let s = decimal(if f.digits < 0 {
        (-f.digits) as nat
    } else {
        f.digits as nat
    });
    sign + point_text(s, f.decimals as int)
}

/// Digits with a point `d` places from the right.
pub open spec fn point_text(s: Seq<char>, d: int) -> Seq<char> {
    if d == 0 {
        s + ".0"@
    } else if s.len() > d {
        s.subrange(0, s.len() - d) + "."@ + s.subrange(s.len() - d, s.len() as int)
    } else {
        "0."@ + repeat("0"@, (d - s.len()) as nat) + s
    }
}

pub open spec fn literal_text(l: LiteralType) -> Seq<char> {
    match l {
        LiteralType::Str(s) => "string '"@ + s@ + "'"@,
        LiteralType::Integer(v) => "integer "@ + signed_decimal(v as int),
        LiteralType::Float(f) => "float "@ + float_text(f),
    }
}

/// The dump of a node: its line, then its children one level deeper.
pub open spec fn node_dump(n: NodeView, prefix: Seq<char>, style: Seq<char>) -> Seq<char>
    decreases n,
{
    match n {
        NodeView::Block { start, contents, tail, .. } => {
            let inner = prefix + style;
            dump_line(prefix, start, "Block"@) + (if contents.len() > 0 {
                inner + "Contents:\n"@ + nodes_dump(contents, inner + style, style)
            } else {
                Seq::empty()
            }) + match tail {
                Some(t) => inner + "Returns:\n"@ + node_dump(*t, inner + style, style),
                None => Seq::empty(),
            }
        },
        NodeView::Assignment { start, identifier, data } => dump_line(
            prefix,
            start,
            "Assignment of '"@ + identifier + "' to"@,
        ) + node_dump(*data, prefix + style, style),
        NodeView::Literal { start, literal } => dump_line(prefix, start, "literal "@ + literal_text(literal)),
        NodeView::Variable { start, identifier } => dump_line(prefix, start, "Variable '"@ + identifier + "'"@),
        NodeView::Nil { start } => dump_line(prefix, start, "Nil"@),
        NodeView::Error { start } => dump_line(prefix, start, "Error"@),
    }
}

/// The dumps of several nodes, one after the other.
pub open spec fn nodes_dump(s: Seq<NodeView>, prefix: Seq<char>, style: Seq<char>) -> Seq<char>
    decreases s,
{
    if s.len() == 0 {
        Seq::empty()
    } else {
        nodes_dump(s.drop_last(), prefix, style) + node_dump(s.last(), prefix, style)
    }
}

pub open spec fn simple_text(e: SimpleError) -> Seq<char> {
    match e {
        SimpleError::ExpectedBlockOpen(_) => "Expected '('"@,
        SimpleError::ExpectedBlockClose(_) => "Expected ')'"@,
        SimpleError::ExpectedIdentifier(..) => "Expected identifier"@,
        SimpleError::ExpectedEquals(..) => "Expected equals"@,
        SimpleError::InvalidVariableName(..) => "Invalid variable name"@,
        SimpleError::ExpectedExpression(..) => "Expected expression"@,
    }
}

/// The dump of a diagnostic: its line, then its causes one level deeper.
pub open spec fn error_dump(e: ErrorView, prefix: Seq<char>, style: Seq<char>) -> Seq<char>
    decreases e,
{
    match e {
        ErrorView::Literal { start } => dump_line(prefix, start, "Invalid literal"@),
        ErrorView::Simple(s) => dump_line(prefix, s.start_spec(), simple_text(s)),
        ErrorView::AssignmentData { start, cause, var_name, .. } => dump_line(
            prefix,
            start,
            "Invalid assignment for '"@ + var_name + "'"@,
        ) + error_dump(*cause, prefix + style, style),
        ErrorView::Block { start, causes, .. } => dump_line(prefix, start, "Invalid code block"@) + errors_dump(
            causes,
            prefix + style,
            style,
        ),
    }
}

pub open spec fn errors_dump(s: Seq<ErrorView>, prefix: Seq<char>, style: Seq<char>) -> Seq<char>
    decreases s,
{
    if s.len() == 0 {
        Seq::empty()
    } else {
        errors_dump(s.drop_last(), prefix, style) + error_dump(s.last(), prefix, style)
    }
}

/// Appends "(line, column): " after `prefix`.
fn write_line_head(out: &mut String, prefix: &String, l: Loc)
    ensures
        final(out)@ == old(out)@ + prefix@ + "("@ + loc_text(l) + "): "@,
{
    out.append(prefix.as_str());
    out.append("(");
    write_loc(out, l);
    out.append("): ");
    proof {
        assert(final(out)@ =~= old(out)@ + prefix@ + "("@ + loc_text(l) + "): "@);
    }
}

/// Appends `n` zeros.
fn write_zeros(out: &mut String, n: usize)
    ensures
        final(out)@ == old(out)@ + repeat("0"@, n as nat),
{
    write_repeat(out, "0", n);
}

fn write_point_digits(out: &mut String, s: &Vec<char>, d: usize)
    ensures
        final(out)@ == old(out)@ + point_text(s@, d as int),
{
    if d == 0 {
        write_chars(out, s);
        out.append(".0");
        proof {
            assert(final(out)@ =~= old(out)@ + point_text(s@, d as int));
        }
    } else if s.len() > d {
        let split = s.len() - d;
        let mut i: usize = 0;
        while i < split
            invariant
                split <= s@.len(),
                i <= split,
                out@ == old(out)@ + s@.subrange(0, i as int),
            decreases split - i,
        {
            push_char(out, s[i]);
            i = i + 1;
            proof {
                assert(out@ =~= old(out)@ + s@.subrange(0, i as int));
            }
        }
        out.append(".");
        let ghost mid = out@;
        while i < s.len()
            invariant
                split <= i <= s@.len(),
                out@ == mid + s@.subrange(split as int, i as int),
            decreases s@.len() - i,
        {
            push_char(out, s[i]);
            i = i + 1;
            proof {
                assert(out@ =~= mid + s@.subrange(split as int, i as int));
            }
        }
        proof {
            assert(final(out)@ =~= old(out)@ + point_text(s@, d as int));
        }
    } else {
        out.append("0.");
        write_zeros(out, d - s.len());
        write_chars(out, s);
        proof {
            assert(final(out)@ =~= old(out)@ + point_text(s@, d as int));
        }
    }
}

fn write_float(out: &mut String, f: FloatLiteral)
    ensures
        final(out)@ == old(out)@ + float_text(f),
{
    let magnitude: u128 = if f.digits < 0 {
        if f.digits == i128::MIN {
            170141183460469231731687303715884105728u128
        } else {
            (-f.digits) as u128
        }
    } else {
        f.digits as u128
    };
    if f.digits < 0 {
        push_char(out, '-');
    }
    let ghost signed = out@;
    let s = decimal_digits(magnitude);
    write_point_digits(out, &s, f.decimals);
    proof {
        assert(magnitude as nat == if f.digits < 0 {
            (-f.digits) as nat
        } else {
            f.digits as nat
        });
        assert(final(out)@ =~= old(out)@ + float_text(f));
    }
}

fn write_literal(out: &mut String, l: &LiteralType)
    ensures
        final(out)@ == old(out)@ + literal_text(*l),
{
    match l {
        LiteralType::Str(s) => {
            out.append("string '");
            out.append(s.as_str());
            out.append("'");
        },
        LiteralType::Integer(v) => {
            out.append("integer ");
            write_signed(out, *v);
        },
        LiteralType::Float(f) => {
            out.append("float ");
            write_float(out, *f);
        },
    }
    proof {
        assert(final(out)@ =~= old(out)@ + literal_text(*l));
    }
}

/// Appends one dump line whose text is `text`.
fn write_line(out: &mut String, prefix: &String, l: Loc, text: &str)
    ensures
        final(out)@ == old(out)@ + dump_line(prefix@, l, text@),
{
    write_line_head(out, prefix, l);
    out.append(text);
    out.append("\n");
    proof {
        assert(final(out)@ =~= old(out)@ + dump_line(prefix@, l, text@));
    }
}

/// Appends one dump line whose text is `a`, `name` and `b` in a row.
fn write_named_line(out: &mut String, prefix: &String, l: Loc, a: &str, name: &str, b: &str)
    ensures
        final(out)@ == old(out)@ + dump_line(prefix@, l, a@ + name@ + b@),
{
    write_line_head(out, prefix, l);
    out.append(a);
    out.append(name);
    out.append(b);
    out.append("\n");
    proof {
        assert(final(out)@ =~= old(out)@ + dump_line(prefix@, l, a@ + name@ + b@));
    }
}

impl SyntaxTreeNode {
    /// Appends the dump of this node with `prefix` before its own line.
    pub fn dump_into(&self, prefix: &String, style: &str, out: &mut String)
        ensures
            final(out)@ == old(out)@ + node_dump(self@, prefix@, style@),
        decreases self,
    {
        let ghost before = out@;
        match self {
            SyntaxTreeNode::Block(b) => {
                b.dump_into(prefix, style, out);
            },
            SyntaxTreeNode::Assignment(a) => {
                write_named_line(out, prefix, a.start, "Assignment of '", a.identifier.as_str(), "' to");
                let ghost head = out@;
                let mut inner = prefix.clone();
                inner.append(style);
                (*a.data).dump_into(&inner, style, out);
                proof {
                    assert(node_dump(self@, prefix@, style@) == dump_line(prefix@, a.start, "Assignment of '"@ + a.identifier@ + "' to"@)
                        + node_dump((*a.data)@, prefix@ + style@, style@));
                    assert(out@ =~= before + node_dump(self@, prefix@, style@));
                }
            },
            SyntaxTreeNode::Literal(l) => {
                write_line_head(out, prefix, l.start);
                out.append("literal ");
                write_literal(out, &l.literal);
                out.append("\n");
                proof {
                    assert(node_dump(self@, prefix@, style@) == dump_line(prefix@, l.start, "literal "@ + literal_text(l.literal)));
                    assert(out@ =~= before + node_dump(self@, prefix@, style@));
                }
            },
            SyntaxTreeNode::Variable(v) => {
                write_named_line(out, prefix, v.start, "Variable '", v.identifier.as_str(), "'");
            },
            SyntaxTreeNode::Nil(n) => {
                write_line(out, prefix, n.start, "Nil");
            },
            SyntaxTreeNode::Error(e) => {
                write_line(out, prefix, e.start, "Error");
            },
        }
    }
}

/// Appends the dumps of `contents`, one after the other.
fn dump_contents(contents: &Vec<SyntaxTreeNode>, prefix: &String, style: &str, out: &mut String)
    ensures
        final(out)@ == old(out)@ + nodes_dump(view_nodes(contents@), prefix@, style@),
    decreases contents,
{
    let mut i: usize = 0;
    while i < contents.len()
        invariant
            i <= contents@.len(),
            out@ == old(out)@ + nodes_dump(view_nodes(contents@.subrange(0, i as int)), prefix@, style@),
        decreases contents@.len() - i,
    {
        proof {
            assert(decreases_to!(contents => contents[i as int]));
            let sub = contents@.subrange(0, i as int);
            assert(contents@.subrange(0, i + 1) =~= sub.push(contents@[i as int]));
            crate::nodes::lemma_view_nodes_push(sub, contents@[i as int]);
            assert(view_nodes(sub).push(contents@[i as int]@).drop_last() =~= view_nodes(sub));
        }
        contents[i].dump_into(prefix, style, out);
        i = i + 1;
    }
    proof {
        assert(contents@.subrange(0, i as int) =~= contents@);
    }
}

impl BlockNode {
    /// Appends the dump of this block with `prefix` before its own line.
    pub fn dump_into(&self, prefix: &String, style: &str, out: &mut String)
        ensures
            final(out)@ == old(out)@ + node_dump(SyntaxTreeNode::Block(*self)@, prefix@, style@),
        decreases self,
    {
        write_line(out, prefix, self.start, "Block");
        let ghost head = out@;
        let mut inner = prefix.clone();
        inner.append(style);
        let mut deeper = inner.clone();
        deeper.append(style);
        let ghost cs = view_nodes(self.contents@);
        proof {
            lemma_view_nodes(self.contents@);
        }
        if self.contents.len() > 0 {
            out.append(inner.as_str());
            out.append("Contents:\n");
            dump_contents(&self.contents, &deeper, style, out);
        }
        let ghost body = out@;
        proof {
            assert(body == head + (if cs.len() > 0 {
                inner@ + "Contents:\n"@ + nodes_dump(cs, deeper@, style@)
            } else {
                Seq::empty()
            }));
        }
        match &self.tail {
            Some(t) => {
                out.append(inner.as_str());
                out.append("Returns:\n");
                (**t).dump_into(&deeper, style, out);
            },
            None => {},
        }
        proof {
            let v = SyntaxTreeNode::Block(*self)@;
            assert(v == NodeView::Block {
                start: self.start,
                scope: self.scope@,
                contents: cs,
                tail: match &self.tail {
                    Some(t) => Some(Box::new((**t)@)),
                    None => None,
                },
            });
            assert(out@ =~= old(out)@ + node_dump(v, prefix@, style@));
        }
    }
}

fn dump_causes(causes: &Vec<ParserError>, prefix: &String, style: &str, out: &mut String)
    ensures
        final(out)@ == old(out)@ + errors_dump(view_errors(causes@), prefix@, style@),
    decreases causes,
{
    let mut i: usize = 0;
    while i < causes.len()
        invariant
            i <= causes@.len(),
            out@ == old(out)@ + errors_dump(view_errors(causes@.subrange(0, i as int)), prefix@, style@),
        decreases causes@.len() - i,
    {
        proof {
            assert(decreases_to!(causes => causes[i as int]));
            let sub = causes@.subrange(0, i as int);
            assert(causes@.subrange(0, i + 1) =~= sub.push(causes@[i as int]));
            crate::errors::lemma_view_errors_push(sub, causes@[i as int]);
            assert(view_errors(sub).push(causes@[i as int]@).drop_last() =~= view_errors(sub));
        }
        causes[i].dump_into(prefix, style, out);
        i = i + 1;
    }
    proof {
        assert(causes@.subrange(0, i as int) =~= causes@);
    }
}

/// Appends the text of a structural expectation.
fn write_simple_text(out: &mut String, e: &SimpleError)
    ensures
        final(out)@ == old(out)@ + simple_text(*e),
{
    let text = match e {
        SimpleError::ExpectedBlockOpen(_) => "Expected '('",
        SimpleError::ExpectedBlockClose(_) => "Expected ')'",
        SimpleError::ExpectedIdentifier(..) => "Expected identifier",
        SimpleError::ExpectedEquals(..) => "Expected equals",
        SimpleError::InvalidVariableName(..) => "Invalid variable name",
        SimpleError::ExpectedExpression(..) => "Expected expression",
    };
    out.append(text);
}

impl ParserError {
    /// Appends the dump of this diagnostic with `prefix` before its own line.
    pub fn dump_into(&self, prefix: &String, style: &str, out: &mut String)
        ensures
            final(out)@ == old(out)@ + error_dump(self@, prefix@, style@),
        decreases self,
    {
        let ghost before = out@;
        match self {
            ParserError::Literal(e) => {
                write_line(out, prefix, e.start, "Invalid literal");
            },
            ParserError::Simple(e) => {
                write_line_head(out, prefix, e.location());
                write_simple_text(out, e);
                out.append("\n");
                proof {
                    assert(out@ =~= before + error_dump(self@, prefix@, style@));
                }
            },
            ParserError::AssignmentData(e) => {
                write_named_line(out, prefix, e.start, "Invalid assignment for '", e.var_name.as_str(), "'");
                let mut inner = prefix.clone();
                inner.append(style);
                (*e.cause).dump_into(&inner, style, out);
                proof {
                    assert(error_dump(self@, prefix@, style@) == dump_line(prefix@, e.start, "Invalid assignment for '"@ + e.var_name@ + "'"@)
                        + error_dump((*e.cause)@, prefix@ + style@, style@));
                    assert(out@ =~= before + error_dump(self@, prefix@, style@));
                }
            },
            ParserError::Block(e) => {
                write_line(out, prefix, e.start, "Invalid code block");
                let mut inner = prefix.clone();
                inner.append(style);
                dump_causes(&e.causes, &inner, style, out);
                proof {
                    assert(error_dump(self@, prefix@, style@) == dump_line(prefix@, e.start, "Invalid code block"@)
                        + errors_dump(view_errors(e.causes@), prefix@ + style@, style@));
                    assert(out@ =~= before + error_dump(self@, prefix@, style@));
                }
            },
        }
    }
}

impl TreeDump for SyntaxTreeNode {
    open spec fn dump_text(&self, prefix: Seq<char>, style: Seq<char>) -> Seq<char> {
        node_dump(self@, prefix, style)
    }

    fn print_with_indent(&self, indent: usize, indent_style: &str, out: &mut String) {
        let mut prefix = String::new();
        write_repeat(&mut prefix, indent_style, indent);
        proof {
            assert(prefix@ =~= repeat(indent_style@, indent as nat));
        }
        self.dump_into(&prefix, indent_style, out);
    }
}

impl TreeDump for ParserError {
    open spec fn dump_text(&self, prefix: Seq<char>, style: Seq<char>) -> Seq<char> {
        error_dump(self@, prefix, style)
    }

    fn print_with_indent(&self, indent: usize, indent_style: &str, out: &mut String) {
        let mut prefix = String::new();
        write_repeat(&mut prefix, indent_style, indent);
        proof {
            assert(prefix@ =~= repeat(indent_style@, indent as nat));
        }
        self.dump_into(&prefix, indent_style, out);
    }
}

/// The text of a token after its location.
pub open spec fn token_text(t: Token) -> Seq<char> {
    match t.token_type {
        TokenType::Keyword(k) => "keyword '"@ + k.name_spec() + "'"@,
        TokenType::Operator(o) => "operator '"@ + o.name_spec() + "'"@,
        TokenType::Identifier(s) => "identifier '"@ + s@ + "'"@,
        TokenType::Literal(l) => "literal "@ + literal_text(l),
    }
}

impl TreeDump for Token {
    open spec fn dump_text(&self, prefix: Seq<char>, style: Seq<char>) -> Seq<char> {
        dump_line(prefix, self.start, token_text(*self))
    }

    fn print_with_indent(&self, indent: usize, indent_style: &str, out: &mut String) {
        let mut prefix = String::new();
        write_repeat(&mut prefix, indent_style, indent);
        write_line_head(out, &prefix, self.start);
        match &self.token_type {
            TokenType::Keyword(k) => {
                out.append("keyword '");
                out.append(k.name());
                out.append("'");
            },
            TokenType::Operator(o) => {
                out.append("operator '");
                out.append(o.name());
                out.append("'");
            },
            TokenType::Identifier(s) => {
                out.append("identifier '");
                out.append(s.as_str());
                out.append("'");
            },
            TokenType::Literal(l) => {
                out.append("literal ");
                write_literal(out, l);
            },
        }
        out.append("\n");
        proof {
            assert(out@ =~= old(out)@ + self.dump_text(repeat(indent_style@, indent as nat), indent_style@));
        }
    }
}

/// The lines of a scope's bindings, "name: types", one each.
pub open spec fn members_dump(ms: Seq<(Seq<char>, Set<crate::type_handler::Type>)>, prefix: Seq<char>) -> Seq<char>
    decreases ms.len(),
{
    if ms.len() == 0 {
        Seq::empty()
    } else {
        members_dump(ms.drop_last(), prefix) + prefix + ms.last().0 + ": "@ + types_text(ms.last().1) + "\n"@
    }
}

/// The dump of scope `id`: its line, its bindings, then its child scopes, one level deeper.
pub open spec fn scope_dump(p: Seq<ScopeView>, id: int, prefix: Seq<char>, style: Seq<char>) -> Seq<char>
    decreases p.len() - id, 1int,
{
    if 0 <= id < p.len() {
        prefix + "Scope["@ + decimal(id as nat) + "]:\n"@ + members_dump(p[id].members, prefix + style)
            + children_dump(p, Some(id), id + 1, prefix + style, style)
    } else {
        Seq::empty()
    }
}

/// The dumps of the scopes from `j` on whose parent is `parent`.
pub open spec fn children_dump(p: Seq<ScopeView>, parent: Option<int>, j: int, prefix: Seq<char>, style: Seq<char>) -> Seq<char>
    decreases p.len() - j, 2int,
{
    if 0 <= j < p.len() {
        (if p[j].parent == parent {
            scope_dump(p, j, prefix, style)
        } else {
            Seq::empty()
        }) + children_dump(p, parent, j + 1, prefix, style)
    } else {
        Seq::empty()
    }
}

impl ScopePool {
    fn dump_members(&self, id: usize, prefix: &String, out: &mut String)
        requires
            id < self@.len(),
        ensures
            final(out)@ == old(out)@ + members_dump(self@[id as int].members, prefix@),
    {
        let n = self.member_count(id);
        let ghost ms = self@[id as int].members;
        let mut k: usize = 0;
        while k < n
            invariant
                id < self@.len(),
                ms == self@[id as int].members,
                n == ms.len(),
                k <= n,
                out@ == old(out)@ + members_dump(ms.subrange(0, k as int), prefix@),
            decreases n - k,
        {
            let (name, types) = self.member_at(id, k);
            out.append(prefix.as_str());
            out.append(name.as_str());
            out.append(": ");
            types.write_text(out);
            out.append("\n");
            proof {
                let sub = ms.subrange(0, k + 1);
                assert(sub.drop_last() =~= ms.subrange(0, k as int));
                assert(out@ =~= old(out)@ + members_dump(sub, prefix@));
            }
            k = k + 1;
        }
        proof {
            assert(ms.subrange(0, n as int) =~= ms);
        }
    }

    fn dump_children(&self, parent: Option<usize>, from: usize, prefix: &String, style: &str, out: &mut String)
        requires
            from <= self@.len(),
        ensures
            final(out)@ == old(out)@ + children_dump(
                self@,
                match parent {
                    Some(q) => Some(q as int),
                    None => None,
                },
                from as int,
                prefix@,
                style@,
            ),
        decreases self@.len() - from, 2int,
    {
        let ghost target = match parent {
            Some(q) => Some(q as int),
            None => None,
        };
        let n = self.len();
        let mut j: usize = from;
        while j < n
            invariant
                n == self@.len(),
                from <= j <= n,
                target == match parent {
                    Some(q) => Some(q as int),
                    None => None,
                },
                old(out)@ + children_dump(self@, target, from as int, prefix@, style@) == out@ + children_dump(self@, target, j as int, prefix@, style@),
            decreases n - j,
        {
            let ghost before = out@;
            let own = self.parent_of(j);
            let is_child = match own {
                Some(a) => match parent {
                    Some(b) => a == b,
                    None => false,
                },
                None => parent.is_none(),
            };
            proof {
                assert(is_child == (self@[j as int].parent == target));
                assert(children_dump(self@, target, j as int, prefix@, style@) == (if self@[j as int].parent == target {
                    scope_dump(self@, j as int, prefix@, style@)
                } else {
                    Seq::empty()
                }) + children_dump(self@, target, j + 1, prefix@, style@));
            }
            if is_child {
                self.dump_scope(j, prefix, style, out);
            }
            proof {
                assert(out@ + children_dump(self@, target, j + 1, prefix@, style@) =~= before + children_dump(self@, target, j as int, prefix@, style@));
            }
            j = j + 1;
        }
        proof {
            assert(out@ =~= old(out)@ + children_dump(self@, target, from as int, prefix@, style@));
        }
    }

    fn dump_scope(&self, id: usize, prefix: &String, style: &str, out: &mut String)
        requires
            id < self@.len(),
        ensures
            final(out)@ == old(out)@ + scope_dump(self@, id as int, prefix@, style@),
        decreases self@.len() - id, 1int,
    {
        out.append(prefix.as_str());
        out.append("Scope[");
        write_decimal(out, id as u128);
        out.append("]:\n");
        let mut inner = prefix.clone();
        inner.append(style);
        let n = self.len();
        self.dump_members(id, &inner, out);
        self.dump_children(Some(id), id + 1, &inner, style, out);
        proof {
            assert(out@ =~= old(out)@ + scope_dump(self@, id as int, prefix@, style@));
        }
    }
}

/// The dump of the whole arena: its line, then every scope with no parent, one level deeper.
pub open spec fn pool_dump(p: Seq<ScopeView>, prefix: Seq<char>, style: Seq<char>) -> Seq<char> {
    prefix + "ScopePool:\n"@ + children_dump(p, None, 0, prefix + style, style)
}

impl TreeDump for ScopePool {
    open spec fn dump_text(&self, prefix: Seq<char>, style: Seq<char>) -> Seq<char> {
        pool_dump(self@, prefix, style)
    }

    fn print_with_indent(&self, indent: usize, indent_style: &str, out: &mut String) {
        let mut prefix = String::new();
        write_repeat(&mut prefix, indent_style, indent);
        out.append(prefix.as_str());
        out.append("ScopePool:\n");
        let mut inner = prefix.clone();
        inner.append(indent_style);
        self.dump_children(None, 0, &inner, indent_style, out);
        proof {
            assert(out@ =~= old(out)@ + self.dump_text(repeat(indent_style@, indent as nat), indent_style@));
        }
    }
}

/// A dump depends on the tree alone: two trees with the same content dump to the same text,
/// so dumping one tree twice gives the same text twice.
pub proof fn lemma_dump_is_stable(a: SyntaxTreeNode, b: SyntaxTreeNode, prefix: Seq<char>, style: Seq<char>)
    requires
        a@ == b@,
    ensures
        a.dump_text(prefix, style) == b.dump_text(prefix, style),
{
}

} // verus!
