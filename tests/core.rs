use trolledlang::{
    ByteVec, CursorOp, KeywordType, LiteralError, Loc, Needle, OperatorType, ParserError, ScopePool, SimpleError,
    StringNeedle, SyntaxTreeNode, TokenError, TreeDump, Type, TypeCollection, VirtualMachine,
};
use trolledlang::nodes::{ErrorNode, LiteralNode, NilNode, VariableNode};
use trolledlang::CodeLocation;
use trolledlang::token::{FloatLiteral, LiteralType};

fn text(t: &TypeCollection) -> String {
    let mut out = String::new();
    t.write_text(&mut out);
    out
}

#[test]
fn checkpoint_rollback_restores_index() {
    let mut n = Needle::new(vec![1, 2, 3, 4, 5, 6], 1);
    n.push_state();
    assert_eq!(n.read(), Some(&2));
    assert_eq!(n.read(), Some(&3));
    n.push_state();
    assert!(!n.skip(10));
    assert_eq!(n.get_index(), 6);
    n.pop_state_no_revert();
    assert_eq!(n.get_prev_state_index(), 1);
    assert!(n.next() == false);
    n.pop_state();
    assert_eq!(n.get_index(), 1);
    assert_eq!(n.get_prev_state_index(), 1);
    assert_eq!(n.peek(), Some(&2));
    let _ = CursorOp::Checkpoint;
}

#[test]
fn cursor_stops_at_the_end() {
    let mut n = Needle::new(vec!['a'], 1);
    assert_eq!(n.get_index(), 1);
    assert_eq!(n.read(), None);
    assert_eq!(n.get_index(), 1);
    let mut m = Needle::new(vec![1, 2, 3], 0);
    assert!(m.next());
    assert!(m.next());
    assert!(!m.next());
    assert_eq!(m.get_index(), 3);
    assert!(m.match_func_offset(-1, |x: &i32| *x == 3));
    assert!(!m.match_func_offset(0, |_x: &i32| true));
}

#[test]
fn char_cursor_slices_and_matches() {
    let mut n = Needle::from_str("héllo", 1);
    assert_eq!(n.get_slice(1, 4), "éll");
    assert_eq!(n.get_slice(3, 3), "");
    assert_eq!(n.get_slice(4, 2), "");
    let kept = Needle::new(vec![7, 8, 9], 2);
    assert_eq!(kept.get_index(), 2);
    assert_eq!(Needle::from_str("ab", 2).get_index(), 2);
    assert!(n.matches_slice("él"));
    assert!(!n.matches_slice("éllox"));
    n.skip(2);
    assert_eq!(n.peek(), Some(&'l'));
}

#[test]
fn string_needle_reports_end() {
    let mut n = StringNeedle::new("ab", 0);
    n.push_state();
    assert_eq!(n.read().ok(), Some('a'));
    assert_eq!(n.read().ok(), Some('b'));
    let e = n.read().err().unwrap();
    assert_eq!((e.loc, e.priority, e.msg), (2, 0, "Unexpected end"));
    assert_eq!(n.get_index(), 2);
    assert_eq!(n.get_slice(2, 1), "");
    assert!(n.match_func_offset(-2, |c| c == 'a', false));
    assert!(n.match_func_offset(3, |_c| false, true));
    n.pop_state();
    assert_eq!(n.get_index(), 0);
    assert_eq!(n.peek(), Some('a'));
    assert_eq!(n.get_slice(0, 2), "ab");
    assert!(n.matches_slice("ab"));
    assert!(n.skip(1));
    assert!(!n.next());
    let e = TokenError::at_needle(&n, 3, "here");
    assert_eq!((e.loc, e.priority), (2, 3));
    let r: Result<u8, TokenError> = TokenError::if_err_mod(Err(TokenError::new(4, 0, "x")), 2, "y");
    let e = r.err().unwrap();
    assert_eq!((e.loc, e.priority, e.msg), (4, 2, "y"));
}

#[test]
fn constrain_narrows_or_adopts() {
    let mut t = TypeCollection::undef();
    assert!(t.is_undef());
    t.constrain(&TypeCollection::from(vec![Type::Int, Type::Float]));
    assert_eq!(text(&t), "int or float");
    t.constrain(&TypeCollection::from(vec![Type::Float, Type::Str]));
    assert_eq!(text(&t), "float");
    t.constrain(&TypeCollection::from(vec![Type::Str]));
    assert!(t.is_undef());
    assert_eq!(text(&t), "undef");
    assert_eq!(text(&TypeCollection::from(vec![Type::Str, Type::Int, Type::Float])), "int, float or string");
}

#[test]
fn collapse_prefers_int() {
    assert_eq!(TypeCollection::from(vec![Type::Float, Type::Int]).collapse(), Some(Type::Int));
    assert_eq!(TypeCollection::from(vec![Type::Str, Type::Float]).collapse(), Some(Type::Float));
    assert_eq!(TypeCollection::from(vec![Type::Str]).collapse(), Some(Type::Str));
    assert_eq!(TypeCollection::undef().collapse(), None);
}

#[test]
fn nearest_binding_wins() {
    let mut pool = ScopePool::new();
    let root = pool.create_scope();
    let child = root.create_subscope(&mut pool);
    assert_eq!(child.id(), 1);
    assert!(root.insert(&mut pool, "v", TypeCollection::from(vec![Type::Int])).is_none());
    assert_eq!(child.get(&pool, "v").unwrap().collapse(), Some(Type::Int));
    assert!(child.insert(&mut pool, "v", TypeCollection::from(vec![Type::Str])).is_none());
    assert_eq!(child.get(&pool, "v").unwrap().collapse(), Some(Type::Str));
    assert_eq!(root.get(&pool, "v").unwrap().collapse(), Some(Type::Int));
    let prev = root.insert(&mut pool, "v", TypeCollection::from(vec![Type::Float])).unwrap();
    assert_eq!(prev.collapse(), Some(Type::Int));
    let narrowed = child.constrain(&mut pool, "v", &TypeCollection::from(vec![Type::Str, Type::Int])).unwrap();
    assert_eq!(narrowed.collapse(), Some(Type::Str));
    assert!(root.constrain(&mut pool, "w", &TypeCollection::undef()).is_none());
    assert!(root.get(&pool, "w").is_none());
}

#[test]
fn diagnostics_have_fixed_or_given_strengths() {
    let l = Loc::new(2, 3);
    assert_eq!(ParserError::Simple(SimpleError::ExpectedBlockOpen(l)).get_strength(), 0);
    assert_eq!(ParserError::Simple(SimpleError::ExpectedBlockClose(l)).get_strength(), 4);
    assert_eq!(ParserError::Simple(SimpleError::ExpectedIdentifier(l, 2)).get_strength(), 2);
    assert_eq!(ParserError::Simple(SimpleError::ExpectedEquals(l, 5)).get_strength(), 5);
    assert_eq!(ParserError::Simple(SimpleError::InvalidVariableName(l, 1)).get_strength(), 1);
    assert_eq!(ParserError::Simple(SimpleError::ExpectedExpression(l, 3)).get_strength(), 3);
    assert_eq!(ParserError::Literal(LiteralError::new(l)).get_strength(), 1);
    assert_eq!(ParserError::Literal(LiteralError::new(l)).get_start(), l);
    assert_eq!(SimpleError::ExpectedEquals(l, 0).get_start(), l);
    assert!(ParserError::Literal(LiteralError::new(l)).get_causes().is_empty());
}

#[test]
fn ties_go_to_the_candidate() {
    let l = Loc::new(0, 0);
    let weak = ParserError::Simple(SimpleError::ExpectedIdentifier(l, 1));
    assert!(weak.cmp_strength(&None));
    assert!(weak.cmp_strength(&Some(ParserError::Literal(LiteralError::new(l)))));
    assert!(!weak.cmp_strength(&Some(ParserError::Simple(SimpleError::ExpectedBlockClose(l)))));
}

#[test]
fn simple_error_texts() {
    let l = Loc::new(0, 9);
    let cases = vec![
        (SimpleError::ExpectedBlockOpen(l), "Expected '('"),
        (SimpleError::ExpectedBlockClose(l), "Expected ')'"),
        (SimpleError::ExpectedIdentifier(l, 0), "Expected identifier"),
        (SimpleError::ExpectedEquals(l, 0), "Expected equals"),
        (SimpleError::InvalidVariableName(l, 0), "Invalid variable name"),
        (SimpleError::ExpectedExpression(l, 0), "Expected expression"),
    ];
    for (e, msg) in cases {
        let mut out = String::new();
        ParserError::Simple(e).print_with_indent(2, "-", &mut out);
        assert_eq!(out, format!("--(1, 10): {}\n", msg));
    }
}

#[test]
fn leaf_node_dumps() {
    let l = Loc::new(11, 0);
    let mut out = String::new();
    SyntaxTreeNode::Nil(NilNode { start: l }).print(&mut out);
    SyntaxTreeNode::Error(ErrorNode { start: l }).print(&mut out);
    SyntaxTreeNode::Variable(VariableNode::new(l, String::from("v"))).print(&mut out);
    SyntaxTreeNode::Literal(LiteralNode { start: l, literal: LiteralType::Integer(-42) }).print(&mut out);
    SyntaxTreeNode::Literal(LiteralNode { start: l, literal: LiteralType::Float(FloatLiteral { digits: 7, decimals: 3 }) }).print(&mut out);
    SyntaxTreeNode::Literal(LiteralNode { start: l, literal: LiteralType::Float(FloatLiteral { digits: -25, decimals: 0 }) }).print(&mut out);
    assert_eq!(
        out,
        "(12, 1): Nil\n(12, 1): Error\n(12, 1): Variable 'v'\n(12, 1): literal integer -42\n(12, 1): literal float 0.007\n(12, 1): literal float -25.0\n"
    );
}

#[test]
fn literal_types() {
    let l = Loc::new(0, 0);
    assert_eq!(LiteralNode { start: l, literal: LiteralType::Str(String::from("a")) }.get_possible_returns().collapse(), Some(Type::Str));
    let f = LiteralNode { start: l, literal: LiteralType::Float(FloatLiteral { digits: 1, decimals: 1 }) }.get_possible_returns();
    assert_eq!(text(&f), "float");
    let i = LiteralNode { start: l, literal: LiteralType::Integer(3) }.get_possible_returns();
    assert_eq!(text(&i), "int or float");
}

#[test]
fn names_of_keywords_and_operators() {
    assert_eq!(KeywordType::BlockSeparator.name(), "block separator");
    assert_eq!(KeywordType::ArrayClose.name(), "array close");
    assert_eq!(OperatorType::Multiply.name(), "mult");
    assert_eq!(Type::Str.name(), "string");
}

#[test]
fn byte_vec_spans_batches() {
    let mut bytes = ByteVec::new();
    for i in 0..600u32 {
        bytes.push_byte((i % 251) as u8);
    }
    assert_eq!(bytes.get_index(), 600);
    assert_eq!(bytes.get_byte(300), (300 % 251) as u8);
    let mut copy = ByteVec::new();
    copy.push_byte(9);
    copy.push_byte_vec(&bytes);
    assert_eq!(copy.get_index(), 601);
    assert_eq!(copy.get_byte(0), 9);
    assert_eq!(copy.get_byte(600), (599 % 251) as u8);
    let mut it = bytes.iter();
    let mut n = 0;
    while let Some(b) = it.next() {
        assert_eq!(b, (n % 251) as u8);
        n += 1;
    }
    assert_eq!(n, 600);
    let _vm = VirtualMachine::new(&bytes);
}

#[test]
fn byte_vec_hex_listing() {
    let mut bytes = ByteVec::new();
    for b in [0u8, 15, 16, 255] {
        bytes.push_byte(b);
    }
    let mut out = String::new();
    bytes.print(&mut out);
    assert_eq!(out, "bytes: 0 f 10 ff\n");
    let mut empty = String::new();
    ByteVec::new().print(&mut empty);
    assert_eq!(empty, "bytes:\n");
}

#[test]
fn whitespace_matches_std() {
    for u in 0u32..0x3100 {
        if let Some(c) = char::from_u32(u) {
            assert_eq!(trolledlang::tokenizer::is_whitespace(c), c.is_whitespace(), "code point {:x}", u);
        }
    }
    for c in ['\u{feff}', '\u{200b}', '\u{180e}', 'x'] {
        assert_eq!(trolledlang::tokenizer::is_whitespace(c), c.is_whitespace());
    }
}
