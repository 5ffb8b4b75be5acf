use trolledlang::{
    parse_assignment, parse_block, parse_value, parse_variable, KeywordType, LiteralType, Loc, Needle, ParserError,
    ScopeHandle, ScopePool, SimpleError, SyntaxTreeNode, TextMetaData, Token, TreeDump, Type, tokenize,
};

struct Parse {
    result: Result<SyntaxTreeNode, ParserError>,
    needle: Needle<Token>,
    scopes: ScopePool,
    root: ScopeHandle,
    meta: TextMetaData,
}

fn parse(src: &str) -> Parse {
    let (tokens, errors, meta) = tokenize(src);
    assert!(errors.is_empty(), "lexical errors in {:?}", src);
    let mut needle = Needle::new(tokens, 0);
    let mut scopes = ScopePool::new();
    let root = scopes.create_scope();
    let result = parse_value(&mut needle, &meta, root, &mut scopes);
    Parse { result: result, needle: needle, scopes: scopes, root: root, meta: meta }
}

fn dump_node(n: &SyntaxTreeNode, indent: usize, style: &str) -> String {
    let mut out = String::new();
    n.print_with_indent(indent, style, &mut out);
    out
}

fn dump_error(e: &ParserError) -> String {
    let mut out = String::new();
    e.print(&mut out);
    out
}

#[test]
fn empty_block_is_nil() {
    let p = parse("()");
    match p.result {
        Ok(SyntaxTreeNode::Nil(n)) => assert_eq!(n.start, Loc::new(0, 0)),
        _ => panic!("expected a nil node"),
    }
    assert_eq!(p.needle.get_index(), 2);
    assert_eq!(p.scopes.len(), 1);
}

#[test]
fn empty_block_nil_at_open_location() {
    let p = parse("\n  ()");
    match p.result {
        Ok(SyntaxTreeNode::Nil(n)) => assert_eq!(n.start, Loc::new(1, 2)),
        _ => panic!("expected a nil node"),
    }
}

#[test]
fn resynchronizes_after_bad_element() {
    let p = parse("(1; ; 2)");
    let e = match p.result {
        Err(ParserError::Block(e)) => e,
        _ => panic!("expected a block error"),
    };
    assert_eq!(e.strength, 4);
    assert_eq!(e.causes.len(), 1);
    match &e.causes[0] {
        ParserError::Literal(l) => assert_eq!(l.start, Loc::new(0, 4)),
        _ => panic!("expected a literal error"),
    }
    let recover = e.recover.expect("a partial block");
    let b = match *recover {
        SyntaxTreeNode::Block(b) => b,
        _ => panic!("expected a block"),
    };
    assert_eq!(b.contents.len(), 2);
    match &b.contents[0] {
        SyntaxTreeNode::Literal(l) => assert_eq!(l.literal, LiteralType::Integer(1)),
        _ => panic!("first element should be the literal 1"),
    }
    match &b.contents[1] {
        SyntaxTreeNode::Error(n) => assert_eq!(n.start, Loc::new(0, 4)),
        _ => panic!("second element should be an error node"),
    }
    match b.tail.as_deref() {
        Some(SyntaxTreeNode::Literal(l)) => assert_eq!(l.literal, LiteralType::Integer(2)),
        _ => panic!("trailing element should be the literal 2"),
    }
    assert_eq!(p.needle.get_index(), 6);
}

#[test]
fn block_with_trailing_value() {
    let p = parse("(1; 2)");
    let n = p.result.ok().expect("a block");
    assert_eq!(
        dump_node(&n, 0, "  "),
        "(1, 1): Block\n  Contents:\n    (1, 2): literal integer 1\n  Returns:\n    (1, 5): literal integer 2\n"
    );
    let types = n.get_possible_returns(p.root, &p.scopes);
    assert!(types.contains(Type::Int) && types.contains(Type::Float) && !types.contains(Type::Str));
}

#[test]
fn unresolved_variable_is_reported() {
    let p = parse("(y)");
    let e = match p.result {
        Err(ParserError::Block(e)) => e,
        _ => panic!("expected a block error"),
    };
    assert_eq!(e.causes.len(), 1);
    match &e.causes[0] {
        ParserError::Simple(SimpleError::InvalidVariableName(loc, strength)) => {
            assert_eq!(*loc, Loc::new(0, 1));
            assert_eq!(*strength, 1);
        },
        _ => panic!("expected an invalid variable name"),
    }
    let text = dump_error(&ParserError::Block(e));
    assert_eq!(text, "(1, 1): Invalid code block\n : (1, 2): Invalid variable name\n");
}

#[test]
fn failed_variable_attempt_rolls_back() {
    let (tokens, _, meta) = tokenize("y");
    let mut needle = Needle::new(tokens, 0);
    let mut scopes = ScopePool::new();
    let root = scopes.create_scope();
    needle.push_state();
    let r = parse_variable(&mut needle, &meta, root, &scopes);
    assert!(matches!(r, Err(ParserError::Simple(SimpleError::InvalidVariableName(_, 1)))));
    assert_eq!(needle.get_index(), 1);
    needle.pop_state();
    assert_eq!(needle.get_index(), 0);
}

#[test]
fn assignment_wins_over_variable() {
    let p = parse("x = 1");
    match p.result {
        Ok(SyntaxTreeNode::Assignment(a)) => {
            assert_eq!(a.identifier, "x");
            assert_eq!(a.start, Loc::new(0, 0));
        },
        _ => panic!("expected an assignment"),
    }
    let t = p.root.get(&p.scopes, "x").expect("x is bound");
    assert!(t.contains(Type::Int) && t.contains(Type::Float));
}

#[test]
fn block_wins_over_literal() {
    let p = parse("(5; )");
    match p.result {
        Ok(SyntaxTreeNode::Block(b)) => {
            assert_eq!(b.contents.len(), 1);
            assert!(b.tail.is_none());
        },
        _ => panic!("expected a block"),
    }
    assert_eq!(p.scopes.len(), 2);
}

#[test]
fn literal_when_nothing_else_parses() {
    let p = parse("\"hi\"");
    match p.result {
        Ok(SyntaxTreeNode::Literal(l)) => assert_eq!(l.literal, LiteralType::Str(String::from("hi"))),
        _ => panic!("expected a literal"),
    }
}

#[test]
fn same_tokens_parse_the_same() {
    let a = parse("(x = 1; x)");
    let b = parse("(x = 1; x)");
    let da = dump_node(a.result.as_ref().ok().unwrap(), 1, "- ");
    let db = dump_node(b.result.as_ref().ok().unwrap(), 1, "- ");
    assert_eq!(da, db);
    assert_eq!(a.needle.get_index(), b.needle.get_index());
}

#[test]
fn dumping_twice_is_identical() {
    let p = parse("(x = 1; x)");
    let n = p.result.ok().unwrap();
    let first = dump_node(&n, 0, " : ");
    let second = dump_node(&n, 0, " : ");
    assert_eq!(first, second);
    assert_eq!(
        first,
        "(1, 1): Block\n : Contents:\n :  : (1, 2): Assignment of 'x' to\n :  :  : (1, 6): literal integer 1\n : Returns:\n :  : (1, 9): Variable 'x'\n"
    );
}

#[test]
fn repeated_assignment_keeps_int_or_float() {
    let p = parse("(x = 1; x = 1; )");
    let b = match p.result {
        Ok(SyntaxTreeNode::Block(b)) => b,
        _ => panic!("expected a block"),
    };
    assert_eq!(b.contents.len(), 2);
    let t = b.scope.get(&p.scopes, "x").expect("x is bound in the block");
    assert!(t.contains(Type::Int) && t.contains(Type::Float) && !t.contains(Type::Str));
    assert!(p.root.get(&p.scopes, "x").is_none());
}

fn assign(needle: &mut Needle<Token>, meta: &TextMetaData, scope: ScopeHandle, scopes: &mut ScopePool) -> Result<SyntaxTreeNode, ParserError> {
    parse_assignment(needle, meta, scope, scopes)
}

#[test]
fn narrowing_to_nothing_is_an_error() {
    let (tokens, _, meta) = tokenize("x = 1 x = \"a\"");
    let mut needle = Needle::new(tokens, 0);
    let mut scopes = ScopePool::new();
    let root = scopes.create_scope();
    assert!(assign(&mut needle, &meta, root, &mut scopes).is_ok());
    let r = assign(&mut needle, &meta, root, &mut scopes);
    match r {
        Err(ParserError::AssignmentData(e)) => {
            assert_eq!(e.var_name, "x");
            assert_eq!(e.strength, 3);
            assert_eq!(e.start, Loc::new(0, 6));
            match *e.cause {
                ParserError::Simple(SimpleError::ExpectedExpression(loc, 3)) => assert_eq!(loc, Loc::new(0, 10)),
                _ => panic!("expected an expected-expression cause"),
            }
        },
        _ => panic!("expected an assignment error"),
    }
    assert!(root.get(&scopes, "x").unwrap().is_undef());
}

#[test]
fn narrowing_to_float() {
    let (tokens, _, meta) = tokenize("x = 1 x = 2.5");
    let mut needle = Needle::new(tokens, 0);
    let mut scopes = ScopePool::new();
    let root = scopes.create_scope();
    assert!(assign(&mut needle, &meta, root, &mut scopes).is_ok());
    assert!(assign(&mut needle, &meta, root, &mut scopes).is_ok());
    let t = root.get(&scopes, "x").unwrap();
    assert!(t.contains(Type::Float) && !t.contains(Type::Int));
}

#[test]
fn assignment_of_untyped_value_fails() {
    let p = parse("x = ()");
    match p.result {
        Err(ParserError::AssignmentData(e)) => {
            assert_eq!(e.strength, 3);
            assert!(matches!(*e.cause, ParserError::Simple(SimpleError::ExpectedExpression(_, 3))));
        },
        _ => panic!("expected an assignment error"),
    }
}

#[test]
fn block_ending_in_assignment_has_no_type() {
    let p = parse("(x = 1)");
    match p.result {
        Err(ParserError::Block(e)) => {
            assert_eq!(e.strength, 4);
            assert!(matches!(e.causes[0], ParserError::Simple(SimpleError::ExpectedExpression(_, 4))));
            match e.recover.as_deref() {
                Some(SyntaxTreeNode::Block(b)) => {
                    assert_eq!(b.contents.len(), 1);
                    assert!(b.tail.is_none());
                },
                _ => panic!("expected a partial block"),
            }
        },
        _ => panic!("expected a block error"),
    }
}

#[test]
fn unclosed_block_reports_missing_close() {
    let p = parse("(1");
    match p.result {
        Err(ParserError::Block(e)) => {
            assert_eq!(e.strength, 2);
            assert_eq!(e.causes.len(), 1);
            match e.causes[0] {
                ParserError::Simple(SimpleError::ExpectedBlockClose(loc)) => assert_eq!(loc, p.meta.get_end()),
                _ => panic!("expected a missing close"),
            }
        },
        _ => panic!("expected a block error"),
    }
}

#[test]
fn block_followed_by_stray_token() {
    let p = parse("(1 2)");
    match p.result {
        Err(ParserError::Block(e)) => {
            assert_eq!(e.strength, 2);
            assert!(matches!(e.causes[0], ParserError::Simple(SimpleError::ExpectedBlockClose(l)) if l == Loc::new(0, 1)));
        },
        _ => panic!("expected a block error"),
    }
}

#[test]
fn lone_open_is_unclosed_block() {
    let (tokens, _, meta) = tokenize("(");
    let mut needle = Needle::new(tokens, 0);
    let mut scopes = ScopePool::new();
    let root = scopes.create_scope();
    match parse_block(&mut needle, &meta, root, &mut scopes) {
        Err(ParserError::Block(e)) => {
            assert_eq!(e.strength, 2);
            assert_eq!(e.start, Loc::new(0, 0));
            assert_eq!(e.causes.len(), 2);
            assert!(matches!(e.causes[0], ParserError::Literal(l) if l.start == Loc::new(0, 1)));
            assert!(matches!(e.causes[1], ParserError::Simple(SimpleError::ExpectedBlockClose(l)) if l == Loc::new(0, 1)));
            match e.recover.as_deref() {
                Some(SyntaxTreeNode::Block(b)) => {
                    assert!(b.contents.is_empty());
                    assert!(b.tail.is_none());
                },
                _ => panic!("expected a partial block"),
            }
        },
        _ => panic!("expected a block error"),
    }
    assert_eq!(needle.get_index(), 1);
    assert_eq!(scopes.len(), 2);
    let p = parse("(");
    assert!(matches!(p.result, Err(ParserError::Block(ref e)) if e.strength == 2));
    assert_eq!(p.needle.get_index(), 1);
}

#[test]
fn empty_input_fails_with_literal_error() {
    let p = parse("");
    match p.result {
        Err(ParserError::Literal(e)) => assert_eq!(e.start, Loc::new(0, 0)),
        _ => panic!("expected a literal error"),
    }
    assert_eq!(p.needle.get_index(), 0);
}

#[test]
fn missing_equals_reported_by_assignment() {
    let (tokens, _, meta) = tokenize("x 1");
    let mut needle = Needle::new(tokens, 0);
    let mut scopes = ScopePool::new();
    let root = scopes.create_scope();
    let r = assign(&mut needle, &meta, root, &mut scopes);
    assert!(matches!(r, Err(ParserError::Simple(SimpleError::ExpectedEquals(l, 0))) if l == Loc::new(0, 2)));
    let r = parse_value(&mut Needle::new(vec![Token::keyword(Loc::new(0, 0), KeywordType::Assign)], 0), &meta, root, &mut scopes);
    assert!(matches!(r, Err(ParserError::Literal(_))));
}

#[test]
fn scope_pool_dump_lists_bindings() {
    let p = parse("(x = 1; y = \"s\"; )");
    assert!(p.result.is_ok());
    let mut out = String::new();
    p.scopes.print_with_indent(0, "  ", &mut out);
    assert_eq!(out, "ScopePool:\n  Scope[0]:\n    Scope[1]:\n      x: int or float\n      y: string\n");
}
