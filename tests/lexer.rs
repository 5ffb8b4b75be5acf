use trolledlang::tokenizer::{if_change_err, try_tokenize_number, try_tokenize_string, try_tokenize_word, Error};
use trolledlang::{tokenize, FloatLiteral, KeywordType, LiteralType, Loc, Needle, OperatorType, Token, TokenType, TreeDump};

fn kinds(src: &str) -> Vec<TokenType> {
    let (tokens, errors, _) = tokenize(src);
    assert!(errors.is_empty(), "unexpected errors in {:?}", src);
    tokens.into_iter().map(|t| t.token_type).collect()
}

#[test]
fn words_numbers_and_strings() {
    let (tokens, errors, meta) = tokenize("abc 12 3.25 \"hi\\n\"");
    assert!(errors.is_empty());
    assert_eq!(meta.length, 18);
    assert_eq!(tokens.len(), 4);
    assert_eq!(tokens[0], Token::identifier(Loc::new(0, 0), String::from("abc")));
    assert_eq!(tokens[1], Token::literal(Loc::new(0, 4), LiteralType::Integer(12)));
    assert_eq!(tokens[2], Token::literal(Loc::new(0, 7), LiteralType::Float(FloatLiteral { digits: 325, decimals: 2 })));
    assert_eq!(tokens[3], Token::literal(Loc::new(0, 12), LiteralType::Str(String::from("hi\n"))));
}

#[test]
fn keywords_need_word_boundaries() {
    assert_eq!(kinds("iffy"), vec![TokenType::Identifier(String::from("iffy"))]);
    assert_eq!(
        kinds("if x"),
        vec![TokenType::Keyword(KeywordType::If), TokenType::Identifier(String::from("x"))]
    );
    assert_eq!(kinds("_a_"), vec![TokenType::Identifier(String::from("_a_"))]);
}

#[test]
fn operators_before_keywords() {
    assert_eq!(kinds("=="), vec![TokenType::Operator(OperatorType::Equals)]);
    assert_eq!(kinds("="), vec![TokenType::Keyword(KeywordType::Assign)]);
    assert_eq!(
        kinds("+-*/%"),
        vec![
            TokenType::Operator(OperatorType::Add),
            TokenType::Operator(OperatorType::Subtract),
            TokenType::Operator(OperatorType::Multiply),
            TokenType::Operator(OperatorType::Divide),
            TokenType::Operator(OperatorType::Modulus),
        ]
    );
    assert_eq!(
        kinds("#( ; ) [ , ]"),
        vec![
            TokenType::Keyword(KeywordType::BlockOpen),
            TokenType::Keyword(KeywordType::BlockSeparator),
            TokenType::Keyword(KeywordType::BlockClose),
            TokenType::Keyword(KeywordType::ArrayOpen),
            TokenType::Keyword(KeywordType::ArraySeparator),
            TokenType::Keyword(KeywordType::ArrayClose),
        ]
    );
}

#[test]
fn locations_follow_lines() {
    let (tokens, _, meta) = tokenize("a\n  b\nc");
    assert_eq!(meta.newline_locs, vec![2, 6]);
    assert_eq!(tokens[1].start, Loc::new(1, 2));
    assert_eq!(tokens[2].start, Loc::new(2, 0));
    assert_eq!(meta.get_end(), Loc::new(2, 1));
    assert_eq!(meta.index_to_loc(5), Loc::new(1, 3));
}

#[test]
fn unterminated_string_is_an_error() {
    let (tokens, errors, _) = tokenize("\"abc");
    assert!(tokens.is_empty());
    assert_eq!(errors.len(), 1);
    assert_eq!(errors[0].loc, 4);
    assert_eq!(errors[0].priority, 2);
    assert_eq!(errors[0].msg, "Unexpected end of string");
}

#[test]
fn string_with_newline_is_an_error() {
    let (_, errors, _) = tokenize("\"ab\ncd\"");
    assert_eq!(errors[0].loc, 4);
    assert_eq!(errors[0].priority, 2);
}

#[test]
fn bad_escape_is_an_error() {
    let (_, errors, _) = tokenize("\"a\\qb\"");
    assert_eq!(errors[0].loc, 4);
    assert_eq!(errors[0].priority, 1);
    assert_eq!(errors[0].msg, "Invalid character after '\\'");
}

#[test]
fn dot_without_digits_is_an_error() {
    let (tokens, errors, _) = tokenize("1.");
    assert!(tokens.is_empty());
    assert_eq!(errors.len(), 1);
    assert_eq!(errors[0].loc, 2);
    assert_eq!(errors[0].priority, 1);
}

#[test]
fn leading_dot_makes_a_float() {
    assert_eq!(
        kinds(".05"),
        vec![TokenType::Literal(LiteralType::Float(FloatLiteral { digits: 5, decimals: 2 }))]
    );
}

#[test]
fn unknown_character_is_unexpected() {
    let (tokens, errors, _) = tokenize("a @ b");
    assert_eq!(tokens.len(), 2);
    assert_eq!(errors.len(), 1);
    assert_eq!(errors[0].loc, 2);
    assert_eq!(errors[0].priority, 1);
    assert_eq!(errors[0].msg, "Unexpected token");
}

#[test]
fn huge_number_is_an_error() {
    let src = "999999999999999999999999999999999999999999";
    let (tokens, errors, _) = tokenize(src);
    assert!(tokens.is_empty());
    assert_eq!(errors[0].loc, 42);
    assert_eq!(errors[0].priority, 2);
    assert_eq!(errors[0].msg, "Number too large");
    let max = "170141183460469231731687303715884105727";
    assert_eq!(kinds(max), vec![TokenType::Literal(LiteralType::Integer(i128::MAX))]);
}

#[test]
fn whitespace_only_gives_nothing() {
    let (tokens, errors, meta) = tokenize(" \t\n ");
    assert!(tokens.is_empty() && errors.is_empty());
    assert_eq!(meta.newline_locs, vec![3]);
}

#[test]
fn word_reader_stops_at_non_letters() {
    let mut needle = Needle::from_str("ab1", 0);
    let meta = needle.get_meta_data();
    needle.push_state();
    let t = try_tokenize_word(&mut needle, &meta).ok().unwrap();
    assert_eq!(t.token_type, TokenType::Identifier(String::from("ab")));
    assert_eq!(needle.get_index(), 2);
    let e = try_tokenize_word(&mut needle, &meta).err().unwrap();
    assert_eq!((e.loc, e.priority), (2, 0));
}

#[test]
fn string_reader_needs_a_quote() {
    let mut needle = Needle::from_str("x", 0);
    let meta = needle.get_meta_data();
    let e = try_tokenize_string(&mut needle, &meta).err().unwrap();
    assert_eq!((e.loc, e.priority), (1, 0));
}

#[test]
fn number_reader_reads_digits() {
    let mut needle = Needle::from_str("407;", 0);
    let meta = needle.get_meta_data();
    let t = try_tokenize_number(&mut needle, &meta).ok().unwrap();
    assert_eq!(t.token_type, TokenType::Literal(LiteralType::Integer(407)));
    assert_eq!(needle.get_index(), 3);
    let e = try_tokenize_number(&mut needle, &meta).err().unwrap();
    assert_eq!((e.loc, e.priority), (3, 0));
}

#[test]
fn stronger_error_is_kept() {
    let mut current: Option<Error> = None;
    let r: Option<u8> = if_change_err(Err(Error::new(3, 1, "a")), &mut current);
    assert!(r.is_none());
    let _ = if_change_err::<u8>(Err(Error::new(5, 0, "b")), &mut current);
    assert_eq!(current.unwrap().loc, 3);
    let _ = if_change_err::<u8>(Err(Error::new(7, 1, "c")), &mut current);
    assert_eq!(current.unwrap().loc, 7);
    assert_eq!(if_change_err(Ok(9u8), &mut current), Some(9));
    assert_eq!(current.unwrap().loc, 7);
}

#[test]
fn token_dump_names_kinds() {
    let (tokens, _, _) = tokenize("x = 1.5 \"s\" ( +");
    let mut out = String::new();
    for t in tokens.iter() {
        t.print_with_indent(1, "> ", &mut out);
    }
    assert_eq!(
        out,
        "> (1, 1): identifier 'x'\n> (1, 3): keyword 'assign'\n> (1, 5): literal float 1.5\n> (1, 9): literal string 's'\n> (1, 13): keyword 'block open'\n> (1, 15): operator 'add'\n"
    );
}
