use dreamberd::grouping::ParseError;
use dreamberd::lexer::{
    count_char, inner_tokenize, kind_of, lex_string, parse_segments, serialize, tokenize, CharKind,
    LexError,
};
use dreamberd::parser::{consume_bang, consume_whitespace, get_type, optimize, parse};
use dreamberd::syntax::{Operation, Syntax, UnaryOperation, VarType};
use dreamberd::token::{StringSegment, Token};

fn chars(text: &str) -> Vec<char> {
    text.chars().collect()
}

fn text(chars: &[char]) -> String {
    chars.iter().collect()
}

fn ident(name: &str) -> Token {
    Token::Ident(chars(name))
}

fn name(name: &str) -> Syntax {
    Syntax::Ident(chars(name))
}

fn program(source: &str) -> Result<Syntax, ParseError> {
    parse(tokenize(source).unwrap())
}

/// The one statement of a program of one statement; else the program.
fn tree(source: &str) -> Result<Syntax, ParseError> {
    program(source).map(|tree| match tree {
        Syntax::Block(mut statements) if statements.len() == 1 => statements.remove(0),
        other => other,
    })
}

fn shown(source: &str) -> String {
    text(&tree(source).unwrap().to_text())
}

#[test]
fn a_program_is_a_block() {
    assert_eq!(program("x"), Ok(Syntax::Block(vec![name("x")])));
    assert_eq!(program("{x}"), Ok(Syntax::Block(vec![name("x")])));
    assert_eq!(program("{{x}}"), Ok(Syntax::Block(vec![name("x")])));
    assert_eq!(program(""), Ok(Syntax::Block(vec![])));
    assert_eq!(program("{}"), Ok(Syntax::Block(vec![])));
    assert_eq!(
        program("{x! y}"),
        Ok(Syntax::Block(vec![Syntax::Statement(false, Box::new(name("x")), 1), name("y")]))
    );
    assert_eq!(
        program("{{x}! y}"),
        Ok(Syntax::Block(vec![Syntax::Statement(false, Box::new(name("x")), 1), name("y")]))
    );
    for source in ["1 + 2", "var var x!", "{a! {b! c}}", "f(x)", "'s'", ";x", "(a, b) -> c"] {
        assert!(matches!(program(source), Ok(Syntax::Block(_))), "{source}");
    }
}

#[test]
fn white_space_is_counted() {
    assert_eq!(tokenize("a b"), Ok(vec![ident("a"), Token::Space(1), ident("b")]));
    assert_eq!(tokenize("a \t b"), Ok(vec![ident("a"), Token::Space(3), ident("b")]));
    assert_eq!(tokenize("a\nb"), Ok(vec![ident("a"), Token::Space(3), ident("b")]));
    assert_eq!(tokenize("a \n\nb"), Ok(vec![ident("a"), Token::Space(7), ident("b")]));
    let wide = " ".repeat(300);
    assert_eq!(tokenize(&wide), Ok(vec![Token::Space(255)]));
}

#[test]
fn runs_are_counted() {
    assert_eq!(tokenize("===="), Ok(vec![Token::Equal(4)]));
    assert_eq!(tokenize("!!?"), Ok(vec![Token::Bang(2), Token::Question(1)]));
    assert_eq!(tokenize(&"=".repeat(400)), Ok(vec![Token::Equal(255)]));
    assert_eq!(count_char(&chars("a===b"), 1, '='), (3, 4));
    assert_eq!(count_char(&chars("a===b"), 0, '='), (0, 0));
    assert_eq!(count_char(&chars("a"), 5, '='), (0, 5));
}

#[test]
fn compound_operators_look_one_ahead() {
    assert_eq!(
        tokenize("+ += - -= -> * *= / /= % %= < <= > >="),
        Ok(vec![
            Token::Plus,
            Token::Space(1),
            Token::PlusEq,
            Token::Space(1),
            Token::Tack,
            Token::Space(1),
            Token::TackEq,
            Token::Space(1),
            Token::Arrow,
            Token::Space(1),
            Token::Star,
            Token::Space(1),
            Token::StarEq,
            Token::Space(1),
            Token::Slash,
            Token::Space(1),
            Token::SlashEq,
            Token::Space(1),
            Token::Percent,
            Token::Space(1),
            Token::PercentEq,
            Token::Space(1),
            Token::LCaret,
            Token::Space(1),
            Token::LCaretEq,
            Token::Space(1),
            Token::RCaret,
            Token::Space(1),
            Token::RCaretEq,
        ])
    );
    assert_eq!(tokenize("++"), Ok(vec![Token::Plus, Token::Plus]));
    assert_eq!(
        tokenize("{}()[];:.,&|"),
        Ok(vec![
            Token::LSquirrely,
            Token::RSquirrely,
            Token::LParen,
            Token::RParen,
            Token::LSquare,
            Token::RSquare,
            Token::Semicolon,
            Token::Colon,
            Token::Dot,
            Token::Comma,
            Token::And,
            Token::Or,
        ])
    );
}

#[test]
fn names_take_every_other_character() {
    assert_eq!(tokenize("größe_1🥧»"), Ok(vec![ident("größe_1🥧»")]));
    assert_eq!(
        inner_tokenize(&chars("ab+c"), 0),
        Ok((ident("ab"), 2))
    );
    assert_eq!(inner_tokenize(&chars("ab"), 2), Err(LexError::UnexpectedEnd));
    assert_eq!(kind_of('+', false), CharKind::Special);
    assert_eq!(kind_of('+', true), CharKind::Special);
    assert_eq!(kind_of('a', true), CharKind::Blank);
    assert_eq!(kind_of('a', false), CharKind::Plain);
}

#[test]
fn string_literals_fall_into_pieces() {
    let literal = |text: &str| StringSegment::String(chars(text));
    let variable = |text: &str| StringSegment::Ident(chars(text));
    assert_eq!(tokenize("'a b'"), Ok(vec![Token::String(vec![literal("a b")])]));
    assert_eq!(tokenize("\"\""), Ok(vec![Token::String(vec![])]));
    assert_eq!(tokenize("«a'b»"), Ok(vec![Token::String(vec![literal("a'b")])]));
    assert_eq!(tokenize("'it\\'s'"), Ok(vec![Token::String(vec![literal("it\\'s")])]));
    assert_eq!(
        parse_segments(&chars("a${b}c£{d}{e}€{f}")),
        vec![literal("a"), variable("b"), literal("c"), variable("d"), variable("e"), literal("{f}")]
    );
    assert_eq!(parse_segments(&chars("\\${b}")), vec![literal("\\${b}")]);
    assert_eq!(parse_segments(&chars("${b")), vec![literal("${b")]);
    assert_eq!(parse_segments(&chars("${}")), vec![variable("")]);
    assert_eq!(
        lex_string(&chars("x'ab'y"), 2, '\''),
        Ok((Token::String(vec![literal("ab")]), 5))
    );
    assert_eq!(tokenize("'abc"), Err(LexError::UnterminatedString));
    assert_eq!(tokenize("'abc\\"), Err(LexError::UnexpectedEnd));
    assert_eq!(tokenize("'abc\\'"), Err(LexError::UnterminatedString));
    assert_eq!(text(&LexError::UnterminatedString.message()), "Unterminated string");
    assert_eq!(text(&LexError::UnexpectedEnd.message()), "Unexpected end of file");
}

#[test]
fn tokens_are_written_as_they_are_read() {
    let source = "{const var n: Int = `a${b}`! n += 1?? -> x}";
    let tokens = tokenize(source).unwrap();
    assert_eq!(text(&serialize(&tokens)), "{const var n: Int = \"a${b}\"! n += 1?? -> x}");
    assert_eq!(text(&Token::String(vec![StringSegment::String(chars("a\"b"))]).to_text()), "'a\"b'");
    assert_eq!(text(&Token::TackTack.to_text()), "--");
    assert_eq!(text(&Token::Space(3).to_text()), "   ");
}

#[test]
fn operators_come_from_tokens() {
    assert_eq!(Operation::from_token(&Token::Equal(3)), Some(Operation::Equal(3)));
    assert_eq!(Operation::from_token(&Token::Tack), Some(Operation::Sub));
    assert_eq!(Operation::from_token(&Token::And), Some(Operation::And));
    assert_eq!(Operation::from_token(&Token::LCaretEq), Some(Operation::Le));
    assert_eq!(Operation::from_token(&Token::Bang(1)), None);
    assert_eq!(Operation::from_token(&ident("a")), None);
    assert_eq!(text(&Operation::Equal(3).to_text()), "===");
    assert_eq!(text(&Operation::And.to_text()), "&&");
    assert_eq!(text(&VarType::VarConst.to_text()), "var const");
}

#[test]
fn less_white_space_binds_tighter() {
    assert_eq!(shown("a+b * c"), "((a+b)*c)");
    assert_eq!(shown("a + b*c"), "(a+(b*c))");
    assert_eq!(shown("a +b* c"), "((a+b)*c)");
    assert_eq!(shown("a - b - c"), "((a-b)-c)");
    assert_eq!(shown("a = b = c"), "(a=(b=c))");
    assert_eq!(shown("a.b=c.d"), "((a.b)=(c.d))");
    assert_eq!(shown("a += b + c"), "(a+=(b+c))");
    assert_eq!(shown("a  =  b = c"), "(a=(b=c))");
    assert_eq!(shown("a == b"), "(a==b)");
}

#[test]
fn atoms() {
    assert_eq!(tree("x"), Ok(name("x")));
    assert_eq!(tree("(x)"), Ok(name("x")));
    assert_eq!(tree("{x}"), Ok(name("x")));
    assert_eq!(tree("{}"), Ok(Syntax::Block(vec![])));
    assert_eq!(tree("()"), Ok(Syntax::Block(vec![])));
    assert_eq!(tree("(x, y)"), Ok(Syntax::Block(vec![name("x"), name("y")])));
    assert_eq!(
        tree(";x"),
        Ok(Syntax::UnaryOperation(UnaryOperation::Negate, Box::new(name("x"))))
    );
    assert_eq!(tree("f(x, y)"), Ok(Syntax::Call(Box::new(name("f")), vec![name("x"), name("y")])));
    assert_eq!(tree("f (x)"), Ok(Syntax::Call(Box::new(name("f")), vec![name("x")])));
    assert_eq!(tree("f x"), Ok(Syntax::Call(Box::new(name("f")), vec![name("x")])));
    assert_eq!(tree("x: Int"), Ok(name("x")));
    assert_eq!(tree("x: List<Int, Map<A,B>>"), Ok(name("x")));
    assert_eq!(tree("x: Int[]"), Ok(name("x")));
    assert_eq!(
        tree("(a, b) -> c"),
        Ok(Syntax::Function(vec![chars("a"), chars("b")], Box::new(name("c"))))
    );
    assert_eq!(tree("a -> c"), Ok(Syntax::Function(vec![chars("a")], Box::new(name("c")))));
    assert_eq!(
        tree("{x!}"),
        Ok(Syntax::Statement(false, Box::new(name("x")), 1))
    );
    assert_eq!(tree("x!"), Err(ParseError::UnexpectedEnd));
    assert_eq!(
        tree("{x??? y}"),
        Ok(Syntax::Block(vec![Syntax::Statement(true, Box::new(name("x")), 3), name("y")]))
    );
}

#[test]
fn increments_come_from_their_tokens() {
    let tokens = vec![ident("x"), Token::PlusPlus];
    assert_eq!(
        parse(tokens),
        Ok(Syntax::Block(vec![Syntax::UnaryOperation(
            UnaryOperation::Increment,
            Box::new(name("x"))
        )]))
    );
    let tokens = vec![ident("x"), Token::TackTack];
    assert_eq!(text(&parse(tokens).unwrap().to_text()), "{x-- }");
}

#[test]
fn declarations() {
    let declared = |vt, value| Syntax::Declare(vt, chars("x"), Box::new(value));
    assert_eq!(tree("const const x = y"), Ok(declared(VarType::ConstConst, name("y"))));
    assert_eq!(tree("const var x = y"), Ok(declared(VarType::ConstVar, name("y"))));
    assert_eq!(tree("var const x = y"), Ok(declared(VarType::VarConst, name("y"))));
    assert_eq!(tree("var var x: Int = y"), Ok(declared(VarType::VarVar, name("y"))));
    assert_eq!(
        tree("var var x = y!"),
        Ok(Syntax::Statement(false, Box::new(declared(VarType::VarVar, name("y"))), 1))
    );
    assert_eq!(
        tree("var var x!!"),
        Ok(Syntax::Statement(
            false,
            Box::new(declared(VarType::VarVar, Syntax::Block(vec![]))),
            2
        ))
    );
    assert_eq!(shown("var var x = 1 + 2"), "var var x = (1+2)");
}

#[test]
fn what_is_no_program() {
    assert_eq!(tree("{x"), Err(ParseError::MissingBrace));
    assert_eq!(tree("f(x"), Err(ParseError::MissingParen));
    assert_eq!(tree("(x"), Err(ParseError::MissingParen));
    assert_eq!(tree(")"), Err(ParseError::UnexpectedEnd));
    assert_eq!(tree("x +"), Err(ParseError::ExpectedExpression));
    assert_eq!(tree("+"), Err(ParseError::ExpectedExpression));
    assert_eq!(tree("+ x"), Err(ParseError::UnexpectedEnd));
    assert_eq!(tree("a [b]"), Err(ParseError::UnexpectedToken { at: 2 }));
    assert_eq!(tree(": x"), Err(ParseError::UnexpectedToken { at: 0 }));
    assert_eq!(tree("const x = 1"), Err(ParseError::BadDeclaration { at: 2 }));
    assert_eq!(tree("const const = 1"), Err(ParseError::BadDeclaration { at: 4 }));
    assert_eq!(tree("const const x == 1"), Err(ParseError::BadDeclaration { at: 6 }));
    assert_eq!(tree("const const x"), Err(ParseError::BadDeclaration { at: 5 }));
    assert_eq!(tree("x: ="), Err(ParseError::BadType { at: 3 }));
    assert_eq!(tree("x: A[b]"), Err(ParseError::BadType { at: 5 }));
    assert_eq!(tree("x: A<B"), Err(ParseError::BadType { at: 6 }));
    assert_eq!(tree("1 -> x"), Ok(Syntax::Function(vec![chars("1")], Box::new(name("x")))));
    assert_eq!(tree("(a, b + c) -> x"), Err(ParseError::BadParameters));
    assert_eq!(tree("'a' -> x"), Err(ParseError::BadParameters));
    let tokens = vec![ident("x"), Token::Plus, Token::Star, ident("y")];
    assert_eq!(parse(tokens), Err(ParseError::ExpectedExpression));
}

#[test]
fn errors_name_their_token() {
    let tokens = tokenize("a [b]").unwrap();
    let error = parse(tokens.clone()).unwrap_err();
    assert_eq!(text(&error.message()), "Unexpected token at token 2");
    assert_eq!(text(&error.message_for(&tokens)), "Unexpected token; got `[`");
    let tokens = tokenize("const const x").unwrap();
    let error = parse(tokens.clone()).unwrap_err();
    assert_eq!(
        text(&error.message_for(&tokens)),
        "Expected `const` or `var`, a variable name, and `!`, `:`, or `=`; got the end of the file"
    );
    assert_eq!(text(&ParseError::MissingBrace.message()), "Expected `}`");
    assert_eq!(text(&ParseError::MissingParen.message_for(&tokens)), "Expected `)`");
}

#[test]
fn parts_of_the_parser() {
    let tokens = tokenize("  \n x!! y: A <").unwrap();
    assert_eq!(consume_whitespace(&tokens, 0), (6, 1));
    assert_eq!(consume_whitespace(&tokens, 1), (0, 1));
    assert_eq!(consume_whitespace(&tokens, 40), (0, 40));
    assert_eq!(
        consume_bang(name("x"), &tokens, 2),
        (Syntax::Statement(false, Box::new(name("x")), 2), 3)
    );
    assert_eq!(consume_bang(name("x"), &tokens, 1), (name("x"), 1));
    assert_eq!(get_type(&tokens, 7), Err(ParseError::BadType { at: 10 }));
    assert_eq!(get_type(&tokens, 1), Ok(2));
}

#[test]
fn blocks_are_tidied() {
    let block = |list| Syntax::Block(list);
    assert_eq!(optimize(&block(vec![block(vec![name("a"), name("b")]), name("c")])), block(vec![name("a"), name("b"), name("c")]));
    assert_eq!(optimize(&block(vec![block(vec![name("a")])])), name("a"));
    assert_eq!(optimize(&block(vec![block(vec![])])), block(vec![]));
    assert_eq!(
        optimize(&block(vec![block(vec![block(vec![name("a")]), name("b")])])),
        block(vec![block(vec![name("a")]), name("b")])
    );
    assert_eq!(
        optimize(&Syntax::Statement(true, Box::new(block(vec![name("a")])), 1)),
        Syntax::Statement(true, Box::new(name("a")), 1)
    );
    assert_eq!(shown("{{a! b}}"), "{a! b }");
    assert_eq!(shown("{{a! b} c}"), "{a! b }(c)");
}

#[test]
fn trees_are_written_out() {
    assert_eq!(shown("f(a, `x${y}`)"), "f(a, \"x${y}\")");
    assert_eq!(shown("(a, b) -> ;c"), "[\"a\", \"b\"] -> ;c");
    assert_eq!(shown("{a! b??}"), "{a! b?? }");
    assert_eq!(shown("var const x!"), "var const x = {}!");
}
