use pascal_interp::ast::{TypeSpec, VariableValue, AST};
use pascal_interp::error::{Error, Expected, RuntimeError, SemanticError, SyntaxError};
use pascal_interp::interpreter::{analyze_and_run, Context, Interpreter};
use pascal_interp::lexer::{LexError, Lexer};
use pascal_interp::parser::Parser;
use pascal_interp::symbols::{analyze, SemanticAnalyzer, SymbolTable};
use pascal_interp::tokens::{ArithmeticOp, Keyword, Punct, Real, Token};

fn as_f64(v: VariableValue) -> f64 {
    match v {
        VariableValue::Real(x) => x.num as f64 / x.den as f64,
        VariableValue::Integer(n) => n as f64,
        VariableValue::Absent => panic!("no value"),
    }
}

/// Parses and evaluates a program without the semantic analysis.
fn evaluate(text: &str) -> (Context, VariableValue) {
    let tree = Parser::new(text).parse().unwrap();
    let mut interpreter = Interpreter::new("");
    let value = interpreter.visit(&tree).unwrap();
    (interpreter.context, value)
}

fn run(text: &str) -> (VariableValue, Context) {
    analyze_and_run(text).unwrap()
}

#[test]
fn part14() {
    let (_ctx, res) = Interpreter::new("BEGIN END.").exec().unwrap();
    assert_eq!(res, VariableValue::Absent);
}

#[test]
fn part10() {
    {
        let (_ctx, res) = evaluate("BEGIN END.");
        assert_eq!(res, VariableValue::Absent);
    }
    {
        let (ctx, res) = evaluate("BEGIN a := 5; x := 11. END.");
        assert_eq!(ctx.get_var("a"), Some(VariableValue::Integer(5)));
        assert_eq!(as_f64(ctx.get_var("X").unwrap()), 11.0);
        assert!(matches!(ctx.get_var("X"), Some(VariableValue::Real(_))));
        assert_eq!(ctx.get_var("z"), None);
        assert_eq!(as_f64(res), 11.0);
        assert!(matches!(res, VariableValue::Real(_)));
    }
    {
        let (_ctx, res) = evaluate("BEGIN a := 5; x := 11; END.");
        assert_eq!(res, VariableValue::Absent);
    }
    {
        let (_ctx, res) = evaluate("BEGIN BEGIN a := 5 END; x := 11 END.");
        assert_eq!(res, VariableValue::Integer(11));
    }
}

#[test]
fn left_associative_folding() {
    let (ctx, res) = evaluate("BEGIN a:=7-3+2-1 END.");
    assert_eq!(ctx.get_var("a"), Some(VariableValue::Integer(5)));
    assert_eq!(res, VariableValue::Integer(5));
    let (v, ctx) = run("VAR a: INTEGER; BEGIN a:=7-3+2-1 END.");
    assert_eq!(v, VariableValue::Integer(5));
    assert_eq!(ctx.get_var("A"), Some(VariableValue::Integer(5)));
}

#[test]
fn undeclared_variable_is_rejected_before_running() {
    match analyze_and_run("BEGIN a:=7-3+2-1 END.") {
        Err(Error::Semantic(SemanticError::UndeclaredVariable { name, scope })) => {
            assert_eq!(name, "A");
            assert_eq!(scope, "global");
        }
        other => panic!("unexpected {:?}", other),
    }
}

#[test]
fn unary_chain_right_nests() {
    let (ctx, _) = evaluate("BEGIN a := 5 - - - + - 3 END.");
    assert_eq!(ctx.get_var("a"), Some(VariableValue::Integer(8)));
    let (ctx, _) = evaluate("BEGIN a := 5 - - - + - (3 + 4) - +2 END.");
    assert_eq!(ctx.get_var("a"), Some(VariableValue::Integer(10)));
    let tree = Parser::new("BEGIN a := - + 3 END.").parse().unwrap();
    let expected = AST::UnaryOp(
        ArithmeticOp::Minus,
        Box::new(AST::UnaryOp(ArithmeticOp::Plus, Box::new(AST::Num(VariableValue::Integer(3))))),
    );
    match tree {
        AST::Block(_, _, body) => match *body {
            AST::Compound(first, None) => {
                assert_eq!(*first, AST::Assign("A".to_string(), Box::new(expected)))
            }
            other => panic!("unexpected {:?}", other),
        },
        other => panic!("unexpected {:?}", other),
    }
}

#[test]
fn coercion_and_integer_division() {
    let (_, ctx) = run(
        "VAR number, a, b : INTEGER; BEGIN number := 2; a := number; b := 10*a + 10*number DIV 4 END.",
    );
    assert_eq!(ctx.get_var("number"), Some(VariableValue::Integer(2)));
    assert_eq!(ctx.get_var("a"), Some(VariableValue::Integer(2)));
    assert_eq!(ctx.get_var("b"), Some(VariableValue::Integer(25)));
}

#[test]
fn real_division_yields_real() {
    let (_, ctx) = run("VAR y: REAL; BEGIN y := 20 / 7 + 3.14 END.");
    let y = ctx.get_var("y").unwrap();
    assert!(matches!(y, VariableValue::Real(_)));
    assert!((as_f64(y) - 5.997142857142857).abs() < 1e-12);
    let (v, _) = run("VAR y: REAL; BEGIN y := 4 / 2 END.");
    assert_eq!(v, VariableValue::Real(Real { num: 2, den: 1 }));
}

#[test]
fn duplicate_declaration_is_rejected() {
    match analyze_and_run("VAR x:INTEGER; VAR x:REAL; BEGIN x:=1 END.") {
        Err(Error::Semantic(SemanticError::DuplicateDeclaration { name, scope })) => {
            assert_eq!(name, "X");
            assert_eq!(scope, "global");
        }
        other => panic!("unexpected {:?}", other),
    }
}

#[test]
fn division_by_zero_is_a_runtime_error() {
    let tree = Parser::new("VAR x:INTEGER; BEGIN x := 5 DIV 0 END.").parse().unwrap();
    assert!(analyze(&tree).is_ok());
    assert_eq!(
        analyze_and_run("VAR x:INTEGER; BEGIN x := 5 DIV 0 END.").err(),
        Some(Error::Runtime(RuntimeError::DivisionByZero { op: ArithmeticOp::IntDiv }))
    );
    assert_eq!(
        analyze_and_run("VAR x:REAL; BEGIN x := 5 / 0.0 END.").err(),
        Some(Error::Runtime(RuntimeError::DivisionByZero { op: ArithmeticOp::RealDiv }))
    );
    assert_eq!(
        analyze_and_run("VAR x:INTEGER; BEGIN x := 5 DIV 0.5 END.").err(),
        Some(Error::Runtime(RuntimeError::DivisionByZero { op: ArithmeticOp::IntDiv }))
    );
}

#[test]
fn analysis_is_repeatable() {
    for text in [
        "VAR x:INTEGER; VAR x:REAL; BEGIN x:=1 END.",
        "VAR x:INTEGER; BEGIN x := 1 END.",
        "BEGIN y := 1 END.",
    ] {
        let tree = Parser::new(text).parse().unwrap();
        assert_eq!(analyze(&tree), analyze(&tree));
    }
}

#[test]
fn nested_scopes() {
    let text = "program Part14;
    var
        x, y : integer;
        a, b : real;
    var c : integer;
        d : integer;
    procedure foo1; begin end;
    procedure foo2(ii:integer); begin ii:=42 end;
    procedure foo3(iii, jjj:integer; kkk:real);
        var x : real;
        begin
            {y := x + iii;}
            y := x + iii
        end;
    begin
        x := 3;
        y := x
    end.";
    let (v, ctx) = run(text);
    assert_eq!(v, VariableValue::Integer(3));
    assert_eq!(ctx.get_var("y"), Some(VariableValue::Integer(3)));
    // procedure bodies are checked but never run
    assert_eq!(ctx.get_var("ii"), None);
    // a parameter is local to its procedure
    match analyze_and_run("PROCEDURE p(q: INTEGER); BEGIN END; BEGIN q := 1 END.") {
        Err(Error::Semantic(SemanticError::UndeclaredVariable { name, .. })) => assert_eq!(name, "Q"),
        other => panic!("unexpected {:?}", other),
    }
    // a local may not repeat a parameter
    match analyze_and_run("PROCEDURE p(q: INTEGER); VAR q: REAL; BEGIN END; BEGIN END.") {
        Err(Error::Semantic(SemanticError::DuplicateDeclaration { name, scope })) => {
            assert_eq!(name, "Q");
            assert_eq!(scope, "P");
        }
        other => panic!("unexpected {:?}", other),
    }
    // an inner scope may shadow an outer name
    assert!(analyze_and_run("VAR x: INTEGER; PROCEDURE p; VAR x: REAL; BEGIN x := 1 END; BEGIN END.").is_ok());
}

#[test]
fn assignment_keeps_the_slot_type() {
    let (v, ctx) = run("VAR x: REAL; BEGIN x := 1.5; x := 2 END.");
    assert_eq!(v, VariableValue::Real(Real { num: 2, den: 1 }));
    assert_eq!(ctx.get_var("x"), Some(VariableValue::Real(Real { num: 2, den: 1 })));
    let (v, ctx) = run("VAR x: INTEGER; BEGIN x := 1; x := 2.5 END.");
    assert_eq!(v, VariableValue::Integer(2));
    assert_eq!(ctx.get_var("x"), Some(VariableValue::Integer(2)));
    let (v, _) = run("VAR x: INTEGER; BEGIN x := 1; x := -7 / 2 END.");
    assert_eq!(v, VariableValue::Integer(-3));
    // the first assignment fixes the slot's type
    let (v, _) = run("VAR x: INTEGER; BEGIN x := 2.5 END.");
    assert_eq!(v, VariableValue::Real(Real { num: 5, den: 2 }));
    let mut slot = VariableValue::Integer(1);
    assert_eq!(slot.assign(VariableValue::Real(Real { num: 5, den: 2 })), VariableValue::Integer(2));
    assert_eq!(slot, VariableValue::Integer(2));
}

#[test]
fn mixed_arithmetic() {
    let (v, _) = run("VAR x: REAL; BEGIN x := 1 + 0.5 END.");
    assert_eq!(v, VariableValue::Real(Real { num: 3, den: 2 }));
    let (v, _) = run("VAR x: REAL; BEGIN x := 2 * 0.5 - 3 END.");
    assert_eq!(as_f64(v), -2.0);
    let (v, _) = run("VAR x: INTEGER; BEGIN x := 7.9 DIV 2 END.");
    assert_eq!(v, VariableValue::Integer(3));
    let (v, _) = run("VAR x: INTEGER; BEGIN x := -7 DIV 2 END.");
    assert_eq!(v, VariableValue::Integer(-3));
    let (v, _) = run("VAR x: REAL; BEGIN x := -(1.25) END.");
    assert_eq!(v, VariableValue::Real(Real { num: -5, den: 4 }));
    let (v, _) = run("VAR x: INTEGER; BEGIN x := 7 + 3 * (10 DIV (12 DIV (3 + 1) - 1)) END.");
    assert_eq!(v, VariableValue::Integer(22));
}

#[test]
fn reals_stay_in_lowest_terms() {
    let sum = vec!["0.5"; 40].join(" + ");
    let (v, _) = run(&format!("VAR x: REAL; BEGIN x := {} END.", sum));
    assert_eq!(v, VariableValue::Real(Real { num: 20, den: 1 }));
    let (v, _) = run("VAR x: REAL; BEGIN x := 2.50 * 4 / 6 END.");
    assert_eq!(v, VariableValue::Real(Real { num: 5, den: 3 }));
}

#[test]
fn runtime_errors() {
    assert_eq!(
        analyze_and_run("VAR x, y: INTEGER; BEGIN x := y END.").err(),
        Some(Error::Runtime(RuntimeError::UnassignedVariable { name: "Y".to_string() }))
    );
    assert_eq!(
        analyze_and_run("VAR x: INTEGER; BEGIN x := 9223372036854775807 + 1 END.").err(),
        Some(Error::Runtime(RuntimeError::Overflow { op: ArithmeticOp::Plus }))
    );
}

#[test]
fn syntax_and_lexical_errors() {
    assert_eq!(
        analyze_and_run("BEGIN a := 1 END").err(),
        Some(Error::Syntax(SyntaxError::UnexpectedToken {
            expected: Expected::Punctuation(Punct::Dot),
            found: Token::EndOfInput,
            pos: 16,
        }))
    );
    assert_eq!(
        analyze_and_run("BEGIN a := * END.").err(),
        Some(Error::Syntax(SyntaxError::UnexpectedToken {
            expected: Expected::Factor,
            found: Token::Operator(ArithmeticOp::Mul),
            pos: 11,
        }))
    );
    assert_eq!(
        analyze_and_run("VAR x: BOOLEAN; BEGIN END.").err(),
        Some(Error::Syntax(SyntaxError::UnexpectedToken {
            expected: Expected::TypeName,
            found: Token::Identifier("BOOLEAN".to_string()),
            pos: 7,
        }))
    );
    assert_eq!(
        analyze_and_run("BEGIN a := 1 # END.").err(),
        Some(Error::Lex(LexError::UnrecognizedCharacter { pos: 13 }))
    );
    assert_eq!(
        analyze_and_run("BEGIN a := 99999999999999999999 END.").err(),
        Some(Error::Lex(LexError::LiteralOutOfRange { pos: 11 }))
    );
}

#[test]
fn edge_inputs() {
    assert_eq!(
        analyze_and_run("").err(),
        Some(Error::Syntax(SyntaxError::UnexpectedToken {
            expected: Expected::Keyword(Keyword::Begin),
            found: Token::EndOfInput,
            pos: 0,
        }))
    );
    let (v, _) = run("VAR x: INTEGER; BEGIN x := 9223372036854775807 END.");
    assert_eq!(v, VariableValue::Integer(i64::MAX));
    assert_eq!(
        analyze_and_run("VAR x: REAL; BEGIN x := 0.0000000000000000001 END.").err(),
        Some(Error::Lex(LexError::LiteralOutOfRange { pos: 24 }))
    );
    let (v, _) = run("{ comment } program p; begin { another } end.");
    assert_eq!(v, VariableValue::Absent);
    let (v, _) = run("\u{a0}VAR x:\u{3000}INTEGER;\u{2003}BEGIN x := 1 END.");
    assert_eq!(v, VariableValue::Integer(1));
    assert_eq!(
        analyze_and_run("VAR x: REAL; BEGIN x := 1.2.3 END.").err(),
        Some(Error::Lex(LexError::MalformedNumber { pos: 24 }))
    );
    assert_eq!(
        analyze_and_run("BEGIN x := 11.. END.").err(),
        Some(Error::Lex(LexError::MalformedNumber { pos: 11 }))
    );
}

#[test]
fn lexer_tokens() {
    let mut lexer = Lexer::new("program x1; { note } Var y:=3.25 div (z) , real integer begin end procedure .");
    let expected = vec![
        Token::Keyword(Keyword::Program),
        Token::Identifier("X1".to_string()),
        Token::Punctuation(Punct::Semicolon),
        Token::Keyword(Keyword::Var),
        Token::Identifier("Y".to_string()),
        Token::Punctuation(Punct::Assign),
        Token::RealLiteral(Real { num: 13, den: 4 }),
        Token::Operator(ArithmeticOp::IntDiv),
        Token::Punctuation(Punct::LParen),
        Token::Identifier("Z".to_string()),
        Token::Punctuation(Punct::RParen),
        Token::Punctuation(Punct::Comma),
        Token::Keyword(Keyword::Real),
        Token::Keyword(Keyword::Integer),
        Token::Keyword(Keyword::Begin),
        Token::Keyword(Keyword::End),
        Token::Keyword(Keyword::Procedure),
        Token::Punctuation(Punct::Dot),
        Token::EndOfInput,
    ];
    for tok in expected {
        assert_eq!(lexer.get_next_token(), Ok(tok));
    }
    let mut lexer = Lexer::new("a : b + - * /");
    assert_eq!(lexer.get_next_token(), Ok(Token::Identifier("A".to_string())));
    assert_eq!(lexer.rest(), " : b + - * /");
    assert_eq!(lexer.get_next_token(), Ok(Token::Punctuation(Punct::Colon)));
    lexer.get_next_token().unwrap();
    assert_eq!(lexer.get_next_token(), Ok(Token::Operator(ArithmeticOp::Plus)));
    assert_eq!(lexer.get_next_token(), Ok(Token::Operator(ArithmeticOp::Minus)));
    assert_eq!(lexer.get_next_token(), Ok(Token::Operator(ArithmeticOp::Mul)));
    assert_eq!(lexer.get_next_token(), Ok(Token::Operator(ArithmeticOp::RealDiv)));
    assert_eq!(lexer.rest(), "Empty");
    assert_eq!(Token::get_token("bEgIn"), Token::Keyword(Keyword::Begin));
    assert_eq!(Token::get_token("div"), Token::Operator(ArithmeticOp::IntDiv));
    assert_eq!(Token::get_token("abc"), Token::Identifier("ABC".to_string()));
    let mut lexer = Lexer::new("11.");
    assert_eq!(lexer.get_next_token(), Ok(Token::RealLiteral(Real { num: 11, den: 1 })));
}

fn assigned_expr(text: &str) -> AST {
    match Parser::new(text).parse().unwrap() {
        AST::Block(_, _, body) => match *body {
            AST::Compound(first, None) => match *first {
                AST::Assign(_, e) => *e,
                other => panic!("unexpected {:?}", other),
            },
            other => panic!("unexpected {:?}", other),
        },
        other => panic!("unexpected {:?}", other),
    }
}

fn num(n: i64) -> Box<AST> {
    Box::new(AST::Num(VariableValue::Integer(n)))
}

#[test]
fn precedence_and_folding_trees() {
    assert_eq!(
        assigned_expr("BEGIN b := 10*number DIV 4 END."),
        AST::BinOp(
            ArithmeticOp::IntDiv,
            Box::new(AST::BinOp(ArithmeticOp::Mul, num(10), Box::new(AST::Var("NUMBER".to_string())))),
            num(4),
        )
    );
    assert_eq!(
        assigned_expr("BEGIN b := 2 + 7 * 4 END."),
        AST::BinOp(ArithmeticOp::Plus, num(2), Box::new(AST::BinOp(ArithmeticOp::Mul, num(7), num(4))))
    );
    assert_eq!(
        assigned_expr("BEGIN b := 7-3+2-1 END."),
        AST::BinOp(
            ArithmeticOp::Minus,
            Box::new(AST::BinOp(
                ArithmeticOp::Plus,
                Box::new(AST::BinOp(ArithmeticOp::Minus, num(7), num(3))),
                num(2),
            )),
            num(1),
        )
    );
    assert_eq!(
        assigned_expr("BEGIN b := 8 / 4 DIV 2 END."),
        AST::BinOp(
            ArithmeticOp::IntDiv,
            Box::new(AST::BinOp(ArithmeticOp::RealDiv, num(8), num(4))),
            num(2),
        )
    );
}

#[test]
fn declarations_are_chained_in_order() {
    let tree = Parser::new("VAR a, b: INTEGER; c: REAL; BEGIN END.").parse().unwrap();
    let vars = AST::VarDecl(
        "A".to_string(),
        TypeSpec::Integer,
        Box::new(AST::VarDecl(
            "B".to_string(),
            TypeSpec::Integer,
            Box::new(AST::VarDecl("C".to_string(), TypeSpec::Real, Box::new(AST::NoOp))),
        )),
    );
    match tree {
        AST::Block(v, p, _) => {
            assert_eq!(*v, vars);
            assert_eq!(*p, AST::NoOp);
        }
        other => panic!("unexpected {:?}", other),
    }
}

#[test]
fn scope_stack() {
    let mut analyzer = SemanticAnalyzer::new();
    analyzer.push_scope(SymbolTable::new("global".to_string(), 1));
    let mut inner = SymbolTable::new("p".to_string(), 2);
    assert!(inner.define(&"X".to_string(), TypeSpec::Integer).is_ok());
    assert!(inner.define(&"X".to_string(), TypeSpec::Real).is_err());
    assert!(inner.lookup(&"X".to_string()));
    analyzer.push_scope(inner);
    assert!(analyzer.is_declared(&"X".to_string()));
    assert_eq!(analyzer.current_scope().scope_level, 2);
    let popped = analyzer.pop_scope();
    assert_eq!(popped.scope_name, "p");
    assert_eq!(popped.variables, vec![("X".to_string(), TypeSpec::Integer)]);
    assert!(!analyzer.is_declared(&"X".to_string()));
}
