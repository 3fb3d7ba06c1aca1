use dreamberd::error::EvalError;
use dreamberd::interpreter::{inner_interpret, interpret, Machine, DEFAULT_DEPTH};
use dreamberd::lexer::tokenize;
use dreamberd::number::Number;
use dreamberd::parser::parse;
use dreamberd::syntax::Syntax;
use dreamberd::value::{Boolean, Value};

fn chars(text: &str) -> Vec<char> {
    text.chars().collect()
}

fn number(text: &str) -> Value {
    Value::Number(Number::parse(&chars(text)).unwrap())
}

fn tree(source: &str) -> Syntax {
    let tokens = tokenize(&format!("{{{source}}}")).unwrap();
    parse(tokens).unwrap()
}

fn eval(source: &str) -> Result<Value, EvalError> {
    let (machine, result) = interpret(&tree(source));
    result.map(|pointer| pointer.clone_inner(&machine.heap))
}

fn assert_eq_db(lhs: &str, rhs: &str) {
    let lsyn = tree(lhs);
    let rsyn = tree(rhs);
    let lres = eval(lhs).unwrap();
    let rres = eval(rhs).unwrap();
    assert_eq!(lres, rres, "{lsyn:?} != {rsyn:?}");
}

#[test]
fn divide() {
    assert_eq!(number("1").div(&number("0")), Value::empty_object());
    assert_eq!(number("5").div(&number("2")), number("2.5"));
}

#[test]
fn eq() {
    let pi = Value::Number(Number::pi());
    assert_eq!(pi.eq(&number("3"), 1), Value::Boolean(Boolean::from(true)));
    assert_eq!(pi.eq(&number("3"), 2), Value::Boolean(Boolean::from(false)));
}

#[test]
fn maybe_or_and() {
    assert_eq_db("true | true", "true");
    assert_eq_db("true | true", "true");
    assert_eq_db("true | false", "true");
    assert_eq_db("false | false", "false");
    assert_eq_db("maybe | false", "maybe");
    assert_eq_db("maybe | true", "true");
    assert_eq_db("maybe | maybe", "maybe");
    assert_eq_db("true & true", "true");
    assert_eq_db("true & false", "false");
    assert_eq_db("false & false", "false");
    assert_eq_db("maybe & false", "false");
    assert_eq_db("maybe & true", "maybe");
    assert_eq_db("maybe & maybe", "maybe");
}

#[test]
fn comparisons() {
    assert_eq_db("`true` === true", "true");
    assert_eq_db("`true` ==== true", "false");
    assert_eq_db("`false` === true", "false");
    assert_eq_db("` TRUE\n\t ` == true", "true");
    assert_eq_db("` TRUE ` === true", "false");

    assert_eq_db("`` == 0", "true");
    assert_eq_db("`` === 0", "true");
    assert_eq_db("`` ==== 0", "false");
    assert_eq_db("0 == ``", "true");
    assert_eq_db("0 === `0`", "true");
    assert_eq_db("0 === `Zero`", "false");
    assert_eq_db("22/7 == 🥧", "true");
}

#[test]
fn op_assign() {
    assert_eq_db("{const var count = 0! count += 1! count}", "1");
    assert_eq_db(
        "{const var msg = 'hello'! msg += 'world'! msg}",
        "`helloworld`",
    );
    assert_eq_db(
        "{const var msg = 'i did '! msg += ;msg! msg}",
        "`i did  did i`",
    );
}

#[test]
fn function() {
    assert_eq!(
        eval("const const does_she_really_like_you = () -> maybe! does_she_really_like_you"),
        Ok(Value::Function(Vec::new(), Syntax::Ident(chars("maybe"))))
    );
}

#[test]
fn doc_tests() {
    assert_eq_db(";'hello there'", "'ereht olleh'");
    assert_eq_db(";true", "false");
    assert_eq_db("const var age = 1! age += 1! age", "2");
    assert_eq_db("var const id = 'name'! id = 'main'! id", "'main'");
    assert_eq_db("var var count = 0! count += 1! count = 2! count", "2");
    assert_eq_db("var var name = 'john'! name += '!'! name", "'john!'");
    assert_eq_db("const const 5 = 4! 2 + 2  ====  5", "true");
    assert_eq_db("const const true = false! true === false", "true");
    assert_eq_db("1 + 2*3", "7");
    assert_eq_db("1+2 * 3", "9");
    assert_eq_db("`he` + `l`*2 + `o ` + ;`dlrow`", "`hello world`");
    assert_eq_db("`johnny` * 1.5", "`johnnyjoh`");
    assert_eq_db("`no lemon ` + ;`no lemon`", "`no lemon nomel on`");

    eval(
        "const const use = (val) -> {
    var var obj = {}!
    obj.call = (val)->{
        var var ret = self.value!
        if(;(val====undefined),
            self.value=val
        )!
        ret}!
    obj.value = val!
    obj
}!

const const print = (txt) -> {txt?}!

",
    )
    .unwrap();
}

#[test]
fn string_interpolation() {
    assert_eq_db(
        "const const name = `John`! `Hi, I'm ${name}`",
        "`Hi, I'm John`",
    );
    assert_eq_db(
        "const const name = `John`! `Hi, I'm ¥{name}`",
        "`Hi, I'm John`",
    );
    assert_eq_db(
        "const const name = `John`! `Hi, I'm {name}€`",
        "`Hi, I'm John`",
    );
}

#[test]
fn eval_tests() {
    assert_eq_db("eval(2)", "2");
    assert_eq_db("const var x = 1! x += 2! eval(`x`)", "3");
    assert_eq_db("const var x = 1! x += 2! eval(x)", "3");
    assert_eq_db("const const x = `'Hello, World!'`! eval(x)", "`Hello, World!`");
}

fn run(source: &str) -> (Vec<String>, Result<Value, EvalError>) {
    let (machine, result) = interpret(&tree(source));
    let lines = machine.output.iter().map(|line| line.iter().collect()).collect();
    (lines, result.map(|pointer| pointer.clone_inner(&machine.heap)))
}

fn string(text: &str) -> Value {
    Value::String(chars(text))
}

#[test]
fn scenarios_of_the_value_algebra() {
    assert_eq!(eval("{ const var count = 0! count += 1! count }"), Ok(number("1")));
    assert_eq!(
        eval("{ const var msg = 'hello'! msg += 'world'! msg }"),
        Ok(string("helloworld"))
    );
    assert_eq!(eval("`true` === true"), Ok(Value::Boolean(Boolean::True)));
    assert_eq!(eval("`true` ==== true"), Ok(Value::Boolean(Boolean::False)));
    assert_eq!(eval("1 + 2*3"), Ok(number("7")));
    assert_eq!(eval("1+2 * 3"), Ok(number("9")));
    assert_eq!(eval("`johnny` * 1.5"), Ok(string("johnnyjoh")));
    assert_eq!(eval("maybe | false"), Ok(Value::Boolean(Boolean::Maybe)));
    assert_eq!(eval("maybe & false"), Ok(Value::Boolean(Boolean::False)));
}

#[test]
fn debug_statements_put_out_lines() {
    let (lines, result) = run("const var x = 2! x?");
    assert_eq!(lines, vec!["2".to_string()]);
    assert_eq!(result, Ok(number("2")));
    let (lines, _) = run("const var x = 2! x??");
    assert_eq!(lines, vec!["ConstVar(2)".to_string()]);
    let (lines, _) = run("const var x = 2! x + 1???");
    assert_eq!(lines, vec!["(x+1)".to_string(), "ConstConst(3)".to_string()]);
}

#[test]
fn previous_next_and_when() {
    assert_eq!(eval("var var x = 1! x = 5! previous(x)"), Ok(number("1")));
    assert_eq!(eval("const var x = 1! x += 5! previous(x)"), Ok(number("1")));
    assert_eq!(eval("var const x = 1! x = 5! previous(x)"), Ok(Value::empty_object()));
    assert_eq!(eval("var var x = 1! const var n = next(x)! x = 7! n"), Ok(number("7")));
    assert_eq!(
        eval("var var x = 1! var var hits = 0! when(x == 3, hits += 1)! x = 2! x = 3! x = 3! hits"),
        Ok(number("2"))
    );
    assert_eq!(eval("const const x = 1! next(x)"), Err(EvalError::NextOfConst));
}

#[test]
fn assignment_follows_the_binding_axis() {
    assert_eq!(eval("const const x = 1! x = 2"), Err(EvalError::AssignToConst));
    assert_eq!(eval("const var x = 1! x = 2"), Err(EvalError::AssignToConst));
    assert_eq!(eval("var const x = 1! x = 2! x"), Ok(number("2")));
    assert_eq!(eval("var var x = 1! x = 2! x"), Ok(number("2")));
    assert_eq!(eval("var const x = 1! x += 2! x"), Ok(number("1")));
    assert_eq!(eval("const const x = 1! x += 2! x"), Ok(number("1")));
}

#[test]
fn keywords() {
    assert_eq!(eval("if(true, 1, 2, 3)"), Ok(number("1")));
    assert_eq!(eval("if(false, 1, 2, 3)"), Ok(number("2")));
    assert_eq!(eval("if(maybe, 1, 2, 3)"), Ok(number("3")));
    assert_eq!(eval("if(maybe, 1, 2)"), Ok(number("2")));
    assert_eq!(eval("if(false, 1)"), Ok(Value::empty_object()));
    assert_eq!(eval("if(true)"), Err(EvalError::IfArity));
    assert_eq!(eval("const const x = 1! delete(x)! x"), Ok(Value::empty_object()));
    assert_eq!(eval("const const x = 1! { forget(x)! x }"), Ok(Value::empty_object()));
    assert_eq!(eval("forget(1, 2)"), Err(EvalError::ForgetArity));
    assert_eq!(eval("previous(1, 2)"), Err(EvalError::PreviousArity));
    assert_eq!(eval("next()"), Err(EvalError::NextArity));
    assert_eq!(eval("when(1)"), Err(EvalError::WhenArity));
    assert_eq!(eval("function(double, x, x * 2)! double(4)"), Ok(number("8")));
    assert_eq!(eval("func(double, x, x * 2)! double(4)"), Ok(number("8")));
    assert_eq!(eval("function(double, 1 + 1, 2)"), Err(EvalError::BadParameterName));
    assert_eq!(eval("function(double)"), Err(EvalError::FunctionArguments));
    assert_eq!(eval("class(Pair)"), Err(EvalError::ClassArguments));
    assert_eq!(eval("new(1)"), Err(EvalError::NotAClass));
    assert_eq!(eval("new()"), Err(EvalError::NewArity));
    assert_eq!(eval("eval()"), Err(EvalError::EvalArity));
    assert_eq!(eval("2(4)"), Ok(number("8")));
    assert_eq!(eval("`ab`(2)"), Ok(string("abab")));
    assert_eq!(eval("true(1, 2)"), Err(EvalError::NotCallable));
    assert_eq!(eval("3 . 14"), Ok(number("3.14")));
    assert_eq!(eval("(3 . 14) . 2"), Err(EvalError::BadDecimal));
    assert_eq!(eval("const const f = (a, b) -> a+b! f(1, 2)"), Ok(number("3")));
    assert_eq!(eval("const const f = (a, b) -> b! f(1)"), Ok(Value::empty_object()));
}

#[test]
fn names_that_spell_numbers() {
    assert_eq!(eval("1e3 + 1"), Ok(number("1001")));
    assert_eq!(eval("inf"), Ok(Value::Number(Number::infinity())));
    assert_eq!(eval("Infinity == infinity"), Ok(Value::Boolean(Boolean::True)));
    assert_eq!(eval("nan"), Ok(Value::empty_object()));
    assert_eq!(eval("`1e2` == 100"), Ok(Value::Boolean(Boolean::True)));
    assert_eq!(eval("`nan` == nan"), Ok(Value::Boolean(Boolean::False)));
}

#[test]
fn a_change_feeds_the_waiting_cells_and_then_fires_the_listeners() {
    assert_eq!(
        eval(
            "var var x = 1! var var log = ``! const var n = next(x)! \
             when(n, log += `n`)! when(x, log += `x`)! x = 2! log"
        ),
        Ok(Value::String(chars("nx")))
    );
}

#[test]
fn comparisons_of_numbers() {
    assert_eq!(eval("1 < 2"), Ok(Value::Boolean(Boolean::True)));
    assert_eq!(eval("2 <= 2"), Ok(Value::Boolean(Boolean::True)));
    assert_eq!(eval("1 > 2"), Ok(Value::Boolean(Boolean::False)));
    assert_eq!(eval("1 >= 2"), Ok(Value::Boolean(Boolean::False)));
    assert_eq!(eval("`a` < 2"), Err(EvalError::NotComparable));
    assert_eq!(eval("const const f = 1! (a -> a) + 1"), Ok(Value::empty_object()));
}

#[test]
fn when_watches_every_name_of_its_condition() {
    let names = |source: &str| -> Vec<String> {
        let condition = match tree(source) {
            Syntax::Block(mut statements) if statements.len() == 1 => statements.remove(0),
            other => other,
        };
        dreamberd::interpreter::find_idents_in_syntax(&condition)
            .iter()
            .map(|name| name.iter().collect())
            .collect()
    };
    assert_eq!(names("x!"), vec!["x"]);
    assert_eq!(names("x??"), vec!["x"]);
    assert_eq!(names("var var y = x + z"), vec!["x", "z"]);
    assert_eq!(names("(a) -> b*c"), vec!["b", "c"]);
    assert_eq!(names("`a ${b} c ${d}`"), vec!["b", "d"]);
    assert_eq!(names("f(x, ;y) == z"), vec!["x", "y", "f", "z"]);
    assert_eq!(names("{a! b}"), vec!["a", "b"]);
    let step = Syntax::UnaryOperation(
        dreamberd::UnaryOperation::Increment,
        Box::new(Syntax::Ident(chars("n"))),
    );
    assert_eq!(dreamberd::interpreter::find_idents_in_syntax(&step), vec![chars("n")]);
    assert_eq!(
        eval("var var x = 1! var var hits = 0! when(`${x}` == `3`, hits += 1)! x = 3! hits"),
        Ok(number("1"))
    );
}

#[test]
fn classes_and_objects() {
    assert_eq!(
        eval("class(Point, {const const x = 1! const const y = 2!})! const const p = new(Point)! p.y"),
        Ok(number("2"))
    );
    assert_eq!(
        eval("var var obj = {}! obj.value = 4! obj.call = (n) -> self.value*n! obj(3)"),
        Ok(number("12"))
    );
    assert_eq!(eval("var var obj = {}! obj(3)"), Err(EvalError::NotCallable));
    assert_eq!(
        eval("class(One, {const const x = 1!})! const const o = new(One)! o.x"),
        Ok(number("1"))
    );
    assert_eq!(eval("class(`One`, {})"), Err(EvalError::ClassArguments));
}

#[test]
fn endless_recursion_ends() {
    assert_eq!(eval("const const f = (n) -> f(n)! f(1)"), Err(EvalError::TooDeep));
    assert_eq!(
        eval("var var x = 1! when(x == x, x += 1)! x = 2"),
        Err(EvalError::TooDeep)
    );
}

#[test]
fn errors_of_the_evaluator() {
    let arrow = Syntax::Operation(
        Box::new(Syntax::Ident(chars("a"))),
        dreamberd::syntax::Operation::Arrow,
        Box::new(Syntax::Ident(chars("b"))),
    );
    let (_, result) = interpret(&arrow);
    assert_eq!(result, Err(EvalError::UnexpectedArrow));
    assert_eq!(
        eval("eval(`'abc`)"),
        Err(EvalError::Lex(dreamberd::lexer::LexError::UnterminatedString))
    );
    assert_eq!(
        eval("eval(`(a`)"),
        Err(EvalError::Parse(dreamberd::grouping::ParseError::MissingParen))
    );
}

#[test]
fn an_empty_block_is_undefined() {
    assert_eq!(eval("{}"), Ok(Value::empty_object()));
    assert_eq!(eval(""), Ok(Value::empty_object()));
    assert_eq!(eval("{{}! {}}"), Ok(Value::empty_object()));
    assert_eq!(eval("{{} {}}"), Err(EvalError::NotCallable));
    let (machine, result) = interpret(&Syntax::Block(vec![]));
    assert_eq!(result, Ok(machine.state.undefined));
}

#[test]
fn the_budget_of_nested_steps() {
    let one = Syntax::Ident(chars("1"));
    let mut machine = Machine::new();
    assert_eq!(inner_interpret(&one, &mut machine, 0, 0), Err(EvalError::TooDeep));
    assert!(inner_interpret(&one, &mut machine, 0, 1).is_ok());
    let sum = tree("1+1");
    assert_eq!(inner_interpret(&sum, &mut machine, 0, 2), Err(EvalError::TooDeep));
    assert!(inner_interpret(&sum, &mut machine, 0, 3).is_ok());
    assert_eq!(DEFAULT_DEPTH, 1000);
}

/// Evaluates the statements of a program one by one in the outermost layer.
fn run_in(machine: &mut Machine, source: &str) -> Result<dreamberd::Pointer, EvalError> {
    let mut last = Ok(machine.state.undefined);
    if let Syntax::Block(statements) = tree(source) {
        for statement in statements {
            last = Ok(inner_interpret(&statement, machine, 0, DEFAULT_DEPTH)?);
        }
    }
    last
}

#[test]
fn a_machine_keeps_its_bindings_between_programs() {
    let mut machine = Machine::new();
    let declared = run_in(&mut machine, "var var total = 1!");
    assert_eq!(declared, Ok(machine.state.undefined));
    run_in(&mut machine, "total += 2").unwrap();
    let pointer = run_in(&mut machine, "total").unwrap();
    assert_eq!(pointer.clone_inner(&machine.heap), number("3"));
    assert_eq!(
        machine.debug_text(pointer).iter().collect::<String>(),
        "VarVar(3)"
    );
}

#[test]
fn scopes() {
    assert_eq!(eval("const const x = 1! { const const x = 2! x }! x"), Ok(number("1")));
    assert_eq!(eval("const const x = 1! { const const x = 2! }! x"), Ok(number("2")));
    assert_eq!(eval("const const x = 1! const const f = () -> x! { const const x = 2! f() }"), Ok(number("2")));
    assert_eq!(eval("var var x = 1! { x = 2! }! x"), Ok(number("2")));
    assert_eq!(eval("const const x = 1! {delete(x)!}! x"), Ok(Value::empty_object()));
    assert_eq!(eval("const const x = 1! {forget(x)! x}! x"), Ok(number("1")));
    assert_eq!(eval("const const x = 1! {forget(x)!}! x"), Ok(Value::empty_object()));
}
