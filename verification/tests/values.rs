use dreamberd::error::EvalError;
use dreamberd::number::Number;
use dreamberd::pointer::{rc_mut_new, Heap, Pointer};
use dreamberd::state::{default_value, Lifetime, State};
use dreamberd::syntax::{Syntax, VarType};
use dreamberd::text::{mark_white, trim, trim_marked};
use dreamberd::value::{Boolean, Keyword, Member, Relation, Value};

fn chars(text: &str) -> Vec<char> {
    text.chars().collect()
}

fn text(chars: &[char]) -> String {
    chars.iter().collect()
}

fn n(text: &str) -> Number {
    Number::parse(&chars(text)).unwrap()
}

fn number(text: &str) -> Value {
    Value::Number(n(text))
}

fn string(text: &str) -> Value {
    Value::String(chars(text))
}

fn truth(b: Boolean) -> Value {
    Value::Boolean(b)
}

#[test]
fn numbers_are_read_and_written() {
    assert_eq!(n("0"), Number::Finite { negative: false, magnitude: 0 });
    assert_eq!(n("-0"), Number::Finite { negative: false, magnitude: 0 });
    assert_eq!(n("1.5"), Number::Finite { negative: false, magnitude: 1_500_000_000 });
    assert_eq!(n("-2.25"), Number::Finite { negative: true, magnitude: 2_250_000_000 });
    assert_eq!(n("0.1234567899"), Number::Finite { negative: false, magnitude: 123_456_789 });
    assert_eq!(n("007"), Number::from_int(7));
    assert_eq!(
        n("18446744073.709551616"),
        Number::Finite { negative: false, magnitude: u64::MAX as u128 + 1 }
    );
    assert_eq!(n("340282366920938463463374607431.768211455"), Number::Finite { negative: false, magnitude: u128::MAX });
    assert_eq!(n("340282366920938463463374607431.768211456"), Number::infinity());
    assert_eq!(n("340282366920938463463374607432"), Number::infinity());
    assert_eq!(n("9999999999999999999999999999999999999999"), Number::infinity());
    assert_eq!(n("-9999999999999999999999999999999999999999"), Number::Infinite { negative: true });
    for bad in [
        "", "-", "+", ".", "-.", "1.2.3", "a", "1 ", " 1", "--1", "+-1", "e5", ".e5", "1e", "1e+",
        "1e5x", "1e5.0", "1x", "in", "infinit", "infinityy", "nan", "NaN", "-nan", "0x10", "1_000",
    ] {
        assert_eq!(Number::parse(&chars(bad)), None, "{bad}");
    }
    assert_eq!(n("1."), n("1"));
    assert_eq!(n(".5"), n("0.5"));
    assert_eq!(n("-.5"), n("-0.5"));
    assert_eq!(n("+5"), n("5"));
    assert_eq!(n("+5.25"), n("5.25"));
    assert_eq!(n("1e5"), n("100000"));
    assert_eq!(n("1E5"), n("100000"));
    assert_eq!(n("1.5e+2"), n("150"));
    assert_eq!(n("-1.5e2"), n("-150"));
    assert_eq!(n("15e-1"), n("1.5"));
    assert_eq!(n("1e-9"), n("0.000000001"));
    assert_eq!(n("1e-10"), n("0"));
    assert_eq!(n("19e-10"), n("0.000000001"));
    assert_eq!(n(".000000000123e3"), n("0.000000123"));
    assert_eq!(n("123456789012345678901234567890e-25"), n("12345.678901234"));
    assert_eq!(n("0.000000000000000000000000001e27"), n("1"));
    assert_eq!(n("1e10"), n("10000000000"));
    assert_eq!(n("1e29"), n("100000000000000000000000000000"));
    assert_eq!(n("3.4e29"), n("340000000000000000000000000000"));
    assert_eq!(n("3.5e29"), Number::infinity());
    assert_eq!(n("1e30"), Number::infinity());
    assert_eq!(n("-1e30"), Number::Infinite { negative: true });
    assert_eq!(n("1e99999999999999999999999999999999999999999"), Number::infinity());
    assert_eq!(n("0e99999999999999999999999999999999999999999"), n("0"));
    assert_eq!(n("0.000e99999999999999999999999999999999999999999"), n("0"));
    assert_eq!(n("7e-99999999999999999999999999999999999999999"), n("0"));
    assert_eq!(n("-7e-99999999999999999999999999999999999999999"), n("0"));
    assert_eq!(n("00000000000000000000000000000000000000000001"), n("1"));
    assert_eq!(n("inf"), Number::infinity());
    assert_eq!(n("+INF"), Number::infinity());
    assert_eq!(n("Infinity"), Number::infinity());
    assert_eq!(n("-iNfInItY"), Number::Infinite { negative: true });
    assert!(Number::is_nan(&chars("nan")) && Number::is_nan(&chars("-NaN")));
    assert!(Number::is_nan(&chars("+nAn")) && !Number::is_nan(&chars("nano")));
    assert!(!Number::is_nan(&chars("")) && !Number::is_nan(&chars("na")));
    assert_eq!(Number::parse_decimal(true, &chars("x12.5"), 1), Some(n("-12.5")));
    assert_eq!(Number::parse_decimal(false, &chars("12"), 2), None);
    assert_eq!(Number::parse_decimal(false, &chars("12"), 9), None);
    for written in ["0", "1", "-1", "1.5", "-0.000000001", "3.141592653", "340282366920938463463374607431.768211455"] {
        assert_eq!(text(&n(written).to_text()), written);
    }
    assert_eq!(text(&Number::infinity().to_text()), "inf");
    assert_eq!(text(&Number::infinity().neg().to_text()), "-inf");
    assert_eq!(text(&n("2.50").to_text()), "2.5");
    assert_eq!(Number::from_int(-3), n("-3"));
    assert_eq!(Number::from_int(i64::MAX), n("9223372036854775807"));
    assert_eq!(Number::from_int(i64::MIN), n("-9223372036854775808"));
    assert_eq!(Number::make(true, 0), Number::nought());
    assert_eq!(Number::pi(), n("3.141592653"));
    assert_eq!(Number::half(), n("0.5"));
    assert_eq!(Number::one(), n("1"));
}

#[test]
fn numbers_are_computed_with() {
    let inf = Number::infinity();
    let minus_inf = inf.neg();
    assert_eq!(n("1.5").add(&n("2.25")), Some(n("3.75")));
    assert_eq!(n("1.5").add(&n("-2.25")), Some(n("-0.75")));
    assert_eq!(n("-1.5").add(&n("1.5")), Some(n("0")));
    assert_eq!(n("18446744073").add(&n("1")), Some(n("18446744074")));
    assert_eq!(n("340282366920938463463374607431.768211455").add(&n("0.000000001")), Some(inf));
    assert_eq!(n("-340282366920938463463374607431.768211455").sub(&n("0.000000001")), Some(minus_inf));
    assert_eq!(n("340282366920938463463374607431.768211455").sub(&n("340282366920938463463374607431.768211455")), Some(n("0")));
    assert_eq!(inf.add(&n("1")), Some(inf));
    assert_eq!(inf.add(&minus_inf), None);
    assert_eq!(n("1").sub(&n("3")), Some(n("-2")));
    assert_eq!(inf.sub(&inf), None);
    assert_eq!(n("1.5").mul(&n("-2")), Some(n("-3")));
    assert_eq!(n("0.00001").mul(&n("0.00001")), Some(n("0")));
    assert_eq!(n("0.1").mul(&n("0.1")), Some(n("0.01")));
    assert_eq!(n("100000").mul(&n("1000000")), Some(n("100000000000")));
    assert_eq!(
        n("123456789012345.678901234").mul(&n("98765432109876.54321")),
        Some(n("12193263113702179522496514554.336222923"))
    );
    assert_eq!(n("1e15").mul(&n("1e15")), Some(inf));
    assert_eq!(n("-1e15").mul(&n("1e15")), Some(minus_inf));
    assert_eq!(n("340282366920938463463374607431.768211455").mul(&n("1")), Some(n("340282366920938463463374607431.768211455")));
    assert_eq!(n("340282366920938463463374607431.768211455").mul(&n("1.000000001")), Some(inf));
    assert_eq!(n("340282366920938463463374607431.768211455").mul(&n("0.5")), Some(n("170141183460469231731687303715.884105727")));
    assert_eq!(n("340282366920938463463374607431.768211455").div(&n("1")), Some(n("340282366920938463463374607431.768211455")));
    assert_eq!(n("340282366920938463463374607431.768211455").div(&n("0.5")), Some(inf));
    assert_eq!(n("340282366920938463463374607431.768211455").div(&n("340282366920938463463374607431.768211455")), Some(n("1")));
    assert_eq!(n("1").div(&n("340282366920938463463374607431.768211455")), Some(n("0")));
    assert_eq!(n("1e20").div(&n("3")), Some(n("33333333333333333333.333333333")));
    assert_eq!(n("2").div(&n("3e20")), Some(n("0")));
    assert_eq!(n("1e29").rem(&n("7")), Some(n("5")));
    assert!(n("1e29").close(&n("1.1e29")) && !n("1e29").close(&n("1.2e29")));
    assert!(!n("340282366920938463463374607431.768211455").close(&n("0.000000001")));
    assert_eq!(n("0").mul(&inf), None);
    assert_eq!(n("-2").mul(&inf), Some(minus_inf));
    assert_eq!(n("22").div(&n("7")), Some(n("3.142857142")));
    assert_eq!(n("-1").div(&n("3")), Some(n("-0.333333333")));
    assert_eq!(n("1").div(&n("0")), None);
    assert_eq!(n("1").div(&inf), Some(n("0")));
    assert_eq!(inf.div(&n("-2")), Some(minus_inf));
    assert_eq!(inf.div(&inf), None);
    assert_eq!(n("7.5").rem(&n("2")), Some(n("1.5")));
    assert_eq!(n("-7.5").rem(&n("2")), Some(n("-1.5")));
    assert_eq!(n("7.5").rem(&n("0")), None);
    assert_eq!(n("7.5").rem(&inf), Some(n("7.5")));
    assert_eq!(inf.rem(&n("2")), None);
    assert_eq!(n("1.5").neg(), n("-1.5"));
    assert_eq!(n("0").neg(), n("0"));
    assert!(n("1").lt(&n("2")) && !n("2").lt(&n("2")) && n("2").le(&n("2")));
    assert!(minus_inf.lt(&n("-340282366920938463463374607431.768211455")) && n("340282366920938463463374607431.768211455").lt(&inf));
    assert!(n("-2").lt(&n("-1")) && n("-1").lt(&n("0")) && !n("0").lt(&n("-0")));
    assert!(n("-1").le(&n("-1")) && !inf.lt(&inf) && inf.le(&inf) && minus_inf.lt(&inf));
    assert!(n("1").same(&n("1.0")) && !n("1").same(&n("1.000000001")));
    assert!(n("1").close(&n("1.1")) && n("1.1").close(&n("1")));
    assert!(!n("1").close(&n("1.2")) && !n("1").close(&n("-1")) && !n("0").close(&n("0")));
    assert!(!inf.close(&inf));
    assert_eq!(n("1").truth(), Boolean::True);
    assert_eq!(n("0.5").truth(), Boolean::Maybe);
    assert_eq!(n("0").truth(), Boolean::False);
    assert_eq!(n("-3").truth(), Boolean::False);
    assert_eq!(inf.truth(), Boolean::True);
    assert_eq!(n("-2.75").whole(), Some(2));
    assert_eq!(n("-2.75").fraction(), 750_000_000);
    assert_eq!(inf.whole(), None);
    assert!(n("-2").negative() && !n("2").negative() && minus_inf.negative());
}

#[test]
fn truth_values() {
    assert_eq!(Boolean::from(true), Boolean::True);
    assert_eq!(Boolean::from(false), Boolean::False);
    assert_eq!(Boolean::Maybe.not(), Boolean::Maybe);
    assert_eq!(Boolean::True.not(), Boolean::False);
    assert_eq!(Boolean::Maybe.and(&Boolean::True), Boolean::Maybe);
    assert_eq!(Boolean::Maybe.and(&Boolean::False), Boolean::False);
    assert_eq!(Boolean::Maybe.or(&Boolean::True), Boolean::True);
    assert_eq!(Boolean::Maybe.or(&Boolean::False), Boolean::Maybe);
    assert_eq!(Boolean::Maybe.to_number(), Number::half());
    assert_eq!(text(&Boolean::Maybe.to_text()), "maybe");
    assert_eq!(text(&Keyword::Previous.to_text()), "previous");
}

#[test]
fn the_value_algebra() {
    let undefined = Value::empty_object();
    assert_eq!(number("1").add(&number("2")), number("3"));
    assert_eq!(truth(Boolean::Maybe).add(&number("1")), number("1.5"));
    assert_eq!(number("1").add(&truth(Boolean::True)), number("2"));
    assert_eq!(number("1").add(&truth(Boolean::False)), number("1"));
    assert_eq!(string("a").add(&number("1.5")), string("a1.5"));
    assert_eq!(string("a").add(&truth(Boolean::Maybe)), string("amaybe"));
    assert_eq!(string("a").add(&undefined), string("aundefined"));
    assert_eq!(number("1").add(&string("a")), undefined);
    assert_eq!(truth(Boolean::True).add(&truth(Boolean::True)), undefined);
    assert_eq!(number("3").sub(&number("1")), number("2"));
    assert_eq!(string("a").sub(&number("1")), undefined);
    assert_eq!(number("3").mul(&number("1.5")), number("4.5"));
    assert_eq!(string("abcd").mul(&number("2.5")), string("abcdabcdab"));
    assert_eq!(string("abcd").mul(&number("-1.25")), string("adcba"));
    assert_eq!(string("abcd").mul(&number("0")), string(""));
    assert_eq!(string("").mul(&number("1e29")), string(""));
    assert_eq!(string("ab").mul(&number("1e29")), undefined);
    assert_eq!(string("ab").mul(&Value::Number(Number::infinity())), undefined);
    assert_eq!(number("2").mul(&string("ab")), undefined);
    assert_eq!(number("3").div(&number("2")), number("1.5"));
    assert_eq!(number("3").div(&number("0")), undefined);
    assert_eq!(number("3").rem(&number("2")), number("1"));
    assert_eq!(number("3").rem(&number("0")), undefined);
    assert_eq!(number("3").neg(), number("-3"));
    assert_eq!(string("abc").neg(), string("cba"));
    assert_eq!(truth(Boolean::Maybe).neg(), truth(Boolean::Maybe));
    assert_eq!(truth(Boolean::True).neg(), truth(Boolean::False));
    assert_eq!(undefined.neg(), undefined);
    assert_eq!(number("0.5").bitand(&string("a")), truth(Boolean::Maybe));
    assert_eq!(number("0").bitand(&undefined), truth(Boolean::False));
    assert_eq!(string("").bitor(&number("2")), truth(Boolean::True));
    assert_eq!(undefined.bitor(&string("")), truth(Boolean::Maybe));
    assert_eq!(number("1").compare(&number("2"), Relation::Less), Some(Boolean::True));
    assert_eq!(number("2").compare(&number("2"), Relation::Less), Some(Boolean::False));
    assert_eq!(number("2").compare(&number("2"), Relation::LessOrEqual), Some(Boolean::True));
    assert_eq!(number("2").compare(&number("1"), Relation::Greater), Some(Boolean::True));
    assert_eq!(number("1").compare(&number("2"), Relation::GreaterOrEqual), Some(Boolean::False));
    assert_eq!(string("a").compare(&number("2"), Relation::Less), None);
    assert_eq!(string("a").bool(), Boolean::True);
    assert_eq!(undefined.bool(), Boolean::Maybe);
    assert!(undefined.is_undefined() && !string("").is_undefined());
}

#[test]
fn graded_equality() {
    assert!(string(" Hello\n").equals(&string("hELLO"), 1));
    assert!(!string(" Hello\n").equals(&string("hELLO"), 2));
    assert!(string("3.0").equals(&number("3"), 1));
    assert!(number("3").equals(&string("3.2"), 1));
    assert!(!number("3").equals(&string("three"), 1));
    assert!(number("3").equals(&number("3.3"), 1));
    assert!(!number("3").equals(&number("3.3"), 2));
    assert!(!number("3").equals(&number("3.4"), 1));
    assert!(number("0").equals(&string(""), 1));
    assert!(number("0").equals(&truth(Boolean::False), 2));
    assert!(!number("0").equals(&truth(Boolean::False), 3));
    assert!(string("1").equals(&number("1"), 2));
    assert!(!string("1").equals(&number("1"), 3));
    assert!(truth(Boolean::True).equals(&truth(Boolean::True), 3));
    assert!(!truth(Boolean::True).equals(&truth(Boolean::Maybe), 3));
    assert!(Value::empty_object().equals(&Value::empty_object(), 3));
    assert!(Value::Keyword(Keyword::If).equals(&string("IF"), 1));
    assert!(!Value::Keyword(Keyword::If).equals(&Value::Keyword(Keyword::New), 3));
    let f = Value::Function(vec![chars("a")], Syntax::Ident(chars("a")));
    let g = Value::Function(vec![chars("b")], Syntax::Ident(chars("a")));
    assert!(f.equals(&f.clone(), 3) && !f.equals(&g, 3) && f.same(&f.copy()));
    assert!(string("x").equals_given(&string("y"), 1, &chars("same"), &chars("same")));
    assert!(!string("x").equals_given(&string("x"), 1, &chars("one"), &chars("other")));
    assert!(string("x").equals_given(&string("x"), 2, &chars("one"), &chars("other")));
    assert_eq!(text(&string(" A b ").folded_text()), "a b");
    assert_eq!(number("1").eq(&number("1"), 3), truth(Boolean::True));
}

#[test]
fn values_are_written_out() {
    assert_eq!(text(&Value::empty_object().to_text()), "undefined");
    assert_eq!(text(&number("-1.5").to_text()), "-1.5");
    assert_eq!(text(&Value::Keyword(Keyword::Class).to_text()), "class");
    let object = Value::Object(vec![
        Member { key: string("a"), pointer: Pointer::ConstConst(0) },
        Member { key: number("2"), pointer: Pointer::VarVar(1) },
    ]);
    assert_eq!(text(&object.to_text()), "{a, 2}");
    let function = Value::Function(vec![chars("a"), chars("b")], Syntax::Ident(chars("a")));
    assert_eq!(text(&function.to_text()), "[\"a\", \"b\"] => a");
    let class = Value::Class(vec![Syntax::Ident(chars("a")), Syntax::Ident(chars("b"))]);
    assert_eq!(text(&class.to_text()), "class {a b }");
}

#[test]
fn white_space_is_what_the_standard_library_takes_for_it() {
    for code in 0..=0x10ffffu32 {
        if let Some(c) = char::from_u32(code) {
            assert_eq!(dreamberd::text::is_whitespace(c), c.is_whitespace(), "{code:x}");
        }
    }
}

#[test]
fn white_space_is_trimmed() {
    assert_eq!(text(&trim(&chars(" \t a b \n"))), "a b");
    assert_eq!(text(&trim(&chars(" \t \n"))), "");
    assert_eq!(text(&trim(&chars("ab"))), "ab");
    assert_eq!(mark_white(&chars(" a\u{a0}b\n")), vec![true, false, true, false, true]);
    assert_eq!(text(&trim_marked(&chars("abcd"), &vec![true, false, false, true])), "bc");
    assert_eq!(text(&trim_marked(&chars("abcd"), &vec![true, true, true, true])), "");
    assert_eq!(text(&trim_marked(&chars("abcd"), &vec![false, true, true, false])), "abcd");
    assert_eq!(text(&trim_marked(&chars("abcd"), &vec![true])), "abcd");
}

#[test]
fn pointers_keep_their_value_when_converted() {
    let kinds = [VarType::ConstConst, VarType::ConstVar, VarType::VarConst, VarType::VarVar];
    for from in kinds {
        for to in kinds {
            let mut heap = Heap::new();
            let p = heap.fresh(number("7"), from);
            let q = p.convert(&mut heap, to);
            assert_eq!(q.clone_inner(&heap), number("7"));
            assert_eq!(p.clone_inner(&heap), number("7"));
        }
    }
}

#[test]
fn conversion_shares_what_it_can() {
    let mut heap = Heap::new();
    let cell = heap.fresh(number("1"), VarType::ConstVar);
    let alias = cell.convert(&mut heap, VarType::VarVar);
    let snapshot = cell.convert(&mut heap, VarType::ConstConst);
    cell.update_in_place(&mut heap, number("2"));
    assert_eq!(alias.clone_inner(&heap), number("2"));
    assert_eq!(snapshot.clone_inner(&heap), number("1"));
    assert!(cell.equals(&heap, &alias, 4));
    assert!(!cell.equals(&heap, &snapshot, 4));
    let again = snapshot.convert(&mut heap, VarType::VarConst);
    assert!(snapshot.equals(&heap, &again, 4));
    assert_eq!(cell.as_var(&mut heap), alias.as_var(&mut heap));
    assert_eq!(snapshot.as_const(&mut heap), again.as_const(&mut heap));
    assert_ne!(Some(cell.as_const(&mut heap)), heap.const_id(snapshot));
    let c = rc_mut_new(&mut heap, number("9"));
    assert_eq!(Pointer::ConstVar(c).clone_inner(&heap), number("9"));
    assert_eq!(heap.cell_id(Pointer::ConstVar(c)), Some(c));
    assert_eq!(heap.cell_id(Pointer::ConstVar(c + 1)), None);
    assert_eq!(Pointer::ConstVar(c + 1).clone_inner(&heap), Value::empty_object());
    let truth = cell.eq(&mut heap, &alias, 3);
    assert_eq!(truth.clone_inner(&heap), Value::Boolean(Boolean::True));
}

#[test]
fn assignment_needs_a_binding_that_can_be_bound_anew() {
    let mut heap = Heap::new();
    let rhs = Pointer::from(&mut heap, number("5"));
    for vt in [VarType::ConstConst, VarType::ConstVar] {
        let p = heap.fresh(number("1"), vt);
        assert_eq!(p.assign(&mut heap, &rhs), Err(EvalError::AssignToConst));
        assert_eq!(p.clone_inner(&heap), number("1"));
    }
    let slot = heap.fresh(number("1"), VarType::VarConst);
    assert_eq!(slot.assign(&mut heap, &rhs), Ok(()));
    assert_eq!(slot.clone_inner(&heap), number("5"));
    assert!(slot.equals(&heap, &rhs, 4));
    let cell = heap.fresh(number("1"), VarType::VarVar);
    let alias = cell.convert(&mut heap, VarType::ConstVar);
    assert_eq!(cell.assign(&mut heap, &rhs), Ok(()));
    assert_eq!(cell.clone_inner(&heap), number("5"));
    assert_eq!(alias.clone_inner(&heap), number("5"));
    assert_eq!(heap.previous(heap.cell_id(cell).unwrap()), Some(number("1")));
    assert_eq!(Pointer::VarVar(99).assign(&mut heap, &rhs), Err(EvalError::Dangling));
    assert_eq!(Pointer::VarConst(99).assign(&mut heap, &rhs), Err(EvalError::Dangling));
}

#[test]
fn the_dot() {
    let mut heap = Heap::new();
    let three = Pointer::from(&mut heap, number("3"));
    let decimal = three.dot(&mut heap, &number("14")).unwrap();
    assert_eq!(decimal.clone_inner(&heap), number("3.14"));
    assert_eq!(decimal.dot(&mut heap, &number("1")), Err(EvalError::BadDecimal));
    assert_eq!(three.dot(&mut heap, &number("-1")), Err(EvalError::BadDecimal));
    let text = Pointer::from(&mut heap, string("a"));
    let nothing = text.dot(&mut heap, &number("1")).unwrap();
    assert_eq!(nothing.clone_inner(&heap), Value::empty_object());
    let object = heap.fresh(Value::empty_object(), VarType::ConstVar);
    let member = object.dot(&mut heap, &string("x")).unwrap();
    assert!(matches!(member, Pointer::VarVar(_)));
    assert_eq!(member.assign(&mut heap, &three), Ok(()));
    let again = object.dot(&mut heap, &string("x")).unwrap();
    assert_eq!(again, member);
    assert_eq!(again.clone_inner(&heap), number("3"));
    let frozen = object.convert(&mut heap, VarType::ConstConst);
    let missing = frozen.dot(&mut heap, &string("y")).unwrap();
    assert_eq!(missing.clone_inner(&heap), Value::empty_object());
    assert_eq!(frozen.clone_inner(&heap), object.clone_inner(&heap));
    assert_eq!(frozen.dot(&mut heap, &string("x")), Ok(member));
}

#[test]
fn values_are_reached_by_reference() {
    let mut heap = Heap::new();
    let a = heap.fresh(number("2"), VarType::VarVar);
    let b = heap.fresh(number("3"), VarType::ConstConst);
    assert_eq!(a.with_ref(&heap, |v| v.bool()), Boolean::True);
    assert_eq!(a.with_refs(&heap, &b, |v, w| v.mul(w)), number("6"));
    assert_eq!(Pointer::VarConst(77).with_ref(&heap, |v| v.is_undefined()), true);
}

#[test]
fn cells_remember_and_tell() {
    let mut heap = Heap::new();
    let c = heap.alloc_cell(number("1"));
    let waiting = heap.alloc_cell(Value::empty_object());
    assert_eq!(heap.previous(c), None);
    heap.write_cell(c, number("2"));
    heap.write_cell(c, number("3"));
    assert_eq!(heap.previous(c), Some(number("2")));
    heap.add_next_handle(c, waiting);
    heap.add_next_handle(c, 5);
    assert_eq!(heap.flush_next_handles(c), vec![waiting, 5]);
    assert_eq!(heap.flush_next_handles(c), Vec::<usize>::new());
    heap.add_event_listener(c, Syntax::Ident(chars("f")), 3);
    let listeners = heap.listeners(c);
    assert_eq!(listeners.len(), 1);
    assert_eq!(listeners[0].scope, 3);
    assert_eq!(listeners[0].fragment, Syntax::Ident(chars("f")));
    heap.insert_member(waiting, string("k"), Pointer::ConstVar(c));
    assert_eq!(
        Pointer::ConstVar(waiting).clone_inner(&heap),
        Value::Object(vec![Member { key: string("k"), pointer: Pointer::ConstVar(c) }])
    );
    heap.insert_member(c, string("k"), Pointer::ConstVar(c));
    assert_eq!(Pointer::ConstVar(c).clone_inner(&heap), number("3"));
    heap.write_cell(99, number("1"));
    assert_eq!(heap.previous(99), None);
}

#[test]
fn the_environment() {
    let mut heap = Heap::new();
    let mut state = State::new(&mut heap);
    let get = |state: &mut State, heap: &mut Heap, scope: usize, name: &str| {
        state.get(heap, scope, &chars(name)).clone_inner(heap)
    };
    assert_eq!(get(&mut state, &mut heap, 0, "true"), Value::Boolean(Boolean::True));
    assert_eq!(get(&mut state, &mut heap, 0, "maybe"), Value::Boolean(Boolean::Maybe));
    assert_eq!(get(&mut state, &mut heap, 0, "🥧"), Value::Number(Number::pi()));
    assert_eq!(get(&mut state, &mut heap, 0, "∞"), Value::Number(Number::infinity()));
    assert_eq!(get(&mut state, &mut heap, 0, "infinity"), Value::Number(Number::infinity()));
    assert_eq!(get(&mut state, &mut heap, 0, "undefined"), Value::empty_object());
    assert_eq!(get(&mut state, &mut heap, 0, "className"), Value::Keyword(Keyword::Class));
    assert_eq!(get(&mut state, &mut heap, 0, "when"), Value::Keyword(Keyword::When));
    assert_eq!(state.undefined.clone_inner(&heap), Value::empty_object());

    let inner = state.from_parent(0);
    let innermost = state.from_parent(inner);
    assert_eq!(get(&mut state, &mut heap, innermost, "12"), number("12"));
    assert_eq!(get(&mut state, &mut heap, innermost, "fn"), Value::Keyword(Keyword::Function));
    assert_eq!(get(&mut state, &mut heap, innermost, "function"), Value::Keyword(Keyword::Function));
    assert_eq!(get(&mut state, &mut heap, innermost, "fnn"), Value::Keyword(Keyword::Function));
    assert_eq!(get(&mut state, &mut heap, innermost, "nf"), string("nf"));
    assert_eq!(get(&mut state, &mut heap, innermost, "functions"), string("functions"));
    assert_eq!(get(&mut state, &mut heap, innermost, "2e3"), number("2000"));
    assert_eq!(get(&mut state, &mut heap, innermost, "Infinity"), Value::Number(Number::infinity()));
    assert_eq!(get(&mut state, &mut heap, innermost, "hello"), string("hello"));
    assert!(state.scopes[innermost].bindings.is_empty());
    assert_eq!(state.scopes[0].bindings.last().unwrap().name, chars("hello"));

    let one = Pointer::from(&mut heap, number("1"));
    let two = Pointer::from(&mut heap, number("2"));
    state.insert(inner, chars("x"), one, Lifetime::Default);
    state.insert(innermost, chars("x"), two, Lifetime::Ticks(2));
    state.insert(innermost, chars("y"), two, Lifetime::Ticks(-3));
    assert_eq!(get(&mut state, &mut heap, innermost, "x"), number("2"));
    assert_eq!(get(&mut state, &mut heap, inner, "x"), number("1"));
    assert_eq!(get(&mut state, &mut heap, 0, "x"), string("x"));
    assert_eq!(
        state.locals_to_object(innermost),
        vec![
            Member { key: string("x"), pointer: two },
            Member { key: string("y"), pointer: two }
        ]
    );
    assert_eq!(state.locals_to_object(99), vec![]);

    state.tick(innermost);
    assert_eq!(state.scopes[innermost].bindings[0].lifetime, Lifetime::Ticks(1));
    assert_eq!(state.scopes[innermost].bindings[1].lifetime, Lifetime::Ticks(-2));
    assert_eq!(get(&mut state, &mut heap, innermost, "x"), number("2"));
    state.tick(innermost);
    assert_eq!(state.scopes[innermost].bindings[0].lifetime, Lifetime::Default);
    assert_eq!(state.scopes[innermost].bindings[0].pointer, state.undefined);
    assert_eq!(state.scopes[innermost].bindings[1].lifetime, Lifetime::Ticks(-1));
    assert_eq!(get(&mut state, &mut heap, innermost, "x"), Value::empty_object());
    assert_eq!(get(&mut state, &mut heap, innermost, "y"), number("2"));
    assert_eq!(get(&mut state, &mut heap, inner, "x"), number("1"));
    state.tick(innermost);
    assert_eq!(state.scopes[innermost].bindings[1].lifetime, Lifetime::Default);
    assert_eq!(get(&mut state, &mut heap, innermost, "y"), Value::empty_object());
    assert_eq!(state.scopes[inner].bindings[0].lifetime, Lifetime::Default);
    assert_eq!(get(&mut state, &mut heap, inner, "x"), number("1"));
    state.insert(inner, chars("z"), two, Lifetime::Ticks(0));
    state.tick(innermost);
    assert_eq!(get(&mut state, &mut heap, inner, "z"), Value::empty_object());

    state.delete(innermost, &chars("hello"));
    assert_eq!(get(&mut state, &mut heap, inner, "hello"), Value::empty_object());
    state.delete(innermost, &chars("fresh"));
    assert_eq!(state.scopes[innermost].bindings.last().unwrap().name, chars("fresh"));
    assert_eq!(get(&mut state, &mut heap, innermost, "fresh"), Value::empty_object());
    assert_eq!(state.parent_of(innermost), Some(inner));
    assert_eq!(state.parent_of(0), None);
}

#[test]
fn names_and_keys_stay_distinct() {
    let mut heap = Heap::new();
    let mut state = State::new(&mut heap);
    let distinct = |state: &State| {
        state.scopes.iter().all(|scope| {
            let names: Vec<_> = scope.bindings.iter().map(|b| b.name.clone()).collect();
            names.iter().enumerate().all(|(i, name)| !names[..i].contains(name))
        })
    };
    assert!(distinct(&state));
    let p = Pointer::from(&mut heap, number("1"));
    let inner = state.from_parent(0);
    for name in ["a", "b", "a", "true", "b"] {
        state.insert(inner, chars(name), p, Lifetime::Ticks(1));
        state.insert(0, chars(name), p, Lifetime::Default);
        state.get(&mut heap, inner, &chars(name));
        state.get(&mut heap, inner, &chars("missing"));
        state.delete(inner, &chars(name));
        state.delete(inner, &chars("other"));
    }
    state.tick(inner);
    assert!(distinct(&state));
    assert_eq!(state.scopes[inner].bindings.len(), 4);
    let object = heap.fresh(Value::empty_object(), VarType::VarVar);
    for key in ["x", "y", "x", "y", "z"] {
        object.dot(&mut heap, &string(key)).unwrap();
    }
    match object.clone_inner(&heap) {
        Value::Object(members) => {
            let keys: Vec<_> = members.iter().map(|m| m.key.clone()).collect();
            assert_eq!(keys, vec![string("x"), string("y"), string("z")]);
        }
        other => panic!("{other:?}"),
    }
}

#[test]
fn names_that_nothing_binds() {
    assert_eq!(default_value(&chars("2.5"), true), number("2.5"));
    assert_eq!(default_value(&chars("fun"), true), Value::Keyword(Keyword::Function));
    assert_eq!(default_value(&chars("fun"), false), string("fun"));
    assert_eq!(default_value(&chars("1e3"), true), number("1000"));
    assert_eq!(default_value(&chars("inf"), true), Value::Number(Number::infinity()));
    assert_eq!(default_value(&chars("NaN"), true), Value::empty_object());
    assert_eq!(default_value(&chars("nan"), false), Value::empty_object());
}

#[test]
fn errors_in_words() {
    assert_eq!(text(&EvalError::TooDeep.message()), "The evaluation is nested too deep");
    assert_eq!(
        text(&EvalError::Lex(dreamberd::lexer::LexError::UnterminatedString).message()),
        "Unterminated string"
    );
    assert_eq!(
        text(&EvalError::Parse(dreamberd::grouping::ParseError::BadType { at: 3 }).message()),
        "Expected a type after `:` at token 3"
    );
}
