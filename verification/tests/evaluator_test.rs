use yeti::base::environment;
use yeti::builtins::ratio as make_ratio;
use yeti::effect::{error, Effect};
use yeti::evaluator::try_evaluate_source;
use yeti::expression::{Call, Environment, ExprMap, Expression};
use yeti::numerics::Integer;

fn run(env: Environment, source: &str) -> Result<(Environment, Expression), Effect> {
    try_evaluate_source(env, source).expect("the evaluation does not abort")
}

fn value(env: Environment, source: &str) -> Expression {
    run(env, source).expect("the evaluation succeeds").1
}

fn integer(n: i64) -> Expression {
    Expression::Integer(Integer::from_i64(n))
}

fn ratio(n: i64, d: i64) -> Expression {
    make_ratio(&Integer::from_i64(n), &Integer::from_i64(d))
}

fn keyword(k: &str) -> Expression {
    Expression::Keyword(k.to_string())
}

#[test]
fn arithmetic_test_add_two_integers() {
    assert_eq!(value(environment(), "(+ 2 3)"), integer(5));
}

#[test]
fn arithmetic_test_add_three_two_integers() {
    assert_eq!(value(environment(), "(+ 2 3 4)"), integer(9));
}

#[test]
fn add_without_arguments_is_zero() {
    assert_eq!(value(environment(), "(+)"), integer(0));
}

#[test]
fn multiply_without_arguments_is_one() {
    assert_eq!(value(environment(), "(*)"), integer(1));
}

#[test]
fn subtract_integers() {
    assert_eq!(value(environment(), "(- 10 3 2)"), integer(5));
}

#[test]
fn subtract_without_arguments_aborts() {
    assert!(try_evaluate_source(environment(), "(-)").is_none());
}

#[test]
fn evaluate_array() {
    let actual = value(environment(), "[(+ 1 2) (/ 4 3)]");
    assert_eq!(actual, Expression::Array(vec![integer(3), ratio(4, 3)]));
}

#[test]
fn evaluate_map() {
    let actual = value(environment(), "{:a (+ 1 2) :b (/ 4 3)}");
    let mut m = ExprMap::new();
    m.insert(keyword(":a"), integer(3));
    m.insert(keyword(":b"), ratio(4, 3));
    assert_eq!(actual, Expression::Mapping(m));
}

#[test]
fn evaluate_multiply_ratio_by_integer() {
    assert_eq!(value(environment(), "(* 7/3 3)"), integer(7));
}

#[test]
fn evaluate_multiply_integer_by_ratio() {
    assert_eq!(value(environment(), "(* 3 7/3)"), integer(7));
}

#[test]
fn divide_gives_a_ratio_in_lowest_terms() {
    assert_eq!(value(environment(), "(/ 6 4)"), ratio(3, 2));
    assert_eq!(value(environment(), "(/ 6 3)"), integer(2));
}

#[test]
fn divide_by_zero_aborts() {
    assert!(try_evaluate_source(environment(), "(/ 1 0)").is_none());
}

#[test]
fn add_a_string_is_an_error() {
    let actual = run(environment(), "(+ 1 \"a\")");
    assert_eq!(actual, Err(error("Expected integer argument")));
}

#[test]
fn multiply_two_ratios_is_an_error() {
    let actual = run(environment(), "(* 1/2 1/3)");
    assert_eq!(actual, Err(error("Cannot multiply 1/2 and 1/3")));
}

#[test]
fn do_returns_the_3rd_expression() {
    assert_eq!(value(environment(), "(do 5 3 true)"), Expression::Bool(true));
}

#[test]
fn do_returns_the_2nd_expression() {
    assert_eq!(value(environment(), "(do 5 3)"), integer(3));
}

#[test]
fn do_returns_the_1st_expression() {
    assert_eq!(value(environment(), "(do 5)"), integer(5));
}

#[test]
fn do_returns_nil() {
    assert_eq!(value(environment(), "(do)"), Expression::Nil);
}

#[test]
fn evaluate_def() {
    let env = environment();
    let (actual_env, actual) = run(env, "(def x 5)").unwrap();
    assert_eq!(actual, Expression::Nil);
    let mut expected_env = environment();
    expected_env.insert("x".to_string(), integer(5));
    assert_eq!(actual_env, expected_env);
}

#[test]
fn unbound_symbol_is_an_error() {
    let actual = run(environment(), "y");
    assert_eq!(actual, Err(error("Symbol y not found in environment")));
}

#[test]
fn let_binding() {
    assert_eq!(value(environment(), "(let [a 5] a)"), integer(5));
}

#[test]
fn two_let_binding() {
    assert_eq!(value(environment(), "(let [a 5 b 10] (+ a b))"), integer(15));
}

#[test]
fn let_binding_with_pattern_match() {
    assert_eq!(value(environment(), "(let [[x y] [1 2]] (+ x y))"), integer(3));
}

#[test]
fn let_binding_removes_bindings_after_scope() {
    let (env, actual) = run(environment(), "(let [x 5] x)").unwrap();
    assert_eq!(actual, integer(5));
    assert!(run(env, "x").is_err());
}

#[test]
fn let_binding_multi_line_body() {
    let actual = value(environment(), "(let [x 5]\n (+ 1 2)\n (+ x 2))");
    assert_eq!(actual, integer(7));
}

#[test]
fn map_test_get_key_from_map() {
    assert_eq!(value(environment(), "(get {:a 1} :a)"), integer(1));
}

#[test]
fn map_test_get_non_existing_key_from_map() {
    assert_eq!(value(environment(), "(get {:a 1} :b)"), Expression::Nil);
}

#[test]
fn map_test_get_non_existing_key_from_map_with_default_value() {
    assert_eq!(value(environment(), "(get {:a 1} :b 5)"), integer(5));
}

#[test]
fn map_test_evaluate_key_on_map() {
    assert_eq!(value(environment(), "(:a {:a 1})"), integer(1));
}

#[test]
fn map_test_evaluate_map_on_key() {
    assert_eq!(value(environment(), "({:a 1} :a)"), integer(1));
}

#[test]
fn map_test_evaluate_map_on_key_non_keyword() {
    assert_eq!(value(environment(), "({1 :a} 1)"), keyword(":a"));
}

#[test]
fn keyword_on_map_with_default() {
    assert_eq!(value(environment(), "(:b {:a 1} 7)"), integer(7));
}

#[test]
fn keyword_called_on_a_number_is_an_error() {
    let actual = run(environment(), "(:a 5)");
    assert_eq!(actual, Err(error("Cannot call keyword :a on 5")));
}

#[test]
fn map_test_evaluate_assoc() {
    let (env, actual) = run(environment(), "(assoc {} :a 1)").unwrap();
    assert_eq!(actual, value(env, "{:a 1}"));
}

#[test]
fn map_test_evaluate_dissoc() {
    assert_eq!(value(environment(), "(dissoc {:a 1} :a)"), Expression::Mapping(ExprMap::new()));
}

#[test]
fn map_test_evaluate_merge() {
    let (env, actual) = run(environment(), "(merge {:a 1} {:b 2})").unwrap();
    assert_eq!(actual, value(env, "{:a 1 :b 2}"));
}

#[test]
fn assoc_leaves_the_first_map_unchanged() {
    let (env, _) = run(environment(), "(def p {:first \"John\" :last \"Doe\"})").unwrap();
    let (env, _) = run(env, "(def p2 (assoc p :middle \"Q\"))").unwrap();
    assert_eq!(value(env.clone(), "(:middle p2)"), Expression::String("Q".to_string()));
    assert_eq!(value(env, "(:middle p)"), Expression::Nil);
}

#[test]
fn evaluate_str_concat() {
    let (env, actual) = run(environment(), r#"(str "hello" " " "world")"#).unwrap();
    assert_eq!(actual, value(env, r#""hello world""#));
}

#[test]
fn str_writes_other_values() {
    let actual = value(environment(), r#"(str 1 :a [1 2] nil "x")"#);
    assert_eq!(actual, Expression::String("1:a[1, 2]nilx".to_string()));
}

#[test]
fn thread_first() {
    assert_eq!(value(environment(), "(-> 5 (- 3))"), integer(2));
}

#[test]
fn thread_first_multiple_threads() {
    assert_eq!(value(environment(), "(-> 5 (- 3) (- 4))"), integer(-2));
}

#[test]
fn thread_first_wraps_in_call_if_not_already() {
    assert_eq!(value(environment(), "(-> 5 inc inc)"), integer(7));
}

#[test]
fn meta_test_check_if_symbol_is_bound() {
    let (env, actual) = run(environment(), "(bound? x)").unwrap();
    assert_eq!(actual, Expression::Bool(false));
    let (env, _) = run(env, "(def x 5)").unwrap();
    assert_eq!(value(env, "(bound? x)"), Expression::Bool(true));
}

#[test]
fn evaluate_eval() {
    assert_eq!(value(environment(), "(eval '(+ 1 2))"), integer(3));
}

#[test]
fn quote_is_not_evaluated() {
    let actual = value(environment(), "'(+ x y)");
    let expected = Expression::Call(Call {
        function: Box::new(Expression::Symbol("+".to_string())),
        arguments: vec![Expression::Symbol("x".to_string()), Expression::Symbol("y".to_string())],
    });
    assert_eq!(actual, expected);
}

#[test]
fn evaluate_read_string() {
    let actual = value(environment(), r#"(read-string "(+ 1 2)")"#);
    let expected = Expression::Call(Call {
        function: Box::new(Expression::Symbol("+".to_string())),
        arguments: vec![integer(1), integer(2)],
    });
    assert_eq!(actual, expected);
}

#[test]
fn read_string_with_trailing_tokens_is_an_error() {
    let actual = run(environment(), r#"(read-string "1 2")"#);
    assert_eq!(actual, Err(error("Could not parse expression")));
}

#[test]
fn read_string_equals_quote() {
    assert_eq!(value(environment(), r#"(= '(+ x y) (read-string "(+ x y)"))"#), Expression::Bool(true));
}

#[test]
fn evaluate_assert_true_does_nothing() {
    assert_eq!(value(environment(), "(assert true)"), Expression::Nil);
}

#[test]
fn evaluate_assert_false_raises_error() {
    let result = run(environment(), "(assert false)");
    assert!(result.is_err());
    assert_eq!(result, Err(error("Assertion failed")));
}

#[test]
fn nth_inbounds_gives_values() {
    assert_eq!(value(environment(), "(nth [1 2 3] 0)"), integer(1));
}

#[test]
fn nth_out_of_bounds_gives_error() {
    assert_eq!(run(environment(), "(nth [1 2 3] 4)"), Err(error("Index out of range")));
}

#[test]
fn nth_out_of_bounds_with_default_gives_default() {
    assert_eq!(value(environment(), "(nth [1 2 3] 4 100)"), integer(100));
}

#[test]
fn count_of_array() {
    assert_eq!(value(environment(), "(count [1 4 9])"), integer(3));
}

#[test]
fn if_when_condition_is_true() {
    assert_eq!(value(environment(), "(if true 5 3)"), integer(5));
}

#[test]
fn if_when_condition_is_false() {
    assert_eq!(value(environment(), "(if false 5 3)"), integer(3));
}

#[test]
fn if_nil_takes_the_else_branch() {
    assert_eq!(value(environment(), "(if nil 5 3)"), integer(3));
}

#[test]
fn when_if_condition_is_true() {
    assert_eq!(value(environment(), "(when true 5)"), integer(5));
}

#[test]
fn when_if_condition_is_false() {
    assert_eq!(value(environment(), "(when false 5)"), Expression::Nil);
}

#[test]
fn evaluate_equality_when_true() {
    assert_eq!(value(environment(), "(= 3 3)"), Expression::Bool(true));
}

#[test]
fn evaluate_equality_when_false() {
    assert_eq!(value(environment(), "(= 3 4)"), Expression::Bool(false));
}

#[test]
fn evaluate_equality_of_floats() {
    assert_eq!(value(environment(), "(= 3.4 3.4)"), Expression::Bool(true));
}

#[test]
fn equality_of_nested_values() {
    assert_eq!(value(environment(), "(= {:a [1 2]} {:a [1 2]})"), Expression::Bool(true));
}

#[test]
fn function_definition_and_call() {
    let (env, _) = run(environment(), "(defn double [x] (* x 2))").unwrap();
    let (env, actual) = run(env, "(double 5)").unwrap();
    assert_eq!(actual, integer(10));
    assert!(run(env, "x").is_err());
}

#[test]
fn closure() {
    let (env, _) = run(environment(), "(defn add [x] (fn [y] (+ x y)))").unwrap();
    let (env, _) = run(env, "(def add-5 (add 5))").unwrap();
    assert_eq!(value(env, "(add-5 10)"), integer(15));
}

#[test]
fn recursion_using_recur() {
    let source = "(defn fib ([0] 1) ([1] 1) ([n] (+ (recur (- n 1)) (recur (- n 2)))))";
    let (env, _) = run(environment(), source).unwrap();
    assert_eq!(value(env.clone(), "(fib 0)"), integer(1));
    assert_eq!(value(env.clone(), "(fib 1)"), integer(1));
    assert_eq!(value(env.clone(), "(fib 2)"), integer(2));
    assert_eq!(value(env.clone(), "(fib 3)"), integer(3));
    assert_eq!(value(env, "(fib 4)"), integer(5));
}

#[test]
fn recursion_using_name() {
    let source = "(defn fib ([0] 1) ([1] 1) ([n] (+ (fib (- n 1)) (fib (- n 2)))))";
    let (env, _) = run(environment(), source).unwrap();
    assert_eq!(value(env, "(fib 5)"), integer(8));
}

#[test]
fn no_clause_matches() {
    let (env, _) = run(environment(), "(defn f ([0] 1))").unwrap();
    let actual = run(env, "(f 2)");
    assert_eq!(actual, Err(error("#effect::error(Cannot pattern match 0 with 2)\n")));
}

#[test]
fn pattern_match_array() {
    assert_eq!(value(environment(), "((fn [[x y]] x) [1 2])"), integer(1));
}

#[test]
fn pattern_match_map() {
    assert_eq!(value(environment(), "((fn [{:a a}] a) {:a 5})"), integer(5));
}

#[test]
fn pattern_match_map_in_array() {
    assert_eq!(value(environment(), "((fn [[_ {:a a}]] a) [0 {:a 7}])"), integer(7));
}

#[test]
fn pattern_match_array_with_literal_keyword() {
    assert_eq!(value(environment(), "((fn [[:foo y]] y) [:foo 2])"), integer(2));
}

#[test]
fn pattern_match_array_with_literal_string() {
    assert_eq!(value(environment(), r#"((fn [["foo" y]] y) ["foo" 2])"#), integer(2));
}

#[test]
fn pattern_match_array_with_literal_integer() {
    assert_eq!(value(environment(), "((fn [[7 y]] y) [7 2])"), integer(2));
}

#[test]
fn pattern_match_array_with_literal_nil() {
    assert_eq!(value(environment(), "((fn [[nil y]] y) [nil 2])"), integer(2));
}

#[test]
fn pattern_match_multiple_patterns_first_taken() {
    let source = r#"
        ((fn
          ([:apple] "you picked apple")
          ([:mango] "you selected mango"))
          :apple)
        "#;
    assert_eq!(value(environment(), source), Expression::String("you picked apple".to_string()));
}

#[test]
fn pattern_match_multiple_patterns_second_taken() {
    let source = r#"
        ((fn
          ([:apple] "you picked apple")
          ([:mango] "you selected mango"))
          :mango)
        "#;
    assert_eq!(value(environment(), source), Expression::String("you selected mango".to_string()));
}

#[test]
fn linked_list_sum() {
    let (env, _) = run(environment(), "(def a {:head 5 :tail nil})").unwrap();
    let (env, _) = run(env, "(def b {:head 7 :tail a})").unwrap();
    let (env, _) = run(env, "(def c {:head 9 :tail b})").unwrap();
    let (env, _) = run(env, "(defn list-sum ([{:head h :tail t}] (+ h (list-sum t))) ([nil] 0))").unwrap();
    assert_eq!(value(env.clone(), "(list-sum c)"), integer(21));
    assert_eq!(value(env, "(let [{:head h} c] h)"), integer(9));
}

#[test]
fn for_binding() {
    let (env, actual) = run(environment(), "(for [x [1 2 3]] (* x x))").unwrap();
    assert_eq!(actual, value(env, "[1 4 9]"));
}

#[test]
fn for_binding_with_pattern_matching() {
    let (env, actual) = run(environment(), "(for [{:a x} [{:a 1} {:a 2} {:a 3}]] (* x x))").unwrap();
    assert_eq!(actual, value(env, "[1 4 9]"));
}

#[test]
fn for_binding_with_multiple_expressions_returns_last_one() {
    let (env, actual) = run(environment(), "(for [x [1 2 3]] (* x x) true)").unwrap();
    assert_eq!(actual, value(env, "[true true true]"));
}

#[test]
fn for_over_range() {
    let (env, actual) = run(environment(), "(for [x (range 5)] (* x x))").unwrap();
    assert_eq!(actual, value(env, "[0 1 4 9 16]"));
}

#[test]
fn range_of_a_negative_number_is_empty() {
    assert_eq!(value(environment(), "(range -3)"), Expression::Array(vec![]));
}

#[test]
fn deref_without_atoms_is_an_error() {
    assert_eq!(run(environment(), "@5"), Err(error("Expected atom")));
}

#[test]
fn namespaced_symbol_in_a_module() {
    let mut module = Environment::new();
    module.insert("*name*".to_string(), Expression::String("m".to_string()));
    module.insert("x".to_string(), integer(4));
    let mut env = environment();
    env.insert("m".to_string(), Expression::Module(module));
    assert_eq!(value(env.clone(), "m/x"), integer(4));
    assert_eq!(run(env, "m/y"), Err(error("Symbol y not found in environment")));
}

#[test]
fn deref_an_atom() {
    let (env, _) = run(environment(), "(def x (atom 5))").unwrap();
    assert_eq!(value(env, "@x"), integer(5));
}

#[test]
fn reset_an_atom() {
    let (env, _) = run(environment(), "(def x (atom 5))").unwrap();
    let (env, previous) = run(env, "@x").unwrap();
    let (env, _) = run(env, "(reset! x 10)").unwrap();
    assert_eq!(value(env, "@x"), integer(10));
    assert_eq!(previous, integer(5));
}

#[test]
fn swap_an_atom() {
    let (env, _) = run(environment(), "(def x (atom 5))").unwrap();
    let (env, previous) = run(env, "@x").unwrap();
    let (env, _) = run(env, "(swap! x inc)").unwrap();
    assert_eq!(value(env, "@x"), integer(6));
    assert_eq!(previous, integer(5));
}

#[test]
fn atoms_are_shared_between_forms_of_a_body() {
    let (env, _) = run(environment(), "(def x (atom 1))").unwrap();
    assert_eq!(value(env.clone(), "(do (swap! x inc) (swap! x inc) @x)"), integer(3));
    let (env, _) = run(env, "(defn bump [] (swap! x inc) @x)").unwrap();
    assert_eq!(value(env, "(bump)"), integer(2));
}

#[test]
fn reset_and_swap_give_nil_and_need_an_atom() {
    let (env, _) = run(environment(), "(def x (atom 5))").unwrap();
    assert_eq!(value(env.clone(), "(reset! x 7)"), Expression::Nil);
    assert_eq!(run(env, "(swap! 5 inc)"), Err(error("Expected atom")));
}

#[test]
fn atoms_written_in_a_function_or_let_stay_written() {
    let (env, _) = run(environment(), "(def x (atom 1))").unwrap();
    let (env, _) = run(env, "(defn bump [] (swap! x inc))").unwrap();
    let (env, _) = run(env, "(bump)").unwrap();
    let (env, _) = run(env, "(let [y 5] (reset! x (+ @x y)))").unwrap();
    let (env, _) = run(env, "(do (swap! x inc))").unwrap();
    assert_eq!(value(env, "@x"), integer(8));
}

#[test]
fn atoms_written_in_for_stay_written() {
    let (env, _) = run(environment(), "(def x (atom 0))").unwrap();
    let (env, v) = run(env, "(for [i [1 2 3]] (swap! x inc) @x)").unwrap();
    assert_eq!(v, Expression::Array(vec![integer(1), integer(2), integer(3)]));
    assert_eq!(value(env, "@x"), integer(3));
}
