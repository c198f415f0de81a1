use yeti::base::environment;
use yeti::effect::error;
use yeti::evaluator::{assoc, count, dissoc, get, merge, nth, try_evaluate_source};
use yeti::extract;
use yeti::expression::{Builtin, Call, Environment, ExprMap, Expression, Function, Pattern};
use yeti::http::{body_kind, request_options, response_map, BodyKind, ResponseBody};
use yeti::numerics::{bits_to_decimal_digits, decimal_digits_to_bits, Float, Integer};
use yeti::parser::{parse, parse_all, try_parse};
use yeti::peeking_take_while::{Peekable, PeekableExt};
use yeti::reader::LineReader;
use yeti::repl::{evaluate, repl_environment};
use yeti::server::{port, reply_for, request_map, route_matches, route_params, Reply, RequestBody};
use yeti::sql::{rows_to_expression, sql_string, try_sql_string, try_tables_query};
use yeti::sql;
use yeti::token::Token;
use yeti::tokenizer::tokenize;
use yeti::tokens::Tokens;

fn integer(n: i64) -> Expression {
    Expression::Integer(Integer::from_i64(n))
}

fn keyword(k: &str) -> Expression {
    Expression::Keyword(k.to_string())
}

fn string(s: &str) -> Expression {
    Expression::String(s.to_string())
}

fn read(source: &str) -> Expression {
    let tokens = tokenize(source);
    parse(&tokens).1
}

fn pairs(v: &[(&str, &str)]) -> Vec<(String, String)> {
    v.iter().map(|(a, b)| (a.to_string(), b.to_string())).collect()
}

#[test]
fn digits_and_bits() {
    assert_eq!(decimal_digits_to_bits(3), 10);
    assert_eq!(decimal_digits_to_bits(0), 0);
    assert_eq!(decimal_digits_to_bits(1), 4);
    assert_eq!(bits_to_decimal_digits(10), 3);
    assert_eq!(bits_to_decimal_digits(53), 15);
    assert_eq!(bits_to_decimal_digits(0), 0);
}

#[test]
fn parse_leaves_the_rest() {
    let tokens = tokenize("(+ 1 2) [1 2]");
    let (rest, e) = parse(&tokens);
    assert_eq!(rest.len(), 4);
    assert_eq!(e.to_string(), "(+ 1 2)");
    assert_eq!(parse(rest).1, Expression::Array(vec![integer(1), integer(2)]));
}

#[test]
fn parse_all_expressions() {
    let tokens = tokenize("1 :a \"s\" true false nil x");
    let all = parse_all(&tokens);
    assert_eq!(
        all,
        vec![
            integer(1),
            keyword(":a"),
            string("s"),
            Expression::Bool(true),
            Expression::Bool(false),
            Expression::Nil,
            Expression::Symbol("x".to_string()),
        ]
    );
}

#[test]
fn parse_unterminated_list_ends_with_the_input() {
    assert_eq!(read("(f 1"), read("(f 1)"));
    assert_eq!(read("[1 2"), Expression::Array(vec![integer(1), integer(2)]));
}

#[test]
fn parse_refuses_a_closing_delimiter_and_empty_input() {
    assert!(try_parse(&tokenize(")")).is_none());
    assert!(try_parse(&tokenize("")).is_none());
    assert!(try_parse(&tokenize("()")).is_none());
    assert!(try_parse(&tokenize("{:a}")).is_none());
}

#[test]
fn parse_map_keeps_the_last_binding_of_a_key() {
    let mut m = ExprMap::new();
    m.insert(keyword(":a"), integer(2));
    assert_eq!(read("{:a 1 :a 2}"), Expression::Mapping(m));
}

#[test]
fn parse_quote_and_deref() {
    assert_eq!(read("'x"), Expression::Quote(Box::new(Expression::Symbol("x".to_string()))));
    assert_eq!(read("@x"), Expression::Deref(Box::new(Expression::Symbol("x".to_string()))));
}

#[test]
fn print_forms() {
    assert_eq!(read("{:b 2 :a 1}").to_string(), "{:a 1, :b 2}");
    assert_eq!(read("[1 2 3]").to_string(), "[1, 2, 3]");
    assert_eq!(read("(f)").to_string(), "(f )");
    assert_eq!(read("6/4").to_string(), "3/2");
    assert_eq!(read("-12").to_string(), "-12");
    assert_eq!(read("'x").to_string(), "'x");
    assert_eq!(read("@x").to_string(), "@x");
    assert_eq!(read("a/b").to_string(), "a/b");
    assert_eq!(read("1.50").to_string(), "1.50");
    assert_eq!(read("nil").to_string(), "nil");
    assert_eq!(read("true").to_string(), "true");
    assert_eq!(Expression::NativeFunction(Builtin::Add).to_string(), "#native_function");
}

#[test]
fn print_escapes_strings() {
    let e = string("a\"b\n\t\\c");
    assert_eq!(e.to_string(), "\"a\\\"b\\n\\t\\\\c\"");
}

#[test]
fn print_functions() {
    let one = Expression::Function(Function {
        env: Environment::new(),
        patterns: vec![Pattern { parameters: vec![Expression::Symbol("x".to_string())], body: vec![integer(1), integer(2)] }],
    });
    assert_eq!(one.to_string(), "(fn [x] 1 2 )");
    let two = Expression::Function(Function {
        env: Environment::new(),
        patterns: vec![
            Pattern { parameters: vec![integer(0)], body: vec![integer(1)] },
            Pattern { parameters: vec![Expression::Symbol("n".to_string())], body: vec![] },
        ],
    });
    assert_eq!(two.to_string(), "(fn\n  ([0] 1 )\n  ([n] ))");
}

#[test]
fn print_modules() {
    let mut m = Environment::new();
    assert_eq!(Expression::Module(Environment::new()).to_string(), "#module(nil)");
    m.insert("*name*".to_string(), string("sql"));
    assert_eq!(Expression::Module(m).to_string(), "#module(\"sql\")");
}

#[test]
fn map_operations() {
    let mut m = ExprMap::new();
    m.insert(keyword(":b"), integer(2));
    m.insert(keyword(":a"), integer(1));
    m.insert(integer(5), integer(3));
    assert_eq!(m.len(), 3);
    assert_eq!(m.entries[0].0, keyword(":a"));
    assert_eq!(m.entries[2].0, integer(5));
    assert_eq!(m.get(&keyword(":b")), Some(&integer(2)));
    m.insert(keyword(":b"), integer(7));
    assert_eq!(m.get(&keyword(":b")), Some(&integer(7)));
    assert_eq!(m.len(), 3);
    m.remove(&keyword(":a"));
    assert_eq!(m.get(&keyword(":a")), None);
    let mut other = ExprMap::new();
    other.insert(keyword(":c"), integer(9));
    m.merge(&other);
    assert_eq!(m.get(&keyword(":c")), Some(&integer(9)));
}

#[test]
fn environment_operations() {
    let mut e = Environment::new();
    e.insert("b".to_string(), integer(2));
    e.insert("a".to_string(), integer(1));
    assert_eq!(e.entries[0].0, "a".to_string());
    assert_eq!(e.get(&"b".to_string()), Some(&integer(2)));
    assert!(e.contains_key(&"a".to_string()));
    assert!(!e.contains_key(&"c".to_string()));
    e.insert("a".to_string(), integer(3));
    assert_eq!(e.get(&"a".to_string()), Some(&integer(3)));
    assert_eq!(e.entries.len(), 2);
}

#[test]
fn base_environment_binds_the_builtins() {
    let env = environment();
    assert_eq!(env.entries.len(), 31);
    assert_eq!(env.get(&"defn".to_string()), Some(&Expression::NativeFunction(Builtin::Defn)));
    assert_eq!(env.get(&"import".to_string()), Some(&Expression::NativeFunction(Builtin::Import)));
    assert_eq!(env.get(&"->".to_string()), Some(&Expression::NativeFunction(Builtin::ThreadFirst)));
}

#[test]
fn sql_create_table() {
    let statement = read("{:create-table :people :with-columns [[:name :text] [:age :integer :not-null] [:id [:varchar 10] [:default nil]]]}");
    let actual = sql_string(&statement).unwrap();
    let expected = Expression::Array(vec![string(
        "CREATE TABLE people (name TEXT, age INTEGER NOT-NULL, id VARCHAR(10) DEFAULT NULL)",
    )]);
    assert_eq!(actual, expected);
}

#[test]
fn sql_insert_into() {
    let statement = read("{:insert-into :people :columns [:name :age] :values [[\"John\" 30] [\"Jane\" 25]]}");
    let actual = sql_string(&statement).unwrap();
    let expected = Expression::Array(vec![
        string("INSERT INTO people (name, age) VALUES (?, ?), (?, ?)"),
        string("John"),
        integer(30),
        string("Jane"),
        integer(25),
    ]);
    assert_eq!(actual, expected);
}

#[test]
fn sql_select() {
    let statement = read("{:select :* :from :people :where [:= :name \"John\"]}");
    let expected = Expression::Array(vec![string("SELECT * FROM people WHERE name = ?"), string("John")]);
    assert_eq!(sql_string(&statement).unwrap(), expected);
    let statement = read("{:select [:name :age] :from :people}");
    let expected = Expression::Array(vec![string("SELECT name, age FROM people")]);
    assert_eq!(sql_string(&statement).unwrap(), expected);
}

#[test]
fn sql_errors() {
    let statement = read("{:select :* :from :people :where [:like :name \"J\"]}");
    assert_eq!(sql_string(&statement), Err(error("Unsupported operator :like")));
    assert_eq!(sql_string(&read("{:select :*}")), Err(error("Expected keyword :from")));
    assert_eq!(sql_string(&read("{:delete :x}")), Err(error("Unsupported SQL operation")));
    assert_eq!(sql_string(&read("[1]")), Err(error("Expected map")));
    assert_eq!(sql_string(&read("{:select 5 :from :t}")), Err(error("Expected array or keyword")));
    assert!(try_sql_string(&read("{:select :* :from :t :where []}")).is_none());
}

#[test]
fn sql_rows() {
    let columns = vec!["name".to_string(), "age".to_string()];
    let rows = vec![vec![string("John"), integer(30)]];
    let actual = rows_to_expression(&columns, &rows);
    let mut m = ExprMap::new();
    m.insert(keyword(":name"), string("John"));
    m.insert(keyword(":age"), integer(30));
    assert_eq!(actual, Expression::Array(vec![Expression::Mapping(m)]));
}

#[test]
fn reader_waits_for_balanced_delimiters() {
    let mut r = LineReader::new();
    assert!(!r.feed("(+ 1"));
    assert!(!r.feed("[2"));
    assert!(r.feed("3])"));
    assert_eq!(r.into_text(), "(+ 1\n[2\n3])");
    let mut r = LineReader::new();
    assert!(r.feed("abc (def"));
    let mut r = LineReader::new();
    assert!(!r.feed("\"a b"));
    assert!(r.feed("c\""));
    let mut r = LineReader::new();
    assert!(!r.feed("\"a ( b"));
    assert!(!r.feed("c\""));
    let mut r = LineReader::new();
    assert!(!r.feed("(a]"));
}

#[test]
fn repl_evaluates_in_turn() {
    let exprs = parse_all(&tokenize("(def x 2) (def y 3) (+ x y)"));
    let (env, v) = evaluate(repl_environment(), &exprs).unwrap();
    assert_eq!(v, integer(5));
    assert_eq!(env.get(&"*name*".to_string()), Some(&string("repl")));
    let (_, v) = evaluate(repl_environment(), &[]).unwrap();
    assert_eq!(v, Expression::Nil);
    let exprs = parse_all(&tokenize("(def x 2) z (def y 3)"));
    assert_eq!(evaluate(repl_environment(), &exprs), Err(error("Symbol z not found in environment")));
}

#[test]
fn routes_bind_parameters() {
    let params = route_params("/users/:id/posts/:post", "/users/5/posts/7");
    assert_eq!(params, pairs(&[(":id", "5"), (":post", "7")]));
    assert_eq!(route_params("/a", "/a/b"), vec![]);
}

#[test]
fn request_maps() {
    let headers = pairs(&[("host", "localhost")]);
    let query = pairs(&[("job", "Developer")]);
    let actual = request_map("/users/:id", "GET".to_string(), "/users/5".to_string(), &headers, &query, RequestBody::Empty);
    let expected = read("{:method \"GET\" :path \"/users/5\" :headers {:host \"localhost\"} :query {:job \"Developer\"} :params {:id \"5\"}}");
    assert_eq!(actual, expected);
    let form = pairs(&[("name", "x")]);
    let actual = request_map("/", "POST".to_string(), "/".to_string(), &vec![], &vec![], RequestBody::Form(form));
    let expected = read("{:method \"POST\" :path \"/\" :headers {} :form {:name \"x\"}}");
    assert_eq!(actual, expected);
    let actual = request_map("/", "POST".to_string(), "/".to_string(), &vec![], &vec![], RequestBody::Json(read("{}")));
    assert_eq!(actual, read("{:method \"POST\" :path \"/\" :headers {}}"));
}

#[test]
fn replies() {
    assert!(matches!(reply_for(string("hi")), Some(Reply::Text(t)) if t == "hi"));
    assert!(matches!(reply_for(read("[:p \"x\"]")), Some(Reply::Html(_))));
    assert!(matches!(reply_for(read("{:redirect \"/a\"}")), Some(Reply::Redirect(u)) if u == "/a"));
    assert!(matches!(reply_for(read("{:a 1}")), Some(Reply::Json(_))));
    assert!(reply_for(read("{:redirect 1}")).is_none());
    assert!(reply_for(integer(1)).is_none());
}

#[test]
fn ports() {
    let m = |s: &str| match read(s) {
        Expression::Mapping(m) => m,
        _ => panic!("not a map"),
    };
    assert_eq!(port(&m("{:port 8080}")), Ok(8080));
    assert_eq!(port(&m("{}")), Ok(3000));
    assert_eq!(port(&m("{:port 70000}")), Err(error("Port number out of range")));
    assert_eq!(port(&m("{:port \"x\"}")), Err(error("Expected integer for :port")));
}

#[test]
fn responses() {
    assert_eq!(body_kind("application/json"), BodyKind::Json);
    assert_eq!(body_kind("text/html; charset=utf-8"), BodyKind::Html);
    assert_eq!(body_kind("text/plain"), BodyKind::Text);
    assert_eq!(body_kind(""), BodyKind::Text);
    let headers = pairs(&[("content-type", "text/plain")]);
    let actual = response_map(200, &headers, "http://x".to_string(), ResponseBody::Text("ok".to_string()));
    let expected = read("{:status 200 :headers {:content-type \"text/plain\"} :url \"http://x\" :text \"ok\"}");
    assert_eq!(actual, expected);
}

#[test]
fn streaming_tokens() {
    let mut t = Tokens::from_str("(+ -x 1.5 -2) @y");
    let mut all = vec![];
    while let Some(tok) = t.next() {
        all.push(tok);
    }
    assert_eq!(
        all,
        vec![
            Token::LeftParen,
            Token::Symbol("+".to_string()),
            Token::Symbol("-".to_string()),
            Token::Symbol("x".to_string()),
            Token::Float(Float::from_str("1.5")),
            Token::Integer(Integer::from_i64(-2)),
            Token::RightParen,
            Token::Symbol("@y".to_string()),
        ]
    );
}

#[test]
fn streaming_tokens_refuse_a_number_with_two_dots() {
    let mut t = Tokens::from_str("1 1.2.3");
    assert_eq!(t.try_next(), Some(Some(Token::Integer(Integer::from_i64(1)))));
    assert_eq!(t.try_next(), None);
    assert!(Tokens::from_str("1/0").try_collect().is_none());
    let all = Tokens::new("4/2 a/b".chars().collect()).try_collect().unwrap();
    assert_eq!(all, vec![Token::Integer(Integer::from_i64(2)), Token::NamespacedSymbol(vec!["a".to_string(), "b".to_string()])]);
}

#[test]
fn peeking_take_while_stops_before_the_first_refused_character() {
    let mut p = Peekable::new("abc def".chars().collect());
    let mut t = p.peeking_take_while(|c: char| c != ' ');
    assert_eq!(t.size_hint(), (0, Some(7)));
    assert_eq!(t.take_all(), vec!['a', 'b', 'c']);
    assert_eq!(p.peek(), Some(' '));
    let mut t = p.peeking_take_while(|c: char| c == ' ');
    assert_eq!(t.next(), Some(' '));
    assert_eq!(t.next(), None);
    assert_eq!(p.remaining_count(), 3);
}

#[test]
fn laws_on_concrete_values() {
    let env = environment();
    let (env, _) = try_evaluate_source(env, "(def v {:k 1})").unwrap().unwrap();
    let (env, got) = try_evaluate_source(env, "(get (assoc v :k 2) :k)").unwrap().unwrap();
    assert_eq!(got, integer(2));
    let (env, got) = try_evaluate_source(env, "(get (dissoc v :k) :k)").unwrap().unwrap();
    assert_eq!(got, Expression::Nil);
    let (env, got) = try_evaluate_source(env, "(eval '(get v :k))").unwrap().unwrap();
    assert_eq!(got, integer(1));
    let before = env.clone();
    let (after, _) = try_evaluate_source(env, "(let [w 3] w)").unwrap().unwrap();
    assert_eq!(after, before);
    let (_, got) = try_evaluate_source(after, "'(a b)").unwrap().unwrap();
    let expected = Expression::Call(Call {
        function: Box::new(Expression::Symbol("a".to_string())),
        arguments: vec![Expression::Symbol("b".to_string())],
    });
    assert_eq!(got, expected);
}

#[test]
fn map_and_array_functions() {
    let env = environment();
    let m = read("{:a 1}");
    let (_, v) = get(env.clone(), &vec![m.clone(), keyword(":a")]).unwrap();
    assert_eq!(v, integer(1));
    let (_, v) = assoc(env.clone(), &vec![m.clone(), keyword(":b"), integer(2)]).unwrap();
    assert_eq!(v, read("{:a 1 :b 2}"));
    let (_, v) = dissoc(env.clone(), &vec![m.clone(), keyword(":a")]).unwrap();
    assert_eq!(v, read("{}"));
    let (_, v) = merge(env.clone(), &vec![m.clone(), read("{:c 3}")]).unwrap();
    assert_eq!(v, read("{:a 1 :c 3}"));
    let (_, v) = nth(env.clone(), &vec![read("[5 6]"), integer(1)]).unwrap();
    assert_eq!(v, integer(6));
    let (_, v) = count(env.clone(), &vec![read("[5 6]")]).unwrap();
    assert_eq!(v, integer(2));
    assert_eq!(get(env, &vec![integer(1), integer(2)]), Err(error("Expected map")));
}

#[test]
fn extraction() {
    assert_eq!(extract::string(string("a")), Ok("a".to_string()));
    assert_eq!(extract::string(integer(1)), Err(error("Expected string")));
    assert_eq!(extract::symbol(integer(1)), Err(error("Expected keyword")));
    assert_eq!(extract::array(integer(1)), Err(error("Expected array")));
    assert_eq!(extract::call(integer(1)), Err(error("Expected call")));
    assert_eq!(extract::integer(string("a")), Err(error("Expected integer")));
    assert_eq!(extract::keyword(keyword(":k")), Ok(":k".to_string()));
    let m = extract::map(read("{:a 1}")).unwrap();
    assert_eq!(extract::key(&m, ":a"), Ok(integer(1)));
    assert_eq!(extract::key(&m, ":b"), Err(error("Expected keyword :b")));
    assert_eq!(extract::map(integer(1)), Err(error("Expected map")));
}

#[test]
fn effects_print() {
    assert_eq!(error("boom").to_string(), "#effect::error(boom)");
}

#[test]
fn sql_string_builtin_evaluates_its_argument() {
    let env = environment();
    let args = vec![read("(assoc {:select [:a]} :from :t)")];
    let (_, statement) = sql::string(env, &args).unwrap();
    assert_eq!(statement, Expression::Array(vec![string("SELECT a FROM t")]));
    let bad = vec![read("{:drop :t}")];
    assert_eq!(sql::string(environment(), &bad), Err(error("Unsupported SQL operation")));
    assert!(sql::try_string(environment(), &vec![]).is_none());
}

#[test]
fn tables_query_selects_table_names() {
    let (_, q) = try_tables_query(environment()).unwrap().unwrap();
    assert_eq!(
        sql_string(&q).unwrap(),
        Expression::Array(vec![
            string("SELECT name FROM sqlite_master WHERE type = ?"),
            string("table"),
        ])
    );
}

#[test]
fn request_options_pick_form_json_and_query() {
    let params = read("{:json {:a 1} :query {:q \"x\"} :other 5}");
    let options = request_options(Some(&params));
    assert_eq!(options.form, None);
    assert_eq!(options.json, Some(read("{:a 1}")));
    assert_eq!(options.query, Some(read("{:q \"x\"}")));
    let options = request_options(Some(&integer(3)));
    assert!(options.form.is_none() && options.json.is_none() && options.query.is_none());
    let options = request_options(None);
    assert!(options.form.is_none() && options.json.is_none() && options.query.is_none());
}

#[test]
fn dissoc_after_assoc_of_a_new_key_gives_back_the_map() {
    let env = environment();
    let actual = try_evaluate_source(env.clone(), "(dissoc (assoc {:a 1 :c 3} :b 2) :b)").unwrap().unwrap().1;
    assert_eq!(actual, read("{:a 1 :c 3}"));
}

#[test]
fn select_text_ignores_the_compared_value() {
    let a = sql_string(&read("{:select :* :from :people :where [:= :name \"John\"]}")).unwrap();
    let b = sql_string(&read("{:select :* :from :people :where [:= :name 42]}")).unwrap();
    match (a, b) {
        (Expression::Array(x), Expression::Array(y)) => {
            assert_eq!(x[0], y[0]);
            assert_eq!(x[1], string("John"));
            assert_eq!(y[1], integer(42));
        }
        _ => panic!("expected statements"),
    }
}

#[test]
fn token_stream_end_repeats() {
    let mut tokens = Tokens::from_str("x  ");
    assert!(tokens.next().is_some());
    assert!(tokens.next().is_none());
    assert!(tokens.next().is_none());
}

#[test]
fn routes_match_paths_part_by_part() {
    assert!(route_matches("/users/:id", "/users/7"));
    assert!(route_matches("/", "/"));
    assert!(!route_matches("/users/:id", "/users"));
    assert!(!route_matches("/users/:id", "/posts/7"));
}

#[test]
fn peeking_take_while_over_any_items() {
    let mut p = Peekable::new(vec![1u64, 2, 5, 3]);
    let taken = p.peeking_take_while(|x: u64| x < 4).take_all();
    assert_eq!(taken, vec![1, 2]);
    assert_eq!(p.peek(), Some(5));
    let mut q = Peekable::new("ab1c".chars().collect());
    let letters = q.peeking_take_while(|c: char| c.is_alphabetic()).take_all();
    assert_eq!(letters, vec!['a', 'b']);
    assert_eq!(q.peek(), Some('1'));
}

#[test]
fn parsing_a_concatenation_of_complete_expressions() {
    let whole = parse_all(&tokenize("(def bar 5)\n\n(def baz 7) [1 2]"));
    let mut parts = parse_all(&tokenize("(def bar 5)\n\n"));
    parts.extend(parse_all(&tokenize("(def baz 7) [1 2]")));
    assert_eq!(whole, parts);
    assert_eq!(whole.len(), 3);
}

#[test]
fn printed_strings_read_back() {
    let s = string("a \"quoted\"\n\\ line\ttab\r");
    let printed = s.to_string();
    let tokens = tokenize(&printed);
    assert_eq!(tokens, vec![Token::String("a \"quoted\"\n\\ line\ttab\r".to_string())]);
    assert_eq!(parse(&tokens).1, s);
}
