use yeti::base::environment;
use yeti::effect::{error, Effect};
use yeti::evaluator::try_evaluate_source;
use yeti::expression::{Environment, ExprMap, Expression};
use yeti::modules::io_module;
use yeti::numerics::Integer;
use yeti::parser::parse;
use yeti::repl::repl_environment;
use yeti::session::{resume, start, Action, Continuation, Step};
use yeti::tokenizer::tokenize;

fn read(source: &str) -> Expression {
    let tokens = tokenize(source);
    parse(&tokens).1
}

fn integer(n: i64) -> Expression {
    Expression::Integer(Integer::from_i64(n))
}

fn string(s: &str) -> Expression {
    Expression::String(s.to_string())
}

/// Runs a top-level form, answering each action with `world`.
fn run_with(
    env: Environment,
    source: &str,
    world: &mut dyn FnMut(Action) -> Result<Expression, Effect>,
) -> Result<(Environment, Expression), Effect> {
    let form = read(source);
    let mut step = start(env, &form);
    loop {
        match step {
            None => panic!("the evaluation aborted"),
            Some(Step::Finished(r)) => return r,
            Some(Step::Perform(action, k)) => {
                let event = world(action);
                step = resume(k, event);
            }
        }
    }
}

fn value(env: Environment, source: &str) -> Expression {
    try_evaluate_source(env, source).unwrap().unwrap().1
}

fn env_with_io() -> Environment {
    let mut env = environment();
    env.insert("io".to_string(), Expression::Module(io_module()));
    env
}

fn files(files: &'static [(&'static str, &'static str)]) -> impl FnMut(Action) -> Result<Expression, Effect> {
    move |action| match action {
        Action::ReadFile(path) => match files.iter().find(|(p, _)| *p == path) {
            Some((_, text)) => Ok(string(text)),
            None => panic!("Unexpected path {}", path),
        },
        _ => panic!("unexpected action"),
    }
}

#[test]
fn import_module_and_use_def_from_it() {
    let mut world = files(&[("foo.yeti", "(def bar 5)")]);
    let (env, _) = run_with(env_with_io(), "(import foo)", &mut world).unwrap();
    assert_eq!(value(env, "foo/bar"), integer(5));
}

#[test]
fn import_module_with_multiple_definitions() {
    let mut world = files(&[("foo.yeti", "\n    (def bar 5)\n\n    (def baz 7)\n")]);
    let (env, _) = run_with(env_with_io(), "(import foo)", &mut world).unwrap();
    assert_eq!(value(env.clone(), "foo/bar"), integer(5));
    assert_eq!(value(env, "foo/baz"), integer(7));
}

#[test]
fn import_module_with_function() {
    let mut world = files(&[("foo.yeti", "\n    (defn square [x] (* x x))\n")]);
    let (env, _) = run_with(env_with_io(), "(import foo)", &mut world).unwrap();
    assert_eq!(value(env, "(foo/square 5)"), integer(25));
}

#[test]
fn import_multiple_modules() {
    let mut world = files(&[
        ("foo.yeti", "\n    (defn square [x] (* x x))\n"),
        ("bar.yeti", "\n    (defn double [x] (* x 2))\n"),
    ]);
    let (env, _) = run_with(env_with_io(), "(import foo)", &mut world).unwrap();
    let (env, _) = run_with(env, "(import bar)", &mut world).unwrap();
    assert_eq!(value(env.clone(), "(foo/square 5)"), integer(25));
    assert_eq!(value(env, "(bar/double 5)"), integer(10));
}

#[test]
fn import_gives_nil_and_a_read_failure_is_its_failure() {
    let mut world = files(&[("foo.yeti", "(def bar 5)")]);
    let (_, v) = run_with(env_with_io(), "(import foo)", &mut world).unwrap();
    assert_eq!(v, Expression::Nil);
    let mut failing = |_: Action| Err(error("Could not read file"));
    assert_eq!(run_with(env_with_io(), "(import foo)", &mut failing), Err(error("Could not read file")));
}

#[test]
fn sql_walkthrough_asks_for_each_statement() {
    let env = repl_environment();
    let db = string("handle");
    let mut actions = Vec::new();
    let mut world = |action: Action| {
        let answer = match &action {
            Action::Connect => Ok(string("handle")),
            Action::Query(_, _, _) => Ok(Expression::Array(vec![])),
            _ => Ok(Expression::Nil),
        };
        actions.push(action);
        answer
    };
    let (env, v) = run_with(env, "(def db (sql/connect))", &mut world).unwrap();
    assert_eq!(v, Expression::Nil);
    assert_eq!(value(env.clone(), "db"), db);
    let create = "(sql/execute! db {:create-table :people :with-columns [[:name :text] [:age :integer]]})";
    let (env, v) = run_with(env, create, &mut world).unwrap();
    assert_eq!(v, Expression::Nil);
    let select = "(sql/query db {:select :* :from :people :where [:= :name \"John\"]})";
    let (env, v) = run_with(env, select, &mut world).unwrap();
    assert_eq!(v, Expression::Array(vec![]));
    let (_, _) = run_with(env, "(sql/tables db)", &mut world).unwrap();
    assert!(matches!(actions[0], Action::Connect));
    match &actions[1] {
        Action::Execute(d, text, params) => {
            assert_eq!(d, &db);
            assert_eq!(text, "CREATE TABLE people (name TEXT, age INTEGER)");
            assert!(params.is_empty());
        }
        _ => panic!("expected a statement"),
    }
    match &actions[2] {
        Action::Query(d, text, params) => {
            assert_eq!(d, &db);
            assert_eq!(text, "SELECT * FROM people WHERE name = ?");
            assert_eq!(params, &vec![string("John")]);
        }
        _ => panic!("expected a query"),
    }
    match &actions[3] {
        Action::Query(_, text, params) => {
            assert_eq!(text, "SELECT name FROM sqlite_master WHERE type = ?");
            assert_eq!(params, &vec![string("table")]);
        }
        _ => panic!("expected a query"),
    }
}

#[test]
fn start_of_a_pure_form_is_its_evaluation() {
    match start(repl_environment(), &read("(+ 1 2)")) {
        Some(Step::Finished(Ok((_, v)))) => assert_eq!(v, integer(3)),
        _ => panic!("expected a value"),
    }
    match start(repl_environment(), &read("(sql/string {:select [:a] :from :t})")) {
        Some(Step::Finished(Ok((_, v)))) => assert_eq!(v, Expression::Array(vec![string("SELECT a FROM t")])),
        _ => panic!("expected a value"),
    }
}

#[test]
fn input_output_inside_an_expression_fails() {
    match start(repl_environment(), &read("(do (sql/connect))")) {
        Some(Step::Finished(r)) => assert_eq!(r, Err(error("Input and output run only as top-level forms"))),
        _ => panic!("expected a failure"),
    }
}

#[test]
fn actions_carry_their_arguments() {
    let env = repl_environment();
    match start(env.clone(), &read("(io/write-file \"a.txt\" \"hi\")")) {
        Some(Step::Perform(Action::WriteFile(p, c), Continuation::Value(_))) => {
            assert_eq!(p, "a.txt");
            assert_eq!(c, "hi");
        }
        _ => panic!("expected a write"),
    }
    match start(env.clone(), &read("(http/get \"http://x/y\" {:query {:a \"1\"}})")) {
        Some(Step::Perform(Action::HttpGet(u, Some(o)), _)) => {
            assert_eq!(u, "http://x/y");
            assert_eq!(o, read("{:query {:a \"1\"}}"));
        }
        _ => panic!("expected a request"),
    }
    match start(env.clone(), &read("(server/start {:port 8080 :routes {\"/\" \"hi\"}})")) {
        Some(Step::Perform(Action::StartServer(_, port, Some(routes)), _)) => {
            assert_eq!(port, 8080);
            assert_eq!(routes, read("{\"/\" \"hi\"}"));
        }
        _ => panic!("expected a server"),
    }
    match start(env.clone(), &read("(server/start {:port 70000})")) {
        Some(Step::Finished(r)) => assert_eq!(r, Err(error("Port number out of range"))),
        _ => panic!("expected a failure"),
    }
    match start(env.clone(), &read("(json/from-string 5)")) {
        Some(Step::Finished(r)) => assert_eq!(r, Err(error("Expected string"))),
        _ => panic!("expected a failure"),
    }
    match start(env, &read("(json/to-string {:a 1})")) {
        Some(Step::Perform(Action::JsonEncode(v), _)) => assert_eq!(v, read("{:a 1}")),
        _ => panic!("expected an encoding"),
    }
}

#[test]
fn a_failed_action_fails_the_form() {
    let mut world = |_: Action| Err(error("Failed to open SQLite database"));
    let r = run_with(repl_environment(), "(def db (sql/connect))", &mut world);
    assert_eq!(r, Err(error("Failed to open SQLite database")));
}

#[test]
fn repl_environment_binds_the_modules() {
    let env = repl_environment();
    for name in ["sql", "io", "http", "server", "json"] {
        match value(env.clone(), name) {
            Expression::Module(m) => {
                assert_eq!(m.get(&"*name*".to_string()), Some(&string(name)));
            }
            other => panic!("expected a module, got {:?}", other),
        }
    }
    let _ = ExprMap::new();
}
