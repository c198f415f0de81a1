use vstd::prelude::*;
use crate::base::base_environment;
use crate::effect::{Effect, error};
use crate::evaluator::{MAX_DEPTH, evaluation, outcome, source_evaluation, try_evaluate, try_evaluate_expressions};
use crate::expression::{Builtin, Environment, Expression, SpecEnv, SpecExpression, exprs_view, lemma_exprs_view, lemma_exprs_view_push};
use crate::lexer_spec::spec_tokenize;
use crate::mapping::{env_get, env_insert, map_get};
use crate::parser::spec_parse_all;
use crate::repl::evaluate_in_turn;
use crate::semantics::{Evaluated, eval_list, performs_io};
use crate::server::spec_port;
use crate::sql::{spec_sql_string, tables_source};

verus! {

/// Work outside the program that a top-level form asks the interactive loop to do.
pub enum SpecAction {
    Connect,
    Query(SpecExpression, Seq<char>, Seq<SpecExpression>),
    Execute(SpecExpression, Seq<char>, Seq<SpecExpression>),
    ReadFile(Seq<char>),
    WriteFile(Seq<char>, Seq<char>),
    HttpGet(Seq<char>, Option<SpecExpression>),
    HttpPost(Seq<char>, Option<SpecExpression>),
    StartServer(SpecEnv, u16, Option<SpecExpression>),
    StopServer(SpecExpression),
    JsonEncode(SpecExpression),
    JsonDecode(Seq<char>),
}

/// What is done with the outcome of an action: it is the form's value, it is bound to
/// a name, or it is the source of a module to import.
pub enum SpecContinuation {
    Value(SpecEnv),
    Bind(SpecEnv, Seq<char>),
    Import(SpecEnv, Seq<char>),
}

/// Where a top-level form stands: finished, or waiting for an action to be performed.
pub enum SpecStep {
    Finished(Evaluated<(SpecEnv, SpecExpression)>),
    Perform(SpecAction, SpecContinuation),
}

/// The parts of a statement `[text params...]`.
pub open spec fn statement_parts(st: SpecExpression) -> Evaluated<(Seq<char>, Seq<SpecExpression>)> {
    match st {
        SpecExpression::Array(items) => if items.len() == 0 {
            Evaluated::Aborted
        } else {
            match items[0] {
                SpecExpression::String(t) => Evaluated::Done((t, items.skip(1))),
                _ => Evaluated::Failed("Expected string"@),
            }
        },
        _ => Evaluated::Failed("Expected array"@),
    }
}

/// The query or statement that a database and a statement description ask for.
pub open spec fn statement_action(execute: bool, db: SpecExpression, description: SpecExpression) -> Evaluated<SpecAction> {
    match spec_sql_string(description) {
        Evaluated::Done(st) => match statement_parts(st) {
            Evaluated::Done((t, ps)) => Evaluated::Done(
                if execute { SpecAction::Execute(db, t, ps) } else { SpecAction::Query(db, t, ps) },
            ),
            Evaluated::Failed(m) => Evaluated::Failed(m),
            Evaluated::Aborted => Evaluated::Aborted,
        },
        Evaluated::Failed(m) => Evaluated::Failed(m),
        Evaluated::Aborted => Evaluated::Aborted,
    }
}

/// The action a builtin asks for, given its evaluated arguments.
pub open spec fn values_action(b: Builtin, vs: Seq<SpecExpression>) -> Evaluated<SpecAction> {
    match b {
        Builtin::SqlConnect => Evaluated::Done(SpecAction::Connect),
        Builtin::SqlQuery | Builtin::SqlExecute => if vs.len() < 2 {
            Evaluated::Aborted
        } else {
            statement_action(b == Builtin::SqlExecute, vs[0], vs[1])
        },
        Builtin::IoReadFile => if vs.len() == 0 {
            Evaluated::Aborted
        } else {
            match vs[0] {
                SpecExpression::String(p) => Evaluated::Done(SpecAction::ReadFile(p)),
                _ => Evaluated::Failed("Expected string"@),
            }
        },
        Builtin::IoWriteFile => if vs.len() < 2 {
            Evaluated::Aborted
        } else {
            match (vs[0], vs[1]) {
                (SpecExpression::String(p), SpecExpression::String(c)) => Evaluated::Done(SpecAction::WriteFile(p, c)),
                _ => Evaluated::Failed("Expected string"@),
            }
        },
        Builtin::HttpGet | Builtin::HttpPost => if vs.len() == 0 {
            Evaluated::Aborted
        } else {
            match vs[0] {
                SpecExpression::String(u) => {
                    let options = if vs.len() > 1 { Some(vs[1]) } else { None };
                    Evaluated::Done(
                        if b == Builtin::HttpGet { SpecAction::HttpGet(u, options) } else { SpecAction::HttpPost(u, options) },
                    )
                },
                _ => Evaluated::Failed("Expected string"@),
            }
        },
        Builtin::JsonToString => if vs.len() == 0 {
            Evaluated::Aborted
        } else {
            Evaluated::Done(SpecAction::JsonEncode(vs[0]))
        },
        Builtin::JsonFromString => if vs.len() == 0 {
            Evaluated::Aborted
        } else {
            match vs[0] {
                SpecExpression::String(s) => Evaluated::Done(SpecAction::JsonDecode(s)),
                _ => Evaluated::Failed("Expected string"@),
            }
        },
        _ => Evaluated::Aborted,
    }
}

/// An action with the environment the form goes on in.
pub open spec fn in_env(r: Evaluated<SpecAction>, env: SpecEnv) -> Evaluated<(SpecAction, SpecEnv)> {
    match r {
        Evaluated::Done(a) => Evaluated::Done((a, env)),
        Evaluated::Failed(m) => Evaluated::Failed(m),
        Evaluated::Aborted => Evaluated::Aborted,
    }
}

/// The action that a builtin performing input or output asks for, applied to its
/// unevaluated arguments in `env`, with the environment the form goes on in.
pub open spec fn request(env: SpecEnv, b: Builtin, args: Seq<SpecExpression>) -> Evaluated<(SpecAction, SpecEnv)> {
    match b {
        Builtin::SqlTables => if args.len() == 0 {
            Evaluated::Aborted
        } else {
            match source_evaluation(env, tables_source()) {
                Evaluated::Done((env2, q)) => match eval_list(env2, seq![args[0], q], MAX_DEPTH as nat) {
                    Evaluated::Done(vs) => in_env(values_action(Builtin::SqlQuery, vs), env2),
                    Evaluated::Failed(m) => Evaluated::Failed(m),
                    Evaluated::Aborted => Evaluated::Aborted,
                },
                Evaluated::Failed(m) => Evaluated::Failed(m),
                Evaluated::Aborted => Evaluated::Aborted,
            }
        },
        Builtin::ServerStart => if args.len() == 0 {
            Evaluated::Aborted
        } else {
            match evaluation(env, args[0]) {
                Evaluated::Done((env2, v)) => match v {
                    SpecExpression::Mapping(m) => match spec_port(m) {
                        Ok(p) => Evaluated::Done((
                            SpecAction::StartServer(env2, p, map_get(m, SpecExpression::Keyword(":routes"@))),
                            env2,
                        )),
                        Err(x) => Evaluated::Failed(x),
                    },
                    _ => Evaluated::Failed("Expected map"@),
                },
                Evaluated::Failed(m) => Evaluated::Failed(m),
                Evaluated::Aborted => Evaluated::Aborted,
            }
        },
        Builtin::ServerStop => if args.len() == 0 {
            Evaluated::Aborted
        } else {
            match evaluation(env, args[0]) {
                Evaluated::Done((env2, v)) => Evaluated::Done((SpecAction::StopServer(v), env2)),
                Evaluated::Failed(m) => Evaluated::Failed(m),
                Evaluated::Aborted => Evaluated::Aborted,
            }
        },
        _ => match eval_list(env, args, MAX_DEPTH as nat) {
            Evaluated::Done(vs) => in_env(values_action(b, vs), env),
            Evaluated::Failed(m) => Evaluated::Failed(m),
            Evaluated::Aborted => Evaluated::Aborted,
        },
    }
}

/// The builtin performing input or output that `f` evaluates to, if it does.
pub open spec fn io_head(env: SpecEnv, f: SpecExpression) -> Option<Builtin> {
    match evaluation(env, f) {
        Evaluated::Done((_, SpecExpression::NativeFunction(b))) => if performs_io(b) { Some(b) } else { None },
        _ => None,
    }
}

/// `f` evaluates to `def`.
pub open spec fn is_def(env: SpecEnv, f: SpecExpression) -> bool {
    evaluation(env, f) matches Evaluated::Done((_, SpecExpression::NativeFunction(Builtin::Def)))
}

/// The step a request gives: the action, to be continued by binding or giving back its
/// outcome.
pub open spec fn perform(r: Evaluated<(SpecAction, SpecEnv)>, bind: Option<Seq<char>>) -> SpecStep {
    match r {
        Evaluated::Done((a, env)) => SpecStep::Perform(a, match bind {
            Some(name) => SpecContinuation::Bind(env, name),
            None => SpecContinuation::Value(env),
        }),
        Evaluated::Failed(m) => SpecStep::Finished(Evaluated::Failed(m)),
        Evaluated::Aborted => SpecStep::Finished(Evaluated::Aborted),
    }
}

/// `(import name)`: the file `name.yeti` is read, and then evaluated as a module.
pub open spec fn import_request(env: SpecEnv, args: Seq<SpecExpression>) -> SpecStep {
    if args.len() == 0 {
        SpecStep::Finished(Evaluated::Aborted)
    } else {
        match args[0] {
            SpecExpression::Symbol(name) => SpecStep::Perform(
                SpecAction::ReadFile(name + ".yeti"@),
                SpecContinuation::Import(env, name),
            ),
            _ => SpecStep::Finished(Evaluated::Failed("Expected keyword"@)),
        }
    }
}

/// The first step of a top-level form. A call of a builtin performing input or output,
/// directly or as the value of `def`, asks for its action; any other form is evaluated.
pub open spec fn spec_start(env: SpecEnv, form: SpecExpression) -> SpecStep {
    match form {
        SpecExpression::Call(f, args) => match io_head(env, *f) {
            Some(b) => if b == Builtin::Import {
                import_request(env, args)
            } else {
                perform(request(env, b, args), None)
            },
            None => if is_def(env, *f) && args.len() == 2 && args[0] is Symbol && args[1] is Call {
                match (args[0], args[1]) {
                    (SpecExpression::Symbol(name), SpecExpression::Call(g, gargs)) => match io_head(env, *g) {
                        Some(b) => if b == Builtin::Import {
                            SpecStep::Finished(evaluation(env, form))
                        } else {
                            perform(request(env, b, gargs), Some(name))
                        },
                        None => SpecStep::Finished(evaluation(env, form)),
                    },
                    _ => SpecStep::Finished(evaluation(env, form)),
                }
            } else {
                SpecStep::Finished(evaluation(env, form))
            },
        },
        _ => SpecStep::Finished(evaluation(env, form)),
    }
}

/// `(import name)` of a module whose source is `source`: its forms are evaluated in
/// turn, starting from the base environment with `*name*` and `io` bound, and the
/// module is bound to `name`; the import itself gives `nil`.
pub open spec fn spec_import(env: SpecEnv, name: Seq<char>, source: Seq<char>) -> Evaluated<(SpecEnv, SpecExpression)> {
    match spec_tokenize(source) {
        Some(ts) => match spec_parse_all(ts) {
            Some(es) => match env_get(env, "io"@) {
                Some(io) => {
                    let start = env_insert(env_insert(base_environment(), "*name*"@, SpecExpression::String(name)), "io"@, io);
                    match evaluate_in_turn(start, es, SpecExpression::Nil) {
                        Evaluated::Done((m, _)) => Evaluated::Done((env_insert(env, name, SpecExpression::Module(m)), SpecExpression::Nil)),
                        Evaluated::Failed(x) => Evaluated::Failed(x),
                        Evaluated::Aborted => Evaluated::Aborted,
                    }
                },
                None => Evaluated::Aborted,
            },
            None => Evaluated::Aborted,
        },
        None => Evaluated::Aborted,
    }
}

/// The step after an action was performed with the given outcome.
pub open spec fn spec_resume(k: SpecContinuation, event: Result<SpecExpression, Seq<char>>) -> SpecStep {
    match event {
        Err(x) => SpecStep::Finished(Evaluated::Failed(x)),
        Ok(v) => match k {
            SpecContinuation::Value(env) => SpecStep::Finished(Evaluated::Done((env, v))),
            SpecContinuation::Bind(env, name) => SpecStep::Finished(Evaluated::Done((env_insert(env, name, v), SpecExpression::Nil))),
            SpecContinuation::Import(env, name) => match v {
                SpecExpression::String(source) => SpecStep::Finished(spec_import(env, name, source)),
                _ => SpecStep::Finished(Evaluated::Failed("Expected string"@)),
            },
        },
    }
}

/// Work outside the program that a top-level form asks the interactive loop to do.
pub enum Action {
    /// Open an in-memory database; its handle is the outcome.
    Connect,
    /// Run a query on a database: its text and parameters; the rows are the outcome.
    Query(Expression, String, Vec<Expression>),
    /// Run a statement on a database; `nil` is the outcome.
    Execute(Expression, String, Vec<Expression>),
    /// Read a file; its text is the outcome.
    ReadFile(String),
    /// Write a file; `nil` is the outcome.
    WriteFile(String, String),
    /// Send a GET request with its options; the response map is the outcome.
    HttpGet(String, Option<Expression>),
    /// Send a POST request with its options; the response map is the outcome.
    HttpPost(String, Option<Expression>),
    /// Serve routes on a port, their handlers evaluated in the environment given; the
    /// server's handle is the outcome.
    StartServer(Environment, u16, Option<Expression>),
    /// Stop a server.
    StopServer(Expression),
    /// Write a value as JSON text; the text is the outcome.
    JsonEncode(Expression),
    /// Read JSON text; the value is the outcome.
    JsonDecode(String),
}

/// What is done with the outcome of an action.
pub enum Continuation {
    Value(Environment),
    Bind(Environment, String),
    Import(Environment, String),
}

/// Where a top-level form stands.
pub enum Step {
    Finished(Result<(Environment, Expression), Effect>),
    Perform(Action, Continuation),
}

pub open spec fn opt_view(o: &Option<Expression>) -> Option<SpecExpression> {
    match o {
        Some(e) => Some(e@),
        None => None,
    }
}

pub open spec fn action_view(a: &Action) -> SpecAction {
    match a {
        Action::Connect => SpecAction::Connect,
        Action::Query(db, t, ps) => SpecAction::Query(db@, t@, exprs_view(ps@)),
        Action::Execute(db, t, ps) => SpecAction::Execute(db@, t@, exprs_view(ps@)),
        Action::ReadFile(p) => SpecAction::ReadFile(p@),
        Action::WriteFile(p, c) => SpecAction::WriteFile(p@, c@),
        Action::HttpGet(u, o) => SpecAction::HttpGet(u@, opt_view(o)),
        Action::HttpPost(u, o) => SpecAction::HttpPost(u@, opt_view(o)),
        Action::StartServer(env, p, r) => SpecAction::StartServer(env@, *p, opt_view(r)),
        Action::StopServer(v) => SpecAction::StopServer(v@),
        Action::JsonEncode(v) => SpecAction::JsonEncode(v@),
        Action::JsonDecode(s) => SpecAction::JsonDecode(s@),
    }
}

pub open spec fn continuation_view(k: &Continuation) -> SpecContinuation {
    match k {
        Continuation::Value(env) => SpecContinuation::Value(env@),
        Continuation::Bind(env, n) => SpecContinuation::Bind(env@, n@),
        Continuation::Import(env, n) => SpecContinuation::Import(env@, n@),
    }
}

/// What an exec step stands for: `None` is an abort.
pub open spec fn step_view(r: &Option<Step>) -> SpecStep {
    match r {
        Some(Step::Finished(Ok((e, v)))) => SpecStep::Finished(Evaluated::Done((e@, v@))),
        Some(Step::Finished(Err(x))) => SpecStep::Finished(Evaluated::Failed(x@)),
        Some(Step::Perform(a, k)) => SpecStep::Perform(action_view(a), continuation_view(k)),
        None => SpecStep::Finished(Evaluated::Aborted),
    }
}

/// The outcome of an action by its view.
pub open spec fn event_view(event: &Result<Expression, Effect>) -> Result<SpecExpression, Seq<char>> {
    match event {
        Ok(v) => Ok(v@),
        Err(x) => Err(x@),
    }
}

pub open spec fn action_outcome(r: &Option<Result<Action, Effect>>) -> Evaluated<SpecAction> {
    match r {
        Some(Ok(a)) => Evaluated::Done(action_view(a)),
        Some(Err(x)) => Evaluated::Failed(x@),
        None => Evaluated::Aborted,
    }
}

pub open spec fn request_outcome(r: &Option<Result<(Action, Environment), Effect>>) -> Evaluated<(SpecAction, SpecEnv)> {
    match r {
        Some(Ok((a, env))) => Evaluated::Done((action_view(a), env@)),
        Some(Err(x)) => Evaluated::Failed(x@),
        None => Evaluated::Aborted,
    }
}

fn statement(execute: bool, db: Expression, description: &Expression) -> (r: Option<Result<Action, Effect>>)
    ensures
        action_outcome(&r) == statement_action(execute, db@, description@),
{
    match crate::sql::try_sql_string(description) {
        Some(Ok(st)) => match st {
            Expression::Array(items) => {
                proof {
                    lemma_exprs_view(items@);
                }
                if items.len() == 0 {
                    return None;
                }
                match &items[0] {
                    Expression::String(t) => {
                        let text = t.clone();
                        let params = crate::evaluator::clone_tail(&items, 1);
                        if execute {
                            Some(Ok(Action::Execute(db, text, params)))
                        } else {
                            Some(Ok(Action::Query(db, text, params)))
                        }
                    },
                    _ => Some(Err(error("Expected string"))),
                }
            },
            _ => Some(Err(error("Expected array"))),
        },
        Some(Err(x)) => Some(Err(x)),
        None => None,
    }
}

fn values_action_exec(b: Builtin, vs: &Vec<Expression>) -> (r: Option<Result<Action, Effect>>)
    ensures
        action_outcome(&r) == values_action(b, exprs_view(vs@)),
{
    proof {
        lemma_exprs_view(vs@);
    }
    match b {
        Builtin::SqlConnect => Some(Ok(Action::Connect)),
        Builtin::SqlQuery | Builtin::SqlExecute => {
            if vs.len() < 2 {
                None
            } else {
                let execute = match b {
                    Builtin::SqlExecute => true,
                    _ => false,
                };
                statement(execute, vs[0].clone(), &vs[1])
            }
        },
        Builtin::IoReadFile => {
            if vs.len() == 0 {
                None
            } else {
                match &vs[0] {
                    Expression::String(p) => Some(Ok(Action::ReadFile(p.clone()))),
                    _ => Some(Err(error("Expected string"))),
                }
            }
        },
        Builtin::IoWriteFile => {
            if vs.len() < 2 {
                None
            } else {
                match (&vs[0], &vs[1]) {
                    (Expression::String(p), Expression::String(c)) => Some(Ok(Action::WriteFile(p.clone(), c.clone()))),
                    _ => Some(Err(error("Expected string"))),
                }
            }
        },
        Builtin::HttpGet | Builtin::HttpPost => {
            if vs.len() == 0 {
                None
            } else {
                match &vs[0] {
                    Expression::String(u) => {
                        let options = if vs.len() > 1 { Some(vs[1].clone()) } else { None };
                        match b {
                            Builtin::HttpGet => Some(Ok(Action::HttpGet(u.clone(), options))),
                            _ => Some(Ok(Action::HttpPost(u.clone(), options))),
                        }
                    },
                    _ => Some(Err(error("Expected string"))),
                }
            }
        },
        Builtin::JsonToString => {
            if vs.len() == 0 {
                None
            } else {
                Some(Ok(Action::JsonEncode(vs[0].clone())))
            }
        },
        Builtin::JsonFromString => {
            if vs.len() == 0 {
                None
            } else {
                match &vs[0] {
                    Expression::String(s) => Some(Ok(Action::JsonDecode(s.clone()))),
                    _ => Some(Err(error("Expected string"))),
                }
            }
        },
        _ => None,
    }
}

fn with_env(r: Option<Result<Action, Effect>>, env: Environment) -> (o: Option<Result<(Action, Environment), Effect>>)
    ensures
        request_outcome(&o) == in_env(action_outcome(&r), env@),
{
    match r {
        Some(Ok(a)) => Some(Ok((a, env))),
        Some(Err(x)) => Some(Err(x)),
        None => None,
    }
}

fn request_exec(env: Environment, b: Builtin, args: &Vec<Expression>) -> (r: Option<Result<(Action, Environment), Effect>>)
    ensures
        request_outcome(&r) == request(env@, b, exprs_view(args@)),
{
    proof {
        lemma_exprs_view(args@);
    }
    match b {
        Builtin::SqlTables => {
            if args.len() == 0 {
                return None;
            }
            let db = args[0].clone();
            match crate::sql::try_tables_query(env) {
                Some(Ok((env2, q))) => {
                    let mut both: Vec<Expression> = Vec::new();
                    proof {
                        lemma_exprs_view_push(both@, db);
                    }
                    both.push(db);
                    proof {
                        lemma_exprs_view_push(both@, q);
                    }
                    both.push(q);
                    assert(exprs_view(both@) =~= seq![exprs_view(args@)[0], q@]);
                    match try_evaluate_expressions(&env2, &both) {
                        Some(Ok(vs)) => with_env(values_action_exec(Builtin::SqlQuery, &vs), env2),
                        Some(Err(x)) => Some(Err(x)),
                        None => None,
                    }
                },
                Some(Err(x)) => Some(Err(x)),
                None => None,
            }
        },
        Builtin::ServerStart => {
            if args.len() == 0 {
                return None;
            }
            match try_evaluate(env, &args[0]) {
                Some(Ok((env2, v))) => match v {
                    Expression::Mapping(m) => match crate::server::port(&m) {
                        Ok(p) => {
                            let routes = match m.get(&Expression::Keyword(":routes".to_string())) {
                                Some(r) => Some(r.clone()),
                                None => None,
                            };
                            Some(Ok((Action::StartServer(env2.clone(), p, routes), env2)))
                        },
                        Err(x) => Some(Err(x)),
                    },
                    _ => Some(Err(error("Expected map"))),
                },
                Some(Err(x)) => Some(Err(x)),
                None => None,
            }
        },
        Builtin::ServerStop => {
            if args.len() == 0 {
                return None;
            }
            match try_evaluate(env, &args[0]) {
                Some(Ok((env2, v))) => Some(Ok((Action::StopServer(v), env2))),
                Some(Err(x)) => Some(Err(x)),
                None => None,
            }
        },
        _ => match try_evaluate_expressions(&env, args) {
            Some(Ok(vs)) => with_env(values_action_exec(b, &vs), env),
            Some(Err(x)) => Some(Err(x)),
            None => None,
        },
    }
}

fn performs_io_exec(b: Builtin) -> (r: bool)
    ensures
        r == performs_io(b),
{
    match b {
        Builtin::SqlConnect | Builtin::SqlQuery | Builtin::SqlExecute | Builtin::SqlTables
        | Builtin::IoReadFile | Builtin::IoWriteFile | Builtin::Import | Builtin::HttpGet
        | Builtin::HttpPost | Builtin::ServerStart | Builtin::ServerStop | Builtin::JsonToString
        | Builtin::JsonFromString => true,
        _ => false,
    }
}

fn io_head_exec(env: &Environment, f: &Expression) -> (r: Option<Builtin>)
    ensures
        r == io_head(env@, f@),
{
    match try_evaluate(env.clone(), f) {
        Some(Ok((_, Expression::NativeFunction(b)))) => if performs_io_exec(b) { Some(b) } else { None },
        _ => None,
    }
}

fn is_def_exec(env: &Environment, f: &Expression) -> (r: bool)
    ensures
        r == is_def(env@, f@),
{
    match try_evaluate(env.clone(), f) {
        Some(Ok((_, Expression::NativeFunction(Builtin::Def)))) => true,
        _ => false,
    }
}

fn perform_exec(r: Option<Result<(Action, Environment), Effect>>, bind: Option<String>) -> (s: Option<Step>)
    ensures
        step_view(&s) == perform(request_outcome(&r), match bind { Some(n) => Some(n@), None => None }),
{
    match r {
        Some(Ok((a, env))) => match bind {
            Some(name) => Some(Step::Perform(a, Continuation::Bind(env, name))),
            None => Some(Step::Perform(a, Continuation::Value(env))),
        },
        Some(Err(x)) => Some(Step::Finished(Err(x))),
        None => None,
    }
}

fn evaluate_step(env: Environment, form: &Expression) -> (s: Option<Step>)
    ensures
        step_view(&s) == SpecStep::Finished(evaluation(env@, form@)),
{
    match try_evaluate(env, form) {
        Some(r) => Some(Step::Finished(r)),
        None => None,
    }
}

/// The first step of a top-level form; `None` where it aborts.
pub fn start(env: Environment, form: &Expression) -> (s: Option<Step>)
    ensures
        step_view(&s) == spec_start(env@, form@),
{
    match form {
        Expression::Call(call) => {
            let args = &call.arguments;
            proof {
                lemma_exprs_view(args@);
            }
            match io_head_exec(&env, &call.function) {
                Some(b) => match b {
                    Builtin::Import => {
                        if args.len() == 0 {
                            None
                        } else {
                            match &args[0] {
                                Expression::Symbol(name) => {
                                    let mut path = name.clone();
                                    crate::printer::push_all(&mut path, ".yeti");
                                    Some(Step::Perform(Action::ReadFile(path), Continuation::Import(env, name.clone())))
                                },
                                _ => Some(Step::Finished(Err(error("Expected keyword")))),
                            }
                        }
                    },
                    _ => perform_exec(request_exec(env, b, args), None),
                },
                None => {
                    if is_def_exec(&env, &call.function) && args.len() == 2 {
                        match (&args[0], &args[1]) {
                            (Expression::Symbol(name), Expression::Call(inner)) => {
                                proof {
                                    lemma_exprs_view(inner.arguments@);
                                }
                                match io_head_exec(&env, &inner.function) {
                                    Some(b) => match b {
                                        Builtin::Import => evaluate_step(env, form),
                                        _ => perform_exec(request_exec(env, b, &inner.arguments), Some(name.clone())),
                                    },
                                    None => evaluate_step(env, form),
                                }
                            },
                            _ => evaluate_step(env, form),
                        }
                    } else {
                        evaluate_step(env, form)
                    }
                },
            }
        },
        _ => evaluate_step(env, form),
    }
}

/// `(import name)` of a module whose source is `source`; `None` where it aborts.
pub fn try_import(env: Environment, name: String, source: &str) -> (r: Option<Result<(Environment, Expression), Effect>>)
    ensures
        outcome(r) == spec_import(env@, name@, source@),
{
    let tokens = match crate::tokenizer::try_tokenize(source) {
        Some(ts) => ts,
        None => return None,
    };
    let es = match crate::parser::try_parse_all(tokens.as_slice()) {
        Some(es) => es,
        None => return None,
    };
    let io = match env.get(&"io".to_string()) {
        Some(io) => io.clone(),
        None => return None,
    };
    let mut module = crate::base::environment();
    module.insert("*name*".to_string(), Expression::String(name.clone()));
    module.insert("io".to_string(), io);
    match crate::repl::try_evaluate_all(module, es.as_slice()) {
        Some(Ok((m, _))) => {
            let mut env = env;
            env.insert(name, Expression::Module(m));
            Some(Ok((env, Expression::Nil)))
        },
        Some(Err(x)) => Some(Err(x)),
        None => None,
    }
}

/// The step after an action was performed with the outcome `event`; `None` where it
/// aborts.
pub fn resume(k: Continuation, event: Result<Expression, Effect>) -> (s: Option<Step>)
    ensures
        step_view(&s) == spec_resume(continuation_view(&k), event_view(&event)),
{
    match event {
        Err(x) => Some(Step::Finished(Err(x))),
        Ok(v) => match k {
            Continuation::Value(env) => Some(Step::Finished(Ok((env, v)))),
            Continuation::Bind(env, name) => {
                let mut env = env;
                env.insert(name, v);
                Some(Step::Finished(Ok((env, Expression::Nil))))
            },
            Continuation::Import(env, name) => match v {
                Expression::String(source) => match try_import(env, name, source.as_str()) {
                    Some(r) => Some(Step::Finished(r)),
                    None => None,
                },
                _ => Some(Step::Finished(Err(error("Expected string")))),
            },
        },
    }
}

} // verus!
