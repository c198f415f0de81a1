use vstd::prelude::*;
use crate::base::bind;
use crate::expression::{Builtin, Environment, Expression, SpecEnv, SpecExpression};
use crate::mapping::env_insert;

verus! {

/// A module's bindings: `*name*` bound to its name.
pub open spec fn named(name: Seq<char>) -> SpecEnv {
    env_insert(Seq::empty(), "*name*"@, SpecExpression::String(name))
}

/// The `sql` module: an in-memory SQLite database.
pub open spec fn spec_sql_module() -> SpecEnv {
    let e = named("sql"@);
    let e = env_insert(e, "connect"@, SpecExpression::NativeFunction(Builtin::SqlConnect));
    let e = env_insert(e, "string"@, SpecExpression::NativeFunction(Builtin::SqlString));
    let e = env_insert(e, "query"@, SpecExpression::NativeFunction(Builtin::SqlQuery));
    let e = env_insert(e, "execute!"@, SpecExpression::NativeFunction(Builtin::SqlExecute));
    env_insert(e, "tables"@, SpecExpression::NativeFunction(Builtin::SqlTables))
}

/// The `io` module: files.
pub open spec fn spec_io_module() -> SpecEnv {
    let e = named("io"@);
    let e = env_insert(e, "read-file"@, SpecExpression::NativeFunction(Builtin::IoReadFile));
    env_insert(e, "write-file"@, SpecExpression::NativeFunction(Builtin::IoWriteFile))
}

/// The `http` module: requests to other servers.
pub open spec fn spec_http_module() -> SpecEnv {
    let e = named("http"@);
    let e = env_insert(e, "get"@, SpecExpression::NativeFunction(Builtin::HttpGet));
    env_insert(e, "post"@, SpecExpression::NativeFunction(Builtin::HttpPost))
}

/// The `server` module: serving routes over HTTP.
pub open spec fn spec_server_module() -> SpecEnv {
    let e = named("server"@);
    let e = env_insert(e, "start"@, SpecExpression::NativeFunction(Builtin::ServerStart));
    env_insert(e, "stop"@, SpecExpression::NativeFunction(Builtin::ServerStop))
}

/// The `json` module: values to and from JSON text.
pub open spec fn spec_json_module() -> SpecEnv {
    let e = named("json"@);
    let e = env_insert(e, "to-string"@, SpecExpression::NativeFunction(Builtin::JsonToString));
    env_insert(e, "from-string"@, SpecExpression::NativeFunction(Builtin::JsonFromString))
}

fn named_module(name: &str) -> (e: Environment)
    ensures
        e@ == named(name@),
{
    let mut e = Environment::new();
    e.insert("*name*".to_string(), Expression::String(name.to_string()));
    e
}

/// The `html` module: documents written from their vector form.
pub open spec fn spec_html_module() -> SpecEnv {
    env_insert(named("html"@), "to-string"@, SpecExpression::NativeFunction(Builtin::HtmlToString))
}

/// The `html` module.
pub fn html_module() -> (e: Environment)
    ensures
        e@ == spec_html_module(),
{
    let mut e = named_module("html");
    bind(&mut e, "to-string", Builtin::HtmlToString);
    e
}

/// The `sql` module.
pub fn sql_module() -> (e: Environment)
    ensures
        e@ == spec_sql_module(),
{
    let mut e = named_module("sql");
    bind(&mut e, "connect", Builtin::SqlConnect);
    bind(&mut e, "string", Builtin::SqlString);
    bind(&mut e, "query", Builtin::SqlQuery);
    bind(&mut e, "execute!", Builtin::SqlExecute);
    bind(&mut e, "tables", Builtin::SqlTables);
    e
}

/// The `io` module.
pub fn io_module() -> (e: Environment)
    ensures
        e@ == spec_io_module(),
{
    let mut e = named_module("io");
    bind(&mut e, "read-file", Builtin::IoReadFile);
    bind(&mut e, "write-file", Builtin::IoWriteFile);
    e
}

/// The `http` module.
pub fn http_module() -> (e: Environment)
    ensures
        e@ == spec_http_module(),
{
    let mut e = named_module("http");
    bind(&mut e, "get", Builtin::HttpGet);
    bind(&mut e, "post", Builtin::HttpPost);
    e
}

/// The `server` module.
pub fn server_module() -> (e: Environment)
    ensures
        e@ == spec_server_module(),
{
    let mut e = named_module("server");
    bind(&mut e, "start", Builtin::ServerStart);
    bind(&mut e, "stop", Builtin::ServerStop);
    e
}

/// The `json` module.
pub fn json_module() -> (e: Environment)
    ensures
        e@ == spec_json_module(),
{
    let mut e = named_module("json");
    bind(&mut e, "to-string", Builtin::JsonToString);
    bind(&mut e, "from-string", Builtin::JsonFromString);
    e
}

} // verus!
