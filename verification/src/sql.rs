use vstd::prelude::*;
use crate::builtins::value_outcome;
use crate::effect::{Effect, error};
use crate::expression::{Environment, ExprMap, Expression, SpecEnv, SpecExpression, SpecPairs, exprs_view, lemma_exprs_view, lemma_exprs_view_push};
use crate::mapping::map_get;
use crate::expression::spec_order;
use crate::numerics::int_to_decimal;
use crate::printer::push_all;
use crate::semantics::Evaluated;
use crate::evaluator::{MAX_DEPTH, outcome, source_evaluation, try_evaluate_expressions, try_evaluate_source};

verus! {

/// What `str::to_uppercase` makes of a string.
pub uninterp spec fn uppercase(s: Seq<char>) -> Seq<char>;

/// Every character is ASCII.
pub open spec fn all_ascii(s: Seq<char>) -> bool {
    forall|i: int| 0 <= i < s.len() ==> (#[trigger] s[i] as u32) < 128
}

/// ASCII lower-case letters made upper-case, every other character kept.
pub open spec fn ascii_upper(s: Seq<char>) -> Seq<char> {
    s.map_values(|c: char| if 'a' <= c && c <= 'z' { ((c as u32) - 32) as char } else { c })
}

/// `str::to_uppercase`: the upper-case mapping of every character. Claimed: the result
/// is the named upper-case form of the argument; on ASCII text, lower-case letters
/// become upper-case and every other character stays as it is.
#[verifier::external_body]
fn to_uppercase(s: &String) -> (r: String)
    ensures
        r@ == uppercase(s@),
        all_ascii(s@) ==> r@ == ascii_upper(s@),
{
    s.to_uppercase()
}

/// A type or attribute name written upper-case: on ASCII text the lower-case letters
/// made upper-case, otherwise what `str::to_uppercase` makes of it.
pub open spec fn upper(s: Seq<char>) -> Seq<char> {
    if all_ascii(s) { ascii_upper(s) } else { uppercase(s) }
}

/// The name a keyword spells without its first character (its colon); an abort where
/// the keyword is empty or starts with a character that takes several bytes.
pub open spec fn keyword_name(k: Seq<char>) -> Evaluated<Seq<char>> {
    if k.len() == 0 || (k[0] as u32) >= 128 {
        Evaluated::Aborted
    } else {
        Evaluated::Done(k.skip(1))
    }
}

/// The name of a keyword expression; anything else is an error.
pub open spec fn keyword_of(e: SpecExpression) -> Evaluated<Seq<char>> {
    match e {
        SpecExpression::Keyword(k) => keyword_name(k),
        _ => Evaluated::Failed("Expected keyword"@),
    }
}

/// The value bound to the keyword `key` in a statement map.
pub open spec fn required_key(m: SpecPairs, key: Seq<char>) -> Evaluated<SpecExpression> {
    match map_get(m, SpecExpression::Keyword(key)) {
        Some(v) => Evaluated::Done(v),
        None => Evaluated::Failed("Expected keyword "@ + key),
    }
}

/// The elements of an array expression; anything else is an error.
pub open spec fn array_of(e: SpecExpression) -> Evaluated<Seq<SpecExpression>> {
    match e {
        SpecExpression::Array(xs) => Evaluated::Done(xs),
        _ => Evaluated::Failed("Expected array"@),
    }
}

/// The attributes of a column after its type: keywords and `[:attr nil]` pairs, each
/// written upper-case after a space.
pub open spec fn attributes_sql(attrs: Seq<SpecExpression>, acc: Seq<char>) -> Evaluated<Seq<char>>
    decreases attrs.len(),
{
    if attrs.len() == 0 {
        Evaluated::Done(acc)
    } else {
        match attrs[0] {
            SpecExpression::Keyword(k) => match keyword_name(k) {
                Evaluated::Done(a) => attributes_sql(attrs.skip(1), acc + seq![' '] + upper(a)),
                Evaluated::Failed(m) => Evaluated::Failed(m),
                Evaluated::Aborted => Evaluated::Aborted,
            },
            SpecExpression::Array(xs) => if xs.len() == 0 {
                Evaluated::Aborted
            } else {
                match keyword_of(xs[0]) {
                    Evaluated::Done(a) => if xs.len() < 2 {
                        Evaluated::Aborted
                    } else if xs[1] is Nil {
                        attributes_sql(attrs.skip(1), acc + seq![' '] + upper(a) + " NULL"@)
                    } else {
                        Evaluated::Failed("Expected nil"@)
                    },
                    Evaluated::Failed(m) => Evaluated::Failed(m),
                    Evaluated::Aborted => Evaluated::Aborted,
                }
            },
            _ => Evaluated::Failed("Expected keyword"@),
        }
    }
}

/// The type of a column: a keyword, or a `[:type size]` pair, written upper-case.
pub open spec fn column_type_sql(t: SpecExpression) -> Evaluated<Seq<char>> {
    match t {
        SpecExpression::Keyword(k) => match keyword_name(k) {
            Evaluated::Done(n) => Evaluated::Done(seq![' '] + upper(n)),
            Evaluated::Failed(m) => Evaluated::Failed(m),
            Evaluated::Aborted => Evaluated::Aborted,
        },
        SpecExpression::Array(xs) => if xs.len() == 0 {
            Evaluated::Aborted
        } else {
            match keyword_of(xs[0]) {
                Evaluated::Done(n) => if xs.len() < 2 {
                    Evaluated::Aborted
                } else {
                    match xs[1] {
                        SpecExpression::Integer(size) => Evaluated::Done(
                            seq![' '] + upper(n) + seq!['('] + int_to_decimal(size) + seq![')'],
                        ),
                        _ => Evaluated::Failed("Expected integer"@),
                    }
                },
                Evaluated::Failed(m) => Evaluated::Failed(m),
                Evaluated::Aborted => Evaluated::Aborted,
            }
        },
        _ => Evaluated::Failed("Expected keyword"@),
    }
}

/// One column definition of `CREATE TABLE`: name, type, attributes.
pub open spec fn column_sql(col: SpecExpression) -> Evaluated<Seq<char>> {
    match array_of(col) {
        Evaluated::Done(c) => if c.len() == 0 {
            Evaluated::Aborted
        } else {
            match keyword_of(c[0]) {
                Evaluated::Done(name) => if c.len() < 2 {
                    Evaluated::Aborted
                } else {
                    match column_type_sql(c[1]) {
                        Evaluated::Done(t) => attributes_sql(c.skip(2), name + t),
                        Evaluated::Failed(m) => Evaluated::Failed(m),
                        Evaluated::Aborted => Evaluated::Aborted,
                    }
                },
                Evaluated::Failed(m) => Evaluated::Failed(m),
                Evaluated::Aborted => Evaluated::Aborted,
            }
        },
        Evaluated::Failed(m) => Evaluated::Failed(m),
        Evaluated::Aborted => Evaluated::Aborted,
    }
}

/// Column definitions appended to `acc`, separated by a comma and a space.
pub open spec fn columns_sql(cols: Seq<SpecExpression>, first: bool, acc: Seq<char>) -> Evaluated<Seq<char>>
    decreases cols.len(),
{
    if cols.len() == 0 {
        Evaluated::Done(acc)
    } else {
        match column_sql(cols[0]) {
            Evaluated::Done(c) => columns_sql(cols.skip(1), false, acc + (if first { seq![] } else { seq![',', ' '] }) + c),
            Evaluated::Failed(m) => Evaluated::Failed(m),
            Evaluated::Aborted => Evaluated::Aborted,
        }
    }
}

/// `CREATE TABLE name (columns...)`, as a one-element array holding the statement.
pub open spec fn create_table_sql(m: SpecPairs, table: SpecExpression) -> Evaluated<SpecExpression> {
    match keyword_of(table) {
        Evaluated::Done(name) => match required_key(m, ":with-columns"@) {
            Evaluated::Done(c) => match array_of(c) {
                Evaluated::Done(cols) => match columns_sql(cols, true, "CREATE TABLE "@ + name + " ("@) {
                    Evaluated::Done(s) => Evaluated::Done(SpecExpression::Array(seq![SpecExpression::String(s + seq![')'])])),
                    Evaluated::Failed(msg) => Evaluated::Failed(msg),
                    Evaluated::Aborted => Evaluated::Aborted,
                },
                Evaluated::Failed(msg) => Evaluated::Failed(msg),
                Evaluated::Aborted => Evaluated::Aborted,
            },
            Evaluated::Failed(msg) => Evaluated::Failed(msg),
            Evaluated::Aborted => Evaluated::Aborted,
        },
        Evaluated::Failed(msg) => Evaluated::Failed(msg),
        Evaluated::Aborted => Evaluated::Aborted,
    }
}

/// Column names appended to `acc`, separated by `sep`.
pub open spec fn names_sql(cols: Seq<SpecExpression>, first: bool, sep: Seq<char>, acc: Seq<char>) -> Evaluated<Seq<char>>
    decreases cols.len(),
{
    if cols.len() == 0 {
        Evaluated::Done(acc)
    } else {
        match keyword_of(cols[0]) {
            Evaluated::Done(n) => names_sql(cols.skip(1), false, sep, acc + (if first { seq![] } else { sep }) + n),
            Evaluated::Failed(m) => Evaluated::Failed(m),
            Evaluated::Aborted => Evaluated::Aborted,
        }
    }
}

/// Column names of a select appended to `acc`, each after a space, separated by commas.
pub open spec fn select_names_sql(cols: Seq<SpecExpression>, first: bool, acc: Seq<char>) -> Evaluated<Seq<char>>
    decreases cols.len(),
{
    if cols.len() == 0 {
        Evaluated::Done(acc)
    } else {
        match keyword_of(cols[0]) {
            Evaluated::Done(n) => select_names_sql(cols.skip(1), false, acc + (if first { seq![] } else { seq![','] }) + seq![' '] + n),
            Evaluated::Failed(m) => Evaluated::Failed(m),
            Evaluated::Aborted => Evaluated::Aborted,
        }
    }
}

/// `count` question marks separated by a comma and a space.
pub open spec fn placeholders(count: nat) -> Seq<char>
    decreases count,
{
    if count == 0 {
        seq![]
    } else if count == 1 {
        seq!['?']
    } else {
        placeholders((count - 1) as nat) + seq![',', ' ', '?']
    }
}

/// `count` groups ` (placeholder)` separated by commas.
pub open spec fn value_groups(count: nat, placeholder: Seq<char>) -> Seq<char>
    decreases count,
{
    if count == 0 {
        seq![]
    } else if count == 1 {
        seq![' ', '('] + placeholder + seq![')']
    } else {
        value_groups((count - 1) as nat, placeholder) + seq![',', ' ', '('] + placeholder + seq![')']
    }
}

/// The values of every row, one after the other, appended to `acc`.
pub open spec fn row_values(rows: Seq<SpecExpression>, acc: Seq<SpecExpression>) -> Evaluated<Seq<SpecExpression>>
    decreases rows.len(),
{
    if rows.len() == 0 {
        Evaluated::Done(acc)
    } else {
        match array_of(rows[0]) {
            Evaluated::Done(r) => row_values(rows.skip(1), acc + r),
            Evaluated::Failed(m) => Evaluated::Failed(m),
            Evaluated::Aborted => Evaluated::Aborted,
        }
    }
}

/// The statement array of `INSERT INTO`, from its rows' values.
pub open spec fn insert_rows(r: Evaluated<Seq<SpecExpression>>) -> Evaluated<SpecExpression> {
    match r {
        Evaluated::Done(all) => Evaluated::Done(SpecExpression::Array(all)),
        Evaluated::Failed(msg) => Evaluated::Failed(msg),
        Evaluated::Aborted => Evaluated::Aborted,
    }
}

/// The rest of `INSERT INTO` once its head (up to the column names) is written.
pub open spec fn insert_with_head(m: SpecPairs, ncols: nat, head: Evaluated<Seq<char>>) -> Evaluated<SpecExpression> {
    match head {
        Evaluated::Done(h) => match required_key(m, ":values"@) {
            Evaluated::Done(v) => match array_of(v) {
                Evaluated::Done(rows) => {
                    let s = h + ") VALUES"@ + value_groups(rows.len(), placeholders(ncols));
                    insert_rows(row_values(rows, seq![SpecExpression::String(s)]))
                },
                Evaluated::Failed(msg) => Evaluated::Failed(msg),
                Evaluated::Aborted => Evaluated::Aborted,
            },
            Evaluated::Failed(msg) => Evaluated::Failed(msg),
            Evaluated::Aborted => Evaluated::Aborted,
        },
        Evaluated::Failed(msg) => Evaluated::Failed(msg),
        Evaluated::Aborted => Evaluated::Aborted,
    }
}

/// `INSERT INTO name (columns...) VALUES (?, ...), ...` followed by every row's values.
pub open spec fn insert_into_sql(m: SpecPairs, table: SpecExpression) -> Evaluated<SpecExpression> {
    match keyword_of(table) {
        Evaluated::Done(name) => match required_key(m, ":columns"@) {
            Evaluated::Done(c) => match array_of(c) {
                Evaluated::Done(cols) => insert_with_head(
                    m,
                    cols.len(),
                    names_sql(cols, true, seq![',', ' '], "INSERT INTO "@ + name + " ("@),
                ),
                Evaluated::Failed(msg) => Evaluated::Failed(msg),
                Evaluated::Aborted => Evaluated::Aborted,
            },
            Evaluated::Failed(msg) => Evaluated::Failed(msg),
            Evaluated::Aborted => Evaluated::Aborted,
        },
        Evaluated::Failed(msg) => Evaluated::Failed(msg),
        Evaluated::Aborted => Evaluated::Aborted,
    }
}

/// The comparison that a `:where` operator keyword stands for.
pub open spec fn operator_sql(op: Seq<char>) -> Option<Seq<char>> {
    if op == ":="@ {
        Some("="@)
    } else if op == ":!="@ {
        Some("!="@)
    } else if op == ":<"@ {
        Some("<"@)
    } else if op == ":<="@ {
        Some("<="@)
    } else if op == ":>"@ {
        Some(">"@)
    } else if op == ":>="@ {
        Some(">="@)
    } else {
        None
    }
}

/// The `WHERE` clause of a select: ` WHERE column op ?` and the compared value.
pub open spec fn where_sql(w: SpecExpression) -> Evaluated<(Seq<char>, SpecExpression)> {
    match array_of(w) {
        Evaluated::Done(ws) => if ws.len() == 0 {
            Evaluated::Aborted
        } else {
            match ws[0] {
                SpecExpression::Keyword(op) => match operator_sql(op) {
                    Some(o) => if ws.len() < 2 {
                        Evaluated::Aborted
                    } else {
                        match keyword_of(ws[1]) {
                            Evaluated::Done(lhs) => if ws.len() < 3 {
                                Evaluated::Aborted
                            } else {
                                Evaluated::Done((" WHERE "@ + lhs + seq![' '] + o + " ?"@, ws[2]))
                            },
                            Evaluated::Failed(msg) => Evaluated::Failed(msg),
                            Evaluated::Aborted => Evaluated::Aborted,
                        }
                    },
                    None => Evaluated::Failed("Unsupported operator "@ + op),
                },
                _ => Evaluated::Failed("Expected keyword"@),
            }
        },
        Evaluated::Failed(msg) => Evaluated::Failed(msg),
        Evaluated::Aborted => Evaluated::Aborted,
    }
}

/// The rest of a select once its head (up to the column names) is written.
pub open spec fn select_with_head(m: SpecPairs, head: Evaluated<Seq<char>>) -> Evaluated<SpecExpression> {
    match head {
        Evaluated::Done(h) => match required_key(m, ":from"@) {
            Evaluated::Done(f) => match keyword_of(f) {
                Evaluated::Done(from) => {
                    let s = h + " FROM "@ + from;
                    match map_get(m, SpecExpression::Keyword(":where"@)) {
                        Some(w) => match where_sql(w) {
                            Evaluated::Done((clause, rhs)) => Evaluated::Done(
                                SpecExpression::Array(seq![SpecExpression::String(s + clause), rhs]),
                            ),
                            Evaluated::Failed(msg) => Evaluated::Failed(msg),
                            Evaluated::Aborted => Evaluated::Aborted,
                        },
                        None => Evaluated::Done(SpecExpression::Array(seq![SpecExpression::String(s)])),
                    }
                },
                Evaluated::Failed(msg) => Evaluated::Failed(msg),
                Evaluated::Aborted => Evaluated::Aborted,
            },
            Evaluated::Failed(msg) => Evaluated::Failed(msg),
            Evaluated::Aborted => Evaluated::Aborted,
        },
        Evaluated::Failed(msg) => Evaluated::Failed(msg),
        Evaluated::Aborted => Evaluated::Aborted,
    }
}

/// The columns a select names: an array of keywords or a single keyword.
pub open spec fn select_columns(columns: SpecExpression) -> Option<Seq<SpecExpression>> {
    match columns {
        SpecExpression::Array(xs) => Some(xs),
        SpecExpression::Keyword(k) => Some(seq![SpecExpression::Keyword(k)]),
        _ => None,
    }
}

/// `SELECT columns FROM table [WHERE column op ?]`, with the compared value after it.
pub open spec fn select_sql(m: SpecPairs, columns: SpecExpression) -> Evaluated<SpecExpression> {
    match select_columns(columns) {
        None => Evaluated::Failed("Expected array or keyword"@),
        Some(cs) => select_with_head(m, select_names_sql(cs, true, "SELECT"@)),
    }
}

/// The SQL statement a map describes, with its parameters: `:create-table`,
/// `:insert-into` or `:select`, tried in that order.
pub open spec fn spec_sql_string(e: SpecExpression) -> Evaluated<SpecExpression> {
    match e {
        SpecExpression::Mapping(m) => match map_get(m, SpecExpression::Keyword(":create-table"@)) {
            Some(t) => create_table_sql(m, t),
            None => match map_get(m, SpecExpression::Keyword(":insert-into"@)) {
                Some(t) => insert_into_sql(m, t),
                None => match map_get(m, SpecExpression::Keyword(":select"@)) {
                    Some(c) => select_sql(m, c),
                    None => Evaluated::Failed("Unsupported SQL operation"@),
                },
            },
        },
        _ => Evaluated::Failed("Expected map"@),
    }
}

/// The statement array of `CREATE TABLE`, from its text so far.
pub open spec fn create_table_result(r: Evaluated<Seq<char>>) -> Evaluated<SpecExpression> {
    match r {
        Evaluated::Done(s) => Evaluated::Done(SpecExpression::Array(seq![SpecExpression::String(s + seq![')'])])),
        Evaluated::Failed(msg) => Evaluated::Failed(msg),
        Evaluated::Aborted => Evaluated::Aborted,
    }
}

/// What an exec computation of text stands for.
pub open spec fn text_outcome(r: Option<Result<String, Effect>>) -> Evaluated<Seq<char>> {
    match r {
        Some(Ok(t)) => Evaluated::Done(t@),
        Some(Err(x)) => Evaluated::Failed(x@),
        None => Evaluated::Aborted,
    }
}

/// The name a keyword spells without its colon; `None` where that aborts.
fn keyword_name_exec(k: &String) -> (r: Option<String>)
    ensures
        match keyword_name(k@) {
            Evaluated::Done(n) => r matches Some(t) && t@ == n,
            _ => r is None,
        },
{
    let chars = crate::strings::chars_of(k.as_str());
    if chars.len() == 0 || (chars[0] as u32) >= 128 {
        return None;
    }
    Some(crate::strings::string_from_chars(&chars, 1, chars.len()))
}

fn keyword_of_exec(e: &Expression) -> (r: Option<Result<String, Effect>>)
    ensures
        text_outcome(r) == keyword_of(e@),
{
    match e {
        Expression::Keyword(k) => match keyword_name_exec(k) {
            Some(n) => Some(Ok(n)),
            None => None,
        },
        _ => Some(Err(error("Expected keyword"))),
    }
}

fn required_key_exec<'a>(m: &'a ExprMap, key: &str) -> (r: Result<&'a Expression, Effect>)
    ensures
        match r {
            Ok(v) => required_key(m@, key@) == Evaluated::Done(v@),
            Err(x) => required_key(m@, key@) == Evaluated::<SpecExpression>::Failed(x@),
        },
{
    let k = Expression::Keyword(key.to_string());
    match m.get(&k) {
        Some(v) => Ok(v),
        None => {
            let mut s = String::new();
            push_all(&mut s, "Expected keyword ");
            push_all(&mut s, key);
            Err(Effect::Error(s))
        },
    }
}

fn attributes_exec(c: &Vec<Expression>, prefix: String) -> (r: Option<Result<String, Effect>>)
    requires
        c.len() >= 2,
    ensures
        text_outcome(r) == attributes_sql(exprs_view(c@).skip(2), prefix@),
{
    let ghost all = exprs_view(c@);
    proof {
        lemma_exprs_view(c@);
    }
    let ghost acc0 = prefix@;
    let mut acc = prefix;
    let mut i: usize = 2;
    while i < c.len()
        invariant
            2 <= i <= c.len(),
            acc0 == prefix@,
            all == exprs_view(c@),
            all.len() == c.len(),
            forall|j: int| 0 <= j < c.len() ==> #[trigger] all[j] == c@[j]@,
            attributes_sql(all.skip(2), acc0) == attributes_sql(all.skip(i as int), acc@),
        decreases c.len() - i,
    {
        proof {
            assert(all.skip(i as int)[0] == all[i as int]);
            assert(all.skip(i as int).skip(1) =~= all.skip(i + 1));
        }
        match &c[i] {
            Expression::Keyword(k) => match keyword_name_exec(k) {
                Some(a) => {
                    let ghost before = acc@;
                    acc.push(' ');
                    let up = to_uppercase(&a);
                    push_all(&mut acc, up.as_str());
                    assert(acc@ =~= before + seq![' '] + upper(a@));
                },
                None => {
                    return None;
                },
            },
            Expression::Array(xs) => {
                proof {
                    lemma_exprs_view(xs@);
                }
                if xs.len() == 0 {
                    return None;
                }
                match keyword_of_exec(&xs[0]) {
                    Some(Ok(a)) => {
                        if xs.len() < 2 {
                            return None;
                        }
                        match &xs[1] {
                            Expression::Nil => {
                                let ghost before = acc@;
                                acc.push(' ');
                                let up = to_uppercase(&a);
                                push_all(&mut acc, up.as_str());
                                push_all(&mut acc, " NULL");
                                assert(acc@ =~= before + seq![' '] + upper(a@) + " NULL"@);
                            },
                            _ => {
                                return Some(Err(error("Expected nil")));
                            },
                        }
                    },
                    Some(Err(x)) => {
                        return Some(Err(x));
                    },
                    None => {
                        return None;
                    },
                }
            },
            _ => {
                return Some(Err(error("Expected keyword")));
            },
        }
        i = i + 1;
    }
    assert(all.skip(i as int).len() == 0);
    Some(Ok(acc))
}

fn column_type_exec(t: &Expression) -> (r: Option<Result<String, Effect>>)
    ensures
        text_outcome(r) == column_type_sql(t@),
{
    match t {
        Expression::Keyword(k) => match keyword_name_exec(k) {
            Some(n) => {
                let mut s = String::new();
                s.push(' ');
                let up = to_uppercase(&n);
                push_all(&mut s, up.as_str());
                assert(s@ =~= seq![' '] + upper(n@));
                Some(Ok(s))
            },
            None => None,
        },
        Expression::Array(xs) => {
            proof {
                lemma_exprs_view(xs@);
            }
            if xs.len() == 0 {
                return None;
            }
            match keyword_of_exec(&xs[0]) {
                Some(Ok(n)) => {
                    if xs.len() < 2 {
                        return None;
                    }
                    match &xs[1] {
                        Expression::Integer(size) => {
                            let mut s = String::new();
                            s.push(' ');
                            let up = to_uppercase(&n);
                            push_all(&mut s, up.as_str());
                            s.push('(');
                            push_all(&mut s, size.text().as_str());
                            s.push(')');
                            assert(s@ =~= seq![' '] + upper(n@) + seq!['('] + int_to_decimal(size.value()) + seq![')']);
                            Some(Ok(s))
                        },
                        _ => Some(Err(error("Expected integer"))),
                    }
                },
                Some(Err(x)) => Some(Err(x)),
                None => None,
            }
        },
        _ => Some(Err(error("Expected keyword"))),
    }
}

fn column_exec(col: &Expression) -> (r: Option<Result<String, Effect>>)
    ensures
        text_outcome(r) == column_sql(col@),
{
    match col {
        Expression::Array(c) => {
            proof {
                lemma_exprs_view(c@);
            }
            if c.len() == 0 {
                return None;
            }
            match keyword_of_exec(&c[0]) {
                Some(Ok(name)) => {
                    if c.len() < 2 {
                        return None;
                    }
                    match column_type_exec(&c[1]) {
                        Some(Ok(t)) => {
                            let mut acc = name;
                            push_all(&mut acc, t.as_str());
                            assert(exprs_view(c@)[0] == c@[0]@);
                            assert(exprs_view(c@)[1] == c@[1]@);
                            attributes_exec(c, acc)
                        },
                        Some(Err(x)) => Some(Err(x)),
                        None => None,
                    }
                },
                Some(Err(x)) => Some(Err(x)),
                None => None,
            }
        },
        _ => Some(Err(error("Expected array"))),
    }
}

fn create_table(m: &ExprMap, table: &Expression) -> (r: Option<Result<Expression, Effect>>)
    ensures
        value_outcome(r) == create_table_sql(m@, table@),
{
    let name = match keyword_of_exec(table) {
        Some(Ok(n)) => n,
        Some(Err(x)) => {
            return Some(Err(x));
        },
        None => {
            return None;
        },
    };
    let c = match required_key_exec(m, ":with-columns") {
        Ok(c) => c,
        Err(x) => {
            return Some(Err(x));
        },
    };
    let cols = match c {
        Expression::Array(cols) => cols,
        _ => {
            return Some(Err(error("Expected array")));
        },
    };
    let ghost all = exprs_view(cols@);
    proof {
        lemma_exprs_view(cols@);
    }
    let mut acc = String::new();
    push_all(&mut acc, "CREATE TABLE ");
    push_all(&mut acc, name.as_str());
    push_all(&mut acc, " (");
    let ghost acc0 = acc@;
    assert(all.skip(0) =~= all);
    assert(create_table_sql(m@, table@) == create_table_result(columns_sql(all, true, acc0)));
    let mut i: usize = 0;
    while i < cols.len()
        invariant
            i <= cols.len(),
            create_table_sql(m@, table@) == create_table_result(columns_sql(all, true, acc0)),
            all == exprs_view(cols@),
            all.len() == cols.len(),
            forall|j: int| 0 <= j < cols.len() ==> #[trigger] all[j] == cols@[j]@,
            columns_sql(all, true, acc0) == columns_sql(all.skip(i as int), i == 0, acc@),
        decreases cols.len() - i,
    {
        proof {
            assert(all.skip(i as int)[0] == all[i as int]);
            assert(all.skip(i as int).skip(1) =~= all.skip(i + 1));
        }
        match column_exec(&cols[i]) {
            Some(Ok(text)) => {
                let ghost before = acc@;
                if i > 0 {
                    push_all(&mut acc, ", ");
                }
                push_all(&mut acc, text.as_str());
                proof {
                    reveal_strlit(", ");
                    assert(acc@ =~= before + (if i == 0 { Seq::<char>::empty() } else { seq![',', ' '] }) + text@);
                }
            },
            Some(Err(x)) => {
                return Some(Err(x));
            },
            None => {
                return None;
            },
        }
        i = i + 1;
    }
    assert(all.skip(i as int).len() == 0);
    let ghost pre = acc@;
    assert(columns_sql(all.skip(i as int), i == 0, pre) == Evaluated::<Seq<char>>::Done(pre));
    acc.push(')');
    assert(acc@ == pre + seq![')']);
    let mut out: Vec<Expression> = Vec::new();
    let st = Expression::String(acc);
    proof {
        lemma_exprs_view_push(out@, st);
    }
    out.push(st);
    assert(exprs_view(out@) =~= seq![st@]);
    Some(Ok(Expression::Array(out)))
}

/// Column names appended to `prefix`, separated by `sep` (or, for a select, each after
/// a space and separated by commas).
fn names_exec(cols: &Vec<Expression>, prefix: String, select: bool) -> (r: Option<Result<String, Effect>>)
    ensures
        text_outcome(r) == if select {
            select_names_sql(exprs_view(cols@), true, prefix@)
        } else {
            names_sql(exprs_view(cols@), true, seq![',', ' '], prefix@)
        },
{
    let ghost all = exprs_view(cols@);
    proof {
        lemma_exprs_view(cols@);
        assert(all.skip(0) =~= all);
    }
    let ghost acc0 = prefix@;
    let mut acc = prefix;
    let mut i: usize = 0;
    while i < cols.len()
        invariant
            i <= cols.len(),
            acc0 == prefix@,
            all == exprs_view(cols@),
            all.len() == cols.len(),
            forall|j: int| 0 <= j < cols.len() ==> #[trigger] all[j] == cols@[j]@,
            select ==> select_names_sql(all, true, acc0) == select_names_sql(all.skip(i as int), i == 0, acc@),
            !select ==> names_sql(all, true, seq![',', ' '], acc0) == names_sql(all.skip(i as int), i == 0, seq![',', ' '], acc@),
        decreases cols.len() - i,
    {
        proof {
            assert(all.skip(i as int)[0] == all[i as int]);
            assert(all.skip(i as int).skip(1) =~= all.skip(i + 1));
        }
        match keyword_of_exec(&cols[i]) {
            Some(Ok(n)) => {
                let ghost before = acc@;
                if select {
                    if i > 0 {
                        acc.push(',');
                    }
                    acc.push(' ');
                    push_all(&mut acc, n.as_str());
                    assert(acc@ =~= before + (if i == 0 { Seq::<char>::empty() } else { seq![','] }) + seq![' '] + n@);
                } else {
                    if i > 0 {
                        acc.push(',');
                        acc.push(' ');
                    }
                    push_all(&mut acc, n.as_str());
                    assert(acc@ =~= before + (if i == 0 { Seq::<char>::empty() } else { seq![',', ' '] }) + n@);
                }
            },
            Some(Err(x)) => {
                return Some(Err(x));
            },
            None => {
                return None;
            },
        }
        i = i + 1;
    }
    assert(all.skip(i as int).len() == 0);
    Some(Ok(acc))
}

fn placeholders_exec(count: usize) -> (r: String)
    ensures
        r@ == placeholders(count as nat),
{
    let mut s = String::new();
    let mut i: usize = 0;
    while i < count
        invariant
            i <= count,
            s@ == placeholders(i as nat),
        decreases count - i,
    {
        let ghost before = s@;
        if i > 0 {
            s.push(',');
            s.push(' ');
        }
        s.push('?');
        assert(s@ =~= placeholders((i + 1) as nat));
        i = i + 1;
    }
    s
}

fn value_groups_exec(count: usize, placeholder: &String) -> (r: String)
    ensures
        r@ == value_groups(count as nat, placeholder@),
{
    let mut s = String::new();
    let mut i: usize = 0;
    while i < count
        invariant
            i <= count,
            s@ == value_groups(i as nat, placeholder@),
        decreases count - i,
    {
        if i > 0 {
            s.push(',');
        }
        s.push(' ');
        s.push('(');
        push_all(&mut s, placeholder.as_str());
        s.push(')');
        assert(s@ =~= value_groups((i + 1) as nat, placeholder@));
        i = i + 1;
    }
    s
}

fn insert_into(m: &ExprMap, table: &Expression) -> (r: Option<Result<Expression, Effect>>)
    ensures
        value_outcome(r) == insert_into_sql(m@, table@),
{
    let name = match keyword_of_exec(table) {
        Some(Ok(n)) => n,
        Some(Err(x)) => {
            return Some(Err(x));
        },
        None => {
            return None;
        },
    };
    let c = match required_key_exec(m, ":columns") {
        Ok(c) => c,
        Err(x) => {
            return Some(Err(x));
        },
    };
    let cols = match c {
        Expression::Array(cols) => cols,
        _ => {
            return Some(Err(error("Expected array")));
        },
    };
    proof {
        lemma_exprs_view(cols@);
    }
    let mut prefix = String::new();
    push_all(&mut prefix, "INSERT INTO ");
    push_all(&mut prefix, name.as_str());
    push_all(&mut prefix, " (");
    let head = match names_exec(cols, prefix, false) {
        Some(Ok(h)) => h,
        Some(Err(x)) => {
            return Some(Err(x));
        },
        None => {
            return None;
        },
    };
    let v = match required_key_exec(m, ":values") {
        Ok(v) => v,
        Err(x) => {
            return Some(Err(x));
        },
    };
    let rows = match v {
        Expression::Array(rows) => rows,
        _ => {
            return Some(Err(error("Expected array")));
        },
    };
    let ghost rv = exprs_view(rows@);
    proof {
        lemma_exprs_view(rows@);
        assert(rv.skip(0) =~= rv);
    }
    let placeholder = placeholders_exec(cols.len());
    let groups = value_groups_exec(rows.len(), &placeholder);
    let mut text = head;
    push_all(&mut text, ") VALUES");
    push_all(&mut text, groups.as_str());
    let mut out: Vec<Expression> = Vec::new();
    let st = Expression::String(text);
    proof {
        lemma_exprs_view_push(out@, st);
    }
    out.push(st);
    assert(exprs_view(out@) =~= seq![st@]);
    let ghost start = exprs_view(out@);
    assert(insert_into_sql(m@, table@) == insert_rows(row_values(rv, start)));
    let mut i: usize = 0;
    while i < rows.len()
        invariant
            i <= rows.len(),
            rv == exprs_view(rows@),
            rv.len() == rows.len(),
            forall|j: int| 0 <= j < rows.len() ==> #[trigger] rv[j] == rows@[j]@,
            insert_into_sql(m@, table@) == insert_rows(row_values(rv, start)),
            row_values(rv, start) == row_values(rv.skip(i as int), exprs_view(out@)),
        decreases rows.len() - i,
    {
        proof {
            assert(rv.skip(i as int)[0] == rv[i as int]);
            assert(rv.skip(i as int).skip(1) =~= rv.skip(i + 1));
        }
        match &rows[i] {
            Expression::Array(row) => {
                proof {
                    lemma_exprs_view(row@);
                }
                let ghost before = exprs_view(out@);
                let mut j: usize = 0;
                while j < row.len()
                    invariant
                        j <= row.len(),
                        exprs_view(row@).len() == row.len(),
                        forall|k: int| 0 <= k < row.len() ==> #[trigger] exprs_view(row@)[k] == row@[k]@,
                        exprs_view(out@) == before + exprs_view(row@).take(j as int),
                    decreases row.len() - j,
                {
                    let e = row[j].clone();
                    proof {
                        lemma_exprs_view_push(out@, e);
                        assert(before + exprs_view(row@).take(j as int) + seq![e@] =~= before + exprs_view(row@).take(j + 1));
                    }
                    out.push(e);
                    j = j + 1;
                }
                assert(exprs_view(row@).take(row.len() as int) =~= exprs_view(row@));
            },
            _ => {
                return Some(Err(error("Expected array")));
            },
        }
        i = i + 1;
    }
    assert(rv.skip(i as int).len() == 0);
    Some(Ok(Expression::Array(out)))
}

/// The comparison that a `:where` operator keyword stands for.
fn operator_exec(op: &String) -> (r: Option<&'static str>)
    ensures
        match operator_sql(op@) {
            Some(o) => r matches Some(t) && t@ == o,
            None => r is None,
        },
{
    proof {
        reveal_strlit(":=");
        reveal_strlit(":!=");
        reveal_strlit(":<");
        reveal_strlit(":<=");
        reveal_strlit(":>");
        reveal_strlit(":>=");
    }
    if crate::equality::string_equal(op, &":=".to_string()) {
        Some("=")
    } else if crate::equality::string_equal(op, &":!=".to_string()) {
        Some("!=")
    } else if crate::equality::string_equal(op, &":<".to_string()) {
        Some("<")
    } else if crate::equality::string_equal(op, &":<=".to_string()) {
        Some("<=")
    } else if crate::equality::string_equal(op, &":>".to_string()) {
        Some(">")
    } else if crate::equality::string_equal(op, &":>=".to_string()) {
        Some(">=")
    } else {
        None
    }
}

fn where_exec(w: &Expression) -> (r: Option<Result<(String, Expression), Effect>>)
    ensures
        match where_sql(w@) {
            Evaluated::Done((clause, rhs)) => r matches Some(Ok((c, v))) && c@ == clause && v@ == rhs,
            Evaluated::Failed(msg) => r matches Some(Err(x)) && x@ == msg,
            Evaluated::Aborted => r is None,
        },
{
    match w {
        Expression::Array(ws) => {
            proof {
                lemma_exprs_view(ws@);
            }
            if ws.len() == 0 {
                return None;
            }
            match &ws[0] {
                Expression::Keyword(op) => match operator_exec(op) {
                    Some(o) => {
                        if ws.len() < 2 {
                            return None;
                        }
                        match keyword_of_exec(&ws[1]) {
                            Some(Ok(lhs)) => {
                                if ws.len() < 3 {
                                    return None;
                                }
                                let mut c = String::new();
                                push_all(&mut c, " WHERE ");
                                push_all(&mut c, lhs.as_str());
                                c.push(' ');
                                push_all(&mut c, o);
                                push_all(&mut c, " ?");
                                assert(c@ =~= " WHERE "@ + lhs@ + seq![' '] + o@ + " ?"@);
                                Some(Ok((c, ws[2].clone())))
                            },
                            Some(Err(x)) => Some(Err(x)),
                            None => None,
                        }
                    },
                    None => {
                        let mut msg = String::new();
                        push_all(&mut msg, "Unsupported operator ");
                        push_all(&mut msg, op.as_str());
                        Some(Err(Effect::Error(msg)))
                    },
                },
                _ => Some(Err(error("Expected keyword"))),
            }
        },
        _ => Some(Err(error("Expected array"))),
    }
}

fn select(m: &ExprMap, columns: &Expression) -> (r: Option<Result<Expression, Effect>>)
    ensures
        value_outcome(r) == select_sql(m@, columns@),
{
    let mut single: Vec<Expression> = Vec::new();
    let cols: &Vec<Expression> = match columns {
        Expression::Array(xs) => xs,
        Expression::Keyword(k) => {
            let e = Expression::Keyword(k.clone());
            proof {
                lemma_exprs_view_push(single@, e);
            }
            single.push(e);
            assert(exprs_view(single@) =~= seq![columns@]);
            &single
        },
        _ => {
            return Some(Err(error("Expected array or keyword")));
        },
    };
    let mut prefix = String::new();
    push_all(&mut prefix, "SELECT");
    let head = match names_exec(cols, prefix, true) {
        Some(Ok(h)) => h,
        Some(Err(x)) => {
            return Some(Err(x));
        },
        None => {
            return None;
        },
    };
    let f = match required_key_exec(m, ":from") {
        Ok(f) => f,
        Err(x) => {
            return Some(Err(x));
        },
    };
    let from = match keyword_of_exec(f) {
        Some(Ok(n)) => n,
        Some(Err(x)) => {
            return Some(Err(x));
        },
        None => {
            return None;
        },
    };
    let mut text = head;
    push_all(&mut text, " FROM ");
    push_all(&mut text, from.as_str());
    let where_key = Expression::Keyword(":where".to_string());
    match m.get(&where_key) {
        Some(w) => match where_exec(w) {
            Some(Ok((clause, rhs))) => {
                push_all(&mut text, clause.as_str());
                let st = Expression::String(text);
                let mut out: Vec<Expression> = Vec::new();
                proof {
                    lemma_exprs_view_push(out@, st);
                }
                out.push(st);
                proof {
                    lemma_exprs_view_push(out@, rhs);
                }
                out.push(rhs);
                assert(exprs_view(out@) =~= seq![st@, rhs@]);
                Some(Ok(Expression::Array(out)))
            },
            Some(Err(x)) => Some(Err(x)),
            None => None,
        },
        None => {
            let st = Expression::String(text);
            let mut out: Vec<Expression> = Vec::new();
            proof {
                lemma_exprs_view_push(out@, st);
            }
            out.push(st);
            assert(exprs_view(out@) =~= seq![st@]);
            Some(Ok(Expression::Array(out)))
        },
    }
}

/// The SQL statement a map describes, with its parameters; `None` where building it
/// aborts (an empty keyword, a missing element of a clause).
pub fn try_sql_string(expr: &Expression) -> (r: Option<Result<Expression, Effect>>)
    ensures
        value_outcome(r) == spec_sql_string(expr@),
{
    match expr {
        Expression::Mapping(m) => {
            let ct = Expression::Keyword(":create-table".to_string());
            match m.get(&ct) {
                Some(t) => create_table(m, t),
                None => {
                    let ii = Expression::Keyword(":insert-into".to_string());
                    match m.get(&ii) {
                        Some(t) => insert_into(m, t),
                        None => {
                            let sel = Expression::Keyword(":select".to_string());
                            match m.get(&sel) {
                                Some(c) => select(m, c),
                                None => Some(Err(error("Unsupported SQL operation"))),
                            }
                        },
                    }
                },
            }
        },
        _ => Some(Err(error("Expected map"))),
    }
}

/// The SQL statement a map describes, with its parameters: `[text params...]`.
pub fn sql_string(expr: &Expression) -> (r: Result<Expression, Effect>)
    requires
        !(spec_sql_string(expr@) is Aborted),
    ensures
        match r {
            Ok(v) => spec_sql_string(expr@) == Evaluated::Done(v@),
            Err(x) => spec_sql_string(expr@) == Evaluated::<SpecExpression>::Failed(x@),
        },
{
    match try_sql_string(expr) {
        Some(r) => r,
        None => Err(error("Malformed statement")),
    }
}

/// One result row as a map from `:column` keywords to the row's values, inserted in
/// column order.
pub open spec fn row_map(acc: SpecPairs, columns: Seq<Seq<char>>, row: Seq<SpecExpression>) -> SpecPairs
    decreases columns.len(),
{
    if columns.len() == 0 || row.len() == 0 {
        acc
    } else {
        row_map(
            crate::mapping::map_insert(acc, SpecExpression::Keyword(seq![':'] + columns[0]), row[0]),
            columns.skip(1),
            row.skip(1),
        )
    }
}

/// The rows of a query result as an array of maps.
pub fn rows_to_expression(columns: &Vec<String>, rows: &Vec<Vec<Expression>>) -> (r: Expression)
    ensures
        r@ == SpecExpression::Array(Seq::new(rows@.len(), |i: int|
            SpecExpression::Mapping(row_map(seq![], crate::token::strings_view(columns@), exprs_view(rows@[i]@))))),
{
    let ghost cols = crate::token::strings_view(columns@);
    let mut out: Vec<Expression> = Vec::new();
    let mut i: usize = 0;
    while i < rows.len()
        invariant
            i <= rows.len(),
            cols == crate::token::strings_view(columns@),
            exprs_view(out@) =~= Seq::new(i as nat, |k: int|
                SpecExpression::Mapping(row_map(seq![], cols, exprs_view(rows@[k]@)))),
        decreases rows.len() - i,
    {
        let row = &rows[i];
        let ghost rv = exprs_view(row@);
        proof {
            lemma_exprs_view(row@);
            assert(cols.skip(0) =~= cols);
            assert(rv.skip(0) =~= rv);
        }
        let mut m = ExprMap::new();
        let mut j: usize = 0;
        while j < columns.len() && j < row.len()
            invariant
                j <= columns.len(),
                j <= row.len(),
                cols == crate::token::strings_view(columns@),
                rv == exprs_view(row@),
                rv.len() == row.len(),
                forall|k: int| 0 <= k < row.len() ==> #[trigger] rv[k] == row@[k]@,
                row_map(seq![], cols, rv) == row_map(m@, cols.skip(j as int), rv.skip(j as int)),
            decreases columns.len() - j,
        {
            proof {
                assert(cols.skip(j as int)[0] == columns@[j as int]@);
                assert(rv.skip(j as int)[0] == rv[j as int]);
                assert(cols.skip(j as int).skip(1) =~= cols.skip(j + 1));
                assert(rv.skip(j as int).skip(1) =~= rv.skip(j + 1));
            }
            let mut k = String::new();
            k.push(':');
            push_all(&mut k, columns[j].as_str());
            assert(k@ =~= seq![':'] + columns@[j as int]@);
            m.insert(Expression::Keyword(k), row[j].clone());
            j = j + 1;
        }
        let e = Expression::Mapping(m);
        proof {
            lemma_exprs_view_push(out@, e);
        }
        out.push(e);
        i = i + 1;
    }
    Expression::Array(out)
}

/// What `(sql/string description)` gives: its arguments are evaluated and the statement
/// the first one describes is built; the environment is left as it was.
pub open spec fn string_outcome(env: SpecEnv, args: Seq<SpecExpression>) -> Evaluated<(SpecEnv, SpecExpression)> {
    match crate::semantics::eval_list(env, args, MAX_DEPTH as nat) {
        Evaluated::Done(vs) => if vs.len() == 0 {
            Evaluated::Aborted
        } else {
            match spec_sql_string(vs[0]) {
                Evaluated::Done(s) => Evaluated::Done((env, s)),
                Evaluated::Failed(m) => Evaluated::Failed(m),
                Evaluated::Aborted => Evaluated::Aborted,
            }
        },
        Evaluated::Failed(m) => Evaluated::Failed(m),
        Evaluated::Aborted => Evaluated::Aborted,
    }
}

/// `(sql/string description)`; `None` where it aborts (no argument, an evaluation or a
/// statement that aborts).
pub fn try_string(env: Environment, args: &Vec<Expression>) -> (r: Option<Result<(Environment, Expression), Effect>>)
    ensures
        outcome(r) == string_outcome(env@, exprs_view(args@)),
{
    match try_evaluate_expressions(&env, args) {
        Some(Ok(vs)) => {
            proof {
                lemma_exprs_view(vs@);
            }
            if vs.len() == 0 {
                None
            } else {
                match try_sql_string(&vs[0]) {
                    Some(Ok(s)) => Some(Ok((env, s))),
                    Some(Err(x)) => Some(Err(x)),
                    None => None,
                }
            }
        },
        Some(Err(x)) => Some(Err(x)),
        None => None,
    }
}

/// `(sql/string description)`: the statement the evaluated description gives, as
/// `[text params...]`.
pub fn string(env: Environment, args: &Vec<Expression>) -> (r: Result<(Environment, Expression), Effect>)
    requires
        !(string_outcome(env@, exprs_view(args@)) is Aborted),
    ensures
        match r {
            Ok((e, v)) => string_outcome(env@, exprs_view(args@)) == Evaluated::Done((e@, v@)),
            Err(x) => string_outcome(env@, exprs_view(args@)) == Evaluated::<(SpecEnv, SpecExpression)>::Failed(x@),
        },
{
    match try_string(env, args) {
        Some(r) => r,
        None => Err(error("Malformed statement")),
    }
}

/// The source of the query that lists the tables of a database.
pub open spec fn tables_source() -> Seq<char> {
    "{:select [:name] :from :sqlite_master :where [:= :type \"table\"]}"@
}

/// The query that lists the tables of a database, read and evaluated in `env`; `None`
/// where that aborts.
pub fn try_tables_query(env: Environment) -> (r: Option<Result<(Environment, Expression), Effect>>)
    ensures
        outcome(r) == source_evaluation(env@, tables_source()),
{
    try_evaluate_source(env, "{:select [:name] :from :sqlite_master :where [:= :type \"table\"]}")
}

/// The text of a select does not depend on the value its `:where` clause compares with:
/// two selects that differ only there have the same text, and the value comes after it
/// as the statement's one parameter.
pub proof fn law_select_text_ignores_compared_value(
    m: SpecPairs,
    columns: SpecExpression,
    op: SpecExpression,
    column: SpecExpression,
    v1: SpecExpression,
    v2: SpecExpression,
)
    requires
        forall|i: int| 0 <= i < m.len() ==> crate::order::wf_expr(#[trigger] m[i].0),
    ensures
        ({
            let w = SpecExpression::Keyword(":where"@);
            let s1 = select_sql(crate::mapping::map_insert(m, w, SpecExpression::Array(seq![op, column, v1])), columns);
            let s2 = select_sql(crate::mapping::map_insert(m, w, SpecExpression::Array(seq![op, column, v2])), columns);
            match s1 {
                Evaluated::Done(SpecExpression::Array(p1)) => s2 matches Evaluated::Done(SpecExpression::Array(p2))
                    && p1.len() == 2 && p2.len() == 2 && p1[0] == p2[0] && p1[1] == v1 && p2[1] == v2,
                Evaluated::Done(_) => false,
                Evaluated::Failed(x) => s2 == Evaluated::<SpecExpression>::Failed(x),
                Evaluated::Aborted => s2 == Evaluated::<SpecExpression>::Aborted,
            }
        }),
{
    let w = SpecExpression::Keyword(":where"@);
    let from = SpecExpression::Keyword(":from"@);
    let w1 = SpecExpression::Array(seq![op, column, v1]);
    let w2 = SpecExpression::Array(seq![op, column, v2]);
    crate::mapping::law_map_get_after_insert(m, w, w1);
    crate::mapping::law_map_get_after_insert(m, w, w2);
    reveal_strlit(":from");
    reveal_strlit(":where");
    crate::mapping::lemma_order_chars_zero(":from"@, ":where"@);
    assert(":from"@[1] != ":where"@[1]);
    assert(spec_order(from, w) != 0);
    crate::mapping::law_map_get_other_after_insert(m, w, w1, from);
    crate::mapping::law_map_get_other_after_insert(m, w, w2, from);
}

/// The comparisons a `:where` clause knows: `=`, `!=`, `<`, `<=`, `>`, `>=`.
pub open spec fn comparison(t: Seq<char>) -> bool {
    t == seq!['='] || t == seq!['!', '='] || t == seq!['<'] || t == seq!['<', '='] || t == seq!['>']
        || t == seq!['>', '=']
}

/// A `:where` operator keyword names the comparison it is written as: the keyword with
/// its colon dropped, for each of the six comparisons, and no other keyword is one.
pub proof fn law_operator_is_its_name(op: Seq<char>)
    ensures
        operator_sql(op) matches Some(t) ==> comparison(t) && op == seq![':'] + t,
        forall|t: Seq<char>| comparison(t) ==> #[trigger] operator_sql(seq![':'] + t) == Some(t),
{
    reveal_strlit(":=");
    reveal_strlit(":!=");
    reveal_strlit(":<");
    reveal_strlit(":<=");
    reveal_strlit(":>");
    reveal_strlit(":>=");
    reveal_strlit("=");
    reveal_strlit("!=");
    reveal_strlit("<");
    reveal_strlit("<=");
    reveal_strlit(">");
    reveal_strlit(">=");
    assert(":="@ =~= seq![':', '=']);
    assert(":!="@ =~= seq![':', '!', '=']);
    assert(":<"@ =~= seq![':', '<']);
    assert(":<="@ =~= seq![':', '<', '=']);
    assert(":>"@ =~= seq![':', '>']);
    assert(":>="@ =~= seq![':', '>', '=']);
    assert("="@ =~= seq!['=']);
    assert("!="@ =~= seq!['!', '=']);
    assert("<"@ =~= seq!['<']);
    assert("<="@ =~= seq!['<', '=']);
    assert(">"@ =~= seq!['>']);
    assert(">="@ =~= seq!['>', '=']);
    assert(seq![':'] + seq!['='] =~= seq![':', '=']);
    assert(seq![':'] + seq!['!', '='] =~= seq![':', '!', '=']);
    assert(seq![':'] + seq!['<'] =~= seq![':', '<']);
    assert(seq![':'] + seq!['<', '='] =~= seq![':', '<', '=']);
    assert(seq![':'] + seq!['>'] =~= seq![':', '>']);
    assert(seq![':'] + seq!['>', '='] =~= seq![':', '>', '=']);
    assert(seq![':', '<'] != seq![':', '='] && seq![':', '>'] != seq![':', '='] && seq![':', '>'] != seq![':', '<']);
    assert(seq![':', '<', '='] != seq![':', '!', '='] && seq![':', '>', '='] != seq![':', '!', '='] && seq![':', '>', '='] != seq![':', '<', '=']);
    assert(seq![':', '<'][1] != seq![':', '='][1]);
    assert(seq![':', '>'][1] != seq![':', '='][1]);
    assert(seq![':', '>'][1] != seq![':', '<'][1]);
    assert(seq![':', '<', '='][1] != seq![':', '!', '='][1]);
    assert(seq![':', '>', '='][1] != seq![':', '!', '='][1]);
    assert(seq![':', '>', '='][1] != seq![':', '<', '='][1]);
}

/// A `:where` clause `[op column value]` compares the column with the comparison the
/// operator names, and the value is the statement's parameter, never part of its text.
pub proof fn law_where_clause(op: Seq<char>, column: Seq<char>, v: SpecExpression)
    requires
        operator_sql(op) is Some,
        column.len() > 0,
        (column[0] as u32) < 128,
    ensures
        where_sql(SpecExpression::Array(seq![SpecExpression::Keyword(op), SpecExpression::Keyword(column), v]))
            == Evaluated::Done((" WHERE "@ + column.skip(1) + seq![' '] + op.skip(1) + " ?"@, v)),
{
    law_operator_is_its_name(op);
    let t = operator_sql(op)->0;
    assert((seq![':'] + t).skip(1) =~= t);
}

} // verus!
