use vstd::prelude::*;
use crate::expression::{
    Environment, ExprMap, Expression, SpecEnv, SpecExpression, SpecPairs, SpecPatterns, compare,
    compare_strings, env_view, lemma_env_view, lemma_pairs_view, order_chars, order_env,
    order_exprs, order_names, order_pairs, order_patterns, pairs_view, spec_order,
};

verus! {

/// The value bound to the first key that the order puts together with `k`.
pub open spec fn map_get(m: SpecPairs, k: SpecExpression) -> Option<SpecExpression>
    decreases m.len(),
{
    if m.len() == 0 {
        None
    } else if spec_order(k, m[0].0) == 0 {
        Some(m[0].1)
    } else {
        map_get(m.skip(1), k)
    }
}

/// The entries with `k` bound to `v`: the entry of an equal key is replaced, otherwise
/// the new entry goes before the first larger key.
pub open spec fn map_insert(m: SpecPairs, k: SpecExpression, v: SpecExpression) -> SpecPairs
    decreases m.len(),
{
    if m.len() == 0 {
        seq![(k, v)]
    } else if spec_order(k, m[0].0) < 0 {
        seq![(k, v)] + m
    } else if spec_order(k, m[0].0) == 0 {
        seq![(k, v)] + m.skip(1)
    } else {
        seq![m[0]] + map_insert(m.skip(1), k, v)
    }
}

/// The entries without any whose key the order puts together with `k`.
pub open spec fn map_remove(m: SpecPairs, k: SpecExpression) -> SpecPairs
    decreases m.len(),
{
    if m.len() == 0 {
        seq![]
    } else if spec_order(k, m[0].0) == 0 {
        map_remove(m.skip(1), k)
    } else {
        seq![m[0]] + map_remove(m.skip(1), k)
    }
}

/// The entries of `m` with those of `other` inserted one after the other.
pub open spec fn map_merge(m: SpecPairs, other: SpecPairs) -> SpecPairs
    decreases other.len(),
{
    if other.len() == 0 {
        m
    } else {
        map_merge(map_insert(m, other[0].0, other[0].1), other.skip(1))
    }
}

/// The value bound to the first name equal to `name`.
pub open spec fn env_get(e: SpecEnv, name: Seq<char>) -> Option<SpecExpression>
    decreases e.len(),
{
    if e.len() == 0 {
        None
    } else if e[0].0 == name {
        Some(e[0].1)
    } else {
        env_get(e.skip(1), name)
    }
}

/// The bindings with `name` bound to `v`, kept in the order of names.
pub open spec fn env_insert(e: SpecEnv, name: Seq<char>, v: SpecExpression) -> SpecEnv
    decreases e.len(),
{
    if e.len() == 0 {
        seq![(name, v)]
    } else if order_chars(name, e[0].0) < 0 {
        seq![(name, v)] + e
    } else if order_chars(name, e[0].0) == 0 {
        seq![(name, v)] + e.skip(1)
    } else {
        seq![e[0]] + env_insert(e.skip(1), name, v)
    }
}

/// The names are in strictly increasing order.
pub open spec fn env_sorted(e: SpecEnv) -> bool {
    forall|i: int, j: int| 0 <= i < j < e.len() ==> order_chars(e[i].0, e[j].0) < 0
}

impl View for ExprMap {
    type V = SpecPairs;

    open spec fn view(&self) -> SpecPairs {
        pairs_view(self.entries@)
    }
}

impl View for Environment {
    type V = SpecEnv;

    open spec fn view(&self) -> SpecEnv {
        env_view(self.entries@)
    }
}

proof fn lemma_pairs_view_update(s: Seq<(Expression, Expression)>, i: int, x: (Expression, Expression))
    requires
        0 <= i < s.len(),
    ensures
        pairs_view(s.update(i, x)) == pairs_view(s).update(i, (x.0@, x.1@)),
{
    lemma_pairs_view(s);
    lemma_pairs_view(s.update(i, x));
    assert(pairs_view(s.update(i, x)) =~= pairs_view(s).update(i, (x.0@, x.1@)));
}

proof fn lemma_pairs_view_insert(s: Seq<(Expression, Expression)>, i: int, x: (Expression, Expression))
    requires
        0 <= i <= s.len(),
    ensures
        pairs_view(s.insert(i, x)) == pairs_view(s).insert(i, (x.0@, x.1@)),
{
    lemma_pairs_view(s);
    lemma_pairs_view(s.insert(i, x));
    assert(pairs_view(s.insert(i, x)) =~= pairs_view(s).insert(i, (x.0@, x.1@)));
}

proof fn lemma_env_view_update(s: Seq<(String, Expression)>, i: int, x: (String, Expression))
    requires
        0 <= i < s.len(),
    ensures
        env_view(s.update(i, x)) == env_view(s).update(i, (x.0@, x.1@)),
{
    lemma_env_view(s);
    lemma_env_view(s.update(i, x));
    assert(env_view(s.update(i, x)) =~= env_view(s).update(i, (x.0@, x.1@)));
}

proof fn lemma_env_view_insert(s: Seq<(String, Expression)>, i: int, x: (String, Expression))
    requires
        0 <= i <= s.len(),
    ensures
        env_view(s.insert(i, x)) == env_view(s).insert(i, (x.0@, x.1@)),
{
    lemma_env_view(s);
    lemma_env_view(s.insert(i, x));
    assert(env_view(s.insert(i, x)) =~= env_view(s).insert(i, (x.0@, x.1@)));
}

impl ExprMap {
    /// The empty map.
    pub fn new() -> (m: ExprMap)
        ensures
            m@ == Seq::<(SpecExpression, SpecExpression)>::empty(),
    {
        ExprMap { entries: Vec::new() }
    }

    /// The number of entries.
    pub fn len(&self) -> (n: usize)
        ensures
            n == self@.len(),
    {
        proof {
            lemma_pairs_view(self.entries@);
        }
        self.entries.len()
    }

    /// The value bound to `key`, if any.
    pub fn get(&self, key: &Expression) -> (r: Option<&Expression>)
        ensures
            match r {
                Some(v) => map_get(self@, key@) == Some(v@),
                None => map_get(self@, key@) is None,
            },
    {
        let ghost m = self@;
        proof {
            lemma_pairs_view(self.entries@);
            assert(m.skip(0) =~= m);
        }
        let mut i: usize = 0;
        while i < self.entries.len()
            invariant
                i <= self.entries.len(),
                m == self@,
                m.len() == self.entries.len(),
                forall|j: int| 0 <= j < m.len() ==> #[trigger] m[j] == (self.entries@[j].0@, self.entries@[j].1@),
                map_get(m, key@) == map_get(m.skip(i as int), key@),
            decreases self.entries.len() - i,
        {
            let c = compare(key, &self.entries[i].0);
            if c == 0 {
                return Some(&self.entries[i].1);
            }
            assert(m.skip(i as int).skip(1) =~= m.skip(i + 1));
            i = i + 1;
        }
        None
    }

    /// Binds `key` to `value`, replacing the binding of an equal key.
    pub fn insert(&mut self, key: Expression, value: Expression)
        ensures
            final(self)@ == map_insert(old(self)@, key@, value@),
    {
        let ghost m = self@;
        let ghost k = key@;
        let ghost v = value@;
        proof {
            lemma_pairs_view(self.entries@);
            assert(m.take(0) + m.skip(0) =~= m);
        }
        let n = self.entries.len();
        let mut i: usize = 0;
        let mut c: i8 = 1;
        while i < n
            invariant
                i <= n == self.entries.len(),
                m == self@,
                m.len() == n,
                k == key@,
                forall|j: int| 0 <= j < m.len() ==> #[trigger] m[j] == (self.entries@[j].0@, self.entries@[j].1@),
                map_insert(m, k, v) == m.take(i as int) + map_insert(m.skip(i as int), k, v),
            ensures
                i <= n,
                i < n ==> c == spec_order(k, m[i as int].0) && c <= 0,
            decreases n - i,
        {
            c = compare(&key, &self.entries[i].0);
            if c <= 0 {
                break;
            }
            proof {
                assert(m.skip(i as int)[0] == m[i as int]);
                assert(m.skip(i as int).skip(1) =~= m.skip(i + 1));
                assert(m.take(i as int) + seq![m[i as int]] =~= m.take(i + 1));
                assert(m.take(i as int) + (seq![m[i as int]] + map_insert(m.skip(i + 1), k, v))
                    =~= m.take(i + 1) + map_insert(m.skip(i + 1), k, v));
            }
            i = i + 1;
        }
        if i < n && c == 0 {
            proof {
                assert(m.skip(i as int)[0] == m[i as int]);
                assert(m.skip(i as int).skip(1) =~= m.skip(i + 1));
                lemma_pairs_view_update(self.entries@, i as int, (key, value));
                assert(m.take(i as int) + (seq![(k, v)] + m.skip(i + 1)) =~= m.update(i as int, (k, v)));
            }
            self.entries.set(i, (key, value));
        } else {
            proof {
                lemma_pairs_view_insert(self.entries@, i as int, (key, value));
                if i < n {
                    assert(m.skip(i as int)[0] == m[i as int]);
                    assert(m.take(i as int) + (seq![(k, v)] + m.skip(i as int)) =~= m.insert(i as int, (k, v)));
                } else {
                    assert(m.take(i as int) + seq![(k, v)] =~= m.insert(i as int, (k, v)));
                }
            }
            self.entries.insert(i, (key, value));
        }
    }

    /// Removes the binding of `key`, if there is one.
    pub fn remove(&mut self, key: &Expression)
        ensures
            final(self)@ == map_remove(old(self)@, key@),
    {
        let ghost m = self@;
        proof {
            lemma_pairs_view(self.entries@);
            assert(m.skip(0) =~= m);
        }
        let mut kept: Vec<(Expression, Expression)> = Vec::new();
        let mut rest: Vec<(Expression, Expression)> = Vec::new();
        std::mem::swap(&mut rest, &mut self.entries);
        let n = rest.len();
        let mut i: usize = 0;
        while i < n
            invariant
                i <= n == rest.len(),
                m.len() == n,
                forall|j: int| 0 <= j < m.len() ==> #[trigger] m[j] == (rest@[j].0@, rest@[j].1@),
                map_remove(m, key@) == pairs_view(kept@) + map_remove(m.skip(i as int), key@),
            decreases n - i,
        {
            proof {
                assert(m.skip(i as int)[0] == m[i as int]);
                assert(m.skip(i as int).skip(1) =~= m.skip(i + 1));
            }
            if compare(key, &rest[i].0) != 0 {
                let k = rest[i].0.clone();
                let v = rest[i].1.clone();
                proof {
                    crate::expression::lemma_pairs_view_push(kept@, (k, v));
                    assert(pairs_view(kept@) + (seq![m[i as int]] + map_remove(m.skip(i + 1), key@))
                        =~= pairs_view(kept@).push(m[i as int]) + map_remove(m.skip(i + 1), key@));
                }
                kept.push((k, v));
            }
            i = i + 1;
        }
        assert(pairs_view(kept@) + map_remove(m.skip(n as int), key@) =~= pairs_view(kept@));
        self.entries = kept;
    }

    /// Inserts every binding of `other`, in its order.
    pub fn merge(&mut self, other: &ExprMap)
        ensures
            final(self)@ == map_merge(old(self)@, other@),
    {
        let ghost o = other@;
        proof {
            lemma_pairs_view(other.entries@);
            assert(o.skip(0) =~= o);
        }
        let n = other.entries.len();
        let mut i: usize = 0;
        while i < n
            invariant
                i <= n == other.entries.len(),
                o == other@,
                o.len() == n,
                forall|j: int| 0 <= j < o.len() ==> #[trigger] o[j] == (other.entries@[j].0@, other.entries@[j].1@),
                map_merge(old(self)@, o) == map_merge(self@, o.skip(i as int)),
            decreases n - i,
        {
            let k = other.entries[i].0.clone();
            let v = other.entries[i].1.clone();
            proof {
                assert(o.skip(i as int)[0] == o[i as int]);
                assert(o.skip(i as int).skip(1) =~= o.skip(i + 1));
            }
            self.insert(k, v);
            i = i + 1;
        }
    }
}

impl Environment {
    /// A copy of the environment.
    pub fn clone(&self) -> (r: Environment)
        ensures
            r@ == self@,
    {
        Environment { entries: crate::expression::clone_bindings(&self.entries) }
    }

    /// The environment with no bindings.
    pub fn new() -> (e: Environment)
        ensures
            e@ == Seq::<(Seq<char>, SpecExpression)>::empty(),
    {
        Environment { entries: Vec::new() }
    }

    /// The value bound to `name`, if any.
    pub fn get(&self, name: &String) -> (r: Option<&Expression>)
        ensures
            match r {
                Some(v) => env_get(self@, name@) == Some(v@),
                None => env_get(self@, name@) is None,
            },
    {
        let ghost e = self@;
        proof {
            lemma_env_view(self.entries@);
            assert(e.skip(0) =~= e);
        }
        let mut i: usize = 0;
        while i < self.entries.len()
            invariant
                i <= self.entries.len(),
                e == self@,
                e.len() == self.entries.len(),
                forall|j: int| 0 <= j < e.len() ==> #[trigger] e[j] == (self.entries@[j].0@, self.entries@[j].1@),
                env_get(e, name@) == env_get(e.skip(i as int), name@),
            decreases self.entries.len() - i,
        {
            let c = compare_strings(name, &self.entries[i].0);
            proof {
                lemma_order_chars_zero(name@, e[i as int].0);
            }
            if c == 0 {
                return Some(&self.entries[i].1);
            }
            assert(e.skip(i as int).skip(1) =~= e.skip(i + 1));
            i = i + 1;
        }
        None
    }

    /// Whether `name` is bound.
    pub fn contains_key(&self, name: &String) -> (b: bool)
        ensures
            b == (env_get(self@, name@) is Some),
    {
        match self.get(name) {
            Some(_) => true,
            None => false,
        }
    }

    /// Binds `name` to `value`, replacing an earlier binding of the name.
    pub fn insert(&mut self, name: String, value: Expression)
        ensures
            final(self)@ == env_insert(old(self)@, name@, value@),
    {
        let ghost m = self@;
        let ghost k = name@;
        let ghost v = value@;
        proof {
            lemma_env_view(self.entries@);
            assert(m.take(0) + m.skip(0) =~= m);
        }
        let n = self.entries.len();
        let mut i: usize = 0;
        let mut c: i8 = 1;
        while i < n
            invariant
                i <= n == self.entries.len(),
                m == self@,
                m.len() == n,
                k == name@,
                forall|j: int| 0 <= j < m.len() ==> #[trigger] m[j] == (self.entries@[j].0@, self.entries@[j].1@),
                env_insert(m, k, v) == m.take(i as int) + env_insert(m.skip(i as int), k, v),
            ensures
                i <= n,
                i < n ==> c == order_chars(k, m[i as int].0) && c <= 0,
            decreases n - i,
        {
            c = compare_strings(&name, &self.entries[i].0);
            if c <= 0 {
                break;
            }
            proof {
                assert(m.skip(i as int)[0] == m[i as int]);
                assert(m.skip(i as int).skip(1) =~= m.skip(i + 1));
                assert(m.take(i as int) + seq![m[i as int]] =~= m.take(i + 1));
                assert(m.take(i as int) + (seq![m[i as int]] + env_insert(m.skip(i + 1), k, v))
                    =~= m.take(i + 1) + env_insert(m.skip(i + 1), k, v));
            }
            i = i + 1;
        }
        if i < n && c == 0 {
            proof {
                assert(m.skip(i as int)[0] == m[i as int]);
                assert(m.skip(i as int).skip(1) =~= m.skip(i + 1));
                lemma_env_view_update(self.entries@, i as int, (name, value));
                assert(m.take(i as int) + (seq![(k, v)] + m.skip(i + 1)) =~= m.update(i as int, (k, v)));
            }
            self.entries.set(i, (name, value));
        } else {
            proof {
                lemma_env_view_insert(self.entries@, i as int, (name, value));
                if i < n {
                    assert(m.skip(i as int)[0] == m[i as int]);
                    assert(m.take(i as int) + (seq![(k, v)] + m.skip(i as int)) =~= m.insert(i as int, (k, v)));
                } else {
                    assert(m.take(i as int) + seq![(k, v)] =~= m.insert(i as int, (k, v)));
                }
            }
            self.entries.insert(i, (name, value));
        }
    }
}

/// Two character sequences are together in the order exactly when they are equal.
pub proof fn lemma_order_chars_zero(a: Seq<char>, b: Seq<char>)
    ensures
        (order_chars(a, b) == 0) == (a == b),
    decreases a.len(),
{
    if a.len() > 0 && b.len() > 0 && a[0] == b[0] {
        lemma_order_chars_zero(a.skip(1), b.skip(1));
        if a.skip(1) == b.skip(1) {
            assert(a =~= seq![a[0]] + a.skip(1));
            assert(b =~= seq![b[0]] + b.skip(1));
        }
    } else if a.len() == 0 && b.len() > 0 {
        assert(a != b);
    } else if a.len() > 0 && b.len() == 0 {
        assert(a != b);
    } else if a.len() > 0 && b.len() > 0 {
        assert(a[0] != b[0]);
    } else {
        assert(a =~= b);
    }
}


/// Every name is together with itself in the order of name sequences.
proof fn lemma_order_names_reflexive(a: Seq<Seq<char>>)
    ensures
        order_names(a, a) == 0,
    decreases a.len(),
{
    if a.len() > 0 {
        lemma_order_chars_zero(a[0], a[0]);
        lemma_order_names_reflexive(a.skip(1));
    }
}

/// Every expression is together with itself in the order of expressions.
pub proof fn lemma_order_reflexive(a: SpecExpression)
    ensures
        spec_order(a, a) == 0,
    decreases a, 0nat,
{
    match a {
        SpecExpression::Symbol(x) => lemma_order_chars_zero(x, x),
        SpecExpression::NamespacedSymbol(x) => lemma_order_names_reflexive(x),
        SpecExpression::Keyword(x) => lemma_order_chars_zero(x, x),
        SpecExpression::String(x) => lemma_order_chars_zero(x, x),
        SpecExpression::Float(x) => lemma_order_chars_zero(x, x),
        SpecExpression::Array(x) => lemma_order_exprs_reflexive(x),
        SpecExpression::Mapping(x) => lemma_order_pairs_reflexive(x),
        SpecExpression::Call(f, x) => {
            lemma_order_reflexive(*f);
            lemma_order_exprs_reflexive(x);
        },
        SpecExpression::Function(e, p) => {
            lemma_order_env_reflexive(e);
            lemma_order_patterns_reflexive(p);
        },
        SpecExpression::Quote(x) => lemma_order_reflexive(*x),
        SpecExpression::Deref(x) => lemma_order_reflexive(*x),
        SpecExpression::Module(e) => lemma_order_env_reflexive(e),
        _ => {},
    }
}

proof fn lemma_order_exprs_reflexive(a: Seq<SpecExpression>)
    ensures
        order_exprs(a, a) == 0,
    decreases a, 1nat,
{
    if a.len() > 0 {
        lemma_order_reflexive(a[0]);
        lemma_order_exprs_reflexive(a.skip(1));
    }
}

proof fn lemma_order_pairs_reflexive(a: SpecPairs)
    ensures
        order_pairs(a, a) == 0,
    decreases a, 1nat,
{
    if a.len() > 0 {
        lemma_order_reflexive(a[0].0);
        lemma_order_reflexive(a[0].1);
        lemma_order_pairs_reflexive(a.skip(1));
    }
}

proof fn lemma_order_env_reflexive(a: SpecEnv)
    ensures
        order_env(a, a) == 0,
    decreases a, 1nat,
{
    if a.len() > 0 {
        lemma_order_chars_zero(a[0].0, a[0].0);
        lemma_order_reflexive(a[0].1);
        lemma_order_env_reflexive(a.skip(1));
    }
}

proof fn lemma_order_patterns_reflexive(a: SpecPatterns)
    ensures
        order_patterns(a, a) == 0,
    decreases a, 1nat,
{
    if a.len() > 0 {
        lemma_order_exprs_reflexive(a[0].0);
        lemma_order_exprs_reflexive(a[0].1);
        lemma_order_patterns_reflexive(a.skip(1));
    }
}

/// Reading a key back after binding it gives the value that was bound.
pub proof fn law_map_get_after_insert(m: SpecPairs, k: SpecExpression, v: SpecExpression)
    ensures
        map_get(map_insert(m, k, v), k) == Some(v),
    decreases m.len(),
{
    lemma_order_reflexive(k);
    if m.len() > 0 && spec_order(k, m[0].0) > 0 {
        law_map_get_after_insert(m.skip(1), k, v);
        assert((seq![m[0]] + map_insert(m.skip(1), k, v)).skip(1) =~= map_insert(m.skip(1), k, v));
    }
}

/// After a key is removed, reading it gives nothing.
pub proof fn law_map_get_after_remove(m: SpecPairs, k: SpecExpression)
    ensures
        map_get(map_remove(m, k), k) is None,
    decreases m.len(),
{
    if m.len() > 0 {
        law_map_get_after_remove(m.skip(1), k);
        if spec_order(k, m[0].0) != 0 {
            assert((seq![m[0]] + map_remove(m.skip(1), k)).skip(1) =~= map_remove(m.skip(1), k));
        }
    }
}

/// Looking a name up after binding it gives the value that was bound.
pub proof fn law_env_get_after_insert(e: SpecEnv, name: Seq<char>, v: SpecExpression)
    ensures
        env_get(env_insert(e, name, v), name) == Some(v),
    decreases e.len(),
{
    lemma_order_chars_zero(name, name);
    if e.len() > 0 && order_chars(name, e[0].0) > 0 {
        law_env_get_after_insert(e.skip(1), name, v);
        lemma_order_chars_zero(name, e[0].0);
        assert((seq![e[0]] + env_insert(e.skip(1), name, v)).skip(1) =~= env_insert(e.skip(1), name, v));
    }
}

/// Binding one name leaves what every other name is bound to unchanged.
pub proof fn law_env_get_other_after_insert(e: SpecEnv, name: Seq<char>, v: SpecExpression, other: Seq<char>)
    requires
        other != name,
    ensures
        env_get(env_insert(e, name, v), other) == env_get(e, other),
    decreases e.len(),
{
    if e.len() == 0 {
        let r = env_insert(e, name, v);
        assert(r[0] == (name, v));
        assert(r.skip(1) =~= Seq::<(Seq<char>, SpecExpression)>::empty());
        assert(env_get(r.skip(1), other) is None);
    } else {
        lemma_order_chars_zero(name, e[0].0);
        let r = env_insert(e, name, v);
        if order_chars(name, e[0].0) < 0 {
            assert(r[0] == (name, v));
            assert(r.skip(1) =~= e);
            assert(env_get(r, other) == env_get(e, other));
        } else if order_chars(name, e[0].0) == 0 {
            assert(r[0] == (name, v));
            assert(r.skip(1) =~= e.skip(1));
            assert(env_get(r, other) == env_get(e, other));
        } else {
            law_env_get_other_after_insert(e.skip(1), name, v, other);
            assert(r[0] == e[0]);
            assert(r.skip(1) =~= env_insert(e.skip(1), name, v));
        }
    }
}

/// The order of character sequences is antisymmetric.
pub proof fn lemma_order_chars_antisymmetric(a: Seq<char>, b: Seq<char>)
    ensures
        order_chars(a, b) == -order_chars(b, a),
    decreases a.len(),
{
    if a.len() > 0 && b.len() > 0 && a[0] == b[0] {
        lemma_order_chars_antisymmetric(a.skip(1), b.skip(1));
    }
}

/// The order of character sequences is transitive.
pub proof fn lemma_order_chars_transitive(a: Seq<char>, b: Seq<char>, c: Seq<char>)
    requires
        order_chars(a, b) < 0,
        order_chars(b, c) < 0,
    ensures
        order_chars(a, c) < 0,
    decreases a.len(),
{
    if a.len() > 0 && b.len() > 0 && c.len() > 0 && a[0] == b[0] && b[0] == c[0] {
        lemma_order_chars_transitive(a.skip(1), b.skip(1), c.skip(1));
    }
}

proof fn lemma_env_insert_above(e: SpecEnv, name: Seq<char>, v: SpecExpression, lo: Seq<char>)
    requires
        forall|j: int| 0 <= j < e.len() ==> order_chars(lo, #[trigger] e[j].0) < 0,
        order_chars(lo, name) < 0,
    ensures
        forall|j: int| 0 <= j < env_insert(e, name, v).len() ==> order_chars(lo, #[trigger] env_insert(e, name, v)[j].0) < 0,
    decreases e.len(),
{
    let r = env_insert(e, name, v);
    if e.len() > 0 && order_chars(name, e[0].0) > 0 {
        lemma_env_insert_above(e.skip(1), name, v, lo);
        assert forall|j: int| 0 <= j < r.len() implies order_chars(lo, #[trigger] r[j].0) < 0 by {
            if j > 0 {
                assert(r[j] == env_insert(e.skip(1), name, v)[j - 1]);
            }
        }
    } else if e.len() > 0 && order_chars(name, e[0].0) == 0 {
        assert forall|j: int| 0 <= j < r.len() implies order_chars(lo, #[trigger] r[j].0) < 0 by {
            if j > 0 {
                assert(r[j] == e[j]);
            }
        }
    } else if e.len() > 0 {
        assert forall|j: int| 0 <= j < r.len() implies order_chars(lo, #[trigger] r[j].0) < 0 by {
            if j > 0 {
                assert(r[j] == e[j - 1]);
            }
        }
    }
}

/// Binding a name keeps the names in strictly increasing order.
pub proof fn law_env_insert_sorted(e: SpecEnv, name: Seq<char>, v: SpecExpression)
    requires
        env_sorted(e),
    ensures
        env_sorted(env_insert(e, name, v)),
    decreases e.len(),
{
    let r = env_insert(e, name, v);
    if e.len() == 0 {
    } else if order_chars(name, e[0].0) < 0 {
        assert forall|i: int, j: int| 0 <= i < j < r.len() implies order_chars(r[i].0, r[j].0) < 0 by {
            if i == 0 {
                if j > 1 {
                    lemma_order_chars_transitive(name, e[0].0, e[j - 1].0);
                }
            } else {
                assert(r[i] == e[i - 1] && r[j] == e[j - 1]);
            }
        }
    } else if order_chars(name, e[0].0) == 0 {
        lemma_order_chars_zero(name, e[0].0);
        assert forall|i: int, j: int| 0 <= i < j < r.len() implies order_chars(r[i].0, r[j].0) < 0 by {
            if i == 0 {
                assert(r[j] == e[j]);
            } else {
                assert(r[i] == e[i] && r[j] == e[j]);
            }
        }
    } else {
        let t = e.skip(1);
        assert(env_sorted(t)) by {
            assert forall|i: int, j: int| 0 <= i < j < t.len() implies order_chars(t[i].0, t[j].0) < 0 by {
                assert(t[i] == e[i + 1] && t[j] == e[j + 1]);
            }
        }
        law_env_insert_sorted(t, name, v);
        lemma_order_chars_antisymmetric(name, e[0].0);
        assert forall|j: int| 0 <= j < t.len() implies order_chars(e[0].0, #[trigger] t[j].0) < 0 by {
            assert(t[j] == e[j + 1]);
        }
        lemma_env_insert_above(t, name, v, e[0].0);
        let u = env_insert(t, name, v);
        assert forall|i: int, j: int| 0 <= i < j < r.len() implies order_chars(r[i].0, r[j].0) < 0 by {
            assert(r[j] == u[j - 1]);
            if i > 0 {
                assert(r[i] == u[i - 1]);
            }
        }
    }
}

/// The keys are in strictly increasing order, and every ratio in them has a positive
/// denominator.
pub open spec fn map_sorted(m: SpecPairs) -> bool {
    &&& forall|i: int| 0 <= i < m.len() ==> crate::order::wf_expr(#[trigger] m[i].0)
    &&& forall|i: int, j: int| 0 <= i < j < m.len() ==> spec_order(m[i].0, m[j].0) < 0
}

proof fn lemma_map_insert_keys(m: SpecPairs, k: SpecExpression, v: SpecExpression)
    ensures
        forall|j: int| 0 <= j < map_insert(m, k, v).len() ==>
            #[trigger] map_insert(m, k, v)[j].0 == k || exists|i: int| 0 <= i < m.len() && m[i].0 == map_insert(m, k, v)[j].0,
    decreases m.len(),
{
    let r = map_insert(m, k, v);
    if m.len() > 0 && spec_order(k, m[0].0) > 0 {
        lemma_map_insert_keys(m.skip(1), k, v);
        assert forall|j: int| 0 <= j < r.len() implies
            #[trigger] r[j].0 == k || exists|i: int| 0 <= i < m.len() && m[i].0 == r[j].0 by {
            if j == 0 {
                assert(m[0].0 == r[0].0);
            } else {
                let t = map_insert(m.skip(1), k, v);
                assert(r[j] == t[j - 1]);
                if t[j - 1].0 != k {
                    let i = choose|i: int| 0 <= i < m.skip(1).len() && m.skip(1)[i].0 == t[j - 1].0;
                    assert(m[i + 1].0 == r[j].0);
                }
            }
        }
    } else if m.len() > 0 && spec_order(k, m[0].0) == 0 {
        assert forall|j: int| 0 <= j < r.len() implies
            #[trigger] r[j].0 == k || exists|i: int| 0 <= i < m.len() && m[i].0 == r[j].0 by {
            if j > 0 {
                assert(m[j].0 == r[j].0);
            }
        }
    } else if m.len() > 0 {
        assert forall|j: int| 0 <= j < r.len() implies
            #[trigger] r[j].0 == k || exists|i: int| 0 <= i < m.len() && m[i].0 == r[j].0 by {
            if j > 0 {
                assert(m[j - 1].0 == r[j].0);
            }
        }
    }
}

/// Binding a key keeps the keys of a map in strictly increasing order.
pub proof fn law_map_insert_sorted(m: SpecPairs, k: SpecExpression, v: SpecExpression)
    requires
        map_sorted(m),
        crate::order::wf_expr(k),
    ensures
        map_sorted(map_insert(m, k, v)),
    decreases m.len(),
{
    let r = map_insert(m, k, v);
    lemma_map_insert_keys(m, k, v);
    assert forall|i: int| 0 <= i < r.len() implies crate::order::wf_expr(#[trigger] r[i].0) by {
        if r[i].0 != k {
            let j = choose|j: int| 0 <= j < m.len() && m[j].0 == r[i].0;
        }
    }
    if m.len() == 0 {
    } else if spec_order(k, m[0].0) < 0 {
        assert forall|i: int, j: int| 0 <= i < j < r.len() implies spec_order(r[i].0, r[j].0) < 0 by {
            if i == 0 {
                if j > 1 {
                    crate::order::lemma_transitive(k, m[0].0, m[j - 1].0);
                }
            } else {
                assert(r[i] == m[i - 1] && r[j] == m[j - 1]);
            }
        }
    } else if spec_order(k, m[0].0) == 0 {
        assert forall|i: int, j: int| 0 <= i < j < r.len() implies spec_order(r[i].0, r[j].0) < 0 by {
            if i == 0 {
                assert(r[j] == m[j]);
                crate::order::lemma_congruent(k, m[0].0, m[j].0);
            } else {
                assert(r[i] == m[i] && r[j] == m[j]);
            }
        }
    } else {
        let t = m.skip(1);
        assert(map_sorted(t)) by {
            assert forall|i: int| 0 <= i < t.len() implies crate::order::wf_expr(#[trigger] t[i].0) by {
                assert(t[i] == m[i + 1]);
            }
            assert forall|i: int, j: int| 0 <= i < j < t.len() implies spec_order(t[i].0, t[j].0) < 0 by {
                assert(t[i] == m[i + 1] && t[j] == m[j + 1]);
            }
        }
        law_map_insert_sorted(t, k, v);
        crate::order::lemma_antisymmetric(k, m[0].0);
        let u = map_insert(t, k, v);
        lemma_map_insert_keys(t, k, v);
        assert forall|i: int, j: int| 0 <= i < j < r.len() implies spec_order(r[i].0, r[j].0) < 0 by {
            assert(r[j] == u[j - 1]);
            if i > 0 {
                assert(r[i] == u[i - 1]);
            } else {
                if u[j - 1].0 != k {
                    let l = choose|l: int| 0 <= l < t.len() && t[l].0 == u[j - 1].0;
                    assert(t[l] == m[l + 1]);
                }
            }
        }
    }
}

/// Binding one key leaves what every other key is bound to unchanged.
pub proof fn law_map_get_other_after_insert(m: SpecPairs, k: SpecExpression, v: SpecExpression, other: SpecExpression)
    requires
        forall|i: int| 0 <= i < m.len() ==> crate::order::wf_expr(#[trigger] m[i].0),
        crate::order::wf_expr(k),
        crate::order::wf_expr(other),
        spec_order(other, k) != 0,
    ensures
        map_get(map_insert(m, k, v), other) == map_get(m, other),
    decreases m.len(),
{
    let r = map_insert(m, k, v);
    if m.len() == 0 {
        assert(r.skip(1) =~= Seq::<(SpecExpression, SpecExpression)>::empty());
        assert(map_get(r.skip(1), other) is None);
    } else {
        assert(crate::order::wf_expr(m[0].0));
        if spec_order(k, m[0].0) < 0 {
            assert(r[0] == (k, v));
            assert(r.skip(1) =~= m);
        } else if spec_order(k, m[0].0) == 0 {
            crate::order::lemma_right_congruent(other, k, m[0].0);
            assert(r[0] == (k, v));
            assert(r.skip(1) =~= m.skip(1));
        } else {
            let t = m.skip(1);
            assert forall|i: int| 0 <= i < t.len() implies crate::order::wf_expr(#[trigger] t[i].0) by {
                assert(t[i] == m[i + 1]);
            }
            law_map_get_other_after_insert(t, k, v, other);
            assert(r[0] == m[0]);
            assert(r.skip(1) =~= map_insert(t, k, v));
        }
    }
}

/// Removing one key leaves what every other key is bound to unchanged.
pub proof fn law_map_get_other_after_remove(m: SpecPairs, k: SpecExpression, other: SpecExpression)
    requires
        forall|i: int| 0 <= i < m.len() ==> crate::order::wf_expr(#[trigger] m[i].0),
        crate::order::wf_expr(k),
        crate::order::wf_expr(other),
        spec_order(other, k) != 0,
    ensures
        map_get(map_remove(m, k), other) == map_get(m, other),
    decreases m.len(),
{
    if m.len() > 0 {
        let t = m.skip(1);
        assert forall|i: int| 0 <= i < t.len() implies crate::order::wf_expr(#[trigger] t[i].0) by {
            assert(t[i] == m[i + 1]);
        }
        assert(crate::order::wf_expr(m[0].0));
        law_map_get_other_after_remove(t, k, other);
        if spec_order(k, m[0].0) == 0 {
            crate::order::lemma_right_congruent(other, k, m[0].0);
        } else {
            let r = map_remove(m, k);
            assert(r[0] == m[0]);
            assert(r.skip(1) =~= map_remove(t, k));
        }
    }
}

proof fn lemma_map_remove_keys(m: SpecPairs, k: SpecExpression)
    ensures
        forall|j: int| 0 <= j < map_remove(m, k).len() ==>
            exists|i: int| 0 <= i < m.len() && m[i].0 == #[trigger] map_remove(m, k)[j].0,
    decreases m.len(),
{
    let r = map_remove(m, k);
    if m.len() > 0 {
        let t = m.skip(1);
        lemma_map_remove_keys(t, k);
        assert forall|j: int| 0 <= j < r.len() implies
            exists|i: int| 0 <= i < m.len() && m[i].0 == #[trigger] r[j].0 by {
            if spec_order(k, m[0].0) == 0 {
                let l = choose|l: int| 0 <= l < t.len() && t[l].0 == map_remove(t, k)[j].0;
                assert(m[l + 1].0 == r[j].0);
            } else if j == 0 {
                assert(m[0].0 == r[0].0);
            } else {
                assert(r[j] == map_remove(t, k)[j - 1]);
                let l = choose|l: int| 0 <= l < t.len() && t[l].0 == map_remove(t, k)[j - 1].0;
                assert(m[l + 1].0 == r[j].0);
            }
        }
    }
}

/// Removing a key keeps the keys of a map in strictly increasing order.
pub proof fn law_map_remove_sorted(m: SpecPairs, k: SpecExpression)
    requires
        map_sorted(m),
    ensures
        map_sorted(map_remove(m, k)),
    decreases m.len(),
{
    let r = map_remove(m, k);
    lemma_map_remove_keys(m, k);
    assert forall|i: int| 0 <= i < r.len() implies crate::order::wf_expr(#[trigger] r[i].0) by {
        let j = choose|j: int| 0 <= j < m.len() && m[j].0 == r[i].0;
    }
    if m.len() > 0 {
        let t = m.skip(1);
        assert(map_sorted(t)) by {
            assert forall|i: int| 0 <= i < t.len() implies crate::order::wf_expr(#[trigger] t[i].0) by {
                assert(t[i] == m[i + 1]);
            }
            assert forall|i: int, j: int| 0 <= i < j < t.len() implies spec_order(t[i].0, t[j].0) < 0 by {
                assert(t[i] == m[i + 1] && t[j] == m[j + 1]);
            }
        }
        law_map_remove_sorted(t, k);
        if spec_order(k, m[0].0) != 0 {
            let u = map_remove(t, k);
            lemma_map_remove_keys(t, k);
            assert forall|i: int, j: int| 0 <= i < j < r.len() implies spec_order(r[i].0, r[j].0) < 0 by {
                assert(r[j] == u[j - 1]);
                if i > 0 {
                    assert(r[i] == u[i - 1]);
                } else {
                    let l = choose|l: int| 0 <= l < t.len() && t[l].0 == u[j - 1].0;
                    assert(t[l] == m[l + 1]);
                }
            }
        }
    }
}

/// Merging a map into a sorted map keeps its keys in strictly increasing order.
pub proof fn law_map_merge_sorted(m: SpecPairs, other: SpecPairs)
    requires
        map_sorted(m),
        forall|i: int| 0 <= i < other.len() ==> crate::order::wf_expr(#[trigger] other[i].0),
    ensures
        map_sorted(map_merge(m, other)),
    decreases other.len(),
{
    if other.len() > 0 {
        law_map_insert_sorted(m, other[0].0, other[0].1);
        let t = other.skip(1);
        assert forall|i: int| 0 <= i < t.len() implies crate::order::wf_expr(#[trigger] t[i].0) by {
            assert(t[i] == other[i + 1]);
        }
        law_map_merge_sorted(map_insert(m, other[0].0, other[0].1), t);
    }
}

/// Removing a key that a map does not hold leaves the map as it was.
pub proof fn lemma_map_remove_absent(m: SpecPairs, k: SpecExpression)
    requires
        map_get(m, k) is None,
    ensures
        map_remove(m, k) == m,
    decreases m.len(),
{
    if m.len() > 0 {
        lemma_map_remove_absent(m.skip(1), k);
        assert(seq![m[0]] + m.skip(1) =~= m);
    }
}

/// Removing a key just bound where the map held none gives back the map.
pub proof fn law_map_remove_after_insert(m: SpecPairs, k: SpecExpression, v: SpecExpression)
    requires
        map_get(m, k) is None,
    ensures
        map_remove(map_insert(m, k, v), k) == m,
    decreases m.len(),
{
    lemma_order_reflexive(k);
    assert(spec_order(k, k) == 0);
    if m.len() == 0 {
        let r = seq![(k, v)];
        assert(map_insert(m, k, v) == r);
        assert(r.skip(1) =~= Seq::<(SpecExpression, SpecExpression)>::empty());
        assert(map_remove(r, k) == map_remove(r.skip(1), k));
    } else if spec_order(k, m[0].0) < 0 {
        let r = seq![(k, v)] + m;
        assert(map_insert(m, k, v) == r);
        assert(r.skip(1) =~= m);
        assert(map_remove(r, k) == map_remove(r.skip(1), k));
        lemma_map_remove_absent(m, k);
    } else {
        assert(spec_order(k, m[0].0) != 0);
        law_map_remove_after_insert(m.skip(1), k, v);
        let r = seq![m[0]] + map_insert(m.skip(1), k, v);
        assert(map_insert(m, k, v) == r);
        assert(r[0] == m[0]);
        assert(r.skip(1) =~= map_insert(m.skip(1), k, v));
        assert(map_remove(r, k) == seq![m[0]] + map_remove(r.skip(1), k));
        assert(seq![m[0]] + m.skip(1) =~= m);
    }
}

/// Keys that the order puts together are looked up alike.
proof fn lemma_map_get_congruent(m: SpecPairs, k: SpecExpression, k2: SpecExpression)
    requires
        forall|i: int| 0 <= i < m.len() ==> crate::order::wf_expr(#[trigger] m[i].0),
        crate::order::wf_expr(k),
        crate::order::wf_expr(k2),
        spec_order(k, k2) == 0,
    ensures
        map_get(m, k) == map_get(m, k2),
    decreases m.len(),
{
    if m.len() > 0 {
        assert(crate::order::wf_expr(m[0].0));
        crate::order::lemma_congruent(k, k2, m[0].0);
        let t = m.skip(1);
        assert forall|i: int| 0 <= i < t.len() implies crate::order::wf_expr(#[trigger] t[i].0) by {
            assert(t[i] == m[i + 1]);
        }
        lemma_map_get_congruent(t, k, k2);
    }
}

/// A key that the order puts apart from every key of a map is not found in it.
proof fn lemma_map_get_absent(m: SpecPairs, k: SpecExpression)
    requires
        forall|i: int| 0 <= i < m.len() ==> spec_order(k, #[trigger] m[i].0) != 0,
    ensures
        map_get(m, k) is None,
    decreases m.len(),
{
    if m.len() > 0 {
        let t = m.skip(1);
        assert forall|i: int| 0 <= i < t.len() implies spec_order(k, #[trigger] t[i].0) != 0 by {
            assert(t[i] == m[i + 1]);
        }
        lemma_map_get_absent(t, k);
    }
}

/// After `merge`, a key bound in the second map has the second map's value; any other
/// key keeps the value it had in the first.
pub proof fn law_map_merge_get(m: SpecPairs, o: SpecPairs, k: SpecExpression)
    requires
        map_sorted(m),
        map_sorted(o),
        crate::order::wf_expr(k),
    ensures
        map_get(map_merge(m, o), k) == match map_get(o, k) {
            Some(v) => Some(v),
            None => map_get(m, k),
        },
    decreases o.len(),
{
    if o.len() > 0 {
        let (k0, v0) = o[0];
        let t = o.skip(1);
        assert(crate::order::wf_expr(k0));
        assert(map_sorted(t)) by {
            assert forall|i: int| 0 <= i < t.len() implies crate::order::wf_expr(#[trigger] t[i].0) by {
                assert(t[i] == o[i + 1]);
            }
            assert forall|i: int, j: int| 0 <= i < j < t.len() implies spec_order(t[i].0, t[j].0) < 0 by {
                assert(t[i] == o[i + 1] && t[j] == o[j + 1]);
            }
        }
        law_map_insert_sorted(m, k0, v0);
        let m1 = map_insert(m, k0, v0);
        law_map_merge_get(m1, t, k);
        assert(map_merge(m, o) == map_merge(m1, t));
        if spec_order(k, k0) == 0 {
            assert forall|i: int| 0 <= i < t.len() implies spec_order(k, #[trigger] t[i].0) != 0 by {
                assert(t[i] == o[i + 1]);
                assert(spec_order(o[0].0, o[i + 1].0) < 0);
                crate::order::lemma_congruent(k, k0, t[i].0);
            }
            lemma_map_get_absent(t, k);
            lemma_map_get_congruent(m1, k, k0);
            law_map_get_after_insert(m, k0, v0);
        } else {
            assert(map_get(o, k) == map_get(t, k));
            if map_get(t, k) is None {
                law_map_get_other_after_insert(m, k0, v0, k);
            }
        }
    }
}

} // verus!
