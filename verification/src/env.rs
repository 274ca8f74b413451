//! The interpreter's variables: a stack of scopes, innermost last.
use vstd::prelude::*;

use crate::value::{Value, ValueM};

verus! {

/// A stack of scopes, each a map from names to values; the innermost last.
pub type EnvM = Seq<Map<Seq<char>, ValueM>>;

/// The value of `name` in the innermost scope that has it.
pub open spec fn env_lookup(env: EnvM, name: Seq<char>) -> Option<ValueM>
    decreases env.len(),
{
    if env.len() == 0 {
        None
    } else if env.last().contains_key(name) {
        Some(env.last()[name])
    } else {
        env_lookup(env.drop_last(), name)
    }
}

/// Sets `name` to `v` in the innermost scope that has it; `None` when no scope has it.
pub open spec fn env_assign(env: EnvM, name: Seq<char>, v: ValueM) -> Option<EnvM>
    decreases env.len(),
{
    if env.len() == 0 {
        None
    } else if env.last().contains_key(name) {
        Some(env.drop_last().push(env.last().insert(name, v)))
    } else {
        match env_assign(env.drop_last(), name, v) {
            Some(e) => Some(e.push(env.last())),
            None => None,
        }
    }
}

/// Binds `name` to `v` in the innermost scope.
pub open spec fn env_define(env: EnvM, name: Seq<char>, v: ValueM) -> EnvM {
    if env.len() == 0 {
        env
    } else {
        env.drop_last().push(env.last().insert(name, v))
    }
}

/// Assigns `name` where some scope has it, or else binds it in the innermost scope.
pub open spec fn env_declare(env: EnvM, name: Seq<char>, v: ValueM) -> EnvM {
    match env_assign(env, name, v) {
        Some(e) => e,
        None => env_define(env, name, v),
    }
}

/// Opens a new, empty innermost scope.
pub open spec fn env_push(env: EnvM) -> EnvM {
    env.push(Map::empty())
}

/// Closes the innermost scope, but never the outermost one.
pub open spec fn env_pop(env: EnvM) -> EnvM {
    if env.len() > 1 {
        env.drop_last()
    } else {
        env
    }
}

/// A name bound to a value.
#[derive(Debug)]
pub struct Binding {
    pub name: String,
    pub value: Value,
}

/// The map that a scope's bindings make.
pub open spec fn scope_m(s: Seq<Binding>) -> Map<Seq<char>, ValueM>
    decreases s.len(),
{
    if s.len() == 0 {
        Map::empty()
    } else {
        scope_m(s.drop_last()).insert(s.last().name@, s.last().value@)
    }
}

/// No name is bound twice in a scope.
pub open spec fn scope_wf(s: Seq<Binding>) -> bool {
    forall|i: int, j: int| 0 <= i < j < s.len() ==> s[i].name@ != s[j].name@
}

pub proof fn lemma_scope_m(s: Seq<Binding>)
    requires
        scope_wf(s),
    ensures
        forall|i: int| 0 <= i < s.len() ==> #[trigger] scope_m(s).contains_key(s[i].name@)
            && scope_m(s)[s[i].name@] == s[i].value@,
        forall|k: Seq<char>| #[trigger] scope_m(s).contains_key(k) ==> exists|i: int|
            0 <= i < s.len() && s[i].name@ == k,
    decreases s.len(),
{
    if s.len() > 0 {
        let t = s.drop_last();
        assert(scope_wf(t));
        lemma_scope_m(t);
        assert forall|i: int| 0 <= i < s.len() implies #[trigger] scope_m(s).contains_key(
            s[i].name@,
        ) && scope_m(s)[s[i].name@] == s[i].value@ by {
            assert(scope_m(s) == scope_m(t).insert(s.last().name@, s.last().value@));
            if i < s.len() - 1 {
                assert(t[i] == s[i]);
                assert(scope_m(t).contains_key(t[i].name@));
                assert(s[i].name@ != s[s.len() - 1].name@);
            }
        }
        assert forall|k: Seq<char>| #[trigger] scope_m(s).contains_key(k) implies exists|i: int|
            0 <= i < s.len() && s[i].name@ == k by {
            if k != s.last().name@ {
                assert(scope_m(t).contains_key(k));
                let i = choose|i: int| 0 <= i < t.len() && t[i].name@ == k;
                assert(t[i] == s[i]);
                assert(s[i].name@ == k);
            } else {
                assert(s[s.len() - 1].name@ == k);
            }
        }
    }
}

/// A lookup finds the innermost scope that has the name.
pub proof fn lemma_lookup_at(env: EnvM, name: Seq<char>, k: int)
    requires
        -1 <= k < env.len(),
        k >= 0 ==> env[k].contains_key(name),
        forall|j: int| k < j < env.len() ==> !(#[trigger] env[j]).contains_key(name),
    ensures
        env_lookup(env, name) == (if k >= 0 {
            Some(env[k][name])
        } else {
            None
        }),
        env_assign(env, name, ValueM::Nil) is Some <==> k >= 0,
    decreases env.len(),
{
    if env.len() > 0 && k < env.len() - 1 {
        let t = env.drop_last();
        assert forall|j: int| k < j < t.len() implies !(#[trigger] t[j]).contains_key(name) by {
            assert(t[j] == env[j]);
        }
        assert(!env[env.len() - 1].contains_key(name));
        lemma_lookup_at(t, name, k);
    }
}

/// An assignment changes the innermost scope that has the name, and only it.
pub proof fn lemma_assign_at(env: EnvM, name: Seq<char>, v: ValueM, k: int)
    requires
        -1 <= k < env.len(),
        k >= 0 ==> env[k].contains_key(name),
        forall|j: int| k < j < env.len() ==> !(#[trigger] env[j]).contains_key(name),
    ensures
        env_assign(env, name, v) == (if k >= 0 {
            Some(env.update(k, env[k].insert(name, v)))
        } else {
            None::<EnvM>
        }),
    decreases env.len(),
{
    if env.len() > 0 {
        let t = env.drop_last();
        if k == env.len() - 1 {
            assert(env.drop_last().push(env.last().insert(name, v)) =~= env.update(
                k,
                env[k].insert(name, v),
            ));
        } else {
            assert forall|j: int| k < j < t.len() implies !(#[trigger] t[j]).contains_key(name) by {
                assert(t[j] == env[j]);
            }
            assert(!env[env.len() - 1].contains_key(name));
            lemma_assign_at(t, name, v, k);
            if k >= 0 {
                assert(t.update(k, t[k].insert(name, v)).push(env.last()) =~= env.update(
                    k,
                    env[k].insert(name, v),
                ));
            }
        }
    }
}

pub proof fn lemma_scope_update(s: Seq<Binding>, j: int, b: Binding)
    requires
        scope_wf(s),
        0 <= j < s.len(),
        s[j].name@ == b.name@,
    ensures
        scope_wf(s.update(j, b)),
        scope_m(s.update(j, b)) == scope_m(s).insert(b.name@, b.value@),
{
    let s2 = s.update(j, b);
    assert(scope_wf(s2)) by {
        assert forall|x: int, y: int| 0 <= x < y < s2.len() implies s2[x].name@ != s2[y].name@ by {
            assert(s[x].name@ != s[y].name@);
        }
    }
    lemma_scope_m(s);
    lemma_scope_m(s2);
    assert forall|k: Seq<char>| #[trigger] scope_m(s2).contains_key(k) == scope_m(s).insert(
        b.name@,
        b.value@,
    ).contains_key(k) by {
        if scope_m(s2).contains_key(k) {
            let i = choose|i: int| 0 <= i < s2.len() && s2[i].name@ == k;
            if i != j {
                assert(scope_m(s).contains_key(s[i].name@));
            }
        }
        if scope_m(s).contains_key(k) {
            let i = choose|i: int| 0 <= i < s.len() && s[i].name@ == k;
            assert(scope_m(s2).contains_key(s2[i].name@));
        }
        if k == b.name@ {
            assert(scope_m(s2).contains_key(s2[j].name@));
        }
    }
    assert forall|k: Seq<char>| #[trigger] scope_m(s2).contains_key(k) implies scope_m(s2)[k]
        == scope_m(s).insert(b.name@, b.value@)[k] by {
        let i = choose|i: int| 0 <= i < s2.len() && s2[i].name@ == k;
        if i != j {
            assert(scope_m(s).contains_key(s[i].name@));
            assert(s[i].name@ != s[j].name@);
        }
    }
    assert(scope_m(s2) =~= scope_m(s).insert(b.name@, b.value@));
}


/// An assignment succeeds exactly when some scope has the name; it keeps the
/// number of scopes, and afterwards the name has the assigned value.
pub proof fn lemma_assign_then_lookup(env: EnvM, name: Seq<char>, v: ValueM)
    ensures
        (env_assign(env, name, v) is None) <==> (env_lookup(env, name) is None),
        env_assign(env, name, v) is Some ==> env_assign(env, name, v)->Some_0.len() == env.len(),
        env_assign(env, name, v) is Some ==> env_lookup(env_assign(env, name, v)->Some_0, name) == Some(v),
    decreases env.len(),
{
    if env.len() > 0 && !env.last().contains_key(name) {
        lemma_assign_then_lookup(env.drop_last(), name, v);
        if env_assign(env, name, v) is Some {
            let e = env_assign(env.drop_last(), name, v)->Some_0;
            assert(e.push(env.last()).drop_last() =~= e);
        }
    } else if env.len() > 0 {
        let e = env.drop_last().push(env.last().insert(name, v));
        assert(e.last() == env.last().insert(name, v));
    }
}

/// An assignment leaves every other name as it was.
pub proof fn lemma_assign_other(env: EnvM, name: Seq<char>, v: ValueM, other: Seq<char>)
    requires
        other != name,
        env_assign(env, name, v) is Some,
    ensures
        env_lookup(env_assign(env, name, v)->Some_0, other) == env_lookup(env, other),
    decreases env.len(),
{
    let e = env_assign(env, name, v)->Some_0;
    if env.last().contains_key(name) {
        assert(e.drop_last() =~= env.drop_last());
        assert(e.last() == env.last().insert(name, v));
    } else {
        lemma_assign_other(env.drop_last(), name, v, other);
        let t = env_assign(env.drop_last(), name, v)->Some_0;
        assert(e.drop_last() =~= t);
    }
}

/// Read after write: after a declaration (`make`, or a function's name) the
/// name has the declared value, every other name keeps its value, and the
/// number of scopes is unchanged.
pub proof fn lemma_lookup_after_declare(env: EnvM, name: Seq<char>, v: ValueM, other: Seq<char>)
    requires
        env.len() >= 1,
    ensures
        env_lookup(env_declare(env, name, v), name) == Some(v),
        other != name ==> env_lookup(env_declare(env, name, v), other) == env_lookup(env, other),
        env_declare(env, name, v).len() == env.len(),
{
    lemma_assign_then_lookup(env, name, v);
    if env_assign(env, name, v) is Some {
        if other != name {
            lemma_assign_other(env, name, v, other);
        }
    } else {
        let e = env_define(env, name, v);
        assert(e.last() == env.last().insert(name, v));
        assert(e.drop_last() =~= env.drop_last());
    }
}

/// A binding made in a new innermost scope is gone once that scope is
/// closed: opening a scope, binding a name in it and closing it again gives
/// back the scopes as they were.
pub proof fn lemma_block_binding_vanishes(env: EnvM, name: Seq<char>, v: ValueM)
    requires
        env.len() >= 1,
    ensures
        env_pop(env_define(env_push(env), name, v)) == env,
        env_pop(env_push(env)) == env,
{
    assert(env_push(env).drop_last() =~= env);
    assert(env_define(env_push(env), name, v).drop_last() =~= env);
}

/// Closing a scope never closes the outermost one.
pub proof fn lemma_pop_keeps_global(env: EnvM)
    requires
        env.len() >= 1,
    ensures
        env_pop(env).len() >= 1,
        env.len() == 1 ==> env_pop(env) == env,
        env.len() > 1 ==> env_pop(env).len() == env.len() - 1,
{
}

/// The variables of a running program.
pub struct Env {
    scopes: Vec<Vec<Binding>>,
}

impl Env {
    /// The scopes as maps, innermost last.
    pub closed spec fn model(&self) -> EnvM {
        Seq::new(self.scopes@.len(), |i: int| scope_m(self.scopes@[i]@))
    }

    /// There is a scope, and no scope binds a name twice.
    pub closed spec fn wf(&self) -> bool {
        &&& self.scopes@.len() >= 1
        &&& forall|i: int| 0 <= i < self.scopes@.len() ==> scope_wf(#[trigger] self.scopes@[i]@)
    }

    /// A well-formed stack has at least the outermost scope.
    pub proof fn lemma_wf_has_global(&self)
        requires
            self.wf(),
        ensures
            self.model().len() >= 1,
    {
    }

    /// One empty scope.
    pub fn new() -> (e: Self)
        ensures
            e.wf(),
            e.model() == seq![Map::<Seq<char>, ValueM>::empty()],
    {
        let mut scopes: Vec<Vec<Binding>> = Vec::new();
        scopes.push(Vec::new());
        let e = Env { scopes };
        assert(e.model() =~= seq![Map::<Seq<char>, ValueM>::empty()]);
        e
    }

    pub fn push(&mut self)
        requires
            old(self).wf(),
        ensures
            final(self).wf(),
            final(self).model() == env_push(old(self).model()),
    {
        self.scopes.push(Vec::new());
        assert(self.model() =~= env_push(old(self).model()));
    }

    pub fn pop(&mut self)
        requires
            old(self).wf(),
        ensures
            final(self).wf(),
            final(self).model() == env_pop(old(self).model()),
    {
        if self.scopes.len() > 1 {
            self.scopes.pop();
            assert(self.model() =~= env_pop(old(self).model()));
        } else {
            assert(self.model() =~= env_pop(old(self).model()));
        }
    }
    /// The position of `name` in scope `k`, if it is bound there.
    fn find_in_scope(&self, k: usize, name: &String) -> (r: Option<usize>)
        requires
            self.wf(),
            k < self.scopes@.len(),
        ensures
            match r {
                Some(j) => j < self.scopes@[k as int]@.len() && self.scopes@[k as int]@[j as int].name@
                    == name@ && self.model()[k as int].contains_key(name@),
                None => !self.model()[k as int].contains_key(name@),
            },
    {
        let scope = &self.scopes[k];
        let mut j: usize = 0;
        while j < scope.len()
            invariant
                j <= scope@.len(),
                self.wf(),
                k < self.scopes@.len(),
                scope == self.scopes@[k as int],
                forall|x: int| 0 <= x < j ==> (#[trigger] scope@[x]).name@ != name@,
            decreases scope@.len() - j,
        {
            if scope[j].name == *name {
                proof {
                    assert(scope_wf(self.scopes@[k as int]@));
                    lemma_scope_m(scope@);
                    assert(self.model()[k as int] == scope_m(scope@));
                }
                return Some(j);
            }
            j += 1;
        }
        proof {
            assert(scope_wf(self.scopes@[k as int]@));
            lemma_scope_m(scope@);
            assert(self.model()[k as int] == scope_m(scope@));
        }
        None
    }

    /// The innermost scope that binds `name`, if any.
    fn find_scope(&self, name: &String) -> (r: Option<(usize, usize)>)
        requires
            self.wf(),
        ensures
            match r {
                Some((k, j)) => k < self.scopes@.len() && j < self.scopes@[k as int]@.len()
                    && self.scopes@[k as int]@[j as int].name@ == name@ && self.model()[k as int].contains_key(name@)
                    && forall|x: int| k < x < self.model().len() ==> !(#[trigger] self.model()[x]).contains_key(name@),
                None => forall|x: int| 0 <= x < self.model().len() ==> !(#[trigger] self.model()[x]).contains_key(name@),
            },
    {
        let mut i = self.scopes.len();
        while i > 0
            invariant
                i <= self.scopes@.len(),
                self.wf(),
                forall|x: int| i <= x < self.model().len() ==> !(#[trigger] self.model()[x]).contains_key(name@),
            decreases i,
        {
            match self.find_in_scope(i - 1, name) {
                Some(j) => {
                    return Some((i - 1, j));
                },
                None => {},
            }
            i -= 1;
        }
        None
    }

    /// The value of `name` in the innermost scope that binds it, if any.
    pub fn get(&self, name: &String) -> (r: Option<Value>)
        requires
            self.wf(),
        ensures
            match r {
                Some(v) => env_lookup(self.model(), name@) == Some(v@),
                None => env_lookup(self.model(), name@) is None,
            },
    {
        match self.find_scope(name) {
            Some((k, j)) => {
                proof {
                    lemma_lookup_at(self.model(), name@, k as int);
                    lemma_scope_m(self.scopes@[k as int]@);
                }
                Some(self.scopes[k][j].value.copy())
            },
            None => {
                proof {
                    lemma_lookup_at(self.model(), name@, -1);
                }
                None
            },
        }
    }

    fn set_binding(&mut self, k: usize, j: usize, b: Binding)
        requires
            old(self).wf(),
            k < old(self).scopes@.len(),
            j < old(self).scopes@[k as int]@.len(),
            old(self).scopes@[k as int]@[j as int].name@ == b.name@,
        ensures
            final(self).wf(),
            final(self).model() == old(self).model().update(
                k as int,
                old(self).model()[k as int].insert(b.name@, b.value@),
            ),
    {
        let ghost bv = b.value@;
        let ghost bn = b.name@;
        let mut scope: Vec<Binding> = Vec::new();
        self.scopes.set_and_swap(k, &mut scope);
        let ghost before = scope@;
        let mut b = b;
        scope.set_and_swap(j, &mut b);
        proof {
            lemma_scope_update(before, j as int, scope@[j as int]);
        }
        self.scopes.set_and_swap(k, &mut scope);
        assert(self.model() =~= old(self).model().update(
            k as int,
            old(self).model()[k as int].insert(bn, bv),
        ));
    }

    /// Sets `name` to `val` in the innermost scope that binds it; false
    /// (and nothing changes) when no scope binds it.
    pub fn assign(&mut self, name: &String, val: Value) -> (ok: bool)
        requires
            old(self).wf(),
        ensures
            final(self).wf(),
            ok == env_assign(old(self).model(), name@, val@) is Some,
            ok ==> final(self).model() == env_assign(old(self).model(), name@, val@)->Some_0,
            !ok ==> final(self).model() == old(self).model(),
    {
        match self.find_scope(name) {
            Some((k, j)) => {
                proof {
                    lemma_assign_at(self.model(), name@, val@, k as int);
                }
                self.set_binding(k, j, Binding { name: name.clone(), value: val });
                true
            },
            None => {
                proof {
                    lemma_assign_at(self.model(), name@, val@, -1);
                }
                false
            },
        }
    }

    /// Binds `name` to `val` in the innermost scope.
    pub fn define_current(&mut self, name: String, val: Value)
        requires
            old(self).wf(),
        ensures
            final(self).wf(),
            final(self).model() == env_define(old(self).model(), name@, val@),
    {
        let k = self.scopes.len() - 1;
        match self.find_in_scope(k, &name) {
            Some(j) => {
                self.set_binding(k, j, Binding { name, value: val });
                assert(self.model() =~= env_define(old(self).model(), name@, val@));
            },
            None => {
                let ghost bn = name@;
                let ghost bv = val@;
                let mut scope: Vec<Binding> = Vec::new();
                self.scopes.set_and_swap(k, &mut scope);
                let ghost before = scope@;
                proof {
                    lemma_scope_m(before);
                }
                scope.push(Binding { name, value: val });
                assert(scope@.drop_last() =~= before);
                assert(scope_wf(scope@)) by {
                    assert forall|x: int, y: int| 0 <= x < y < scope@.len() implies scope@[x].name@
                        != scope@[y].name@ by {
                        if y == scope@.len() - 1 {
                            assert(before[x] == scope@[x]);
                            assert(scope_m(before).contains_key(before[x].name@));
                        } else {
                            assert(before[x] == scope@[x] && before[y] == scope@[y]);
                        }
                    }
                }
                self.scopes.set_and_swap(k, &mut scope);
                assert(self.model() =~= env_define(old(self).model(), bn, bv));
            },
        }
    }

    /// Assigns `name` where a scope binds it, or else binds it in the innermost scope.
    pub fn declare_or_assign(&mut self, name: String, val: Value)
        requires
            old(self).wf(),
        ensures
            final(self).wf(),
            final(self).model() == env_declare(old(self).model(), name@, val@),
    {
        if self.assign(&name, val.copy()) {
            return ;
        }
        self.define_current(name, val);
    }
}

} // verus!
