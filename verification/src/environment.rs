//! Scopes of variables. An environment binds names to values and may enclose another
//! environment, whose bindings it sees where it has none of its own.
use vstd::prelude::*;
use crate::token::{Token, TokenView};
use vstd::string::StringExecFns;

verus! {

/// An error met while running a program, with the token it concerns where there is one.
#[derive(Debug)]
pub struct RuntimeError {
    pub message: String,
    pub token: Option<Token>,
}

/// What a runtime error says.
pub struct RuntimeErrorView {
    pub message: Seq<char>,
    pub token: Option<TokenView>,
}

impl View for RuntimeError {
    type V = RuntimeErrorView;

    open spec fn view(&self) -> RuntimeErrorView {
        RuntimeErrorView {
            message: self.message@,
            token: match self.token {
                Some(t) => Some(t@),
                None => None,
            },
        }
    }
}

impl RuntimeError {
    pub fn new(message: &str) -> (e: Self)
        ensures
            e@ == (RuntimeErrorView { message: message@, token: None }),
    {
        Self { message: message.to_string(), token: None }
    }

    pub fn from_token(message: &str, token: &Token) -> (e: Self)
        ensures
            e@ == (RuntimeErrorView { message: message@, token: Some(token@) }),
    {
        Self { message: message.to_string(), token: Some(token.duplicate()) }
    }
}

/// The bindings of one scope. Where a name occurs more than once, its first binding counts.
pub open spec fn frame_map<T>(bindings: Seq<(String, T)>) -> Map<Seq<char>, T>
    decreases bindings.len(),
{
    if bindings.len() == 0 {
        Map::empty()
    } else {
        let m = frame_map(bindings.drop_last());
        let last = bindings.last();
        if m.dom().contains(last.0@) {
            m
        } else {
            m.insert(last.0@, last.1)
        }
    }
}

/// The value a name has in a chain of scopes, the innermost first: its binding in the
/// first scope that binds it.
pub open spec fn lookup<T>(scopes: Seq<Map<Seq<char>, T>>, name: Seq<char>) -> Option<T>
    decreases scopes.len(),
{
    if scopes.len() == 0 {
        None
    } else if scopes[0].dom().contains(name) {
        Some(scopes[0][name])
    } else {
        lookup(scopes.drop_first(), name)
    }
}

/// The scopes after assigning to a name: the first scope that binds it binds it to the new
/// value; nothing changes where no scope binds it.
pub open spec fn assigned<T>(scopes: Seq<Map<Seq<char>, T>>, name: Seq<char>, value: T) -> Seq<
    Map<Seq<char>, T>,
>
    decreases scopes.len(),
{
    if scopes.len() == 0 {
        scopes
    } else if scopes[0].dom().contains(name) {
        scopes.update(0, scopes[0].insert(name, value))
    } else {
        seq![scopes[0]] + assigned(scopes.drop_first(), name, value)
    }
}

/// Whether `i` is the first position in `bindings` whose name is `name`.
pub open spec fn first_binding<T>(bindings: Seq<(String, T)>, name: Seq<char>, i: int) -> bool {
    &&& 0 <= i < bindings.len()
    &&& bindings[i].0@ == name
    &&& forall|j: int| 0 <= j < i ==> #[trigger] bindings[j].0@ != name
}

proof fn lemma_frame_map_absent<T>(bindings: Seq<(String, T)>, name: Seq<char>)
    requires
        forall|j: int| 0 <= j < bindings.len() ==> #[trigger] bindings[j].0@ != name,
    ensures
        !frame_map(bindings).dom().contains(name),
    decreases bindings.len(),
{
    if bindings.len() > 0 {
        let init = bindings.drop_last();
        assert forall|j: int| 0 <= j < init.len() implies #[trigger] init[j].0@ != name by {
            assert(init[j] == bindings[j]);
        }
        lemma_frame_map_absent(init, name);
    }
}

proof fn lemma_frame_map_first<T>(bindings: Seq<(String, T)>, name: Seq<char>, i: int)
    requires
        first_binding(bindings, name, i),
    ensures
        frame_map(bindings).dom().contains(name),
        frame_map(bindings)[name] == bindings[i].1,
    decreases bindings.len(),
{
    let init = bindings.drop_last();
    assert forall|j: int| 0 <= j < i implies #[trigger] init[j].0@ != name by {
        assert(init[j] == bindings[j]);
    }
    if i == bindings.len() - 1 {
        lemma_frame_map_absent(init, name);
    } else {
        assert(init[i] == bindings[i]);
        lemma_frame_map_first(init, name, i);
    }
}

proof fn lemma_frame_map_push<T>(bindings: Seq<(String, T)>, name: String, value: T)
    requires
        forall|j: int| 0 <= j < bindings.len() ==> #[trigger] bindings[j].0@ != name@,
    ensures
        frame_map(bindings.push((name, value))) == frame_map(bindings).insert(name@, value),
{
    lemma_frame_map_absent(bindings, name@);
    assert(bindings.push((name, value)).drop_last() =~= bindings);
}

proof fn lemma_frame_map_update<T>(bindings: Seq<(String, T)>, i: int, entry: (String, T))
    requires
        first_binding(bindings, entry.0@, i),
    ensures
        frame_map(bindings.update(i, entry)) == frame_map(bindings).insert(entry.0@, entry.1),
    decreases bindings.len(),
{
    let name = entry.0@;
    let updated = bindings.update(i, entry);
    let init = bindings.drop_last();
    assert forall|j: int| 0 <= j < i implies #[trigger] init[j].0@ != name by {
        assert(init[j] == bindings[j]);
    }
    if i == bindings.len() - 1 {
        assert(updated.drop_last() =~= init);
        lemma_frame_map_absent(init, name);
    } else {
        assert(updated.drop_last() =~= init.update(i, entry));
        assert(init[i] == bindings[i]);
        lemma_frame_map_update(init, i, entry);
        lemma_frame_map_first(init, name, i);
        assert(frame_map(updated) =~= frame_map(bindings).insert(name, entry.1));
    }
}

/// The position of the first binding of `name`, if any.
fn find_binding<T>(bindings: &Vec<(String, T)>, name: &String) -> (r: Option<usize>)
    ensures
        match r {
            Some(i) => first_binding(bindings@, name@, i as int),
            None => forall|j: int| 0 <= j < bindings@.len() ==> #[trigger] bindings@[j].0@ != name@,
        },
{
    let mut i: usize = 0;
    while i < bindings.len()
        invariant
            i <= bindings@.len(),
            forall|j: int| 0 <= j < i ==> #[trigger] bindings@[j].0@ != name@,
        decreases bindings@.len() - i,
    {
        if bindings[i].0 == *name {
            return Some(i);
        }
        i = i + 1;
    }
    None
}

/// A scope of variables, enclosing another one or none.
pub struct Environment<T> {
    values: Vec<(String, T)>,
    enclosing: Box<Option<Environment<T>>>,
}

impl<T> View for Environment<T> {
    type V = Seq<Map<Seq<char>, T>>;

    /// The chain of scopes, this environment's own first, then those it encloses.
    closed spec fn view(&self) -> Seq<Map<Seq<char>, T>>
        decreases self,
    {
        let own = seq![frame_map(self.values@)];
        match *self.enclosing {
            Some(e) => own + e.view(),
            None => own,
        }
    }
}

impl<T> Environment<T> {
    /// The scopes of this environment: never empty, and its own scope comes first.
    proof fn lemma_scopes(&self)
        ensures
            self@.len() >= 1,
            self@.drop_first() == match *self.enclosing {
                Some(e) => e@,
                None => Seq::empty(),
            },
            self@[0] == frame_map(self.values@),
    {
        match *self.enclosing {
            Some(e) => {
                assert((seq![frame_map(self.values@)] + e@).drop_first() =~= e@);
            },
            None => {
                assert(seq![frame_map(self.values@)].drop_first() =~= Seq::<Map<Seq<char>, T>>::empty());
            },
        }
    }

    /// Every environment has at least its own scope.
    pub proof fn lemma_has_scope(&self)
        ensures
            self@.len() >= 1,
    {
        self.lemma_scopes();
    }

    /// An environment with no bindings of its own, enclosing `enclosing` if given.
    pub fn new(enclosing: Option<Environment<T>>) -> (env: Self)
        ensures
            env@ == seq![Map::<Seq<char>, T>::empty()] + match enclosing {
                Some(e) => e@,
                None => Seq::empty(),
            },
    {
        let ghost outer = enclosing;
        let env = Self { values: Vec::new(), enclosing: Box::new(enclosing) };
        proof {
            assert(frame_map(env.values@) =~= Map::<Seq<char>, T>::empty());
            if outer is None {
                assert(seq![Map::<Seq<char>, T>::empty()] + Seq::empty() =~= seq![
                    Map::<Seq<char>, T>::empty(),
                ]);
            }
        }
        env
    }

    /// Binds `name` to `value` in this environment's own scope, replacing a binding it had.
    pub fn define(&mut self, name: String, value: T)
        ensures
            old(self)@.len() >= 1,
            final(self)@ == old(self)@.update(0, old(self)@[0].insert(name@, value)),
    {
        proof {
            self.lemma_scopes();
        }
        let ghost name_view = name@;
        match find_binding(&self.values, &name) {
            Some(i) => {
                proof {
                    lemma_frame_map_update(self.values@, i as int, (name, value));
                }
                self.values.set(i, (name, value));
            },
            None => {
                proof {
                    lemma_frame_map_push(self.values@, name, value);
                }
                self.values.push((name, value));
            },
        }
        proof {
            self.lemma_scopes();
            assert(self@ =~= old(self)@.update(0, old(self)@[0].insert(name_view, value)));
        }
    }

    /// The value bound to the token's name in the nearest scope that binds it.
    pub fn get(&self, name: Token) -> (r: Result<&T, RuntimeError>)
        ensures
            self@.len() >= 1,
            match r {
                Ok(v) => lookup(self@, name.lexeme@) == Some(*v),
                Err(e) => lookup(self@, name.lexeme@) is None && e@ == (RuntimeErrorView {
                    message: "Undefined variable"@,
                    token: Some(name@),
                }),
            },
        decreases self,
    {
        proof {
            self.lemma_scopes();
        }
        match find_binding(&self.values, &name.lexeme) {
            Some(i) => {
                proof {
                    lemma_frame_map_first(self.values@, name.lexeme@, i as int);
                }
                Ok(&self.values[i].1)
            },
            None => {
                proof {
                    lemma_frame_map_absent(self.values@, name.lexeme@);
                }
                assert(lookup(self@, name.lexeme@) == lookup(self@.drop_first(), name.lexeme@));
                match &*self.enclosing {
                    Some(env) => env.get(name),
                    None => Err(RuntimeError::from_token("Undefined variable", &name)),
                }
            },
        }
    }

    /// Rebinds the token's name to `value` in the nearest scope that binds it. Where no
    /// scope binds it, nothing changes and the error names the variable.
    pub fn assign(&mut self, name: Token, value: T) -> (r: Option<RuntimeError>)
        ensures
            old(self)@.len() >= 1,
            final(self)@ == assigned(old(self)@, name.lexeme@, value),
            match r {
                None => lookup(old(self)@, name.lexeme@) is Some,
                Some(e) => lookup(old(self)@, name.lexeme@) is None && e@ == (RuntimeErrorView {
                    message: "Undefined Variable "@ + name.lexeme@,
                    token: Some(name@),
                }),
            },
        decreases *old(self),
    {
        proof {
            self.lemma_scopes();
        }
        match find_binding(&self.values, &name.lexeme) {
            Some(i) => {
                let key = name.lexeme.clone();
                proof {
                    lemma_frame_map_first(self.values@, name.lexeme@, i as int);
                    lemma_frame_map_update(self.values@, i as int, (key, value));
                }
                self.values.set(i, (key, value));
                proof {
                    self.lemma_scopes();
                    assert(self@ =~= assigned(old(self)@, name.lexeme@, value));
                }
                return None;
            },
            None => {
                proof {
                    lemma_frame_map_absent(self.values@, name.lexeme@);
                }
                if self.enclosing.is_some() {
                    if let Some(env) = &mut *self.enclosing {
                        assert(lookup(old(self)@, name.lexeme@) == lookup(env@, name.lexeme@));
                        let r = env.assign(name, value);
                        proof {
                            self.lemma_scopes();
                            assert(self@ =~= assigned(old(self)@, name.lexeme@, value));
                        }
                        return r;
                    }
                }
            },
        }
        proof {
            assert(old(self)@.drop_first().len() == 0);
            assert(lookup(old(self)@.drop_first(), name.lexeme@) is None);
            let rest = assigned(old(self)@.drop_first(), name.lexeme@, value);
            assert(rest.len() == 0);
            assert(old(self)@ =~= seq![old(self)@[0]]);
            assert(assigned(old(self)@, name.lexeme@, value) =~= seq![old(self)@[0]] + rest);
            assert(assigned(old(self)@, name.lexeme@, value) =~= old(self)@);
        }
        let mut message = String::from_str("Undefined Variable ");
        message.append(name.lexeme.as_str());
        Some(RuntimeError { message, token: Some(name) })
    }

    /// The environment this one encloses, if any.
    pub fn release_enclosing(self) -> (r: Option<Environment<T>>)
        ensures
            self@.len() >= 1,
            r is None <==> self@.len() == 1,
            match r {
                Some(e) => e@ == self@.drop_first(),
                None => self@.len() == 1,
            },
    {
        proof {
            self.lemma_scopes();
            match &*self.enclosing {
                Some(e) => e.lemma_scopes(),
                None => {},
            }
        }
        *self.enclosing
    }

    /// A new, empty scope around this environment.
    pub fn enclosed(self) -> (env: Environment<T>)
        ensures
            env@ == seq![Map::<Seq<char>, T>::empty()] + self@,
    {
        Environment::new(Some(self))
    }
}

/// Whether `copy` holds the names of `bindings` in the same order, each value a clone.
pub open spec fn cloned_bindings<T: Clone>(bindings: Seq<(String, T)>, copy: Seq<(String, T)>) -> bool {
    &&& copy.len() == bindings.len()
    &&& forall|i: int|
        0 <= i < bindings.len() ==> (#[trigger] copy[i]).0@ == bindings[i].0@ && cloned(
            bindings[i].1,
            copy[i].1,
        )
}

/// Whether every scope of `copy` binds the names that the same scope of `scopes` binds,
/// each to a clone of its value there.
pub open spec fn cloned_scopes<T: Clone>(
    scopes: Seq<Map<Seq<char>, T>>,
    copy: Seq<Map<Seq<char>, T>>,
) -> bool {
    &&& copy.len() == scopes.len()
    &&& forall|i: int| 0 <= i < scopes.len() ==> (#[trigger] copy[i]).dom() == scopes[i].dom()
    &&& forall|i: int, k: Seq<char>|
        0 <= i < scopes.len() && #[trigger] scopes[i].dom().contains(k) ==> cloned(
            scopes[i][k],
            copy[i][k],
        )
}

proof fn lemma_frame_map_cloned<T: Clone>(bindings: Seq<(String, T)>, copy: Seq<(String, T)>)
    requires
        cloned_bindings(bindings, copy),
    ensures
        frame_map(copy).dom() == frame_map(bindings).dom(),
        forall|k: Seq<char>|
            #[trigger] frame_map(bindings).dom().contains(k) ==> cloned(
                frame_map(bindings)[k],
                frame_map(copy)[k],
            ),
    decreases bindings.len(),
{
    if bindings.len() > 0 {
        let a = bindings.drop_last();
        let b = copy.drop_last();
        assert forall|i: int| 0 <= i < a.len() implies (#[trigger] b[i]).0@ == a[i].0@ && cloned(
            a[i].1,
            b[i].1,
        ) by {
            assert(a[i] == bindings[i]);
            assert(b[i] == copy[i]);
        }
        lemma_frame_map_cloned(a, b);
        assert(copy[copy.len() - 1].0@ == bindings[bindings.len() - 1].0@);
        assert(frame_map(copy).dom() =~= frame_map(bindings).dom());
    }
}

/// Copies of the bindings of a scope.
fn clone_bindings<T: Clone>(values: &Vec<(String, T)>) -> (r: Vec<(String, T)>)
    ensures
        cloned_bindings(values@, r@),
{
    let mut r: Vec<(String, T)> = Vec::new();
    let mut i: usize = 0;
    while i < values.len()
        invariant
            i <= values@.len(),
            r@.len() == i,
            forall|j: int|
                0 <= j < i ==> (#[trigger] r@[j]).0@ == values@[j].0@ && cloned(
                    values@[j].1,
                    r@[j].1,
                ),
        decreases values@.len() - i,
    {
        let name = values[i].0.clone();
        let value = values[i].1.clone();
        r.push((name, value));
        i = i + 1;
    }
    r
}

impl<T: Clone> Environment<T> {
    /// A copy of the environment and of those it encloses: the same names in each scope,
    /// each bound to a clone of its value.
    fn copied(&self) -> (r: Self)
        ensures
            cloned_scopes(self@, r@),
        decreases self,
    {
        let values = clone_bindings(&self.values);
        let enclosing = match &*self.enclosing {
            Some(e) => Some(e.copied()),
            None => None,
        };
        let r = Environment { values, enclosing: Box::new(enclosing) };
        proof {
            self.lemma_scopes();
            r.lemma_scopes();
            lemma_frame_map_cloned(self.values@, r.values@);
            assert forall|i: int| 0 <= i < self@.len() implies (#[trigger] r@[i]).dom()
                == self@[i].dom() by {
                if i > 0 {
                    assert(r@[i] == r@.drop_first()[i - 1]);
                    assert(self@[i] == self@.drop_first()[i - 1]);
                }
            }
            assert forall|i: int, k: Seq<char>|
                0 <= i < self@.len() && #[trigger] self@[i].dom().contains(k) implies cloned(
                self@[i][k],
                r@[i][k],
            ) by {
                if i > 0 {
                    assert(r@[i] == r@.drop_first()[i - 1]);
                    assert(self@[i] == self@.drop_first()[i - 1]);
                }
            }
        }
        r
    }
}

impl<T: Clone> Clone for Environment<T> {
    fn clone(&self) -> (r: Self)
        ensures
            cloned_scopes(self@, r@),
    {
        self.copied()
    }
}

/// Reading a name just defined gives the value it was defined with, whatever the
/// enclosing scopes bind (an inner definition shadows an outer one).
pub proof fn law_get_after_define<T>(scopes: Seq<Map<Seq<char>, T>>, name: Seq<char>, value: T)
    requires
        scopes.len() >= 1,
    ensures
        lookup(scopes.update(0, scopes[0].insert(name, value)), name) == Some(value),
{
}

/// Defining a name leaves what every other name reads unchanged.
pub proof fn law_define_keeps_others<T>(
    scopes: Seq<Map<Seq<char>, T>>,
    name: Seq<char>,
    value: T,
    other: Seq<char>,
)
    requires
        scopes.len() >= 1,
        other != name,
    ensures
        lookup(scopes.update(0, scopes[0].insert(name, value)), other) == lookup(scopes, other),
{
    let updated = scopes.update(0, scopes[0].insert(name, value));
    assert(updated.drop_first() =~= scopes.drop_first());
}

/// A new scope around an environment sees every binding of the environment.
pub proof fn law_enclosed_sees_outer<T>(scopes: Seq<Map<Seq<char>, T>>, name: Seq<char>)
    ensures
        lookup(seq![Map::<Seq<char>, T>::empty()] + scopes, name) == lookup(scopes, name),
{
    assert((seq![Map::<Seq<char>, T>::empty()] + scopes).drop_first() =~= scopes);
}

/// Releasing the scope that `enclosed` added gives back the environment it enclosed.
pub proof fn law_release_undoes_enclosed<T>(scopes: Seq<Map<Seq<char>, T>>)
    ensures
        (seq![Map::<Seq<char>, T>::empty()] + scopes).drop_first() == scopes,
{
    assert((seq![Map::<Seq<char>, T>::empty()] + scopes).drop_first() =~= scopes);
}

/// Assigning keeps the number of scopes.
pub proof fn law_assign_keeps_scopes<T>(scopes: Seq<Map<Seq<char>, T>>, name: Seq<char>, value: T)
    ensures
        assigned(scopes, name, value).len() == scopes.len(),
    decreases scopes.len(),
{
    if scopes.len() > 0 && !scopes[0].dom().contains(name) {
        law_assign_keeps_scopes(scopes.drop_first(), name, value);
    }
}

/// After assigning to a bound name, reading it gives the new value; every other name reads
/// as before. Assigning to a name that no scope binds changes nothing.
pub proof fn law_get_after_assign<T>(
    scopes: Seq<Map<Seq<char>, T>>,
    name: Seq<char>,
    value: T,
    other: Seq<char>,
)
    ensures
        lookup(scopes, name) is Some ==> lookup(assigned(scopes, name, value), name) == Some(
            value,
        ),
        lookup(scopes, name) is None ==> assigned(scopes, name, value) == scopes,
        other != name ==> lookup(assigned(scopes, name, value), other) == lookup(scopes, other),
    decreases scopes.len(),
{
    if scopes.len() > 0 {
        let rest = scopes.drop_first();
        law_get_after_assign(rest, name, value, other);
        let result = assigned(scopes, name, value);
        if scopes[0].dom().contains(name) {
            assert(result.drop_first() =~= rest);
        } else {
            assert(result.drop_first() =~= assigned(rest, name, value));
            if lookup(scopes, name) is None {
                assert(result =~= scopes);
            }
        }
    }
}

/// Assigning inside a new scope to a name that only an enclosing scope binds changes that
/// binding: once the new scope is released, the name reads as the assigned value.
pub proof fn law_nested_assign_reaches_outer<T>(
    scopes: Seq<Map<Seq<char>, T>>,
    name: Seq<char>,
    value: T,
)
    requires
        lookup(scopes, name) is Some,
    ensures
        lookup(
            assigned(seq![Map::<Seq<char>, T>::empty()] + scopes, name, value).drop_first(),
            name,
        ) == Some(value),
{
    let inner = seq![Map::<Seq<char>, T>::empty()] + scopes;
    assert(inner.drop_first() =~= scopes);
    assert(assigned(inner, name, value).drop_first() =~= assigned(scopes, name, value));
    law_get_after_assign(scopes, name, value, name);
}

} // verus!
