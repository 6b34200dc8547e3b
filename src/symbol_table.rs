use vstd::prelude::*;

use crate::errors::TranslationErrorKind;

verus! {

/// The value bound to `name` in one scope, if any.
pub open spec fn find_in_scope<T>(scope: Seq<(Seq<char>, T)>, name: Seq<char>) -> Option<T>
    decreases scope.len(),
{
    if scope.len() == 0 {
        None
    } else if scope.last().0 == name {
        Some(scope.last().1)
    } else {
        find_in_scope(scope.drop_last(), name)
    }
}

/// A binding added to a scope hides earlier bindings of the same name.
pub proof fn lemma_find_in_scope_push<T>(scope: Seq<(Seq<char>, T)>, e: (Seq<char>, T), name: Seq<char>)
    ensures
        find_in_scope(scope.push(e), name) == if e.0 == name {
            Some(e.1)
        } else {
            find_in_scope(scope, name)
        },
{
    assert(scope.push(e).drop_last() =~= scope);
}

/// With one scope, a name stands for what that scope binds it to.
pub proof fn lemma_resolve_single<T>(scopes: Seq<Seq<(Seq<char>, T)>>, name: Seq<char>)
    requires
        scopes.len() == 1,
    ensures
        resolve(scopes, name) == find_in_scope(scopes[0], name),
{
    assert(scopes.drop_last() =~= Seq::<Seq<(Seq<char>, T)>>::empty());
    assert(resolve(Seq::<Seq<(Seq<char>, T)>>::empty(), name) is None);
}

/// The value bound to `name` in the innermost scope that binds it.
pub open spec fn resolve<T>(scopes: Seq<Seq<(Seq<char>, T)>>, name: Seq<char>) -> Option<T>
    decreases scopes.len(),
{
    if scopes.len() == 0 {
        None
    } else {
        match find_in_scope(scopes.last(), name) {
            Some(v) => Some(v),
            None => resolve(scopes.drop_last(), name),
        }
    }
}

pub open spec fn scope_view<T>(scope: Seq<(String, T)>) -> Seq<(Seq<char>, T)> {
    scope.map_values(|e: (String, T)| (e.0@, e.1))
}

/// Lexical scopes mapping names to values: the outermost scope first. A name is
/// bound at most once per scope; an inner binding shadows outer ones.
pub struct SymbolTable<T> {
    scopes: Vec<Vec<(String, T)>>,
}

impl<T> SymbolTable<T> {
    pub closed spec fn view_scopes(&self) -> Seq<Seq<(Seq<char>, T)>> {
        self.scopes@.map_values(|s: Vec<(String, T)>| scope_view(s@))
    }

    /// A table with one empty scope.
    pub fn new() -> (r: SymbolTable<T>)
        ensures
            r.view_scopes() == seq![Seq::<(Seq<char>, T)>::empty()],
    {
        let mut scopes: Vec<Vec<(String, T)>> = Vec::new();
        scopes.push(Vec::new());
        let r = SymbolTable { scopes };
        assert(scope_view(Seq::<(String, T)>::empty()) =~= Seq::<(Seq<char>, T)>::empty());
        assert(r.view_scopes() =~= seq![Seq::<(Seq<char>, T)>::empty()]);
        r
    }

    pub fn depth(&self) -> (r: usize)
        ensures
            r == self.view_scopes().len(),
    {
        self.scopes.len()
    }

    /// Opens a new innermost scope.
    pub fn push_scope(&mut self)
        ensures
            final(self).view_scopes() == old(self).view_scopes().push(Seq::empty()),
    {
        self.scopes.push(Vec::new());
        assert(scope_view(Seq::<(String, T)>::empty()) =~= Seq::<(Seq<char>, T)>::empty());
        assert(self.view_scopes() =~= old(self).view_scopes().push(Seq::empty()));
    }

    /// Closes the innermost scope, and its bindings with it.
    pub fn pop_scope(&mut self)
        requires
            old(self).view_scopes().len() > 1,
        ensures
            final(self).view_scopes() == old(self).view_scopes().drop_last(),
    {
        self.scopes.pop();
        assert(self.view_scopes() =~= old(self).view_scopes().drop_last());
    }

    /// Binds `name` in the innermost scope; a name already bound there is a
    /// duplicate declaration, and nothing changes.
    pub fn insert(&mut self, name: String, value: T) -> (r: Result<(), TranslationErrorKind>)
        requires
            old(self).view_scopes().len() > 0,
        ensures
            r is Err <==> find_in_scope(old(self).view_scopes().last(), name@) is Some,
            r is Err ==> r->Err_0 == TranslationErrorKind::DuplicateDeclaration,
            r is Err ==> final(self).view_scopes() == old(self).view_scopes(),
            r is Ok ==> final(self).view_scopes() == old(self).view_scopes().drop_last().push(
                old(self).view_scopes().last().push((name@, value)),
            ),
    {
        let last = self.scopes.len() - 1;
        let found = find_in(&self.scopes[last], &name);
        proof {
            assert(self.view_scopes().last() == scope_view(self.scopes@[last as int]@));
        }
        if found.is_some() {
            return Err(TranslationErrorKind::DuplicateDeclaration);
        }
        let ghost name_v = name@;
        let mut scope = self.scopes.pop().unwrap();
        let ghost old_scope = scope@;
        scope.push((name, value));
        assert(scope_view(scope@) =~= scope_view(old_scope).push((name_v, value)));
        self.scopes.push(scope);
        assert(self.view_scopes() =~= old(self).view_scopes().drop_last().push(
            old(self).view_scopes().last().push((name_v, value)),
        ));
        Ok(())
    }

    /// The value of `name` in the innermost scope that binds it.
    pub fn lookup(&self, name: &String) -> (r: Option<&T>)
        ensures
            match r {
                Some(v) => resolve(self.view_scopes(), name@) == Some(*v),
                None => resolve(self.view_scopes(), name@) is None,
            },
    {
        let mut i = self.scopes.len();
        assert(self.view_scopes().subrange(0, i as int) =~= self.view_scopes());
        while i > 0
            invariant
                i <= self.scopes.len(),
                resolve(self.view_scopes(), name@) == resolve(
                    self.view_scopes().subrange(0, i as int),
                    name@,
                ),
            decreases i,
        {
            let ghost prefix = self.view_scopes().subrange(0, i as int);
            assert(prefix.last() == scope_view(self.scopes@[i - 1]@));
            assert(prefix.drop_last() =~= self.view_scopes().subrange(0, i - 1));
            match find_in(&self.scopes[i - 1], name) {
                Some(v) => {
                    return Some(v);
                },
                None => {},
            }
            i = i - 1;
        }
        None
    }
}

/// The value bound to `name` in one scope.
fn find_in<'a, T>(scope: &'a Vec<(String, T)>, name: &String) -> (r: Option<&'a T>)
    ensures
        match r {
            Some(v) => find_in_scope(scope_view(scope@), name@) == Some(*v),
            None => find_in_scope(scope_view(scope@), name@) is None,
        },
{
    let mut i = scope.len();
    assert(scope_view(scope@).subrange(0, i as int) =~= scope_view(scope@));
    while i > 0
        invariant
            i <= scope.len(),
            find_in_scope(scope_view(scope@), name@) == find_in_scope(
                scope_view(scope@).subrange(0, i as int),
                name@,
            ),
        decreases i,
    {
        let ghost prefix = scope_view(scope@).subrange(0, i as int);
        assert(prefix.drop_last() =~= scope_view(scope@).subrange(0, i - 1));
        if scope[i - 1].0 == *name {
            return Some(&scope[i - 1].1);
        }
        i = i - 1;
    }
    None
}

} // verus!
