use vstd::prelude::*;
use crate::object::{Object, SpecValue};

verus! {

/// The model of an `Environment`: its bindings in the order they were made,
/// and the index of the enclosing environment.
pub struct SpecEnv {
    pub bindings: Seq<(Seq<char>, SpecValue)>,
    pub outer: Option<nat>,
}

/// The value most recently bound to `name` among `b`, if any.
pub open spec fn local_get(b: Seq<(Seq<char>, SpecValue)>, name: Seq<char>) -> Option<SpecValue>
    decreases b.len(),
{
    if b.len() == 0 {
        None
    } else if b.last().0 == name {
        Some(b.last().1)
    } else {
        local_get(b.drop_last(), name)
    }
}

/// The value of `name` seen from environment `id`: its own binding, else the
/// one its enclosing environments give. An enclosing link that does not point
/// to an earlier environment ends the search.
pub open spec fn lookup(envs: Seq<SpecEnv>, id: int, name: Seq<char>) -> Option<SpecValue>
    decreases id,
{
    if !(0 <= id < envs.len()) {
        None
    } else {
        match local_get(envs[id].bindings, name) {
            Some(v) => Some(v),
            None => match envs[id].outer {
                Some(o) => if o < id {
                    lookup(envs, o as int, name)
                } else {
                    None
                },
                None => None,
            },
        }
    }
}

pub open spec fn bindings_view(s: Seq<(String, Object)>) -> Seq<(Seq<char>, SpecValue)> {
    s.map_values(|b: (String, Object)| (b.0@, b.1@))
}

/// One scope: names bound to values, and the scope that encloses it.
#[derive(Debug)]
pub struct Environment {
    store: Vec<(String, Object)>,
    outer: Option<usize>,
}

impl Environment {
    pub closed spec fn view(&self) -> SpecEnv {
        SpecEnv {
            bindings: bindings_view(self.store@),
            outer: match self.outer {
                Some(o) => Some(o as nat),
                None => None,
            },
        }
    }

    /// An empty scope with no enclosing one.
    pub fn new() -> (r: Self)
        ensures
            r@.bindings == Seq::<(Seq<char>, SpecValue)>::empty(),
            r@.outer is None,
    {
        let r = Environment { store: Vec::new(), outer: None };
        assert(r@.bindings =~= Seq::<(Seq<char>, SpecValue)>::empty());
        r
    }

    /// An empty scope enclosed by environment `outer`.
    pub fn new_enclosed_environment(outer: usize) -> (r: Self)
        ensures
            r@.bindings == Seq::<(Seq<char>, SpecValue)>::empty(),
            r@.outer == Some(outer as nat),
    {
        let r = Environment { store: Vec::new(), outer: Some(outer) };
        assert(r@.bindings =~= Seq::<(Seq<char>, SpecValue)>::empty());
        r
    }

    /// The index of the enclosing environment.
    pub fn outer(&self) -> (r: Option<usize>)
        ensures
            match r {
                Some(o) => self@.outer == Some(o as nat),
                None => self@.outer is None,
            },
    {
        self.outer
    }

    /// The value most recently bound to `name` in this scope alone.
    pub fn get(&self, name: &String) -> (r: Option<Object>)
        ensures
            match local_get(self@.bindings, name@) {
                Some(v) => r matches Some(x) && x@ == v,
                None => r is None,
            },
    {
        let ghost b = self@.bindings;
        let mut i = self.store.len();
        assert(b.subrange(0, i as int) =~= b);
        while i > 0
            invariant
                i <= self.store@.len(),
                b == bindings_view(self.store@),
                local_get(b, name@) == local_get(b.subrange(0, i as int), name@),
            decreases i,
        {
            let ghost sub = b.subrange(0, i as int);
            assert(sub.drop_last() =~= b.subrange(0, i - 1));
            if self.store[i - 1].0 == *name {
                return Some(self.store[i - 1].1.copy());
            }
            i = i - 1;
        }
        None
    }

    /// Binds `name` to `value` in this scope, hiding any earlier binding of it.
    pub fn set(&mut self, name: String, value: Object)
        ensures
            final(self)@.bindings == old(self)@.bindings.push((name@, value@)),
            final(self)@.outer == old(self)@.outer,
    {
        let ghost n = name@;
        let ghost v = value@;
        self.store.push((name, value));
        assert(bindings_view(self.store@) =~= bindings_view(old(self).store@).push((n, v)));
    }
}

/// Every environment made while running a program, each addressed by its
/// index; an environment's enclosing link is an index too.
#[derive(Debug)]
pub struct Scopes {
    envs: Vec<Environment>,
}

impl Scopes {
    pub closed spec fn view(&self) -> Seq<SpecEnv> {
        self.envs@.map_values(|e: Environment| e@)
    }

    /// A single global environment, at index 0.
    pub fn new() -> (r: Self)
        ensures
            r@.len() == 1,
            r@[0].bindings == Seq::<(Seq<char>, SpecValue)>::empty(),
            r@[0].outer is None,
    {
        let mut envs: Vec<Environment> = Vec::new();
        envs.push(Environment::new());
        Scopes { envs }
    }

    pub fn len(&self) -> (r: usize)
        ensures
            r == self@.len(),
    {
        self.envs.len()
    }

    /// Adds an environment and returns its index.
    pub fn push(&mut self, env: Environment) -> (r: usize)
        ensures
            final(self)@ == old(self)@.push(env@),
            r == old(self)@.len(),
    {
        let r = self.envs.len();
        let ghost e = env@;
        self.envs.push(env);
        assert(self@ =~= old(self)@.push(e));
        r
    }

    /// The value of `name` seen from environment `id`.
    pub fn lookup(&self, id: usize, name: &String) -> (r: Option<Object>)
        ensures
            match lookup(self@, id as int, name@) {
                Some(v) => r matches Some(x) && x@ == v,
                None => r is None,
            },
    {
        let mut cur = id;
        loop
            invariant
                lookup(self@, cur as int, name@) == lookup(self@, id as int, name@),
            decreases cur,
        {
            if cur >= self.envs.len() {
                return None;
            }
            let env = &self.envs[cur];
            assert(self@[cur as int] == env@);
            match env.get(name) {
                Some(v) => {
                    return Some(v);
                },
                None => {},
            }
            match env.outer() {
                Some(o) => {
                    if o < cur {
                        cur = o;
                    } else {
                        return None;
                    }
                },
                None => {
                    return None;
                },
            }
        }
    }

    /// Binds `name` to `value` in environment `id`.
    pub fn define(&mut self, id: usize, name: String, value: Object)
        requires
            id < old(self)@.len(),
        ensures
            final(self)@ == old(self)@.update(
                id as int,
                SpecEnv {
                    bindings: old(self)@[id as int].bindings.push((name@, value@)),
                    outer: old(self)@[id as int].outer,
                },
            ),
    {
        let ghost n = name@;
        let ghost v = value@;
        self.envs[id].set(name, value);
        assert(self@ =~= old(self)@.update(
            id as int,
            SpecEnv {
                bindings: old(self)@[id as int].bindings.push((n, v)),
                outer: old(self)@[id as int].outer,
            },
        ));
    }
}

} // verus!
