//! The environment variables of a process, as plain values.
use crate::chars::same;
use vstd::prelude::*;

verus! {

/// What the variables hold: a name stands for a value that is Unicode, or,
/// with `None`, for one that is not.
pub type EnvMap = Map<Seq<char>, Option<Seq<char>>>;

/// The view of an optional string.
pub open spec fn opt_view(s: Option<String>) -> Option<Seq<char>> {
    match s {
        Some(s) => Some(s@),
        None => None,
    }
}

/// The Unicode value of the variable `name`.
pub open spec fn var(env: EnvMap, name: Seq<char>) -> Option<Seq<char>> {
    if env.dom().contains(name) {
        env[name]
    } else {
        None
    }
}

/// Whether the variable `name` is set, to a Unicode value or to another.
pub open spec fn is_set(env: EnvMap, name: Seq<char>) -> bool {
    env.dom().contains(name)
}

/// Whether the variable `name` is set to anything but the empty string.
pub open spec fn is_set_nonempty(env: EnvMap, name: Seq<char>) -> bool {
    env.dom().contains(name) && (env[name] matches Some(value) ==> value.len() > 0)
}

/// A set of environment variables.
#[derive(Debug)]
pub struct Env {
    vars: Vec<(String, Option<String>)>,
}

/// The variables that a list of settings leaves behind: a later one of the
/// same name takes the place of an earlier one.
pub closed spec fn settings(vars: Seq<(String, Option<String>)>) -> EnvMap
    decreases vars.len(),
{
    if vars.len() == 0 {
        Map::empty()
    } else {
        settings(vars.drop_last()).insert(vars.last().0@, opt_view(vars.last().1))
    }
}

impl View for Env {
    type V = EnvMap;

    closed spec fn view(&self) -> EnvMap {
        settings(self.vars@)
    }
}

impl Env {
    /// No variables at all.
    pub fn new() -> (r: Env)
        ensures
            r@ == Map::<Seq<char>, Option<Seq<char>>>::empty(),
    {
        Env { vars: Vec::new() }
    }

    /// Sets the variable `name` to `value`.
    pub fn set(&mut self, name: &str, value: &str)
        ensures
            final(self)@ == old(self)@.insert(name@, Some(value@)),
    {
        let ghost before = self.vars@;
        self.vars.push((name.to_owned(), Some(value.to_owned())));
        assert(self.vars@.drop_last() =~= before);
    }

    /// Sets the variable `name` to a value that is not Unicode.
    pub fn set_non_unicode(&mut self, name: &str)
        ensures
            final(self)@ == old(self)@.insert(name@, None),
    {
        let ghost before = self.vars@;
        self.vars.push((name.to_owned(), None));
        assert(self.vars@.drop_last() =~= before);
    }

    /// The setting that counts for `name`.
    fn find(&self, name: &str) -> (r: Option<usize>)
        ensures
            match r {
                Some(i) => i < self.vars@.len() && self.vars@[i as int].0@ == name@
                    && is_set(self@, name@) && self@[name@] == opt_view(self.vars@[i as int].1),
                None => !is_set(self@, name@),
            },
    {
        let mut n: usize = self.vars.len();
        assert(self.vars@.take(n as int) =~= self.vars@);
        while n > 0
            invariant
                0 <= n <= self.vars@.len(),
                is_set(self@, name@) <==> is_set(settings(self.vars@.take(n as int)), name@),
                is_set(self@, name@) ==> self@[name@] == settings(
                    self.vars@.take(n as int),
                )[name@],
            decreases n,
        {
            let ghost t = self.vars@.take(n as int);
            assert(t.drop_last() =~= self.vars@.take(n - 1));
            assert(t.last() == self.vars@[n - 1]);
            if same(self.vars[n - 1].0.as_str(), name) {
                return Some(n - 1);
            }
            n = n - 1;
        }
        None
    }

    /// The value of the variable `name`, where it is set and is Unicode.
    pub fn get(&self, name: &str) -> (r: Option<String>)
        ensures
            opt_view(r) == var(self@, name@),
    {
        match self.find(name) {
            Some(i) => self.vars[i].1.clone(),
            None => None,
        }
    }

    /// Whether the variable `name` is set, to a Unicode value or to another.
    pub fn contains(&self, name: &str) -> (r: bool)
        ensures
            r == is_set(self@, name@),
    {
        self.find(name).is_some()
    }

    /// Whether the variable `name` is set to anything but the empty string.
    pub fn contains_nonempty(&self, name: &str) -> (r: bool)
        ensures
            r == is_set_nonempty(self@, name@),
    {
        match self.find(name) {
            Some(i) => match &self.vars[i].1 {
                Some(value) => !value.as_str().is_empty(),
                None => true,
            },
            None => false,
        }
    }

    /// Whether the variable `name` has a Unicode value.
    pub fn has(&self, name: &str) -> (r: bool)
        ensures
            r == (var(self@, name@) is Some),
    {
        self.get(name).is_some()
    }

    /// Whether the variable `name` has the value `value`.
    pub fn is(&self, name: &str, value: &str) -> (r: bool)
        ensures
            r == (var(self@, name@) == Some(value@)),
    {
        match self.get(name) {
            Some(v) => same(v.as_str(), value),
            None => false,
        }
    }
}

/// A variable is read as it was set last: it has the value that it was given,
/// and the others keep theirs. One whose value is not Unicode has no value that
/// can be read, but is set and not empty.
pub proof fn variables_are_read_as_they_were_set(
    env: EnvMap,
    name: Seq<char>,
    value: Seq<char>,
    other: Seq<char>,
)
    ensures
        ({
            let after = env.insert(name, Some(value));
            &&& var(after, name) == Some(value)
            &&& is_set(after, name)
            &&& is_set_nonempty(after, name) <==> value.len() > 0
            &&& other != name ==> var(after, other) == var(env, other) && is_set(after, other)
                == is_set(env, other) && is_set_nonempty(after, other) == is_set_nonempty(
                env,
                other,
            )
        }),
        ({
            let after = env.insert(name, None);
            &&& var(after, name) is None
            &&& is_set(after, name)
            &&& is_set_nonempty(after, name)
        }),
        ({
            let after = env.remove(name);
            &&& var(after, name) is None
            &&& !is_set(after, name)
            &&& !is_set_nonempty(after, name)
        }),
{
}

} // verus!
