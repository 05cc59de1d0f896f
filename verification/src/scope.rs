//! The variables of one activation: a map from names to values.

use vstd::prelude::*;
use crate::fault::Fault;
use crate::model::{evaluated, Name, Value};
use crate::object::Object;

verus! {

/// The map that the first `n` bindings of a list make, a later binding of a
/// name replacing an earlier one.
pub open spec fn bound(vars: Seq<(String, Object)>, n: nat) -> Map<Name, Value>
    decreases n,
{
    if n == 0 {
        Map::empty()
    } else {
        bound(vars, (n - 1) as nat).insert(vars[n - 1].0@, vars[n - 1].1@)
    }
}

/// Two lists that agree on their first `n` bindings make the same map of
/// them.
proof fn lemma_bound_prefix(a: Seq<(String, Object)>, b: Seq<(String, Object)>, n: nat)
    requires
        n <= a.len(),
        n <= b.len(),
        forall|j: int| 0 <= j < n ==> a[j].0@ == b[j].0@ && a[j].1@ == b[j].1@,
    ensures
        bound(a, n) == bound(b, n),
    decreases n,
{
    if n > 0 {
        lemma_bound_prefix(a, b, (n - 1) as nat);
    }
}

/// A name that none of the first `n` bindings has is not in their map.
proof fn lemma_bound_absent(vars: Seq<(String, Object)>, n: nat, name: Name)
    requires
        n <= vars.len(),
        forall|j: int| 0 <= j < n ==> vars[j].0@ != name,
    ensures
        !bound(vars, n).dom().contains(name),
    decreases n,
{
    if n > 0 {
        lemma_bound_absent(vars, (n - 1) as nat, name);
    }
}

/// The map gives a name the value of the last binding that has it.
proof fn lemma_bound_last(vars: Seq<(String, Object)>, n: nat, i: int, name: Name)
    requires
        0 <= i < n <= vars.len(),
        vars[i].0@ == name,
        forall|j: int| i < j < n ==> vars[j].0@ != name,
    ensures
        bound(vars, n).dom().contains(name),
        bound(vars, n)[name] == vars[i].1@,
    decreases n,
{
    if n > i + 1 {
        lemma_bound_last(vars, (n - 1) as nat, i, name);
    }
}

/// Replacing the last binding of a name changes the map as an insertion
/// does.
proof fn lemma_bound_update(vars: Seq<(String, Object)>, n: nat, i: int, entry: (String, Object))
    requires
        0 <= i < n <= vars.len(),
        vars[i].0@ == entry.0@,
        forall|j: int| i < j < n ==> vars[j].0@ != entry.0@,
    ensures
        bound(vars.update(i, entry), n) == bound(vars, n).insert(entry.0@, entry.1@),
    decreases n,
{
    let new = vars.update(i, entry);
    if n == i + 1 {
        lemma_bound_prefix(new, vars, i as nat);
        assert(bound(new, n) =~= bound(vars, n).insert(entry.0@, entry.1@));
    } else {
        lemma_bound_update(vars, (n - 1) as nat, i, entry);
        assert(bound(new, n) =~= bound(vars, n).insert(entry.0@, entry.1@));
    }
}

/// A scope: the variables that a function body or a conditional block sees.
/// It holds one binding for each of its names, and each value in it is
/// evaluated.
pub struct Scope {
    vars: Vec<(String, Object)>,
}

impl View for Scope {
    type V = Map<Name, Value>;

    closed spec fn view(&self) -> Map<Name, Value> {
        bound(self.vars@, self.vars.len() as nat)
    }
}

impl Scope {
    /// No name is bound twice, and no variable holds a list that has not
    /// been evaluated.
    #[verifier::type_invariant]
    spec fn sound(self) -> bool {
        &&& forall|i: int, j: int|
            0 <= i < j < self.vars.len() ==> (#[trigger] self.vars[i]).0@ != (
            #[trigger] self.vars[j]).0@
        &&& forall|i: int| 0 <= i < self.vars.len() ==> evaluated((#[trigger] self.vars[i]).1@)
    }

    /// A scope without variables.
    pub fn new() -> (r: Scope)
        ensures
            r@ == Map::<Name, Value>::empty(),
    {
        Scope { vars: Vec::new() }
    }

    /// The place of the last binding of a name, if it has one.
    fn find(&self, name: &String) -> (r: Option<usize>)
        ensures
            match r {
                Some(i) => i < self.vars.len() && self.vars[i as int].0@ == name@ && forall|j: int|
                    i < j < self.vars.len() ==> self.vars[j].0@ != name@,
                None => forall|j: int| 0 <= j < self.vars.len() ==> self.vars[j].0@ != name@,
            },
    {
        let mut i: usize = self.vars.len();
        while i > 0
            invariant
                i <= self.vars.len(),
                forall|j: int| i <= j < self.vars.len() ==> self.vars[j].0@ != name@,
            decreases i,
        {
            i -= 1;
            if self.vars[i].0 == *name {
                return Some(i);
            }
        }
        None
    }

    /// Copies every binding of `other` into this scope. Where both bind a
    /// name, the value of `other` replaces the one that was here. `other`
    /// is not changed, and a later change of either scope does not reach the
    /// other.
    pub fn inheret(&mut self, other: &Scope)
        ensures
            final(self)@ == old(self)@.union_prefer_right(other@),
    {
        let ghost start = self@;
        let mut i: usize = 0;
        assert(self@ =~= start.union_prefer_right(bound(other.vars@, 0)));
        while i < other.vars.len()
            invariant
                i <= other.vars.len(),
                self@ == start.union_prefer_right(bound(other.vars@, i as nat)),
            decreases other.vars.len() - i,
        {
            proof {
                use_type_invariant(other);
            }
            let name = other.vars[i].0.clone();
            let value = other.vars[i].1.clone();
            self.set_var(name, value);
            i += 1;
            assert(self@ =~= start.union_prefer_right(bound(other.vars@, i as nat)));
        }
    }

    /// The value of a variable, or `UnboundVariable` where the scope has no
    /// variable of that name.
    pub fn get_var(&self, name: String) -> (r: Result<Object, Fault>)
        ensures
            match r {
                Ok(o) => self@.dom().contains(name@) && o@ == self@[name@] && evaluated(o@),
                Err(f) => !self@.dom().contains(name@) && f == Fault::UnboundVariable,
            },
    {
        proof {
            use_type_invariant(self);
        }
        match self.find(&name) {
            Some(i) => {
                proof {
                    lemma_bound_last(self.vars@, self.vars.len() as nat, i as int, name@);
                }
                Ok(self.vars[i].1.clone())
            },
            None => {
                proof {
                    lemma_bound_absent(self.vars@, self.vars.len() as nat, name@);
                }
                Err(Fault::UnboundVariable)
            },
        }
    }

    /// Binds a variable to a value, whether or not the scope had one of
    /// that name. The value is an evaluated one: a list literal is
    /// evaluated before it is bound.
    pub fn set_var(&mut self, name: String, val: Object)
        requires
            evaluated(val@),
        ensures
            final(self)@ == old(self)@.insert(name@, val@),
    {
        proof {
            use_type_invariant(&*self);
        }
        let found = self.find(&name);
        let mut vars: Vec<(String, Object)> = Vec::new();
        core::mem::swap(&mut self.vars, &mut vars);
        match found {
            Some(i) => {
                proof {
                    lemma_bound_update(vars@, vars.len() as nat, i as int, (name, val));
                }
                vars.set(i, (name, val));
            },
            None => {
                proof {
                    lemma_bound_prefix(vars@, vars@.push((name, val)), vars.len() as nat);
                }
                vars.push((name, val));
            },
        }
        core::mem::swap(&mut self.vars, &mut vars);
    }
}

} // verus!
