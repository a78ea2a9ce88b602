use vstd::prelude::*;

use crate::value::{Value, ValueModel};

verus! {

/// The value bound to `name` in a list of bindings; a later binding of the
/// same name hides an earlier one.
pub open spec fn lookup(entries: Seq<(String, Value)>, name: Seq<char>) -> Option<ValueModel>
    decreases entries.len(),
{
    if entries.len() == 0 {
        None
    } else if entries.last().0@ == name {
        Some(entries.last().1@)
    } else {
        lookup(entries.drop_last(), name)
    }
}

/// The variables that an expression is evaluated against.
pub struct Context {
    entries: Vec<(String, Value)>,
}

impl Context {
    /// The value bound to `name`, if any.
    pub closed spec fn binding(&self, name: Seq<char>) -> Option<ValueModel> {
        lookup(self.entries@, name)
    }

    /// No variable is bound.
    pub open spec fn is_empty(&self) -> bool {
        forall|name: Seq<char>| self.binding(name) is None
    }

    /// A context with no variables.
    pub fn new() -> (r: Context)
        ensures
            forall|name: Seq<char>| r.binding(name) is None,
    {
        Context { entries: Vec::new() }
    }

    /// Binds `name` to `value`, replacing any earlier binding of that name.
    pub fn set(&mut self, name: &str, value: Value)
        ensures
            final(self).binding(name@) == Some(value@),
            forall|other: Seq<char>|
                other != name@ ==> final(self).binding(other) == old(self).binding(other),
    {
        self.entries.push((String::from_str(name), value));
        assert(self.entries@.drop_last() =~= old(self).entries@);
    }

    /// The value bound to `name`, copied out of the context.
    pub fn get(&self, name: &str) -> (r: Option<Value>)
        ensures
            match r {
                Some(v) => self.binding(name@) == Some(v@),
                None => self.binding(name@) is None,
            },
    {
        let mut i: usize = self.entries.len();
        let wanted = String::from_str(name);
        assert(self.entries@.subrange(0, i as int) =~= self.entries@);
        while i > 0
            invariant
                i <= self.entries@.len(),
                wanted@ == name@,
                lookup(self.entries@, name@) == lookup(self.entries@.subrange(0, i as int), name@),
            decreases i,
        {
            let ghost prefix = self.entries@.subrange(0, i as int);
            assert(prefix.drop_last() =~= self.entries@.subrange(0, i - 1));
            if self.entries[i - 1].0 == wanted {
                return Some(self.entries[i - 1].1.duplicate());
            }
            i = i - 1;
        }
        None
    }
}

impl Default for Context {
    fn default() -> (r: Context)
        ensures
            forall|name: Seq<char>| r.binding(name) is None,
    {
        Context::new()
    }
}

} // verus!
