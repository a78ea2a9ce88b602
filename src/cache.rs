use vstd::prelude::*;

verus! {

/// The template stored for `path` in a list of entries; a later entry for the
/// same path replaces an earlier one.
pub open spec fn stored<T>(entries: Seq<(String, T)>, path: Seq<char>) -> Option<T>
    decreases entries.len(),
{
    if entries.len() == 0 {
        None
    } else if entries.last().0@ == path {
        Some(entries.last().1)
    } else {
        stored(entries.drop_last(), path)
    }
}

/// Compiled templates, cached by path.
pub struct Templates<T> {
    templates: Vec<(String, T)>,
}

impl<T> Templates<T> {
    /// The template cached for `path`, if any.
    pub closed spec fn entry(&self, path: Seq<char>) -> Option<T> {
        stored(self.templates@, path)
    }

    /// An empty cache.
    pub fn new() -> (r: Templates<T>)
        ensures
            forall|path: Seq<char>| r.entry(path) is None,
    {
        Templates { templates: Vec::new() }
    }

    /// The template cached for `path`, if any.
    pub fn cached(&self, path: &str) -> (r: Option<&T>)
        ensures
            match r {
                Some(t) => self.entry(path@) == Some(*t),
                None => self.entry(path@) is None,
            },
    {
        let wanted = String::from_str(path);
        let mut i: usize = self.templates.len();
        assert(self.templates@.subrange(0, i as int) =~= self.templates@);
        while i > 0
            invariant
                i <= self.templates@.len(),
                wanted@ == path@,
                stored(self.templates@, path@) == stored(
                    self.templates@.subrange(0, i as int),
                    path@,
                ),
            decreases i,
        {
            assert(self.templates@.subrange(0, i as int).drop_last() =~= self.templates@.subrange(
                0,
                i - 1,
            ));
            if self.templates[i - 1].0 == wanted {
                return Some(&self.templates[i - 1].1);
            }
            i = i - 1;
        }
        None
    }

    /// Caches a freshly loaded template for `path`, replacing any earlier one.
    pub fn store(&mut self, path: &str, template: T)
        ensures
            final(self).entry(path@) == Some(template),
            forall|p: Seq<char>| p != path@ ==> final(self).entry(p) == old(self).entry(p),
    {
        self.templates.push((String::from_str(path), template));
        assert(self.templates@.drop_last() =~= old(self).templates@);
    }
}

} // verus!
