use vstd::prelude::*;

verus! {

/// The index of the first `::` in `s` at or after `i`, if any.
pub open spec fn first_separator(s: Seq<char>, i: int) -> Option<int>
    decreases s.len() - i,
{
    if i < 0 || i + 1 >= s.len() {
        None
    } else if s[i] == ':' && s[i + 1] == ':' {
        Some(i)
    } else {
        first_separator(s, i + 1)
    }
}

/// A controller's path without its first segment (`crate::users::List`
/// becomes `users::List`); a name without `::` has nothing left.
pub open spec fn controller_path(name: Seq<char>) -> Seq<char> {
    match first_separator(name, 0) {
        Some(i) => name.subrange(i + 2, name.len() as int),
        None => Seq::empty(),
    }
}

/// The server: the request handlers it routes to, in order.
pub struct Server<H> {
    handlers: Vec<H>,
}

impl<H> Server<H> {
    /// The handlers, in routing order.
    pub closed spec fn handlers(&self) -> Seq<H> {
        self.handlers@
    }

    /// A server that routes to `handlers`, tried in order.
    pub fn new(handlers: Vec<H>) -> (r: Server<H>)
        ensures
            r.handlers() == handlers@,
    {
        Server { handlers }
    }

    /// The number of handlers.
    pub fn handler_count(&self) -> (r: usize)
        ensures
            r == self.handlers().len(),
    {
        self.handlers.len()
    }

    /// The handler at `index` in routing order.
    pub fn handler(&self, index: usize) -> (r: &H)
        requires
            index < self.handlers().len(),
        ensures
            *r == self.handlers()[index as int],
    {
        &self.handlers[index]
    }

    /// How a request log line names a controller: its path without the
    /// crate's name.
    pub fn log_name(controller_name: &str) -> (r: String)
        ensures
            r@ == controller_path(controller_name@),
    {
        let n = controller_name.unicode_len();
        let mut i: usize = 0;
        while i < n && n - i > 1
            invariant
                n == controller_name@.len(),
                i <= n,
                first_separator(controller_name@, 0) == first_separator(controller_name@, i as int),
            decreases n - i,
        {
            if controller_name.get_char(i) == ':' && controller_name.get_char(i + 1) == ':' {
                return String::from_str(controller_name.substring_char(i + 2, n));
            }
            i = i + 1;
        }
        String::new()
    }
}

} // verus!
