//! Hooks: requests for `"{name}.kittykat.hook"` that the proxy answers itself.

use vstd::prelude::*;
use crate::text::same_text;

verus! {

broadcast use vstd::string::group_string_axioms;

/// A hook, found by its name.  What a hook does is chosen by the server that
/// holds the hook list, in the same order.
#[derive(Debug, Clone)]
pub struct Hook {
    pub name: String,
}

/// The host name under which the hook called `name` is reached.
pub open spec fn hook_host(name: Seq<char>) -> Seq<char> {
    name + ".kittykat.hook"@
}

impl Hook {
    /// A hook called `name`.
    pub fn new(name: &str) -> (res: Hook)
        ensures
            res.name@ == name@,
    {
        Hook { name: name.to_owned() }
    }

    /// Whether requests for `hostname` go to this hook.
    pub fn match_host(&self, hostname: &str) -> (res: bool)
        ensures
            res == (hostname@ == hook_host(self.name@)),
    {
        let mut buf = self.name.clone();
        buf.append(".kittykat.hook");
        same_text(hostname, buf.as_str())
    }
}

} // verus!
