//! The variable store: one flat mapping from names to values.

use crate::interpreter::{RuntimeValue, ValueView};
use vstd::hash_map::StringHashMap;
use vstd::prelude::*;

verus! {

/// The variables of a run, in a hash map from names to values.  Binding a
/// name that is bound already replaces its value: the last binding wins.
pub struct Variables {
    bindings: StringHashMap<RuntimeValue>,
}

impl View for Variables {
    type V = Map<Seq<char>, ValueView>;

    /// The mapping from the bound names to their values.
    closed spec fn view(&self) -> Map<Seq<char>, ValueView> {
        self.bindings@.map_values(|value: RuntimeValue| value@)
    }
}

impl Variables {
    /// A store in which no name is bound.
    pub fn new() -> (variables: Variables)
        ensures
            variables@ == Map::<Seq<char>, ValueView>::empty(),
    {
        let variables = Variables { bindings: StringHashMap::new() };
        assert(variables@ =~= Map::<Seq<char>, ValueView>::empty());
        variables
    }

    /// The value that `name` is bound to, if it is bound.
    pub fn get(&self, name: &String) -> (value: Option<&RuntimeValue>)
        ensures
            match value {
                Some(found) => self@.contains_key(name@) && self@[name@] == found@,
                None => !self@.contains_key(name@),
            },
    {
        self.bindings.get(name.as_str())
    }

    /// Binds `name` to `value`, in place of the value that it was bound to
    /// before, if it was bound.
    pub fn insert(&mut self, name: String, value: RuntimeValue)
        ensures
            final(self)@ == old(self)@.insert(name@, value@),
    {
        let ghost key = name@;
        let ghost model = value@;
        self.bindings.insert(name, value);
        assert(self@ =~= old(self)@.insert(key, model));
    }
}

} // verus!
