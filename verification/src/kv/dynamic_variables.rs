//! A visitor that looks for one attribute by name.

use vstd::prelude::*;
use crate::record::KeyValue;
use crate::text::same_text;

verus! {

/// Remembers the last visited attribute whose key is `variable_name`.
pub struct DynamicVariableVisitor<'a, 'kvs> {
    pub variable_name: &'a str,
    pub option: Option<&'kvs KeyValue>,
}

impl<'a, 'kvs> DynamicVariableVisitor<'a, 'kvs> {
    /// Visits one attribute: it is kept when its key is the name looked for,
    /// and what was kept before stays otherwise.
    pub fn visit_pair(&mut self, pair: &'kvs KeyValue)
        ensures
            final(self).variable_name == old(self).variable_name,
            final(self).option == if pair.key@ == old(self).variable_name@ {
                Some(pair)
            } else {
                old(self).option
            },
    {
        if same_text(pair.key.as_str(), self.variable_name) {
            self.option = Some(pair);
        }
    }
}

} // verus!
