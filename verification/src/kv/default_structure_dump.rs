//! A visitor that renders every attribute of a record on a line of its own.

use vstd::prelude::*;
use vstd::string::*;
use crate::record::KeyValue;

verus! {

/// Collects, for each visited attribute, a line break and then `key: value`.
pub struct DefaultStructureDump {
    pub write: Vec<String>,
}

/// The line `key: value` of one attribute.
pub open spec fn dump_line(pair: KeyValue) -> Seq<char> {
    pair.key@ + ": "@ + pair.text@
}

/// The fragments that dumping the attributes `source` appends, in order.
pub open spec fn dump_of(source: Seq<KeyValue>) -> Seq<Seq<char>>
    decreases source.len(),
{
    if source.len() == 0 {
        Seq::empty()
    } else {
        dump_of(source.drop_last()) + seq!["\n"@, dump_line(source.last())]
    }
}

impl DefaultStructureDump {
    /// Visits one attribute and appends its two fragments.
    pub fn visit_pair(&mut self, pair: &KeyValue)
        ensures
            crate::text::texts(final(self).write@) == crate::text::texts(old(self).write@) + seq![
                "\n"@,
                dump_line(*pair),
            ],
    {
        let ghost before = self.write@;
        self.write.push(String::from_str("\n"));
        let mut line = pair.key.clone();
        line.append(": ");
        line.append(pair.text.as_str());
        self.write.push(line);
        assert(crate::text::texts(self.write@) =~= crate::text::texts(before) + seq![
            "\n"@,
            dump_line(*pair),
        ]);
    }
}

} // verus!
