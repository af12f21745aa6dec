//! What is known of each kind of item.

use vstd::prelude::*;

verus! {

/// What is known of one kind of item.
#[derive(Clone, Debug, PartialEq, Eq)]
pub struct Data {
    display_name: String,
    stack_size: u32,
}

impl Data {
    pub closed spec fn spec_display_name(self) -> Seq<char> {
        self.display_name@
    }

    pub closed spec fn spec_stack_size(self) -> u32 {
        self.stack_size
    }

    pub fn new(display_name: String, stack_size: u32) -> (d: Data)
        ensures
            d.spec_display_name() == display_name@,
            d.spec_stack_size() == stack_size,
    {
        Data { display_name, stack_size }
    }

    pub fn display_name(&self) -> (s: &str)
        ensures
            s@ == self.spec_display_name(),
    {
        self.display_name.as_str()
    }

    pub fn stack_size(&self) -> (n: u32)
        ensures
            n == self.spec_stack_size(),
    {
        self.stack_size
    }
}

/// The table of all items, by item id: one entry for each name and stack
/// size given, in order.
pub fn generate_items(table: Vec<(String, u32)>) -> (items: Vec<Data>)
    ensures
        items@.len() == table@.len(),
        forall|i: int|
            0 <= i < items@.len() ==> (#[trigger] items@[i]).spec_display_name() == table@[i].0@
                && items@[i].spec_stack_size() == table@[i].1,
{
    let mut table = table;
    let ghost all = table@;
    let mut rev: Vec<Data> = Vec::new();
    while table.len() > 0
        invariant
            table@.len() + rev@.len() == all.len(),
            table@ == all.take(table@.len() as int),
            forall|i: int|
                0 <= i < rev@.len() ==> (#[trigger] rev@[i]).spec_display_name() == all[all.len()
                    - 1 - i].0@ && rev@[i].spec_stack_size() == all[all.len() - 1 - i].1,
        decreases table@.len(),
    {
        let ghost n = table@.len() - 1;
        let entry = table.pop().unwrap();
        assert(entry == all[n]);
        assert(table@ =~= all.take(n));
        rev.push(Data::new(entry.0, entry.1));
    }
    let mut items: Vec<Data> = Vec::new();
    while rev.len() > 0
        invariant
            rev@.len() + items@.len() == all.len(),
            forall|i: int|
                0 <= i < rev@.len() ==> (#[trigger] rev@[i]).spec_display_name() == all[all.len()
                    - 1 - i].0@ && rev@[i].spec_stack_size() == all[all.len() - 1 - i].1,
            forall|i: int|
                0 <= i < items@.len() ==> (#[trigger] items@[i]).spec_display_name() == all[i].0@
                    && items@[i].spec_stack_size() == all[i].1,
        decreases rev@.len(),
    {
        let ghost k = rev@.len() - 1;
        let ghost rev0 = rev@;
        let d = rev.pop().unwrap();
        assert(d == rev0[k]);
        items.push(d);
    }
    items
}

} // verus!
