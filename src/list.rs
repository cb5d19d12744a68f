use vstd::prelude::*;
use vstd::string::StringExecFns;
use vstd::std_specs::cmp::PartialEqSpec;

verus! {

/// A growable ordered sequence of items.
#[derive(Clone, Debug, Hash)]
pub struct List<Item>(Vec<Item>);

impl<Item> View for List<Item> {
    type V = Seq<Item>;

    closed spec fn view(&self) -> Seq<Item> {
        self.0@
    }
}

/// The items of `items` with `sep` between each two.
pub open spec fn joined(items: Seq<Seq<char>>, sep: Seq<char>) -> Seq<char>
    decreases items.len(),
{
    if items.len() == 0 {
        Seq::empty()
    } else if items.len() == 1 {
        items[0]
    } else {
        joined(items.drop_last(), sep) + sep + items.last()
    }
}

impl<Item> List<Item> {
    pub fn is_empty(&self) -> (r: bool)
        ensures
            r == (self@.len() == 0),
    {
        self.0.len() == 0
    }

    pub fn from_vec(vec: Vec<Item>) -> (r: Self)
        ensures
            r@ == vec@,
    {
        List(vec)
    }

    pub fn new() -> (r: Self)
        ensures
            r@ == Seq::<Item>::empty(),
    {
        List(Vec::new())
    }

    pub fn push(&mut self, item: Item)
        ensures
            final(self)@ == old(self)@.push(item),
    {
        self.0.push(item);
    }

    /// A new list of `f` applied to each item, in order.
    pub fn map<R, F>(&self, f: F) -> (r: List<R>) where F: Fn(&Item) -> R
        requires
            forall|i: int| 0 <= i < self@.len() ==> call_requires(f, (&self@[i],)),
        ensures
            r@.len() == self@.len(),
            forall|i: int| 0 <= i < self@.len() ==> call_ensures(f, (&self@[i],), #[trigger] r@[i]),
    {
        let mut out: Vec<R> = Vec::new();
        let mut i: usize = 0;
        while i < self.0.len()
            invariant
                i <= self@.len(),
                self@ == self.0@,
                out@.len() == i,
                forall|j: int| 0 <= j < self@.len() ==> call_requires(f, (&self@[j],)),
                forall|j: int| 0 <= j < i ==> call_ensures(f, (&self@[j],), #[trigger] out@[j]),
            decreases self@.len() - i,
        {
            let v = f(&self.0[i]);
            out.push(v);
            i += 1;
        }
        List(out)
    }

    pub fn len(&self) -> (r: usize)
        ensures
            r == self@.len(),
    {
        self.0.len()
    }

    /// Moves every item of `other` to the end of this list, leaving `other` empty.
    pub fn append(&mut self, other: &mut List<Item>)
        ensures
            final(self)@ == old(self)@ + old(other)@,
            final(other)@ == Seq::<Item>::empty(),
    {
        self.append_vec(&mut other.0);
    }

    /// Moves every item of `other` to the end of this list, leaving `other` empty.
    pub fn append_vec(&mut self, other: &mut Vec<Item>)
        ensures
            final(self)@ == old(self)@ + old(other)@,
            final(other)@ == Seq::<Item>::empty(),
    {
        self.0.append(other);
    }

    pub fn get(&self, index: usize) -> (r: Option<&Item>)
        ensures
            index < self@.len() ==> r == Some(&self@[index as int]),
            index >= self@.len() ==> r is None,
    {
        if index < self.0.len() {
            Some(&self.0[index])
        } else {
            None
        }
    }

    pub fn get_mut(&mut self, index: usize) -> (r: Option<&mut Item>)
        ensures
            index < old(self)@.len() ==> (r matches Some(item) && *item == old(self)@[index as int]
                && final(self)@ == old(self)@.update(index as int, *final(item))),
            index >= old(self)@.len() ==> r is None && final(self)@ == old(self)@,
    {
        if index < self.0.len() {
            Some(&mut self.0[index])
        } else {
            None
        }
    }

    /// The items, each with its index.
    pub fn enumerate(self) -> (r: Vec<(usize, Item)>)
        ensures
            r@.len() == self@.len(),
            forall|i: int| 0 <= i < r@.len() ==> #[trigger] r@[i] == (i as usize, self@[i]),
    {
        let mut items = self.0;
        let ghost all = items@;
        let n = items.len();
        let mut rest: Vec<Item> = Vec::new();
        while items.len() > 0
            invariant
                items@.len() + rest@.len() == n,
                n == all.len(),
                forall|j: int| 0 <= j < items@.len() ==> #[trigger] items@[j] == all[j],
                forall|j: int| 0 <= j < rest@.len() ==> #[trigger] rest@[j] == all[n - 1 - j],
            decreases items.len(),
        {
            let it = items.pop().unwrap();
            rest.push(it);
        }
        let mut out: Vec<(usize, Item)> = Vec::new();
        let mut i: usize = 0;
        while rest.len() > 0
            invariant
                rest@.len() + i == n,
                n == all.len(),
                out@.len() == i,
                forall|j: int| 0 <= j < rest@.len() ==> #[trigger] rest@[j] == all[n - 1 - j],
                forall|j: int| 0 <= j < i ==> #[trigger] out@[j] == (j as usize, all[j]),
            decreases rest.len(),
        {
            let it = rest.pop().unwrap();
            out.push((i, it));
            i += 1;
        }
        out
    }
}

impl List<String> {
    /// The items, with `sep` between each two.
    pub fn join(&self, sep: &str) -> (r: String)
        ensures
            r@ == joined(self@.map_values(|s: String| s@), sep@),
    {
        let ghost items = self@.map_values(|s: String| s@);
        let mut r = String::new();
        let mut i: usize = 0;
        while i < self.0.len()
            invariant
                i <= self@.len(),
                self@ == self.0@,
                items == self@.map_values(|s: String| s@),
                r@ == joined(items.subrange(0, i as int), sep@),
            decreases self@.len() - i,
        {
            if i > 0 {
                r.append(sep);
            }
            r.append(self.0[i].as_str());
            i += 1;
            proof {
                let pre = items.subrange(0, i as int);
                assert(pre.drop_last() =~= items.subrange(0, i - 1));
                if i == 1 {
                    assert(joined(Seq::<Seq<char>>::empty(), sep@) =~= Seq::<char>::empty());
                }
            }
        }
        assert(items.subrange(0, i as int) =~= items);
        r
    }
}

impl<Item: PartialEq + PartialEqSpec> PartialEq for List<Item> {
    /// Equal lengths, and equal items at each index.
    fn eq(&self, other: &Self) -> (r: bool) {
        if self.0.len() != other.0.len() {
            return false;
        }
        let mut i: usize = 0;
        while i < self.0.len()
            invariant
                i <= self@.len(),
                self@ == self.0@,
                other@ == other.0@,
                self@.len() == other@.len(),
                <Item as PartialEqSpec>::obeys_eq_spec() ==> forall|j: int|
                    0 <= j < i ==> (#[trigger] self@[j]).eq_spec(&other@[j]),
            decreases self@.len() - i,
        {
            if !(self.0[i] == other.0[i]) {
                return false;
            }
            i += 1;
        }
        true
    }
}

impl<Item: PartialEq + PartialEqSpec> vstd::std_specs::cmp::PartialEqSpecImpl for List<Item> {
    open spec fn obeys_eq_spec() -> bool {
        <Item as PartialEqSpec>::obeys_eq_spec()
    }

    open spec fn eq_spec(&self, other: &Self) -> bool {
        &&& self@.len() == other@.len()
        &&& forall|j: int| 0 <= j < self@.len() ==> (#[trigger] self@[j]).eq_spec(&other@[j])
    }
}

} // verus!
