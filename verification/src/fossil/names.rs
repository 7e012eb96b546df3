//! The partitions by name.
use crate::text;
use vstd::prelude::*;
use vstd::string::StringExecFns;

verus! {

/// A table from names to badges.
pub struct NameTable {
    entries: Vec<(String, usize)>,
}

/// Whether entry `i` is the entry of `name`.
pub closed spec fn names_at(entries: Seq<(String, usize)>, i: int, name: Seq<char>) -> bool {
    0 <= i < entries.len() && entries[i].0@ == name
}

impl View for NameTable {
    type V = Map<Seq<char>, usize>;

    closed spec fn view(&self) -> Map<Seq<char>, usize> {
        Map::new(
            |name: Seq<char>| exists|i: int| #[trigger] names_at(self.entries@, i, name),
            |name: Seq<char>|
                self.entries@[choose|i: int| #[trigger] names_at(self.entries@, i, name)].1,
        )
    }
}

impl NameTable {
    /// The invariant: no name has two entries.
    pub closed spec fn wf(&self) -> bool {
        forall|i: int, j: int, name: Seq<char>| #[trigger]
            names_at(self.entries@, i, name) && #[trigger] names_at(self.entries@, j, name) ==> i
                == j
    }

    /// An empty table.
    pub fn new() -> (r: NameTable)
        ensures
            r.wf(),
            r@ == Map::<Seq<char>, usize>::empty(),
    {
        let r = NameTable { entries: Vec::new() };
        assert(r@ =~= Map::<Seq<char>, usize>::empty());
        r
    }

    fn position(&self, name: &String) -> (r: Option<usize>)
        ensures
            match r {
                Some(i) => names_at(self.entries@, i as int, name@),
                None => forall|i: int| !#[trigger] names_at(self.entries@, i, name@),
            },
    {
        let mut i: usize = 0;
        while i < self.entries.len()
            invariant
                i <= self.entries@.len(),
                forall|j: int| 0 <= j < i ==> !#[trigger] names_at(self.entries@, j, name@),
            decreases self.entries@.len() - i,
        {
            if self.entries[i].0 == *name {
                return Some(i);
            }
            i = i + 1;
        }
        None
    }

    /// The badge that a name stands for.
    pub fn get(&self, name: &str) -> (r: Option<usize>)
        requires
            self.wf(),
        ensures
            r == (if self@.contains_key(name@) {
                Some(self@[name@])
            } else {
                None
            }),
    {
        let key = name.to_owned();
        match self.position(&key) {
            Some(i) => Some(self.entries[i].1),
            None => None,
        }
    }

    /// Makes `name` stand for `badge`.
    pub fn insert(&mut self, name: String, badge: usize)
        requires
            old(self).wf(),
        ensures
            final(self).wf(),
            final(self)@ == old(self)@.insert(name@, badge),
    {
        let ghost before = self.entries@;
        let ghost key = name@;
        let at = self.position(&name);
        match at {
            Some(i) => {
                self.entries[i].1 = badge;
                proof {
                    assert(self.entries@[i as int].0 == before[i as int].0);
                    assert forall|j: int, n: Seq<char>| #[trigger]
                        names_at(self.entries@, j, n) == names_at(before, j, n) by {}
                }
            },
            None => {
                self.entries.push((name, badge));
                proof {
                    assert(names_at(self.entries@, before.len() as int, key));
                    assert forall|j: int, n: Seq<char>| j != before.len() implies #[trigger]
                        names_at(self.entries@, j, n) == names_at(before, j, n) by {}
                }
            },
        }
        proof {
            assert forall|n: Seq<char>| #[trigger]
                self@.contains_key(n) == old(self)@.insert(key, badge).contains_key(n) by {
                if old(self)@.contains_key(n) {
                    let i = choose|i: int| #[trigger] names_at(before, i, n);
                    assert(names_at(self.entries@, i, n));
                }
                if self@.contains_key(n) && n != key {
                    let i = choose|i: int| #[trigger] names_at(self.entries@, i, n);
                    assert(names_at(before, i, n));
                }
            }
            assert forall|n: Seq<char>| #[trigger] self@.contains_key(n) implies self@[n] == old(
                self,
            )@.insert(key, badge)[n] by {
                let i = choose|i: int| #[trigger] names_at(self.entries@, i, n);
                if n != key {
                    assert(names_at(before, i, n));
                }
            }
            assert(self@ =~= old(self)@.insert(key, badge));
        }
    }
}

/// The name of partition number `index` of a device.
pub open spec fn spec_partition_name(device: Seq<char>, index: nat) -> Seq<char> {
    device + seq!['p'] + text::decimal(index)
}

/// Makes the name of partition number `index` of a device.
pub fn partition_name(device: &str, index: usize) -> (r: String)
    ensures
        r@ == spec_partition_name(device@, index as nat),
{
    let mut r = device.to_owned();
    proof {
        reveal_strlit("p");
    }
    r.append("p");
    assert(r@ =~= device@ + seq!['p']);
    let number = text::to_decimal(index);
    r.append(number.as_str());
    r
}

/// The partitions of a device have different names.
pub proof fn law_partition_names_differ(device: Seq<char>, i: nat, j: nat)
    requires
        i != j,
    ensures
        spec_partition_name(device, i) != spec_partition_name(device, j),
{
    let a = spec_partition_name(device, i);
    let b = spec_partition_name(device, j);
    let n = device.len() + 1;
    assert(a.skip(n as int) =~= text::decimal(i));
    assert(b.skip(n as int) =~= text::decimal(j));
    if a == b {
        text::law_decimal_tells_numbers_apart(i, j);
    }
}

/// The name of a partition is the name of its device, a `p`, and its number in decimal digits.
pub proof fn law_partition_name_tells_device_and_number(device: Seq<char>, index: nat)
    ensures
        ({
            let name = spec_partition_name(device, index);
            let digits = name.skip(device.len() as int + 1);
            &&& name.take(device.len() as int) == device
            &&& name[device.len() as int] == 'p'
            &&& digits.len() >= 1
            &&& text::number_of(digits) == index
            &&& index > 0 ==> digits[0] != '0'
            &&& forall|k: int|
                0 <= k < digits.len() ==> '0' as int <= (#[trigger] digits[k]) as int <= '9' as int
        }),
{
    let name = spec_partition_name(device, index);
    text::law_decimal_spells_the_number(index);
    assert(name.skip(device.len() as int + 1) =~= text::decimal(index));
    assert(name.take(device.len() as int) =~= device);
}

} // verus!
