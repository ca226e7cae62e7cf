use vstd::prelude::*;

use crate::table::Table;
use crate::value::{Value, ValueModel};

verus! {

/// The mathematical content of an argument list.
pub open spec fn args_model(a: Seq<Value>) -> Seq<ValueModel> {
    a.map_values(|v: Value| v@)
}

/// A copy of an argument list.
pub fn copy_args(a: &Vec<Value>) -> (r: Vec<Value>)
    ensures
        args_model(r@) == args_model(a@),
{
    let mut r: Vec<Value> = Vec::new();
    let mut i: usize = 0;
    while i < a.len()
        invariant
            0 <= i <= a@.len(),
            args_model(r@) == args_model(a@.subrange(0, i as int)),
        decreases a@.len() - i,
    {
        let d = a[i].duplicate();
        let ghost prev = r@;
        r.push(d);
        proof {
            assert(r@ == prev.push(d));
            assert(args_model(r@) =~= args_model(prev).push(d@));
            assert(a@.subrange(0, i + 1) =~= a@.subrange(0, i as int).push(a@[i as int]));
            assert(args_model(a@.subrange(0, i + 1)) =~= args_model(a@.subrange(0, i as int)).push(a@[i as int]@));
        }
        i = i + 1;
    }
    assert(a@.subrange(0, a@.len() as int) =~= a@);
    r
}

/// The argument list `a` followed by `b`.
pub fn join_args(a: &Vec<Value>, b: &Vec<Value>) -> (r: Vec<Value>)
    ensures
        args_model(r@) == args_model(a@) + args_model(b@),
{
    let mut r = copy_args(a);
    let mut i: usize = 0;
    while i < b.len()
        invariant
            0 <= i <= b@.len(),
            args_model(r@) == args_model(a@) + args_model(b@.subrange(0, i as int)),
        decreases b@.len() - i,
    {
        let d = b[i].duplicate();
        let ghost prev = r@;
        r.push(d);
        proof {
            assert(r@ == prev.push(d));
            assert(args_model(r@) =~= args_model(prev).push(d@));
            assert(b@.subrange(0, i + 1) =~= b@.subrange(0, i as int).push(b@[i as int]));
            assert(args_model(b@.subrange(0, i + 1)) =~= args_model(b@.subrange(0, i as int)).push(b@[i as int]@));
            assert(args_model(r@) =~= args_model(a@) + args_model(b@.subrange(0, i + 1)));
        }
        i = i + 1;
    }
    assert(b@.subrange(0, b@.len() as int) =~= b@);
    r
}

/// Structural equality of two argument lists.
pub fn same_args(a: &Vec<Value>, b: &Vec<Value>) -> (r: bool)
    ensures
        r == (args_model(a@) == args_model(b@)),
{
    if a.len() != b.len() {
        assert(args_model(a@).len() != args_model(b@).len());
        return false;
    }
    let mut i: usize = 0;
    while i < a.len()
        invariant
            a@.len() == b@.len(),
            0 <= i <= a@.len(),
            forall|j: int| 0 <= j < i ==> a@[j]@ == b@[j]@,
        decreases a@.len() - i,
    {
        if !a[i].same(&b[i]) {
            assert(args_model(a@)[i as int] != args_model(b@)[i as int]);
            return false;
        }
        i = i + 1;
    }
    assert(args_model(a@) =~= args_model(b@));
    true
}

/// A mapping from keyword names to string values.
#[derive(Debug)]
pub struct Kwargs {
    table: Table<String>,
}

impl View for Kwargs {
    type V = Map<Seq<char>, Seq<char>>;

    closed spec fn view(&self) -> Map<Seq<char>, Seq<char>> {
        self.table.view().map_values(|s: String| s@)
    }
}

impl Kwargs {
    pub closed spec fn wf(&self) -> bool {
        self.table.wf()
    }

    pub fn new() -> (k: Kwargs)
        ensures
            k.wf(),
            k@ == Map::<Seq<char>, Seq<char>>::empty(),
    {
        let k = Kwargs { table: Table::new() };
        assert(k@ =~= Map::<Seq<char>, Seq<char>>::empty());
        k
    }

    /// Binds `key` to `value`, replacing an earlier binding of `key`.
    pub fn insert(&mut self, key: String, value: String)
        requires
            old(self).wf(),
        ensures
            final(self).wf(),
            final(self)@ == old(self)@.insert(key@, value@),
    {
        let ghost v = value@;
        self.table.insert(key, value);
        assert(self@ =~= old(self)@.insert(key@, v));
    }

    /// The value bound to `key`, if any.
    pub fn get(&self, key: &String) -> (r: Option<&String>)
        requires
            self.wf(),
        ensures
            r is None <==> !self@.contains_key(key@),
            r matches Some(v) ==> v@ == self@[key@],
    {
        self.table.get(key)
    }

    /// Adds the bindings of `other` to this mapping; where both bind a key,
    /// `other`'s value is kept.
    pub fn extend(&mut self, other: &Kwargs)
        requires
            old(self).wf(),
            other.wf(),
        ensures
            final(self).wf(),
            final(self)@ == old(self)@.union_prefer_right(other@),
    {
        let n = other.table.len();
        let mut i: usize = 0;
        while i < n
            invariant
                self.wf(),
                other.wf(),
                n == other.table.size(),
                0 <= i <= n,
                self@ == old(self)@.union_prefer_right(
                    other@.restrict(Set::new(|k: Seq<char>| exists|j: int| 0 <= j < i && #[trigger] other.table.key_at(j) == k)),
                ),
            decreases n - i,
        {
            let key = other.table.key(i).clone();
            let value = other.table.value(i).clone();
            let ghost before = self@;
            let ghost k_i = key@;
            let ghost v_i = value@;
            self.table.insert(key, value);
            assert(self@ =~= before.insert(k_i, v_i));
            i = i + 1;
            proof {
                let done = Set::new(|k: Seq<char>| exists|j: int| 0 <= j < i && #[trigger] other.table.key_at(j) == k);
                let done_before = Set::new(|k: Seq<char>| exists|j: int| 0 <= j < i - 1 && #[trigger] other.table.key_at(j) == k);
                assert(other.table.key_at(i - 1) == k_i);
                assert(done =~= done_before.insert(k_i));
                assert(other@[k_i] == v_i);
                assert(self@ =~= old(self)@.union_prefer_right(other@.restrict(done)));
            }
        }
        proof {
            assert forall|k: Seq<char>| other@.contains_key(k) implies (exists|j: int| 0 <= j < n && #[trigger] other.table.key_at(j) == k) by {
                other.table.lemma_key_index(k);
            }
            assert(self@ =~= old(self)@.union_prefer_right(other@));
        }
    }

    pub fn duplicate(&self) -> (r: Kwargs)
        requires
            self.wf(),
        ensures
            r.wf(),
            r@ == self@,
    {
        let mut r = Kwargs::new();
        r.extend(self);
        assert(r@ =~= self@);
        r
    }

    /// Whether every binding of this mapping is also one of `other`.
    fn contained_in(&self, other: &Kwargs) -> (r: bool)
        requires
            self.wf(),
            other.wf(),
        ensures
            r == (forall|k: Seq<char>| #[trigger]
                self@.contains_key(k) ==> other@.contains_key(k) && other@[k] == self@[k]),
    {
        let n = self.table.len();
        let mut i: usize = 0;
        while i < n
            invariant
                self.wf(),
                other.wf(),
                n == self.table.size(),
                0 <= i <= n,
                forall|j: int| 0 <= j < i ==> {
                    let k = #[trigger] self.table.key_at(j);
                    other@.contains_key(k) && other@[k] == self@[k]
                },
            decreases n - i,
        {
            let key = self.table.key(i);
            let value = self.table.value(i);
            match other.get(key) {
                Some(v) => {
                    if *v != *value {
                        assert(self@.contains_key(key@) && self@[key@] == value@);
                        return false;
                    }
                },
                None => {
                    assert(self@.contains_key(key@));
                    return false;
                },
            }
            i = i + 1;
        }
        proof {
            assert forall|k: Seq<char>| #[trigger]
                self@.contains_key(k) implies other@.contains_key(k) && other@[k] == self@[k] by {
                self.table.lemma_key_index(k);
            }
        }
        true
    }

    /// Structural equality of two mappings.
    pub fn same(&self, other: &Kwargs) -> (r: bool)
        requires
            self.wf(),
            other.wf(),
        ensures
            r == (self@ == other@),
    {
        let r = self.contained_in(other) && other.contained_in(self);
        if r {
            assert(self@ =~= other@);
        }
        r
    }
}

/// An argument list together with a keyword mapping.
#[derive(Debug)]
pub struct Signature {
    pub args: Vec<Value>,
    pub kwargs: Kwargs,
}

impl View for Signature {
    type V = (Seq<ValueModel>, Map<Seq<char>, Seq<char>>);

    open spec fn view(&self) -> (Seq<ValueModel>, Map<Seq<char>, Seq<char>>) {
        (args_model(self.args@), self.kwargs@)
    }
}

impl Signature {
    pub open spec fn wf(&self) -> bool {
        self.kwargs.wf()
    }

    pub fn new(args: Vec<Value>, kwargs: Kwargs) -> (s: Signature)
        ensures
            s.args == args,
            s.kwargs == kwargs,
    {
        Signature { args, kwargs }
    }

    pub fn duplicate(&self) -> (r: Signature)
        requires
            self.wf(),
        ensures
            r.wf(),
            r@ == self@,
    {
        Signature { args: copy_args(&self.args), kwargs: self.kwargs.duplicate() }
    }

    /// Structural equality of two signatures.
    pub fn same(&self, other: &Signature) -> (r: bool)
        requires
            self.wf(),
            other.wf(),
        ensures
            r == (self@ == other@),
    {
        same_args(&self.args, &other.args) && self.kwargs.same(&other.kwargs)
    }
}

} // verus!
