use vstd::prelude::*;

use crate::signature::{args_model, copy_args, join_args, same_args, Kwargs, Signature};
use crate::value::{Value, ValueModel};

verus! {

/// The mathematical content of a signature: an argument list and a keyword
/// mapping.
pub type SignatureModel = (Seq<ValueModel>, Map<Seq<char>, Seq<char>>);

/// A result that a functor can cache and hand out copies of.
pub trait Outcome: View + Sized {
    /// Whether the value is well formed.
    spec fn ready(&self) -> bool;

    fn duplicate(&self) -> (r: Self)
        requires
            self.ready(),
        ensures
            r.ready(),
            r@ == self@,
    ;
}

impl Outcome for String {
    open spec fn ready(&self) -> bool {
        true
    }

    fn duplicate(&self) -> (r: String) {
        self.clone()
    }
}

impl Outcome for Signature {
    open spec fn ready(&self) -> bool {
        self.wf()
    }

    fn duplicate(&self) -> (r: Signature) {
        Signature::duplicate(self)
    }
}

/// `func` may be called on every argument list and well-formed keyword
/// mapping whose contents are `sig`.
pub open spec fn accepts<C: Fn(Vec<Value>, Kwargs) -> R, R>(func: C, sig: SignatureModel) -> bool {
    forall|a: Vec<Value>, k: Kwargs|
        args_model(a@) == sig.0 && k@ == sig.1 && k.wf() ==> #[trigger] func.requires((a, k))
}

/// `out` is an output of `func` on arguments whose contents are `sig`.
pub open spec fn produces<C: Fn(Vec<Value>, Kwargs) -> R, R: View>(
    func: C,
    sig: SignatureModel,
    out: R::V,
) -> bool {
    exists|a: Vec<Value>, k: Kwargs, o: R|
        args_model(a@) == sig.0 && k@ == sig.1 && o@ == out && #[trigger] func.ensures((a, k), o)
}

/// Every output of `func` is well formed.
pub open spec fn yields_ready<C: Fn(Vec<Value>, Kwargs) -> R, R: Outcome>(func: C) -> bool {
    forall|a: Vec<Value>, k: Kwargs, o: R| #[trigger] func.ensures((a, k), o) ==> o.ready()
}

/// The signature that a call with `args` and `kwargs` is made on, for a
/// functor bound to `bound_args` and `bound_kwargs`: the bound arguments
/// followed by the given ones, and the bound keywords overridden by the given
/// ones.
pub open spec fn full_signature(
    bound_args: Seq<ValueModel>,
    bound_kwargs: Map<Seq<char>, Seq<char>>,
    args: Seq<ValueModel>,
    kwargs: Map<Seq<char>, Seq<char>>,
) -> SignatureModel {
    (bound_args + args, bound_kwargs.union_prefer_right(kwargs))
}

/// How one call on signature `sig` moves a cache and a count of invocations
/// of the computation: a cached signature gives its cached result and leaves
/// both alone; any other invokes the computation once and caches its result.
pub open spec fn remembers<V>(
    before: Map<SignatureModel, V>,
    before_count: nat,
    sig: SignatureModel,
    after: Map<SignatureModel, V>,
    after_count: nat,
    r: V,
) -> bool {
    if before.contains_key(sig) {
        r == before[sig] && after == before && after_count == before_count
    } else {
        after == before.insert(sig, r) && after_count == before_count + 1
    }
}

/// The mapping given by a list of pairs whose first components are distinct.
pub open spec fn pairs_to_map<K, V>(s: Seq<(K, V)>) -> Map<K, V> {
    Map::new(
        |k: K| exists|i: int| 0 <= i < s.len() && s[i].0 == k,
        |k: K| s[choose|i: int| 0 <= i < s.len() && s[i].0 == k].1,
    )
}

pub open spec fn distinct_firsts<K, V>(s: Seq<(K, V)>) -> bool {
    forall|i: int, j: int| 0 <= i < s.len() && 0 <= j < s.len() && i != j ==> s[i].0 != s[j].0
}

proof fn lemma_pairs_entry<K, V>(s: Seq<(K, V)>, i: int)
    requires
        distinct_firsts(s),
        0 <= i < s.len(),
    ensures
        pairs_to_map(s).contains_key(s[i].0),
        pairs_to_map(s)[s[i].0] == s[i].1,
{
    let k = s[i].0;
    assert(exists|j: int| 0 <= j < s.len() && s[j].0 == k);
}

/// The mapping given by a list of pairs has finitely many keys.
pub proof fn lemma_pairs_finite<K, V>(s: Seq<(K, V)>)
    ensures
        pairs_to_map(s).dom().finite(),
{
    let firsts = s.map_values(|p: (K, V)| p.0);
    assert forall|k: K| #[trigger] pairs_to_map(s).dom().contains(k) implies firsts.to_set().contains(k) by {
        let i = choose|i: int| 0 <= i < s.len() && s[i].0 == k;
        assert(firsts[i] == k);
    }
    vstd::seq_lib::seq_to_set_is_finite(firsts);
    vstd::set_lib::lemma_len_subset(pairs_to_map(s).dom(), firsts.to_set());
}

proof fn lemma_pairs_push<K, V>(s: Seq<(K, V)>, k: K, v: V)
    requires
        distinct_firsts(s),
        !pairs_to_map(s).contains_key(k),
    ensures
        distinct_firsts(s.push((k, v))),
        pairs_to_map(s.push((k, v))) == pairs_to_map(s).insert(k, v),
{
    let t = s.push((k, v));
    assert(distinct_firsts(t)) by {
        assert forall|i: int| 0 <= i < s.len() implies t[i].0 != k by {
            lemma_pairs_entry(s, i);
        }
    }
    assert forall|x: K| #[trigger] pairs_to_map(t).contains_key(x) == pairs_to_map(s).insert(k, v).contains_key(x) by {
        if x == k {
            assert(t[s.len() as int].0 == k);
        }
        if pairs_to_map(t).contains_key(x) && x != k {
            let i = choose|i: int| 0 <= i < t.len() && t[i].0 == x;
            assert(s[i].0 == x);
        }
        if pairs_to_map(s).contains_key(x) {
            let i = choose|i: int| 0 <= i < s.len() && s[i].0 == x;
            assert(t[i].0 == x);
        }
    }
    assert forall|x: K| #[trigger] pairs_to_map(t).contains_key(x) implies pairs_to_map(t)[x] == pairs_to_map(s).insert(k, v)[x] by {
        let i = choose|i: int| 0 <= i < t.len() && t[i].0 == x;
        lemma_pairs_entry(t, i);
        if i < s.len() {
            lemma_pairs_entry(s, i);
        }
    }
    assert(pairs_to_map(t) =~= pairs_to_map(s).insert(k, v));
}

/// A computation together with bound arguments, bound keyword arguments and
/// a cache of its results by signature.
pub struct F<C, R> {
    func: C,
    args: Vec<Value>,
    kwargs: Kwargs,
    cache: Vec<(Signature, R)>,
    invocations: Ghost<nat>,
}

impl<C: Fn(Vec<Value>, Kwargs) -> R, R: Outcome> F<C, R> {
    /// The cache as a list of signature and result contents.
    closed spec fn cache_pairs(&self) -> Seq<(SignatureModel, R::V)> {
        self.cache@.map_values(|e: (Signature, R)| (e.0@, e.1@))
    }

    pub closed spec fn wf(&self) -> bool {
        &&& self.kwargs.wf()
        &&& yields_ready(self.func)
        &&& distinct_firsts(self.cache_pairs())
        &&& forall|i: int|
            0 <= i < self.cache@.len() ==> (#[trigger] self.cache@[i]).0.wf() && self.cache@[i].1.ready()
                && produces(self.func, self.cache@[i].0@, self.cache@[i].1@)
    }

    /// The wrapped computation.
    pub closed spec fn computation(&self) -> C {
        self.func
    }

    pub closed spec fn bound_args(&self) -> Seq<ValueModel> {
        args_model(self.args@)
    }

    pub closed spec fn bound_kwargs(&self) -> Map<Seq<char>, Seq<char>> {
        self.kwargs@
    }

    /// The functor's own signature: its bound arguments and keywords.
    pub open spec fn own_signature(&self) -> SignatureModel {
        (self.bound_args(), self.bound_kwargs())
    }

    /// The cached results, by signature.
    pub closed spec fn cache(&self) -> Map<SignatureModel, R::V> {
        pairs_to_map(self.cache_pairs())
    }

    /// Finitely many signatures are cached.
    pub proof fn lemma_cache_finite(&self)
        ensures
            self.cache().dom().finite(),
    {
        lemma_pairs_finite(self.cache_pairs());
    }

    /// How many times this functor has invoked its computation.
    pub closed spec fn invocations(&self) -> nat {
        self.invocations@
    }

    pub fn new(func: C, args: Vec<Value>, kwargs: Kwargs) -> (f: Self)
        requires
            kwargs.wf(),
            yields_ready(func),
        ensures
            f.wf(),
            f.computation() == func,
            f.bound_args() == args_model(args@),
            f.bound_kwargs() == kwargs@,
            f.cache() == Map::<SignatureModel, R::V>::empty(),
            f.cache().dom().finite(),
            f.invocations() == 0,
    {
        let f = F { func, args, kwargs, cache: Vec::new(), invocations: Ghost(0) };
        assert(f.cache_pairs() =~= Seq::<(SignatureModel, R::V)>::empty());
        assert(f.cache() =~= Map::<SignatureModel, R::V>::empty());
        f
    }

    /// The result for the bound arguments followed by `args`, with the bound
    /// keywords overridden by `kwargs`: the cached one where this signature
    /// was seen before, else a fresh one from the computation, which is then
    /// cached.
    pub fn call(&mut self, args: Vec<Value>, kwargs: Kwargs) -> (r: R)
        requires
            old(self).wf(),
            kwargs.wf(),
            accepts(
                old(self).computation(),
                full_signature(old(self).bound_args(), old(self).bound_kwargs(), args_model(args@), kwargs@),
            ),
        ensures
            final(self).wf(),
            final(self).computation() == old(self).computation(),
            final(self).bound_args() == old(self).bound_args(),
            final(self).bound_kwargs() == old(self).bound_kwargs(),
            r.ready(),
            final(self).cache().dom().finite(),
            final(self).cache().len() <= old(self).cache().len() + 1,
            produces(
                old(self).computation(),
                full_signature(old(self).bound_args(), old(self).bound_kwargs(), args_model(args@), kwargs@),
                r@,
            ),
            remembers(
                old(self).cache(),
                old(self).invocations(),
                full_signature(old(self).bound_args(), old(self).bound_kwargs(), args_model(args@), kwargs@),
                final(self).cache(),
                final(self).invocations(),
                r@,
            ),
    {
        let full_args = join_args(&self.args, &args);
        let mut full_kwargs = self.kwargs.duplicate();
        full_kwargs.extend(&kwargs);
        let key = Signature::new(full_args, full_kwargs);
        let ghost sig = key@;
        proof {
            let expected = full_signature(self.bound_args(), self.bound_kwargs(), args_model(args@), kwargs@);
            assert(sig.0 =~= expected.0);
            assert(sig.1 =~= expected.1);
        }
        let mut i: usize = 0;
        while i < self.cache.len()
            invariant
                self.wf(),
                key.wf(),
                key@ == sig,
                sig == full_signature(old(self).bound_args(), old(self).bound_kwargs(), args_model(args@), kwargs@),
                *self == *old(self),
                0 <= i <= self.cache@.len(),
                forall|j: int| 0 <= j < i ==> self.cache@[j].0@ != sig,
            decreases self.cache@.len() - i,
        {
            if self.cache[i].0.same(&key) {
                let r = self.cache[i].1.duplicate();
                proof {
                    let e = self.cache@[i as int];
                    assert(self.cache_pairs()[i as int] == (e.0@, e.1@));
                    lemma_pairs_entry(self.cache_pairs(), i as int);
                    assert(e.0@ == sig);
                    assert(produces(self.func, e.0@, e.1@));
                    self.lemma_cache_finite();
                }
                return r;
            }
            i = i + 1;
        }
        proof {
            if self.cache().contains_key(sig) {
                let j = choose|j: int| 0 <= j < self.cache_pairs().len() && self.cache_pairs()[j].0 == sig;
                assert(self.cache@[j].0@ == sig);
            }
        }
        let result = (self.func)(copy_args(&key.args), key.kwargs.duplicate());
        let r = result.duplicate();
        let ghost before = self.cache_pairs();
        proof {
            self.lemma_cache_finite();
        }
        let ghost entry = (sig, result@);
        self.cache.push((key, result));
        self.invocations = Ghost(self.invocations@ + 1);
        proof {
            assert(self.cache_pairs() =~= before.push(entry));
            lemma_pairs_push(before, sig, result@);
            self.lemma_cache_finite();
            assert(self.cache().dom() =~= pairs_to_map(before).dom().insert(sig));
        }
        r
    }

    /// Whether `other` has the same bound arguments and keywords; caches are
    /// not compared. Computations are compared only through their type `C`,
    /// which for a function item or a closure without captures fixes the
    /// computation.
    pub fn same_bindings(&self, other: &Self) -> (r: bool)
        requires
            self.wf(),
            other.wf(),
        ensures
            r == (self.own_signature() == other.own_signature()),
    {
        same_args(&self.args, &other.args) && self.kwargs.same(&other.kwargs)
    }

    /// Whether nothing is cached.
    pub fn is_cache_empty(&self) -> (r: bool)
        requires
            self.wf(),
        ensures
            r == (self.cache() == Map::<SignatureModel, R::V>::empty()),
    {
        let r = self.cache.len() == 0;
        proof {
            if r {
                assert(self.cache_pairs() =~= Seq::<(SignatureModel, R::V)>::empty());
                assert(self.cache() =~= Map::<SignatureModel, R::V>::empty());
            } else {
                lemma_pairs_entry(self.cache_pairs(), 0);
                assert(self.cache().contains_key(self.cache_pairs()[0].0));
            }
        }
        r
    }

    /// Empties the cache.
    pub fn clear_cache(&mut self)
        requires
            old(self).wf(),
        ensures
            final(self).wf(),
            final(self).computation() == old(self).computation(),
            final(self).bound_args() == old(self).bound_args(),
            final(self).bound_kwargs() == old(self).bound_kwargs(),
            final(self).cache() == Map::<SignatureModel, R::V>::empty(),
            final(self).invocations() == old(self).invocations(),
    {
        self.cache = Vec::new();
        assert(self.cache_pairs() =~= Seq::<(SignatureModel, R::V)>::empty());
        assert(self.cache() =~= Map::<SignatureModel, R::V>::empty());
    }
}

impl<C: Fn(Vec<Value>, Kwargs) -> R, R: Outcome> F<C, R> {
    /// The result on the functor's own signature where `filter_func` holds
    /// of that signature, else `None` (and the computation is left alone).
    pub fn filter<P: Fn(Vec<Value>, Kwargs) -> bool>(&mut self, filter_func: P) -> (r: Option<R>)
        requires
            old(self).wf(),
            accepts(filter_func, old(self).own_signature()),
            produces(filter_func, old(self).own_signature(), true) ==> accepts(
                old(self).computation(),
                old(self).own_signature(),
            ),
        ensures
            final(self).wf(),
            final(self).computation() == old(self).computation(),
            final(self).own_signature() == old(self).own_signature(),
            exists|b: bool| #[trigger]
                produces(filter_func, old(self).own_signature(), b) && (b ==> r is Some && produces(
                    old(self).computation(),
                    old(self).own_signature(),
                    r->0@,
                ) && remembers(
                    old(self).cache(),
                    old(self).invocations(),
                    old(self).own_signature(),
                    final(self).cache(),
                    final(self).invocations(),
                    r->0@,
                )) && (!b ==> r is None && final(self).cache() == old(self).cache()
                    && final(self).invocations() == old(self).invocations()),
    {
        let kwargs = self.kwargs.duplicate();
        let args = copy_args(&self.args);
        let ghost seen = (args, kwargs);
        let keep = filter_func(args, kwargs);
        assert(produces(filter_func, self.own_signature(), keep)) by {
            assert(filter_func.ensures(seen, keep));
        }
        if keep {
            proof {
                self.lemma_own_signature();
            }
            Some(self.call(Vec::new(), Kwargs::new()))
        } else {
            None
        }
    }

    proof fn lemma_own_signature(&self)
        ensures
            full_signature(
                self.bound_args(),
                self.bound_kwargs(),
                args_model(Seq::<Value>::empty()),
                Map::<Seq<char>, Seq<char>>::empty(),
            ) == self.own_signature(),
    {
        let full = full_signature(
            self.bound_args(),
            self.bound_kwargs(),
            args_model(Seq::<Value>::empty()),
            Map::<Seq<char>, Seq<char>>::empty(),
        );
        assert(full.0 =~= self.bound_args());
        assert(full.1 =~= self.bound_kwargs());
    }

    /// A new functor over `transform_func`, bound to what `transform_func`
    /// makes of this functor's own signature, with an empty cache.
    pub fn transform_args<T: Fn(Vec<Value>, Kwargs) -> Signature>(&self, transform_func: T) -> (g: F<
        T,
        Signature,
    >)
        requires
            self.wf(),
            accepts(transform_func, self.own_signature()),
            yields_ready(transform_func),
        ensures
            g.wf(),
            g.computation() == transform_func,
            produces(transform_func, self.own_signature(), g.own_signature()),
            g.cache() == Map::<SignatureModel, SignatureModel>::empty(),
            g.invocations() == 0,
    {
        let bound = transform_func(copy_args(&self.args), self.kwargs.duplicate());
        F::new(transform_func, bound.args, bound.kwargs)
    }
}

impl<C: Fn(Vec<Value>, Kwargs) -> R + Copy, R: Outcome> F<C, R> {
    /// A copy of this functor: same computation, bound arguments, keywords
    /// and cache.
    fn copy(&self) -> (g: Self)
        requires
            self.wf(),
        ensures
            g.wf(),
            g.computation() == self.computation(),
            g.own_signature() == self.own_signature(),
            g.cache() == self.cache(),
            g.invocations() == self.invocations(),
    {
        let mut cache: Vec<(Signature, R)> = Vec::new();
        let mut i: usize = 0;
        while i < self.cache.len()
            invariant
                self.wf(),
                0 <= i <= self.cache@.len(),
                cache@.len() == i,
                forall|j: int|
                    0 <= j < i ==> (#[trigger] cache@[j]).0@ == self.cache@[j].0@ && cache@[j].1@
                        == self.cache@[j].1@ && cache@[j].0.wf() && cache@[j].1.ready(),
            decreases self.cache@.len() - i,
        {
            let entry = (self.cache[i].0.duplicate(), self.cache[i].1.duplicate());
            cache.push(entry);
            i = i + 1;
        }
        let g = F {
            func: self.func,
            args: copy_args(&self.args),
            kwargs: self.kwargs.duplicate(),
            cache,
            invocations: Ghost(self.invocations@),
        };
        assert(g.cache_pairs() =~= self.cache_pairs());
        g
    }

    /// A copy of this functor; `curry_args` and `curry_kwargs` are not used.
    pub fn curry(&self, curry_args: Vec<Value>, curry_kwargs: Kwargs) -> (g: Self)
        requires
            self.wf(),
        ensures
            g.wf(),
            g.computation() == self.computation(),
            g.own_signature() == self.own_signature(),
            g.cache() == self.cache(),
            g.invocations() == self.invocations(),
    {
        self.copy()
    }

    /// A copy of this functor; `reducer_func` and `initial` are not used.
    pub fn reduce<Reducer: Fn(Vec<Value>, Kwargs, Option<R>) -> R>(
        &self,
        reducer_func: Reducer,
        initial: Option<R>,
    ) -> (g: Self)
        requires
            self.wf(),
        ensures
            g.wf(),
            g.computation() == self.computation(),
            g.own_signature() == self.own_signature(),
            g.cache() == self.cache(),
            g.invocations() == self.invocations(),
    {
        self.copy()
    }
}

impl<C: Fn(Vec<Value>, Kwargs) -> String> F<C, String> {
    /// Feeds the result on this functor's own signature, as the one bound
    /// argument, to a new functor over `other_func` with no keywords, and
    /// gives that functor's result.
    pub fn chain<N: Fn(Vec<Value>, Kwargs) -> String>(&mut self, other_func: N) -> (r: String)
        requires
            old(self).wf(),
            accepts(old(self).computation(), old(self).own_signature()),
            forall|mid: Seq<char>| #[trigger]
                produces(old(self).computation(), old(self).own_signature(), mid) ==> accepts(
                    other_func,
                    (seq![ValueModel::Text(mid)], Map::<Seq<char>, Seq<char>>::empty()),
                ),
        ensures
            final(self).wf(),
            final(self).computation() == old(self).computation(),
            final(self).own_signature() == old(self).own_signature(),
            exists|mid: Seq<char>| #[trigger]
                produces(old(self).computation(), old(self).own_signature(), mid) && remembers(
                    old(self).cache(),
                    old(self).invocations(),
                    old(self).own_signature(),
                    final(self).cache(),
                    final(self).invocations(),
                    mid,
                ) && produces(
                    other_func,
                    (seq![ValueModel::Text(mid)], Map::<Seq<char>, Seq<char>>::empty()),
                    r@,
                ),
    {
        proof {
            self.lemma_own_signature();
        }
        let mid = self.call(Vec::new(), Kwargs::new());
        let ghost m = mid@;
        let mut next = F::new(other_func, vec![Value::Text(mid)], Kwargs::new());
        proof {
            let t = seq![ValueModel::Text(m)];
            assert(next.bound_args() =~= t);
            next.lemma_own_signature();
            assert(accepts(other_func, (t, Map::<Seq<char>, Seq<char>>::empty())));
        }
        next.call(Vec::new(), Kwargs::new())
    }

    /// The same as `chain`.
    pub fn map<N: Fn(Vec<Value>, Kwargs) -> String>(&mut self, transform_func: N) -> (r: String)
        requires
            old(self).wf(),
            accepts(old(self).computation(), old(self).own_signature()),
            forall|mid: Seq<char>| #[trigger]
                produces(old(self).computation(), old(self).own_signature(), mid) ==> accepts(
                    transform_func,
                    (seq![ValueModel::Text(mid)], Map::<Seq<char>, Seq<char>>::empty()),
                ),
        ensures
            final(self).wf(),
            final(self).computation() == old(self).computation(),
            final(self).own_signature() == old(self).own_signature(),
            exists|mid: Seq<char>| #[trigger]
                produces(old(self).computation(), old(self).own_signature(), mid) && remembers(
                    old(self).cache(),
                    old(self).invocations(),
                    old(self).own_signature(),
                    final(self).cache(),
                    final(self).invocations(),
                    mid,
                ) && produces(
                    transform_func,
                    (seq![ValueModel::Text(mid)], Map::<Seq<char>, Seq<char>>::empty()),
                    r@,
                ),
    {
        self.chain(transform_func)
    }
}

/// Calling twice on one signature invokes the computation at most once: the
/// second call gives the first call's result and leaves the cache and the
/// count of invocations as the first call left them.
pub proof fn lemma_call_twice<V>(
    c0: Map<SignatureModel, V>,
    n0: nat,
    sig: SignatureModel,
    c1: Map<SignatureModel, V>,
    n1: nat,
    r1: V,
    c2: Map<SignatureModel, V>,
    n2: nat,
    r2: V,
)
    requires
        remembers(c0, n0, sig, c1, n1, r1),
        remembers(c1, n1, sig, c2, n2, r2),
    ensures
        r2 == r1,
        c2 == c1,
        n2 == n1,
        n2 <= n0 + 1,
{
}

/// After the cache is cleared, a call on any signature invokes the
/// computation again.
pub proof fn lemma_call_after_clear<V>(
    n0: nat,
    sig: SignatureModel,
    c1: Map<SignatureModel, V>,
    n1: nat,
    r: V,
)
    requires
        remembers(Map::<SignatureModel, V>::empty(), n0, sig, c1, n1, r),
    ensures
        n1 == n0 + 1,
        c1 == Map::<SignatureModel, V>::empty().insert(sig, r),
{
}

} // verus!
