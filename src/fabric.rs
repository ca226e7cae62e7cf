use vstd::prelude::*;

use crate::table::Table;
use crate::value::{Erasable, Value, ValueModel};

verus! {

/// What a single-argument handler `h` may hand back when it is given the
/// erased `input` and its output is recovered as `R`: some output of `h` for
/// that input, recovered as `R` exactly when it has `R`'s kind.
pub open spec fn answers<W: Fn(Value) -> Value, R: Erasable>(
    h: W,
    input: ValueModel,
    r: Option<R>,
) -> bool {
    exists|v: Value, out: Value|
        v@ == input && #[trigger] h.ensures((v,), out) && (r.is_some() <==> out@.kind()
            == R::kind_of()) && (r matches Some(x) ==> x.erased() == out@)
}

/// A registry of handlers reachable by name: procedures without arguments in
/// one namespace, and handlers from one erased value to another in a second,
/// independent one.
pub struct Fabric<V, W> {
    callbacks_void: Table<V>,
    callbacks_with_args: Table<W>,
}

impl<V: Fn(), W: Fn(Value) -> Value> Fabric<V, W> {
    pub closed spec fn wf(&self) -> bool {
        self.callbacks_void.wf() && self.callbacks_with_args.wf()
    }

    /// The procedures without arguments, by name.
    pub closed spec fn void_handlers(&self) -> Map<Seq<char>, V> {
        self.callbacks_void.view()
    }

    /// The single-argument handlers, by name.
    pub closed spec fn arg_handlers(&self) -> Map<Seq<char>, W> {
        self.callbacks_with_args.view()
    }

    pub fn new() -> (f: Self)
        ensures
            f.wf(),
            f.void_handlers() == Map::<Seq<char>, V>::empty(),
            f.arg_handlers() == Map::<Seq<char>, W>::empty(),
    {
        Fabric { callbacks_void: Table::new(), callbacks_with_args: Table::new() }
    }

    /// Registers `callback` under `name`, replacing any procedure registered
    /// there before.
    pub fn add_callback(&mut self, name: String, callback: V)
        requires
            old(self).wf(),
        ensures
            final(self).wf(),
            final(self).void_handlers() == old(self).void_handlers().insert(name@, callback),
            final(self).arg_handlers() == old(self).arg_handlers(),
    {
        self.callbacks_void.insert(name, callback);
    }

    /// Registers the single-argument handler `callback` under `name`,
    /// replacing any handler registered there before.
    ///
    /// The handler works on erased values: it recovers its input as the type
    /// it expects (and aborts where the input is of another type), and erases
    /// its output. All handlers of one fabric share the type `W`; a boxed
    /// `dyn Fn(Value) -> Value` lets handlers of different closure types
    /// stand side by side.
    pub fn add_callback_with_args(&mut self, name: String, callback: W)
        requires
            old(self).wf(),
        ensures
            final(self).wf(),
            final(self).arg_handlers() == old(self).arg_handlers().insert(name@, callback),
            final(self).void_handlers() == old(self).void_handlers(),
    {
        self.callbacks_with_args.insert(name, callback);
    }

    /// Removes `name` from both namespaces; absent names are left alone.
    pub fn remove_callback(&mut self, name: &str)
        requires
            old(self).wf(),
        ensures
            final(self).wf(),
            final(self).void_handlers() == old(self).void_handlers().remove(name@),
            final(self).arg_handlers() == old(self).arg_handlers().remove(name@),
    {
        let key = name.to_owned();
        self.callbacks_void.remove(&key);
        self.callbacks_with_args.remove(&key);
    }

    /// Runs every registered procedure without arguments once.
    pub fn execute(&self)
        requires
            self.wf(),
            forall|k: Seq<char>| #[trigger]
                self.void_handlers().contains_key(k) ==> self.void_handlers()[k].requires(()),
        ensures
            forall|k: Seq<char>| #[trigger]
                self.void_handlers().contains_key(k) ==> self.void_handlers()[k].ensures((), ()),
    {
        let n = self.callbacks_void.len();
        let mut i: usize = 0;
        while i < n
            invariant
                self.wf(),
                n == self.callbacks_void.size(),
                forall|k: Seq<char>| #[trigger]
                    self.void_handlers().contains_key(k) ==> self.void_handlers()[k].requires(()),
                0 <= i <= n,
                forall|j: int|
                    0 <= j < i ==> self.void_handlers()[#[trigger] self.callbacks_void.key_at(j)].ensures(
                        (),
                        (),
                    ),
            decreases n - i,
        {
            let callback = self.callbacks_void.value(i);
            proof {
                let k = self.callbacks_void.key_at(i as int);
                assert(self.void_handlers().contains_key(k));
                assert(callback.requires(()));
            }
            callback();
            i = i + 1;
        }
        proof {
            assert forall|k: Seq<char>| #[trigger]
                self.void_handlers().contains_key(k) implies self.void_handlers()[k].ensures((), ()) by {
                self.callbacks_void.lemma_key_index(k);
            }
        }
    }

    /// Runs the procedure registered under `name`, if there is one.
    pub fn execute_callback(&self, name: &str)
        requires
            self.wf(),
            self.void_handlers().contains_key(name@) ==> self.void_handlers()[name@].requires(()),
        ensures
            self.void_handlers().contains_key(name@) ==> self.void_handlers()[name@].ensures((), ()),
    {
        let key = name.to_owned();
        if let Some(callback) = self.callbacks_void.get(&key) {
            callback();
        }
    }

    /// Hands `arg`, erased, to the handler registered under `name`, and
    /// recovers its output as `R`. Gives `None` where no handler is registered
    /// under `name` and where the output is not of type `R`.
    pub fn execute_callback_with_args<R: Erasable, A: Erasable>(&self, name: &str, arg: A) -> (r:
        Option<R>)
        requires
            self.wf(),
            self.arg_handlers().contains_key(name@) ==> forall|v: Value|
                v@ == arg.erased() ==> #[trigger] self.arg_handlers()[name@].requires((v,)),
        ensures
            !self.arg_handlers().contains_key(name@) ==> r is None,
            self.arg_handlers().contains_key(name@) ==> answers(
                self.arg_handlers()[name@],
                arg.erased(),
                r,
            ),
    {
        let key = name.to_owned();
        match self.callbacks_with_args.get(&key) {
            Some(callback) => {
                let v = arg.erase();
                assert(self.arg_handlers()[name@].requires((v,)));
                let out = callback(v);
                R::recover(out)
            },
            None => None,
        }
    }
}

/// Registering `second` under `name` after `first` leaves `second` alone
/// reachable by `name`, as if `first` had never been registered.
pub proof fn lemma_register_twice<H>(handlers: Map<Seq<char>, H>, name: Seq<char>, first: H, second: H)
    ensures
        handlers.insert(name, first).insert(name, second) == handlers.insert(name, second),
        handlers.insert(name, first).insert(name, second)[name] == second,
{
    assert(handlers.insert(name, first).insert(name, second) =~= handlers.insert(name, second));
}

/// Removing a name that was registered into a registry without it gives back
/// that registry, in which the name was never registered.
pub proof fn lemma_register_then_remove<H>(handlers: Map<Seq<char>, H>, name: Seq<char>, h: H)
    requires
        !handlers.contains_key(name),
    ensures
        handlers.insert(name, h).remove(name) == handlers,
{
    assert(handlers.insert(name, h).remove(name) =~= handlers);
}

/// The two namespaces are independent: a name registered in both is
/// reachable in both, and removing it clears it from both.
pub proof fn lemma_namespaces<V, W>(
    void_handlers: Map<Seq<char>, V>,
    arg_handlers: Map<Seq<char>, W>,
    name: Seq<char>,
    v: V,
    w: W,
)
    ensures
        void_handlers.insert(name, v)[name] == v,
        arg_handlers.insert(name, w)[name] == w,
        !void_handlers.insert(name, v).remove(name).contains_key(name),
        !arg_handlers.insert(name, w).remove(name).contains_key(name),
{
}

} // verus!
