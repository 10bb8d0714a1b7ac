//! A registry of callbacks that are all called with each emitted value.

use std::collections::HashMap;
use vstd::prelude::*;

verus! {

/// Handlers under the identifiers they were registered with. Identifiers are
/// handed out in increasing order and never used twice.
pub struct EventEmitter<T, F: Fn(&T)> {
    current_id: u128,
    handlers: HashMap<u128, F>,
    _marker: core::marker::PhantomData<T>,
}

impl<T, F: Fn(&T)> EventEmitter<T, F> {
    /// Every identifier in use lies below the next one.
    pub closed spec fn well_formed(&self) -> bool {
        forall|id: u128| self.handlers@.contains_key(id) ==> id < self.current_id
    }

    /// The identifier that the next registration gets.
    pub closed spec fn next_id(&self) -> u128 {
        self.current_id
    }

    /// The registered handlers under their identifiers.
    pub closed spec fn entries(&self) -> Map<u128, F> {
        self.handlers@
    }

    pub fn new() -> (r: Self)
        ensures
            r.well_formed(),
            r.next_id() == 0,
            r.entries() == Map::<u128, F>::empty(),
    {
        EventEmitter {
            current_id: 0,
            handlers: HashMap::new(),
            _marker: core::marker::PhantomData,
        }
    }

    /// Registers a handler and returns its identifier, which no handler had
    /// before.
    pub fn on(&mut self, callback: F) -> (id: u128)
        requires
            old(self).well_formed(),
            old(self).next_id() < u128::MAX,
        ensures
            final(self).well_formed(),
            id == old(self).next_id(),
            final(self).next_id() == id + 1,
            !old(self).entries().contains_key(id),
            final(self).entries() == old(self).entries().insert(id, callback),
    {
        broadcast use vstd::std_specs::hash::group_hash_axioms;

        let id: u128 = self.current_id;
        self.handlers.insert(id, callback);
        self.current_id = id + 1;
        id
    }

    /// Removes the handler with the given identifier, if there is one.
    pub fn off(&mut self, id: u128)
        requires
            old(self).well_formed(),
        ensures
            final(self).well_formed(),
            final(self).next_id() == old(self).next_id(),
            final(self).entries() == old(self).entries().remove(id),
    {
        broadcast use vstd::std_specs::hash::group_hash_axioms;

        self.handlers.remove(&id);
    }

    /// Calls every registered handler with the value, in no fixed order.
    pub fn emit(&self, data: &T)
        requires
            forall|id: u128|
                self.entries().contains_key(id) ==> call_requires(
                    #[trigger] self.entries()[id],
                    (data,),
                ),
        ensures
            forall|id: u128|
                self.entries().contains_key(id) ==> call_ensures(
                    #[trigger] self.entries()[id],
                    (data,),
                    (),
                ),
    {
        broadcast use vstd::std_specs::hash::group_hash_axioms;

        let ghost all = self.handlers@;
        let ghost mut called: Seq<F> = Seq::empty();
        assert forall|id: u128| all.contains_key(id) implies call_requires(
            #[trigger] all[id],
            (data,),
        ) by {
            assert(self.entries()[id] == all[id]);
        }
        for handler in it: self.handlers.values()
            invariant
                all == self.handlers@,
                all == self.entries(),
                it.seq().unref().to_set() == all.values(),
                called =~= it.seq().unref().take(it.index()),
                it.index() == it.seq().len() ==> called =~= it.seq().unref(),
                forall|id: u128|
                    all.contains_key(id) ==> call_requires(#[trigger] all[id], (data,)),
                forall|i: int|
                    0 <= i < called.len() ==> call_ensures(#[trigger] called[i], (data,), ()),
        {
            assert(it.seq().unref().to_set().contains(*handler));
            assert(all.values().contains(*handler));
            handler(data);
            proof {
                called = called.push(*handler);
            }
        }
        assert(called.to_set() == all.values());
        assert forall|id: u128| self.entries().contains_key(id) implies call_ensures(
            #[trigger] self.entries()[id],
            (data,),
            (),
        ) by {
            assert(all.values().contains(all[id]));
            assert(called.to_set().contains(all[id]));
            assert(called.contains(all[id]));
            let i = choose|i: int| 0 <= i < called.len() && called[i] == all[id];
            assert(call_ensures(called[i], (data,), ()));
        }
    }
}

} // verus!
