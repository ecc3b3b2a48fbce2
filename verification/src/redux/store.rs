//! The store: the one place that holds the current state.

use vstd::prelude::*;

verus! {

/// Holds the current state, the reducer that computes the next state from
/// the current one and an action, and the subscribers, in the order in which
/// they were registered.
///
/// The reducer accepts every state and every action, and every subscriber
/// may be called at any time: `new` and `subscribe` ask for that, and the
/// store keeps it.
#[verifier::reject_recursive_types(State)]
#[verifier::reject_recursive_types(Action)]
#[verifier::reject_recursive_types(R)]
pub struct Store<State, Action, R, L> where
    State: Clone,
    R: Fn(State, Action) -> State,
    L: FnMut(),
 {
    state: State,
    mutate: R,
    listeners: Vec<L>,
    phantom: core::marker::PhantomData<Action>,
}

impl<State, Action, R, L> Store<State, Action, R, L> where
    State: Clone,
    R: Fn(State, Action) -> State,
    L: FnMut(),
 {
    #[verifier::type_invariant]
    spec fn accepts_all(self) -> bool {
        &&& forall|state: State, action: Action| call_requires(self.mutate, (state, action))
        &&& forall|i: int|
            0 <= i < self.listeners@.len() ==> call_requires(#[trigger] self.listeners@[i], ())
    }

    /// The current state.
    pub closed spec fn state(&self) -> State {
        self.state
    }

    /// The reducer.
    pub closed spec fn reducer(&self) -> R {
        self.mutate
    }

    /// The subscribers, first registered first.
    pub closed spec fn subscribers(&self) -> Seq<L> {
        self.listeners@
    }

    /// A store that holds `initial_state` and has no subscribers.
    pub fn new(initial_state: State, mutate: R) -> (store: Self)
        requires
            forall|state: State, action: Action| call_requires(mutate, (state, action)),
        ensures
            store.state() == initial_state,
            store.reducer() == mutate,
            store.subscribers() == Seq::<L>::empty(),
    {
        Store {
            state: initial_state,
            mutate,
            listeners: Vec::new(),
            phantom: core::marker::PhantomData,
        }
    }

    /// The current state, for reading.
    pub fn get_state(&self) -> (state: &State)
        ensures
            *state == self.state(),
    {
        &self.state
    }

    /// Feeds a clone of the current state and `action` through the reducer,
    /// commits what the reducer returns as the current state, and then calls
    /// every subscriber, first registered first.
    ///
    /// The new state is what the reducer may return for a clone of the old
    /// one: for the old state itself, where a clone of a state is that state.
    /// When `dispatch` returns every subscriber has been called, so that what
    /// a call of it ensures holds.
    pub fn dispatch(&mut self, action: Action)
        ensures
            exists|copy: State|
                cloned(old(self).state(), copy) && call_ensures(
                    old(self).reducer(),
                    (copy, action),
                    final(self).state(),
                ),
            (forall|copy: State| cloned(old(self).state(), copy) ==> copy == old(self).state())
                ==> call_ensures(
                old(self).reducer(),
                (old(self).state(), action),
                final(self).state(),
            ),
            final(self).reducer() == old(self).reducer(),
            final(self).subscribers() == old(self).subscribers(),
            forall|i: int|
                0 <= i < old(self).subscribers().len() ==> call_ensures(
                    #[trigger] old(self).subscribers()[i],
                    (),
                    (),
                ),
    {
        proof {
            use_type_invariant(&*self);
        }
        let copy = self.state.clone();
        assert(call_requires(self.mutate, (copy, action)));
        let next = (self.mutate)(copy, action);
        self.state = next;
        self.raise_events();
        assert(cloned(old(self).state(), copy) && call_ensures(
            old(self).reducer(),
            (copy, action),
            self.state(),
        ));
    }

    /// Registers `listener` behind the subscribers that are already there.
    pub fn subscribe(&mut self, listener: L)
        requires
            call_requires(listener, ()),
        ensures
            final(self).subscribers() == old(self).subscribers().push(listener),
            final(self).state() == old(self).state(),
            final(self).reducer() == old(self).reducer(),
    {
        proof {
            use_type_invariant(&*self);
        }
        let mut listeners = Vec::new();
        core::mem::swap(&mut listeners, &mut self.listeners);
        listeners.push(listener);
        self.listeners = listeners;
    }

    /// Calls every subscriber once, first registered first, and changes
    /// nothing else. The subscribers are taken out of the store while they
    /// are called and put back afterwards.
    fn raise_events(&mut self)
        ensures
            final(self).state() == old(self).state(),
            final(self).reducer() == old(self).reducer(),
            final(self).subscribers() == old(self).subscribers(),
            forall|i: int|
                0 <= i < old(self).subscribers().len() ==> call_ensures(
                    #[trigger] old(self).subscribers()[i],
                    (),
                    (),
                ),
    {
        proof {
            use_type_invariant(&*self);
        }
        let mut listeners = Vec::new();
        core::mem::swap(&mut listeners, &mut self.listeners);
        let count = listeners.len();
        let mut i: usize = 0;
        while i < count
            invariant
                i <= count,
                count == listeners@.len(),
                listeners@ == old(self).listeners@,
                forall|k: int|
                    0 <= k < listeners@.len() ==> call_requires(#[trigger] listeners@[k], ()),
                forall|k: int| 0 <= k < i ==> call_ensures(#[trigger] listeners@[k], (), ()),
            decreases count - i,
        {
            let listener = &mut listeners[i];
            listener();
            i += 1;
        }
        self.listeners = listeners;
    }
}

} // verus!
