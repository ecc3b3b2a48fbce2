//! Slices and their composition.
//!
//! A slice is a state type, the type of the actions it understands, and a
//! pure transition function. One slice alone composes into [`Single`], two
//! slices into [`Combined`]; both are slices again: their actions are
//! [`SingleAction`] and [`CombinedAction`], and their transition functions
//! hand each action to the component that owns it. Nesting `Combined`
//! composes any number of slices.

use vstd::prelude::*;
use vstd::std_specs::cmp::PartialEqSpec;
use vstd::std_specs::cmp::PartialEqSpecImpl;

verus! {

/// Names the type of the actions that a slice understands.
pub trait HasActionType {
    type ActionType;
}

/// The transition function of a slice.
///
/// `mutate` consumes the old state and returns the new one. A slice whose
/// `mutate` is a function in the mathematical sense (equal inputs give equal
/// outputs, and it is defined for every action) says so by `is_pure`, and
/// says by `mutated` which state it returns.
pub trait Slice<State, Action>: Sized {
    /// Whether `mutate` returns what `mutated` says.
    open spec fn is_pure() -> bool {
        false
    }

    /// The state that follows `self` under `action`.
    open spec fn mutated(self, action: Action) -> State {
        arbitrary()
    }

    fn mutate(self, action: Action) -> (next: State)
        ensures
            Self::is_pure() ==> next == self.mutated(action),
    ;
}

/// The default state of `T`: a state that `T::default` may return.
pub open spec fn default_state<T: Default>() -> T {
    choose|state: T| call_ensures(T::default, (), state)
}

/// Whether `T::default` always returns one and the same state.
pub open spec fn has_one_default<T: Default>() -> bool {
    forall|state: T| call_ensures(T::default, (), state) ==> state == default_state::<T>()
}

/// The state of two slices side by side: one field for each.
#[derive(Debug)]
pub struct Combined<A, B> {
    pub first: A,
    pub second: B,
}

/// An action on a [`Combined`] state: one of three control actions, or an
/// action of one of the two components.
pub enum CombinedAction<A: HasActionType, B: HasActionType> {
    /// Returns the state without modification.
    Id,
    /// Resets the state to its default value.
    Reset,
    /// Replaces the state by the given one.
    Restore(Combined<A, B>),
    /// An action of the first component.
    First(A::ActionType),
    /// An action of the second component.
    Second(B::ActionType),
}

impl<A: HasActionType, B: HasActionType> CombinedAction<A, B> {
    /// Wraps an action of the first component.
    pub fn first(action: A::ActionType) -> (wrapped: Self)
        ensures
            wrapped == CombinedAction::<A, B>::First(action),
    {
        CombinedAction::First(action)
    }

    /// Wraps an action of the second component.
    pub fn second(action: B::ActionType) -> (wrapped: Self)
        ensures
            wrapped == CombinedAction::<A, B>::Second(action),
    {
        CombinedAction::Second(action)
    }
}

impl<A: Default, B: Default> Default for Combined<A, B> {
    /// Each field gets the default of its own component.
    fn default() -> (state: Self)
        ensures
            call_ensures(A::default, (), state.first),
            call_ensures(B::default, (), state.second),
    {
        Combined { first: A::default(), second: B::default() }
    }
}

impl<A: Clone, B: Clone> Clone for Combined<A, B> {
    /// Each field is the clone of the field it was made from.
    fn clone(&self) -> (copy: Self)
        ensures
            cloned(self.first, copy.first),
            cloned(self.second, copy.second),
    {
        Combined { first: self.first.clone(), second: self.second.clone() }
    }
}

impl<A: PartialEq, B: PartialEq> PartialEq for Combined<A, B> {
    /// Two states are equal when both fields are.
    fn eq(&self, other: &Self) -> (equal: bool) {
        self.first == other.first && self.second == other.second
    }
}

impl<A: PartialEq, B: PartialEq> PartialEqSpecImpl for Combined<A, B> {
    open spec fn obeys_eq_spec() -> bool {
        A::obeys_eq_spec() && B::obeys_eq_spec()
    }

    open spec fn eq_spec(&self, other: &Self) -> bool {
        self.first.eq_spec(&other.first) && self.second.eq_spec(&other.second)
    }
}

impl<A: HasActionType, B: HasActionType> HasActionType for Combined<A, B> {
    type ActionType = CombinedAction<A, B>;
}

impl<A, B> Slice<Combined<A, B>, CombinedAction<A, B>> for Combined<A, B> where
    A: HasActionType + Default + Slice<A, A::ActionType>,
    B: HasActionType + Default + Slice<B, B::ActionType>,
 {
    /// The composition is pure where both components are and each has one
    /// default state.
    open spec fn is_pure() -> bool {
        &&& A::is_pure()
        &&& B::is_pure()
        &&& has_one_default::<A>()
        &&& has_one_default::<B>()
    }

    /// `Id` keeps the state, `Reset` gives the default state, `Restore`
    /// gives the state it carries, and an action of a component changes the
    /// field of that component and no other.
    open spec fn mutated(self, action: CombinedAction<A, B>) -> Combined<A, B> {
        match action {
            CombinedAction::Id => self,
            CombinedAction::Reset => Combined {
                first: default_state::<A>(),
                second: default_state::<B>(),
            },
            CombinedAction::Restore(state) => state,
            CombinedAction::First(a) => Combined {
                first: self.first.mutated(a),
                second: self.second,
            },
            CombinedAction::Second(b) => Combined {
                first: self.first,
                second: self.second.mutated(b),
            },
        }
    }

    /// Whatever the components are, the result follows the state as
    /// `follows` says.
    fn mutate(self, action: CombinedAction<A, B>) -> (next: Combined<A, B>)
        ensures
            self.follows(action, next),
    {
        match action {
            CombinedAction::Id => self,
            CombinedAction::Reset => Self::default(),
            CombinedAction::Restore(state) => state,
            CombinedAction::First(a) => Combined { first: self.first.mutate(a), ..self },
            CombinedAction::Second(b) => Combined { second: self.second.mutate(b), ..self },
        }
    }
}

/// What holds of the reducer of every composition.
impl<A, B> Combined<A, B> where
    A: HasActionType + Default + Slice<A, A::ActionType>,
    B: HasActionType + Default + Slice<B, B::ActionType>,
 {
    /// Whether `next` may follow the state under `action`, pure components
    /// or not: `Id` keeps the state; `Reset` gives in each field what the
    /// `default` of its component may return; `Restore` gives the state it
    /// carries; an action of a component gives in the field of that
    /// component what its `mutate` may return, and keeps the other field.
    pub open spec fn follows(self, action: CombinedAction<A, B>, next: Self) -> bool {
        match action {
            CombinedAction::Id => next == self,
            CombinedAction::Reset => {
                &&& call_ensures(A::default, (), next.first)
                &&& call_ensures(B::default, (), next.second)
            },
            CombinedAction::Restore(state) => next == state,
            CombinedAction::First(a) => {
                &&& call_ensures(A::mutate, (self.first, a), next.first)
                &&& next.second == self.second
            },
            CombinedAction::Second(b) => {
                &&& next.first == self.first
                &&& call_ensures(B::mutate, (self.second, b), next.second)
            },
        }
    }

    /// Whatever the reducer returns follows the state as `follows` says.
    /// So, of slices that say nothing of themselves: `Id` returns the state,
    /// `Restore` returns the state it carries, `Reset` returns in each field
    /// what the `default` of its component may return, and an action of one
    /// component leaves the field of the other as it was.
    pub proof fn lemma_reducer_follows(state: Self, action: CombinedAction<A, B>, next: Self)
        requires
            call_ensures(Self::mutate, (state, action), next),
        ensures
            state.follows(action, next),
            action is Id ==> next == state,
            action matches CombinedAction::Restore(saved) ==> next == saved,
            action is Reset ==> call_ensures(A::default, (), next.first) && call_ensures(
                B::default,
                (),
                next.second,
            ),
            action is First ==> next.second == state.second,
            action is Second ==> next.first == state.first,
    {
    }

    /// Purity: in a pure composition, whatever two calls of the reducer
    /// return on the same state and the same action is the same state, the
    /// one that `mutated` names. The reducer takes its state by value, so
    /// the caller's own copy of it is out of its reach.
    pub proof fn lemma_reducer_is_pure(
        state: Self,
        action: CombinedAction<A, B>,
        once: Self,
        again: Self,
    )
        requires
            Self::is_pure(),
            call_ensures(Self::mutate, (state, action), once),
            call_ensures(Self::mutate, (state, action), again),
        ensures
            once == again,
            once == state.mutated(action),
    {
    }

    /// Identity: `Id` returns the state unchanged.
    pub proof fn lemma_id_keeps_state(state: Self)
        ensures
            state.mutated(CombinedAction::Id) == state,
    {
    }

    /// Reset: `Reset` returns the default state, whatever the state was:
    /// the state that `default` returns, where each component has one
    /// default state.
    pub proof fn lemma_reset_gives_default(state: Self, other: Self, default: Self)
        requires
            has_one_default::<A>(),
            has_one_default::<B>(),
            call_ensures(Self::default, (), default),
        ensures
            state.mutated(CombinedAction::Reset) == default,
            state.mutated(CombinedAction::Reset) == other.mutated(CombinedAction::Reset),
            has_one_default::<Self>(),
            default == default_state::<Self>(),
    {
        assert forall|any: Self| call_ensures(Self::default, (), any) implies any == default by {
        }
    }

    /// Restore: `Restore` returns the state it carries, whatever the state
    /// was.
    pub proof fn lemma_restore_replaces_state(state: Self, saved: Self)
        ensures
            state.mutated(CombinedAction::Restore(saved)) == saved,
    {
    }

    /// Field isolation: an action of the first component changes the first
    /// field as that component's own transition does, and leaves the second
    /// field as it was.
    pub proof fn lemma_first_action_changes_first_only(state: Self, action: A::ActionType)
        ensures
            state.mutated(CombinedAction::First(action)).first == state.first.mutated(action),
            state.mutated(CombinedAction::First(action)).second == state.second,
    {
    }

    /// Field isolation: an action of the second component changes the second
    /// field as that component's own transition does, and leaves the first
    /// field as it was.
    pub proof fn lemma_second_action_changes_second_only(state: Self, action: B::ActionType)
        ensures
            state.mutated(CombinedAction::Second(action)).first == state.first,
            state.mutated(CombinedAction::Second(action)).second == state.second.mutated(action),
    {
    }

    /// Conversion: an action wrapped by `CombinedAction::first` or
    /// `CombinedAction::second` leads to the same state as the variant
    /// written out by hand.
    pub proof fn lemma_wrapped_action_is_the_variant(
        state: Self,
        first_action: A::ActionType,
        second_action: B::ActionType,
        first_wrapped: CombinedAction<A, B>,
        second_wrapped: CombinedAction<A, B>,
    )
        requires
            call_ensures(CombinedAction::<A, B>::first, (first_action,), first_wrapped),
            call_ensures(CombinedAction::<A, B>::second, (second_action,), second_wrapped),
        ensures
            state.mutated(first_wrapped) == state.mutated(CombinedAction::First(first_action)),
            state.mutated(second_wrapped) == state.mutated(CombinedAction::Second(second_action)),
    {
    }
}

/// The state of one slice alone: one field.
#[derive(Debug)]
pub struct Single<A> {
    pub only: A,
}

/// An action on a [`Single`] state: one of three control actions, or an
/// action of the component.
pub enum SingleAction<A: HasActionType> {
    /// Returns the state without modification.
    Id,
    /// Resets the state to its default value.
    Reset,
    /// Replaces the state by the given one.
    Restore(Single<A>),
    /// An action of the component.
    Only(A::ActionType),
}

impl<A: HasActionType> SingleAction<A> {
    /// Wraps an action of the component.
    pub fn only(action: A::ActionType) -> (wrapped: Self)
        ensures
            wrapped == SingleAction::<A>::Only(action),
    {
        SingleAction::Only(action)
    }
}

impl<A: Default> Default for Single<A> {
    /// The field gets the default of the component.
    fn default() -> (state: Self)
        ensures
            call_ensures(A::default, (), state.only),
    {
        Single { only: A::default() }
    }
}

impl<A: Clone> Clone for Single<A> {
    /// The field is the clone of the field it was made from.
    fn clone(&self) -> (copy: Self)
        ensures
            cloned(self.only, copy.only),
    {
        Single { only: self.only.clone() }
    }
}

impl<A: PartialEq> PartialEq for Single<A> {
    /// Two states are equal when their fields are.
    fn eq(&self, other: &Self) -> (equal: bool) {
        self.only == other.only
    }
}

impl<A: PartialEq> PartialEqSpecImpl for Single<A> {
    open spec fn obeys_eq_spec() -> bool {
        A::obeys_eq_spec()
    }

    open spec fn eq_spec(&self, other: &Self) -> bool {
        self.only.eq_spec(&other.only)
    }
}

impl<A: HasActionType> HasActionType for Single<A> {
    type ActionType = SingleAction<A>;
}

impl<A> Slice<Single<A>, SingleAction<A>> for Single<A> where
    A: HasActionType + Default + Slice<A, A::ActionType>,
 {
    /// The composition is pure where the component is and has one default
    /// state.
    open spec fn is_pure() -> bool {
        A::is_pure() && has_one_default::<A>()
    }

    /// `Id` keeps the state, `Reset` gives the default state, `Restore`
    /// gives the state it carries, and an action of the component changes
    /// the field as the component's own transition does.
    open spec fn mutated(self, action: SingleAction<A>) -> Single<A> {
        match action {
            SingleAction::Id => self,
            SingleAction::Reset => Single { only: default_state::<A>() },
            SingleAction::Restore(state) => state,
            SingleAction::Only(a) => Single { only: self.only.mutated(a) },
        }
    }

    /// Whatever the component is, the result follows the state as `follows`
    /// says.
    fn mutate(self, action: SingleAction<A>) -> (next: Single<A>)
        ensures
            self.follows(action, next),
    {
        match action {
            SingleAction::Id => self,
            SingleAction::Reset => Self::default(),
            SingleAction::Restore(state) => state,
            SingleAction::Only(a) => Single { only: self.only.mutate(a) },
        }
    }
}

/// What holds of the reducer of every composition of one slice.
impl<A> Single<A> where A: HasActionType + Default + Slice<A, A::ActionType> {
    /// Whether `next` may follow the state under `action`, a pure component
    /// or not: `Id` keeps the state; `Reset` gives what the `default` of the
    /// component may return; `Restore` gives the state it carries; an action
    /// of the component gives what its `mutate` may return.
    pub open spec fn follows(self, action: SingleAction<A>, next: Self) -> bool {
        match action {
            SingleAction::Id => next == self,
            SingleAction::Reset => call_ensures(A::default, (), next.only),
            SingleAction::Restore(state) => next == state,
            SingleAction::Only(a) => call_ensures(A::mutate, (self.only, a), next.only),
        }
    }

    /// Whatever the reducer returns follows the state as `follows` says.
    pub proof fn lemma_reducer_follows(state: Self, action: SingleAction<A>, next: Self)
        requires
            call_ensures(Self::mutate, (state, action), next),
        ensures
            state.follows(action, next),
            action is Id ==> next == state,
            action matches SingleAction::Restore(saved) ==> next == saved,
            action is Reset ==> call_ensures(A::default, (), next.only),
    {
    }

    /// Purity: in a pure composition, whatever two calls of the reducer
    /// return on the same state and the same action is the same state, the
    /// one that `mutated` names.
    pub proof fn lemma_reducer_is_pure(
        state: Self,
        action: SingleAction<A>,
        once: Self,
        again: Self,
    )
        requires
            Self::is_pure(),
            call_ensures(Self::mutate, (state, action), once),
            call_ensures(Self::mutate, (state, action), again),
        ensures
            once == again,
            once == state.mutated(action),
    {
    }

    /// Identity, reset and restore: `Id` returns the state unchanged,
    /// `Reset` returns the default state whatever the state was, and
    /// `Restore` returns the state it carries.
    pub proof fn lemma_control_actions(state: Self, other: Self, saved: Self)
        ensures
            state.mutated(SingleAction::Id) == state,
            state.mutated(SingleAction::Reset) == other.mutated(SingleAction::Reset),
            state.mutated(SingleAction::Restore(saved)) == saved,
    {
    }

    /// Reset: where the component has one default state, `Reset` returns
    /// the state that `default` returns.
    pub proof fn lemma_reset_gives_default(state: Self, default: Self)
        requires
            has_one_default::<A>(),
            call_ensures(Self::default, (), default),
        ensures
            state.mutated(SingleAction::Reset) == default,
            has_one_default::<Self>(),
            default == default_state::<Self>(),
    {
        assert forall|any: Self| call_ensures(Self::default, (), any) implies any == default by {
        }
    }

    /// An action of the component changes the field as the component's own
    /// transition does, and an action wrapped by `SingleAction::only` leads
    /// to the same state as the variant written out by hand.
    pub proof fn lemma_component_action(
        state: Self,
        action: A::ActionType,
        wrapped: SingleAction<A>,
    )
        requires
            call_ensures(SingleAction::<A>::only, (action,), wrapped),
        ensures
            state.mutated(SingleAction::Only(action)).only == state.only.mutated(action),
            state.mutated(wrapped) == state.mutated(SingleAction::Only(action)),
    {
    }
}

} // verus!
