use std::cell::RefCell;
use std::rc::Rc;

use statekit::redux::slice::{
    Combined, CombinedAction, HasActionType, Single, SingleAction, Slice,
};
use statekit::redux::store::Store;

#[derive(Debug, PartialEq, Default, Clone)]
struct Settings {
    enable_voiceover: bool,
}

impl Slice<Settings, SettingActions> for Settings {
    fn mutate(self, action: SettingActions) -> Self {
        match action {
            SettingActions::EnableVoiceOver(v) => Self { enable_voiceover: v, ..self },
        }
    }
}

impl HasActionType for Settings {
    type ActionType = SettingActions;
}

#[derive(Clone, PartialEq, PartialOrd, Ord, Eq, Debug)]
enum Theme {
    Dark,
    Light,
}

impl Default for Theme {
    fn default() -> Self {
        Theme::Light
    }
}

#[derive(Debug, PartialEq, Default, Clone)]
struct Preferences {
    theme: Theme,
}

impl Slice<Preferences, PreferenceActions> for Preferences {
    fn mutate(self, action: PreferenceActions) -> Self {
        match action {
            PreferenceActions::SetTheme(theme) => Self { theme, ..self },
        }
    }
}

impl HasActionType for Preferences {
    type ActionType = PreferenceActions;
}

type State = Combined<Preferences, Settings>;
type Actions = CombinedAction<Preferences, Settings>;

impl From<PreferenceActions> for Actions {
    fn from(action: PreferenceActions) -> Self {
        Actions::first(action)
    }
}

impl From<SettingActions> for Actions {
    fn from(action: SettingActions) -> Self {
        Actions::second(action)
    }
}

#[derive(Debug, Clone, PartialEq, PartialOrd)]
enum SettingActions {
    EnableVoiceOver(bool),
}

#[derive(Debug, Clone, PartialEq, PartialOrd)]
enum PreferenceActions {
    SetTheme(Theme),
}

fn set_theme(theme: Theme) -> Actions {
    Actions::First(PreferenceActions::SetTheme(theme))
}

#[test]
fn with_default() {
    let mut store = Store::new(State::default(), &State::mutate);

    assert_eq!(store.get_state().first.theme, Theme::Light);
    assert_eq!(store.get_state().second.enable_voiceover, false);

    store.dispatch(Actions::Second(SettingActions::EnableVoiceOver(true)));

    assert_eq!(store.get_state().first.theme, Theme::Light);
    assert_eq!(store.get_state().second.enable_voiceover, true);

    store.dispatch(Actions::Reset);

    assert_eq!(store.get_state().first.theme, Theme::Light);
    assert_eq!(store.get_state().second.enable_voiceover, false);

    store.dispatch(Actions::Id);

    assert_eq!(store.get_state().first.theme, Theme::Light);
    assert_eq!(store.get_state().second.enable_voiceover, false);

    store.dispatch(PreferenceActions::SetTheme(Theme::Dark).into());

    assert_eq!(store.get_state().first.theme, Theme::Dark);
    assert_eq!(store.get_state().second.enable_voiceover, false);

    let saved = store.get_state().clone();

    store.dispatch(set_theme(Theme::Light));

    assert_eq!(store.get_state().first.theme, Theme::Light);
    assert_eq!(store.get_state().second.enable_voiceover, false);

    store.dispatch(Actions::Restore(saved));

    assert_eq!(store.get_state().first.theme, Theme::Dark);
    assert_eq!(store.get_state().second.enable_voiceover, false);

    let mut listened = false;

    let mut listener = || listened = true;

    store.subscribe(&mut listener);

    store.dispatch(Actions::Reset);

    assert_eq!(&listened, &true);
}

type Listener = Box<dyn FnMut()>;

fn new_store(state: State) -> Store<State, Actions, fn(State, Actions) -> State, Listener> {
    Store::new(state, State::mutate as fn(State, Actions) -> State)
}

fn state(theme: Theme, enable_voiceover: bool) -> State {
    Combined { first: Preferences { theme }, second: Settings { enable_voiceover } }
}

#[test]
fn reducer_is_pure() {
    let before = state(Theme::Dark, true);
    let once = before.clone().mutate(set_theme(Theme::Light));
    let again = before.clone().mutate(set_theme(Theme::Light));
    assert_eq!(once, again);
    assert_eq!(before, state(Theme::Dark, true));
}

#[test]
fn id_keeps_state() {
    let before = state(Theme::Dark, true);
    assert_eq!(before.clone().mutate(Actions::Id), before);
}

#[test]
fn reset_gives_default() {
    let after = state(Theme::Dark, true).mutate(Actions::Reset);
    assert_eq!(after, State::default());
    assert_eq!(after, state(Theme::Light, false));
}

#[test]
fn restore_replaces_state() {
    let saved = state(Theme::Dark, false);
    let after = state(Theme::Light, true).mutate(Actions::Restore(saved.clone()));
    assert_eq!(after, saved);
}

#[test]
fn slice_action_changes_its_field_only() {
    let before = state(Theme::Light, false);
    let after = before.clone().mutate(Actions::First(PreferenceActions::SetTheme(Theme::Dark)));
    assert_eq!(after.first.theme, Theme::Dark);
    assert_eq!(after.second, before.second);

    let after = before.clone().mutate(Actions::Second(SettingActions::EnableVoiceOver(true)));
    assert_eq!(after.first, before.first);
    assert_eq!(after.second.enable_voiceover, true);
}

#[test]
fn wrapped_action_is_the_variant() {
    let mut short = new_store(State::default());
    let mut long = new_store(State::default());

    short.dispatch(SettingActions::EnableVoiceOver(true).into());
    long.dispatch(Actions::Second(SettingActions::EnableVoiceOver(true)));
    assert_eq!(short.get_state(), long.get_state());

    short.dispatch(Actions::first(PreferenceActions::SetTheme(Theme::Dark)));
    long.dispatch(Actions::First(PreferenceActions::SetTheme(Theme::Dark)));
    assert_eq!(short.get_state(), long.get_state());
    assert_eq!(short.get_state(), &state(Theme::Dark, true));
}

#[test]
fn new_store_holds_the_initial_state() {
    let store = new_store(state(Theme::Dark, true));
    assert_eq!(store.get_state(), &state(Theme::Dark, true));
}

#[test]
fn notifies_in_registration_order() {
    let log: Rc<RefCell<Vec<u8>>> = Rc::new(RefCell::new(Vec::new()));
    let mut store = new_store(State::default());
    for name in [1u8, 2, 3] {
        let log = Rc::clone(&log);
        store.subscribe(Box::new(move || log.borrow_mut().push(name)));
    }

    store.dispatch(Actions::Id);
    assert_eq!(*log.borrow(), vec![1, 2, 3]);

    store.dispatch(Actions::Reset);
    assert_eq!(*log.borrow(), vec![1, 2, 3, 1, 2, 3]);
}

#[test]
fn nested_composition_routes_to_the_inner_slice() {
    type Outer = Combined<Settings, State>;
    type OuterActions = CombinedAction<Settings, State>;

    let before: Outer = Combined::default();
    let after = before.mutate(OuterActions::Second(set_theme(Theme::Dark)));
    assert_eq!(after.first.enable_voiceover, false);
    assert_eq!(after.second, state(Theme::Dark, false));

    let after = after.mutate(OuterActions::Second(Actions::Reset));
    assert_eq!(after.second, State::default());
}

#[test]
fn one_slice_composes_alone() {
    type Alone = Single<Preferences>;
    type AloneActions = SingleAction<Preferences>;

    let mut store: Store<Alone, AloneActions, _, Listener> =
        Store::new(Alone::default(), Alone::mutate);
    assert_eq!(store.get_state().only.theme, Theme::Light);

    store.dispatch(AloneActions::only(PreferenceActions::SetTheme(Theme::Dark)));
    assert_eq!(store.get_state().only.theme, Theme::Dark);

    let saved = store.get_state().clone();

    store.dispatch(AloneActions::Id);
    assert_eq!(store.get_state(), &saved);

    store.dispatch(AloneActions::Reset);
    assert_eq!(store.get_state(), &Alone::default());

    store.dispatch(AloneActions::Restore(saved));
    assert_eq!(store.get_state().only.theme, Theme::Dark);

    store.dispatch(AloneActions::Only(PreferenceActions::SetTheme(Theme::Light)));
    assert_eq!(store.get_state().only.theme, Theme::Light);
}
