//! Shared game infrastructure: the game state machine, the semantic input
//! actions, the HUD entries and the pedagogy panels.
use crate::text::text_eq;
use vstd::prelude::*;

verus! {

/// The state machine shared by the games.
#[derive(Debug, Clone, Copy, PartialEq, Eq, Hash, Structural)]
pub enum GameState {
    Menu,
    Loading,
    Playing,
    Paused,
}

impl Default for GameState {
    /// Games start at the menu.
    fn default() -> (r: GameState)
        ensures
            r == GameState::Menu,
    {
        GameState::Menu
    }
}

/// A semantic action, decoupled from the key that produced it.
#[derive(Debug, Clone, Copy, PartialEq, Eq, Hash, Structural)]
pub enum GameAction {
    Pause,
    ToggleHud,
    TogglePedagogy,
    Interact,
}

/// What one frame of actions does: the state to switch to next (if any was
/// requested) and the new visibility of the HUD and the pedagogy panel.
#[derive(Debug, Clone, Copy, PartialEq, Eq, Structural)]
pub struct ActionOutcome {
    pub next_state: Option<GameState>,
    pub hud_visible: bool,
    pub pedagogy_visible: bool,
}

/// The state a pause request switches to from `current`, if any.
pub open spec fn pause_target(current: GameState) -> Option<GameState> {
    match current {
        GameState::Playing => Some(GameState::Paused),
        GameState::Paused => Some(GameState::Playing),
        _ => None,
    }
}

/// The outcome of a frame's actions, all read against the state the frame
/// started in; later requests overwrite earlier ones.
pub open spec fn frame_outcome(current: GameState, hud: bool, pedagogy: bool, actions: Seq<GameAction>) -> ActionOutcome
    decreases actions.len(),
{
    if actions.len() == 0 {
        ActionOutcome { next_state: None, hud_visible: hud, pedagogy_visible: pedagogy }
    } else {
        let before = frame_outcome(current, hud, pedagogy, actions.drop_last());
        match actions.last() {
            GameAction::Pause => match pause_target(current) {
                Some(t) => ActionOutcome { next_state: Some(t), ..before },
                None => before,
            },
            GameAction::ToggleHud => ActionOutcome { hud_visible: !before.hud_visible, ..before },
            GameAction::TogglePedagogy => ActionOutcome { pedagogy_visible: !before.pedagogy_visible, ..before },
            GameAction::Interact => before,
        }
    }
}

/// Applies one frame of actions: pause toggles Playing and Paused, the two
/// toggles flip their panel, and Interact changes nothing here.
pub fn handle_game_actions(current: GameState, hud_visible: bool, pedagogy_visible: bool, actions: &Vec<GameAction>) -> (r:
    ActionOutcome)
    ensures
        r == frame_outcome(current, hud_visible, pedagogy_visible, actions@),
{
    let mut out = ActionOutcome { next_state: None, hud_visible, pedagogy_visible };
    let mut i: usize = 0;
    while i < actions.len()
        invariant
            i <= actions@.len(),
            out == frame_outcome(current, hud_visible, pedagogy_visible, actions@.take(i as int)),
        decreases actions@.len() - i,
    {
        assert(actions@.take(i + 1).drop_last() =~= actions@.take(i as int));
        match actions[i] {
            GameAction::Pause => match current {
                GameState::Playing => {
                    out.next_state = Some(GameState::Paused);
                },
                GameState::Paused => {
                    out.next_state = Some(GameState::Playing);
                },
                _ => {},
            },
            GameAction::ToggleHud => {
                out.hud_visible = !out.hud_visible;
            },
            GameAction::TogglePedagogy => {
                out.pedagogy_visible = !out.pedagogy_visible;
            },
            GameAction::Interact => {},
        }
        i = i + 1;
    }
    assert(actions@.take(i as int) =~= actions@);
    out
}

/// Pausing and then pausing again, one frame each, comes back to the state
/// the game was playing or paused in.
pub proof fn lemma_pause_twice_returns(current: GameState, hud: bool, pedagogy: bool)
    requires
        current == GameState::Playing || current == GameState::Paused,
    ensures
        ({
            let first = frame_outcome(current, hud, pedagogy, seq![GameAction::Pause]);
            first.next_state matches Some(s) && frame_outcome(s, hud, pedagogy, seq![GameAction::Pause]).next_state
                == Some(current)
        }),
{
    assert(seq![GameAction::Pause].drop_last() =~= Seq::<GameAction>::empty());
}

/// One line of the HUD: a label and its current value.
#[derive(Debug, Clone, PartialEq, Eq)]
pub struct HudEntry {
    pub label: String,
    pub value: String,
}

/// The HUD overlay: whether it shows, and its labelled entries.
#[derive(Debug, Clone, PartialEq, Eq)]
pub struct HudState {
    pub visible: bool,
    pub entries: Vec<HudEntry>,
}

impl Default for HudState {
    /// A hidden HUD with no entries.
    fn default() -> (r: HudState)
        ensures
            !r.visible,
            r.entries@.len() == 0,
    {
        HudState { visible: false, entries: Vec::new() }
    }
}

/// The HUD entries as label/value texts.
pub open spec fn hud_view(s: Seq<HudEntry>) -> Seq<(Seq<char>, Seq<char>)> {
    s.map_values(|e: HudEntry| (e.label@, e.value@))
}

/// The first position at or after `from` whose label is `label`.
pub open spec fn first_label_from(s: Seq<(Seq<char>, Seq<char>)>, label: Seq<char>, from: int) -> Option<int>
    decreases s.len() - from,
{
    if from < 0 || from >= s.len() {
        None
    } else if s[from].0 == label {
        Some(from)
    } else {
        first_label_from(s, label, from + 1)
    }
}

/// The entries after setting `label` to `value`: the first entry with that
/// label takes the value, or a new entry is appended.
pub open spec fn hud_after_set(s: Seq<(Seq<char>, Seq<char>)>, label: Seq<char>, value: Seq<char>) -> Seq<
    (Seq<char>, Seq<char>),
> {
    match first_label_from(s, label, 0) {
        Some(i) => s.update(i, (label, value)),
        None => s.push((label, value)),
    }
}

/// No two entries share a label.
pub open spec fn labels_distinct(s: Seq<(Seq<char>, Seq<char>)>) -> bool {
    forall|i: int, j: int| 0 <= i < j < s.len() ==> s[i].0 != s[j].0
}

proof fn lemma_first_label_skip(s: Seq<(Seq<char>, Seq<char>)>, label: Seq<char>, i: int)
    requires
        0 <= i <= s.len(),
        forall|j: int| 0 <= j < i ==> s[j].0 != label,
    ensures
        first_label_from(s, label, 0) == first_label_from(s, label, i),
    decreases i,
{
    if i > 0 {
        lemma_first_label_skip(s, label, i - 1);
    }
}

proof fn lemma_first_label_found(s: Seq<(Seq<char>, Seq<char>)>, label: Seq<char>, from: int)
    requires
        0 <= from <= s.len(),
    ensures
        match first_label_from(s, label, from) {
            Some(i) => from <= i < s.len() && s[i].0 == label && forall|j: int| from <= j < i ==> s[j].0 != label,
            None => forall|j: int| from <= j < s.len() ==> s[j].0 != label,
        },
    decreases s.len() - from,
{
    if from < s.len() && s[from].0 != label {
        lemma_first_label_found(s, label, from + 1);
    }
}

impl HudState {
    /// Sets the value shown for `label`, adding an entry when the label is new.
    pub fn set(&mut self, label: &str, value: &str)
        ensures
            final(self).visible == old(self).visible,
            hud_view(final(self).entries@) == hud_after_set(hud_view(old(self).entries@), label@, value@),
    {
        let ghost s = hud_view(self.entries@);
        let mut i: usize = 0;
        while i < self.entries.len()
            invariant
                s == hud_view(self.entries@),
                s == hud_view(old(self).entries@),
                self.visible == old(self).visible,
                i <= self.entries@.len(),
                forall|j: int| 0 <= j < i ==> s[j].0 != label@,
            decreases self.entries@.len() - i,
        {
            if text_eq(self.entries[i].label.as_str(), label) {
                proof {
                    lemma_first_label_skip(s, label@, i as int);
                }
                let entry = HudEntry { label: label.to_owned(), value: value.to_owned() };
                self.entries.set(i, entry);
                assert(hud_view(self.entries@) =~= s.update(i as int, (label@, value@)));
                return;
            }
            i = i + 1;
        }
        proof {
            lemma_first_label_skip(s, label@, i as int);
        }
        self.entries.push(HudEntry { label: label.to_owned(), value: value.to_owned() });
        assert(hud_view(self.entries@) =~= s.push((label@, value@)));
    }

    /// Removes every entry.
    pub fn clear(&mut self)
        ensures
            final(self).visible == old(self).visible,
            final(self).entries@.len() == 0,
    {
        self.entries.clear();
    }
}

/// After `set(label, value)` the label shows exactly that value, and entries
/// whose labels were distinct stay distinct.
pub proof fn lemma_hud_set_then_read(s: Seq<(Seq<char>, Seq<char>)>, label: Seq<char>, value: Seq<char>)
    ensures
        ({
            let t = hud_after_set(s, label, value);
            first_label_from(t, label, 0) matches Some(i) && t[i].1 == value
        }),
        labels_distinct(s) ==> labels_distinct(hud_after_set(s, label, value)),
{
    lemma_first_label_found(s, label, 0);
    let t = hud_after_set(s, label, value);
    match first_label_from(s, label, 0) {
        Some(i) => {
            assert forall|j: int| 0 <= j < i implies t[j].0 != label by {}
            lemma_first_label_skip(t, label, i);
        },
        None => {
            assert forall|j: int| 0 <= j < s.len() implies t[j].0 != label by {}
            lemma_first_label_skip(t, label, s.len() as int);
        },
    }
}

/// Which depth of explanation the pedagogy panel shows.
#[derive(Debug, Clone, Copy, PartialEq, Eq, Structural)]
pub enum PedagogyMode {
    Story,
    Explorer,
    Research,
}

impl Default for PedagogyMode {
    /// Story mode.
    fn default() -> (r: PedagogyMode)
        ensures
            r == PedagogyMode::Story,
    {
        PedagogyMode::Story
    }
}

/// One piece of pedagogy content, registered for one mode.
#[derive(Debug, Clone, PartialEq, Eq)]
pub struct PedagogyEntry {
    pub mode: PedagogyMode,
    pub title: String,
    pub body: String,
}

/// The pedagogy panel: whether it shows, its mode and its entries.
#[derive(Debug, Clone, PartialEq, Eq)]
pub struct PedagogyState {
    pub visible: bool,
    pub mode: PedagogyMode,
    pub entries: Vec<PedagogyEntry>,
}

impl Default for PedagogyState {
    /// A hidden panel in Story mode with no entries.
    fn default() -> (r: PedagogyState)
        ensures
            !r.visible,
            r.mode == PedagogyMode::Story,
            r.entries@.len() == 0,
    {
        PedagogyState { visible: false, mode: PedagogyMode::Story, entries: Vec::new() }
    }
}

/// The entries registered for `mode`, in registration order.
pub open spec fn entries_for(s: Seq<PedagogyEntry>, mode: PedagogyMode) -> Seq<PedagogyEntry>
    decreases s.len(),
{
    if s.len() == 0 {
        Seq::empty()
    } else if s.last().mode == mode {
        entries_for(s.drop_last(), mode).push(s.last())
    } else {
        entries_for(s.drop_last(), mode)
    }
}

impl PedagogyState {
    /// Registers content for a mode.
    pub fn add(&mut self, mode: PedagogyMode, title: &str, body: &str)
        ensures
            final(self).visible == old(self).visible,
            final(self).mode == old(self).mode,
            final(self).entries@.len() == old(self).entries@.len() + 1,
            final(self).entries@.drop_last() == old(self).entries@,
            final(self).entries@.last().mode == mode,
            final(self).entries@.last().title@ == title@,
            final(self).entries@.last().body@ == body@,
    {
        self.entries.push(PedagogyEntry { mode, title: title.to_owned(), body: body.to_owned() });
        assert(self.entries@.drop_last() =~= old(self).entries@);
    }

    /// The entries of the current mode, in registration order.
    pub fn active_entries(&self) -> (r: Vec<&PedagogyEntry>)
        ensures
            r@.len() == entries_for(self.entries@, self.mode).len(),
            forall|i: int| 0 <= i < r@.len() ==> *r@[i] == entries_for(self.entries@, self.mode)[i],
    {
        let mut r: Vec<&PedagogyEntry> = Vec::new();
        let mut i: usize = 0;
        while i < self.entries.len()
            invariant
                i <= self.entries@.len(),
                r@.len() == entries_for(self.entries@.take(i as int), self.mode).len(),
                forall|k: int| 0 <= k < r@.len() ==> *r@[k] == entries_for(self.entries@.take(i as int), self.mode)[k],
            decreases self.entries@.len() - i,
        {
            assert(self.entries@.take(i + 1).drop_last() =~= self.entries@.take(i as int));
            let e = &self.entries[i];
            if e.mode == self.mode {
                r.push(e);
            }
            i = i + 1;
        }
        assert(self.entries@.take(i as int) =~= self.entries@);
        r
    }
}

} // verus!
