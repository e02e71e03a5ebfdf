//! The engine: one keymap snapshot, kept current, and the operations that
//! plan input against it.
//!
//! The engine never talks to the session. For each operation the owner of the
//! connection drains the session's event queue and hands the events over
//! with the request. The operation looks at the events first. If a layout
//! change is among them the snapshot is out of date and nothing is planned:
//! the owner reads the keymap once, installs it with
//! [`InputSynth::replace_mapping`], and asks again.
use crate::keymap::{KeymapState, KeymapView};
use crate::protocol::{
    button, button_request, keystroke, keystroke_actions, motion, motion_request, Action,
};
use crate::resolver::{lemma_plan_key_yields_symbol, symbol_present};
use vstd::prelude::*;

verus! {

/// What the engine needs to know of an event that the session delivered.
#[derive(Clone, Copy, Debug, PartialEq, Eq, Structural)]
pub enum Event {
    /// The keyboard mapping changed.
    MappingNotify,
    /// Anything else.
    Other,
}

/// Some event of `events` reports a changed keyboard mapping.
pub open spec fn has_mapping_notify(events: Seq<Event>) -> bool {
    exists|i: int| 0 <= i < events.len() && #[trigger] events[i] == Event::MappingNotify
}

/// The symbol looked up for the byte `ch`: the byte itself, but for the
/// bytes 8 to 17, which stand for function keys (backspace, tab, return, ...)
/// and have their symbols at `0xff00 + ch`.
pub open spec fn keysym_of(ch: u8) -> u16 {
    if 8 <= ch <= 17 {
        (ch + 0xff00) as u16
    } else {
        ch as u16
    }
}

/// The symbol looked up for the byte `ch`.
pub fn keysym(ch: u8) -> (sym: u16)
    ensures
        sym == keysym_of(ch),
{
    let sym: u16 = ch as u16;
    if 8 <= ch && ch <= 17 {
        sym + 0xff00
    } else {
        sym
    }
}

/// What typing a symbol comes to: the keystroke of its plan, or nothing at
/// all where it has no plan.
pub open spec fn typed(root: u32, plan: Option<(Seq<u32>, u32)>) -> Seq<Action> {
    match plan {
        Some((mods, keycode)) => keystroke(root, mods, keycode),
        None => Seq::empty(),
    }
}

/// The engine as contracts see it.
pub struct EngineView {
    /// The root window of the screen that input is sent to.
    pub root: u32,
    /// The keymap snapshot held.
    pub snapshot: KeymapView,
    /// A layout change was seen and the snapshot has not been replaced
    /// since.
    pub stale: bool,
}

impl EngineView {
    /// The engine after the events `events` were drained from the queue.
    pub open spec fn drained(self, events: Seq<Event>) -> EngineView {
        EngineView {
            root: self.root,
            snapshot: self.snapshot,
            stale: self.stale || has_mapping_notify(events),
        }
    }

    /// The engine after `snapshot` was installed.
    pub open spec fn rebuilt(self, snapshot: KeymapView) -> EngineView {
        EngineView { root: self.root, snapshot, stale: false }
    }

    /// What an operation that would send `actions` plans: nothing as long
    /// as a rebuild of the snapshot is owed.
    pub open spec fn plan(self, actions: Seq<Action>) -> Option<Seq<Action>> {
        if self.stale {
            None
        } else {
            Some(actions)
        }
    }

    /// The plan of a button press or release: one request, confirmed.
    pub open spec fn click(self, x: i16, y: i16, number: u8, press: bool) -> Option<Seq<Action>> {
        self.plan(seq![Action::SendChecked(button(self.root, x, y, number, press))])
    }

    /// The plan of a pointer move: one request, confirmed.
    pub open spec fn move_cursor(self, x: i16, y: i16) -> Option<Seq<Action>> {
        self.plan(seq![Action::SendChecked(motion(self.root, x, y))])
    }

    /// The plan of typing the byte `ch`: the keystroke that the snapshot
    /// resolves the byte's symbol to, or no request at all.
    pub open spec fn ascii_char(self, ch: u8) -> Option<Seq<Action>> {
        self.plan(typed(self.root, self.snapshot.resolution(keysym_of(ch) as u32)))
    }
}

/// The steps planned, as a sequence.
pub open spec fn planned(r: Option<Vec<Action>>) -> Option<Seq<Action>> {
    match r {
        Some(actions) => Some(actions@),
        None => None,
    }
}

/// Draining events in two batches reports a layout change exactly if
/// draining them in one does.
pub proof fn lemma_drain_in_batches(first: Seq<Event>, second: Seq<Event>)
    ensures
        has_mapping_notify(first + second) == (has_mapping_notify(first) || has_mapping_notify(
            second,
        )),
{
    let both = first + second;
    if has_mapping_notify(first) {
        let i = choose|i: int| 0 <= i < first.len() && #[trigger] first[i] == Event::MappingNotify;
        assert(both[i] == Event::MappingNotify);
    }
    if has_mapping_notify(second) {
        let i = choose|i: int|
            0 <= i < second.len() && #[trigger] second[i] == Event::MappingNotify;
        assert(both[first.len() + i] == Event::MappingNotify);
    }
    if has_mapping_notify(both) {
        let i = choose|i: int| 0 <= i < both.len() && #[trigger] both[i] == Event::MappingNotify;
        if i < first.len() {
            assert(first[i] == Event::MappingNotify);
        } else {
            assert(second[i - first.len()] == Event::MappingNotify);
        }
    }
}

/// Draining the queue in two goes comes to the same as draining it in one.
pub proof fn lemma_drained_twice(engine: EngineView, first: Seq<Event>, second: Seq<Event>)
    ensures
        engine.drained(first).drained(second) == engine.drained(first + second),
{
    lemma_drain_in_batches(first, second);
}

/// One drain is answered by one rebuild, however many notifications of a
/// layout change it delivers. A current engine that drains `events` owes a
/// rebuild exactly if some event is such a notification, and is unchanged
/// otherwise. While it owes a rebuild no operation plans anything. Once one
/// snapshot `fresh` is installed it is current again and plans against
/// `fresh`.
pub proof fn lemma_one_rebuild_per_drain(engine: EngineView, events: Seq<Event>, fresh: KeymapView)
    requires
        !engine.stale,
    ensures
        engine.drained(events).stale == has_mapping_notify(events),
        !has_mapping_notify(events) ==> engine.drained(events) == engine,
        has_mapping_notify(events) ==> forall|x: i16, y: i16, number: u8, press: bool, ch: u8|
            #![auto]
            engine.drained(events).click(x, y, number, press) is None && engine.drained(
                events,
            ).move_cursor(x, y) is None && engine.drained(events).ascii_char(ch) is None,
        engine.drained(events).rebuilt(fresh) == (EngineView {
            root: engine.root,
            snapshot: fresh,
            stale: false,
        }),
        forall|ch: u8| #[trigger]
            engine.drained(events).rebuilt(fresh).ascii_char(ch) == Some(
                typed(engine.root, fresh.resolution(keysym_of(ch) as u32)),
            ),
{
}

/// Typing a byte comes to one of two things. Either the byte's symbol has no
/// plan and nothing is sent, or a key of the table has a level that yields
/// the symbol and what is sent is one keystroke with that key as data key.
pub proof fn lemma_typed_character(root: u32, state: KeymapView, ch: u8)
    ensures
        ({
            let sym = keysym_of(ch) as u32;
            let actions = typed(root, state.resolution(sym));
            ||| state.resolution(sym) is None && actions.len() == 0
            ||| exists|k: int, l: int, mods: Seq<u32>|
                0 <= k < state.keys.len() && 0 <= l < state.keys[k].levels.len() && (
                #[trigger] state.keys[k].levels[l]).yields(sym) && #[trigger] keystroke(
                    root,
                    mods,
                    state.keys[k].keycode,
                ) == actions
        }),
{
    let sym = keysym_of(ch) as u32;
    let keys = state.keys;
    match state.resolution(sym) {
        Some((mods, keycode)) => {
            lemma_plan_key_yields_symbol(state, sym, mods, keycode);
            let (k, l) = choose|k: int, l: int|
                0 <= k < keys.len() && 0 <= l < keys[k].levels.len() && keys[k].keycode == keycode
                    && (#[trigger] keys[k].levels[l]).yields(sym);
            assert(keystroke(root, mods, keys[k].keycode) == typed(root, state.resolution(sym)));
        },
        None => {},
    }
}

/// The input synthesizer for one screen of a session.
#[derive(Debug)]
pub struct InputSynth {
    root: u32,
    mapping: KeymapState,
    stale: bool,
}

impl View for InputSynth {
    type V = EngineView;

    closed spec fn view(&self) -> EngineView {
        EngineView { root: self.root, snapshot: self.mapping@, stale: self.stale }
    }
}

impl InputSynth {
    /// An engine for the screen with root window `root`, holding the
    /// snapshot `mapping` just read from the session.
    pub fn new(root: u32, mapping: KeymapState) -> (engine: Self)
        ensures
            engine@ == (EngineView { root, snapshot: mapping@, stale: false }),
            engine@.snapshot.wf(),
    {
        proof {
            use_type_invariant(&mapping);
        }
        InputSynth { root, mapping, stale: false }
    }

    /// Takes note of the events drained from the session's queue. Returns
    /// whether the snapshot has to be rebuilt before anything is planned:
    /// that is so once a layout change was seen, whether one or many, and
    /// stays so until [`InputSynth::replace_mapping`] is called.
    pub fn handle_events(&mut self, events: &Vec<Event>) -> (rebuild: bool)
        ensures
            final(self)@ == old(self)@.drained(events@),
            rebuild == final(self)@.stale,
    {
        let n = events.len();
        let mut i: usize = 0;
        assert(!has_mapping_notify(events@.take(0)));
        while i < n
            invariant
                n == events@.len(),
                i <= n,
                self@ == old(self)@.drained(events@.take(i as int)),
            decreases n - i,
        {
            proof {
                assert(events@.take(i + 1) =~= events@.take(i as int) + seq![events@[i as int]]);
                lemma_drain_in_batches(events@.take(i as int), seq![events@[i as int]]);
                if events@[i as int] == Event::MappingNotify {
                    assert(seq![events@[i as int]][0] == Event::MappingNotify);
                }
            }
            match events[i] {
                Event::MappingNotify => {
                    self.stale = true;
                },
                Event::Other => {},
            }
            i = i + 1;
        }
        assert(events@.take(n as int) =~= events@);
        self.stale
    }

    /// Installs a snapshot just read from the session in place of the one
    /// held. The engine is current again.
    pub fn replace_mapping(&mut self, mapping: KeymapState)
        ensures
            final(self)@ == old(self)@.rebuilt(mapping@),
            final(self)@.snapshot.wf(),
    {
        proof {
            use_type_invariant(&mapping);
        }
        self.mapping = mapping;
        self.stale = false;
    }

    /// Whether a rebuild of the snapshot is owed.
    pub fn needs_rebuild(&self) -> (stale: bool)
        ensures
            stale == self@.stale,
    {
        self.stale
    }

    /// The root window of the screen that input is sent to.
    pub fn root_window(&self) -> (root: u32)
        ensures
            root == self@.root,
    {
        self.root
    }

    /// The keymap snapshot held. It is well formed at all times.
    pub fn keymap(&self) -> (mapping: &KeymapState)
        ensures
            mapping@ == self@.snapshot,
            mapping@.wf(),
    {
        proof {
            use_type_invariant(&self.mapping);
        }
        &self.mapping
    }

    /// Plans a button press (`press`) or release at `(x, y)`: one request,
    /// confirmed by the server. The events drained from the session's queue
    /// are looked at first; `None` while a rebuild of the snapshot is owed.
    pub fn click(&mut self, events: &Vec<Event>, x: i16, y: i16, number: u8, press: bool) -> (r:
        Option<Vec<Action>>)
        ensures
            final(self)@ == old(self)@.drained(events@),
            planned(r) == final(self)@.click(x, y, number, press),
    {
        if self.handle_events(events) {
            return None;
        }
        let mut actions: Vec<Action> = Vec::new();
        actions.push(Action::SendChecked(button_request(self.root, x, y, number, press)));
        assert(actions@ =~= seq![Action::SendChecked(button(self@.root, x, y, number, press))]);
        Some(actions)
    }

    /// Plans a pointer move to `(x, y)`: one request, confirmed by the
    /// server. The events drained from the session's queue are looked at
    /// first; `None` while a rebuild of the snapshot is owed.
    pub fn move_cursor(&mut self, events: &Vec<Event>, x: i16, y: i16) -> (r: Option<Vec<Action>>)
        ensures
            final(self)@ == old(self)@.drained(events@),
            planned(r) == final(self)@.move_cursor(x, y),
    {
        if self.handle_events(events) {
            return None;
        }
        let mut actions: Vec<Action> = Vec::new();
        actions.push(Action::SendChecked(motion_request(self.root, x, y)));
        assert(actions@ =~= seq![Action::SendChecked(motion(self@.root, x, y))]);
        Some(actions)
    }

    /// Resolves `sym` against the snapshot held: the modifier keys to hold,
    /// in press order, and the data key.
    pub fn find_key_sequence(&self, sym: u16) -> (r: Option<(Vec<u32>, u32)>)
        ensures
            match r {
                Some((mods, keycode)) => self@.snapshot.resolution(sym as u32) == Some(
                    (mods@, keycode),
                ),
                None => self@.snapshot.resolution(sym as u32) is None,
            },
            !symbol_present(self@.snapshot.keys, sym as u32) ==> r is None,
    {
        self.mapping.resolve(sym)
    }

    /// Plans the keystroke that types the byte `ch`. A byte that the layout
    /// cannot produce is not an error: nothing is to be sent for it. The
    /// events drained from the session's queue are looked at first; `None`
    /// while a rebuild of the snapshot is owed.
    pub fn ascii_char(&mut self, events: &Vec<Event>, ch: u8) -> (r: Option<Vec<Action>>)
        ensures
            final(self)@ == old(self)@.drained(events@),
            planned(r) == final(self)@.ascii_char(ch),
            !final(self)@.stale && !symbol_present(
                final(self)@.snapshot.keys,
                keysym_of(ch) as u32,
            ) ==> (r matches Some(actions) && actions@.len() == 0),
    {
        if self.handle_events(events) {
            return None;
        }
        match self.find_key_sequence(keysym(ch)) {
            Some((mods, keycode)) => Some(keystroke_actions(self.root, &mods, keycode)),
            None => Some(Vec::new()),
        }
    }
}

} // verus!
