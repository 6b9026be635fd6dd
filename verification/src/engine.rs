//! The interaction engine: the event-driven state machine that ties
//! the match engine, the viewport, the selection set and the renderer
//! together.
//!
//! The engine is pure: the caller reads events from its terminal,
//! feeds them in one at a time, and draws what the returned effect and
//! the computed layout tell it to. `step_spec` is the machine's
//! transition function, and every step is proved to follow it exactly.

use vstd::prelude::*;
use crate::rank::{
    lemma_spec_rank_elements, rank, spec_rank, views_of,
};
use crate::render::{layout, RenderPlan};
use crate::selection::{
    lemma_spec_toggle_distinct, sel_contains, sel_distinct, spec_toggle, toggle,
};
use crate::viewport::{visible_rows_for, vr_of, Viewport};

verus! {

/// Modifier keys reported with a key press.
#[derive(Clone, Copy, PartialEq, Eq, Structural, Debug)]
pub struct Mods {
    pub shift: bool,
    pub control: bool,
    /// Any modifier besides shift and control.
    pub other: bool,
}

impl Mods {
    /// Whether the modifier set is contained in {shift}: the only
    /// combinations under which a printable character edits the
    /// pattern.
    pub open spec fn at_most_shift(self) -> bool {
        !self.control && !self.other
    }

    /// Exactly control, as the control-key chords require.
    pub open spec fn control_only(self) -> bool {
        self.control && !self.shift && !self.other
    }
}

/// A key, as far as the engine distinguishes them.
#[derive(Clone, Copy, PartialEq, Eq, Structural, Debug)]
pub enum Key {
    Enter,
    Up,
    Down,
    Tab,
    Backspace,
    Char(char),
    /// Any other key; the engine ignores it.
    Other,
}

/// One input event.
#[derive(Clone, Copy, PartialEq, Eq, Structural, Debug)]
pub enum Event {
    /// The terminal was resized to the given width and height.
    Resize(u16, u16),
    /// A key was pressed, with the given modifiers.
    Key(Key, Mods),
    /// Anything else; the engine ignores it.
    Other,
}

/// What the caller must draw after a step.
#[derive(Clone, Copy, PartialEq, Eq, Structural, Debug)]
pub enum Effect {
    /// Nothing on screen changed.
    Stay,
    /// The session is over: assemble the result.
    Quit,
    /// Redraw the whole screen.
    Full,
    /// Only the position indicator moved, between the two given cursor
    /// indices.
    Moved { prev: usize, now: usize },
    /// Only the selection marker on the cursor's row changed.
    Toggled { row: usize, on: bool },
}

/// Uppercasing as the shift modifier applies it: ASCII lowercase maps
/// to uppercase, everything else is unchanged.
pub open spec fn upper_of(c: char) -> char {
    if 97 <= c as int && c as int <= 122 {
        (c as int - 32) as char
    } else {
        c
    }
}

/// Relies on the standard library's `char::to_ascii_uppercase`: ASCII
/// lowercase letters map to their uppercase form, all other characters
/// are returned unchanged.
pub assume_specification[ char::to_ascii_uppercase ](c: &char) -> (r: char)
    ensures
        r == upper_of(*c),
;

/// The engine's whole state, as the specification sees it.
#[verifier::ext_equal]
pub ghost struct State {
    pub pattern: Seq<char>,
    pub matches: Seq<usize>,
    pub vp: Viewport,
    pub selected: Seq<Seq<char>>,
    pub width: u16,
    pub height: u16,
}

impl State {
    /// Well-formedness, tying the mutable structures together: the
    /// match list is exactly the ranking of the current pattern, every
    /// listed index names a candidate, the cursor sits inside the
    /// list, the row budget agrees with the height, and no candidate
    /// is selected twice.
    pub open spec fn wf(self, cands: Seq<Seq<char>>) -> bool {
        &&& cands.len() <= usize::MAX
        &&& self.matches == spec_rank(cands, self.pattern)
        &&& self.matches.len() <= cands.len()
        &&& forall|k: int|
            0 <= k < self.matches.len() ==> (#[trigger] self.matches[k] as int) < cands.len()
        &&& self.vp.in_list(self.matches.len() as int)
        &&& self.vp.visible_rows == vr_of(self.height)
        &&& sel_distinct(self.selected)
    }

    /// The index of the candidate under the cursor.
    pub open spec fn current(self) -> usize {
        self.matches[self.vp.offset + self.vp.index]
    }
}

/// A fresh session: empty pattern, every candidate listed, nothing
/// selected, cursor at the best-ranked match.
pub open spec fn spec_init(cands: Seq<Seq<char>>, width: u16, height: u16) -> State {
    State {
        pattern: Seq::empty(),
        matches: spec_rank(cands, Seq::empty()),
        vp: Viewport { offset: 0, index: 0, visible_rows: vr_of(height) },
        selected: Seq::empty(),
        width,
        height,
    }
}

/// A navigation step: move the cursor, and report whether the whole
/// screen (a scroll), only the indicator rows, or nothing must be
/// redrawn.
pub open spec fn spec_nav(s: State, up: bool) -> (State, Effect) {
    let vp2 = if up {
        s.vp.spec_move_up(s.matches.len() as int)
    } else {
        s.vp.spec_move_down(s.matches.len() as int)
    };
    if vp2 == s.vp {
        (s, Effect::Stay)
    } else if vp2.offset != s.vp.offset {
        (State { vp: vp2, ..s }, Effect::Full)
    } else {
        (State { vp: vp2, ..s }, Effect::Moved { prev: s.vp.index, now: vp2.index })
    }
}

/// A toggle step: flip the candidate under the cursor in the selection
/// set; a no-op when nothing matches.
pub open spec fn spec_toggle_step(s: State, cands: Seq<Seq<char>>) -> (State, Effect) {
    if s.matches.len() == 0 {
        (s, Effect::Stay)
    } else {
        let v = cands[s.current() as int];
        (
            State { selected: spec_toggle(s.selected, v), ..s },
            Effect::Toggled { row: s.vp.index, on: !sel_contains(s.selected, v) },
        )
    }
}

/// A pattern edit: adopt the new pattern, recompute the ranking, and
/// reset the viewport for it.
pub open spec fn spec_edit(s: State, cands: Seq<Seq<char>>, pattern: Seq<char>) -> (State, Effect) {
    let matches = spec_rank(cands, pattern);
    (
        State { pattern, matches, vp: s.vp.spec_reset(matches.len() as int), ..s },
        Effect::Full,
    )
}

/// The transition function of the state machine: the state after the
/// event, and what the caller must redraw.
pub open spec fn step_spec(s: State, cands: Seq<Seq<char>>, ev: Event) -> (State, Effect) {
    match ev {
        Event::Resize(w, h) => (
            State { width: w, height: h, vp: Viewport { visible_rows: vr_of(h), ..s.vp }, ..s },
            Effect::Full,
        ),
        Event::Key(k, m) => {
            if k == Key::Enter || (k == Key::Char('m') && m.control_only()) {
                (s, Effect::Quit)
            } else if k == Key::Up || (k == Key::Char('p') && m.control_only()) {
                spec_nav(s, true)
            } else if k == Key::Down || (k == Key::Char('n') && m.control_only()) {
                spec_nav(s, false)
            } else if k == Key::Tab {
                spec_toggle_step(s, cands)
            } else if k == Key::Backspace {
                spec_edit(
                    s,
                    cands,
                    if s.pattern.len() > 0 {
                        s.pattern.drop_last()
                    } else {
                        s.pattern
                    },
                )
            } else {
                match k {
                    Key::Char(c) => {
                        if m.at_most_shift() {
                            spec_edit(
                                s,
                                cands,
                                s.pattern.push(
                                    if m.shift {
                                        upper_of(c)
                                    } else {
                                        c
                                    },
                                ),
                            )
                        } else {
                            (s, Effect::Stay)
                        }
                    },
                    _ => (s, Effect::Stay),
                }
            }
        },
        Event::Other => (s, Effect::Stay),
    }
}

/// The session result: the explicit selections in toggle order if any,
/// else the candidate under the cursor, else nothing.
pub open spec fn spec_result(s: State, cands: Seq<Seq<char>>) -> Seq<Seq<char>> {
    if s.selected.len() > 0 {
        s.selected
    } else if s.matches.len() > 0 {
        seq![cands[s.current() as int]]
    } else {
        Seq::empty()
    }
}

/// The state after feeding `events` in order, stopping at the first
/// confirming event.
pub open spec fn spec_run(s: State, cands: Seq<Seq<char>>, events: Seq<Event>) -> State
    decreases events.len(),
{
    if events.len() == 0 {
        s
    } else {
        let next = step_spec(s, cands, events[0]);
        if next.1 == Effect::Quit {
            next.0
        } else {
            spec_run(next.0, cands, events.drop_first())
        }
    }
}

/// The interactive selection engine over a fixed candidate list.
pub struct Fz {
    pub pattern: Vec<char>,
    pub matches: Vec<usize>,
    pub vp: Viewport,
    pub selected: Vec<String>,
    pub width: u16,
    pub height: u16,
}

impl View for Fz {
    type V = State;

    open spec fn view(&self) -> State {
        State {
            pattern: self.pattern@,
            matches: self.matches@,
            vp: self.vp,
            selected: views_of(self.selected@),
            width: self.width,
            height: self.height,
        }
    }
}

impl Fz {
    /// Start a session over a terminal of the given size.
    pub fn new(cands: &Vec<String>, width: u16, height: u16) -> (fz: Fz)
        ensures
            fz@ == spec_init(views_of(cands@), width, height),
            fz@.wf(views_of(cands@)),
    {
        let total = cands.len();
        let pattern: Vec<char> = Vec::new();
        let matches = rank(cands, &pattern);
        let vr = visible_rows_for(height);
        let fz = Fz {
            pattern,
            matches,
            vp: Viewport { offset: 0, index: 0, visible_rows: vr },
            selected: Vec::new(),
            width,
            height,
        };
        proof {
            let cv = views_of(cands@);
            assert(fz.pattern@ =~= Seq::<char>::empty());
            assert(views_of(fz.selected@) =~= Seq::<Seq<char>>::empty());
            lemma_spec_rank_elements(cv, Seq::<char>::empty());
            assert(fz@ =~~= spec_init(cv, width, height));
        }
        fz
    }

    /// The engine's row budget above the bottom match row: the height,
    /// less the pattern line and one edge row.
    pub fn max_rows(&self) -> (r: u16)
        requires
            self.height >= 2,
        ensures
            r == self.height - 2,
    {
        self.height - 2
    }

    /// Recompute the ranking for the current pattern and reset the
    /// viewport for it.
    fn rerank(&mut self, cands: &Vec<String>)
        requires
            views_of(cands@).len() <= usize::MAX,
        ensures
            final(self).pattern@ == old(self).pattern@,
            final(self).matches@ == spec_rank(views_of(cands@), old(self).pattern@),
            final(self).vp == old(self).vp.spec_reset(final(self).matches@.len() as int),
            final(self).selected@ == old(self).selected@,
            final(self).width == old(self).width,
            final(self).height == old(self).height,
            final(self).matches@.len() <= cands@.len(),
            forall|k: int|
                0 <= k < final(self).matches@.len() ==> (#[trigger] final(self).matches@[k] as int)
                    < cands@.len(),
            final(self).vp.in_list(final(self).matches@.len() as int),
    {
        let m = rank(cands, &self.pattern);
        self.matches = m;
        proof {
            lemma_spec_rank_elements(views_of(cands@), self.pattern@);
        }
        let n = self.matches.len();
        self.vp.reset_for_new_matches(n);
    }

    /// Process one input event: the transition function, run.
    pub fn step(&mut self, cands: &Vec<String>, ev: Event) -> (eff: Effect)
        requires
            old(self)@.wf(views_of(cands@)),
        ensures
            final(self)@.wf(views_of(cands@)),
            final(self)@ == step_spec(old(self)@, views_of(cands@), ev).0,
            eff == step_spec(old(self)@, views_of(cands@), ev).1,
    {
        let ghost cv = views_of(cands@);
        let ghost pre = self@;
        match ev {
            Event::Resize(w, h) => {
                self.width = w;
                self.height = h;
                self.vp.visible_rows = visible_rows_for(h);
                proof {
                    assert(self@ =~~= step_spec(pre, cv, ev).0);
                }
                Effect::Full
            },
            Event::Key(k, m) => {
                let ctrl_only = m.control && !m.shift && !m.other;
                if k == Key::Enter || (k == Key::Char('m') && ctrl_only) {
                    Effect::Quit
                } else if k == Key::Up || (k == Key::Char('p') && ctrl_only) {
                    let prev = self.vp;
                    let n = self.matches.len();
                    self.vp.move_up(n);
                    proof {
                        assert(self@ =~~= step_spec(pre, cv, ev).0);
                    }
                    if self.vp.offset != prev.offset {
                        Effect::Full
                    } else if self.vp.index != prev.index {
                        Effect::Moved { prev: prev.index, now: self.vp.index }
                    } else {
                        Effect::Stay
                    }
                } else if k == Key::Down || (k == Key::Char('n') && ctrl_only) {
                    let prev = self.vp;
                    let n = self.matches.len();
                    self.vp.move_down(n);
                    proof {
                        assert(self@ =~~= step_spec(pre, cv, ev).0);
                    }
                    if self.vp.offset != prev.offset {
                        Effect::Full
                    } else if self.vp.index != prev.index {
                        Effect::Moved { prev: prev.index, now: self.vp.index }
                    } else {
                        Effect::Stay
                    }
                } else if k == Key::Tab {
                    let n = self.matches.len();
                    if n == 0 {
                        Effect::Stay
                    } else {
                        let pos = self.vp.offset + self.vp.index;
                        let idx = self.matches[pos];
                        let added = toggle(&mut self.selected, &cands[idx]);
                        proof {
                            assert(cv[idx as int] == cands@[idx as int]@);
                            assert(self@ =~~= step_spec(pre, cv, ev).0);
                        }
                        Effect::Toggled { row: self.vp.index, on: added }
                    }
                } else if k == Key::Backspace {
                    if self.pattern.len() > 0 {
                        self.pattern.pop();
                        proof {
                            assert(self.pattern@ =~= pre.pattern.drop_last());
                        }
                    }
                    self.rerank(cands);
                    proof {
                        assert(self@ =~~= step_spec(pre, cv, ev).0);
                    }
                    Effect::Full
                } else {
                    match k {
                        Key::Char(c) => {
                            if !m.control && !m.other {
                                let c2 = if m.shift {
                                    c.to_ascii_uppercase()
                                } else {
                                    c
                                };
                                self.pattern.push(c2);
                                self.rerank(cands);
                                proof {
                                    assert(self@ =~~= step_spec(pre, cv, ev).0);
                                }
                                Effect::Full
                            } else {
                                Effect::Stay
                            }
                        },
                        _ => Effect::Stay,
                    }
                }
            },
            Event::Other => Effect::Stay,
        }
    }

    /// Compute the layout of the whole screen for the current state.
    pub fn layout_screen(&self, cands: &Vec<String>) -> (plan: RenderPlan)
        requires
            self@.wf(views_of(cands@)),
            self.height >= 3,
            self.width >= 2,
            self.vp.fits(),
        ensures
            plan.rows@.len() == crate::render::shown_rows(
                self.matches@.len() as int,
                self.vp.offset as int,
                self.vp.visible_rows as int,
            ),
            plan.pattern_row == self.height - 1,
            plan.cursor_col == self.pattern@.len(),
    {
        layout(cands, &self.matches, &self.vp, &self.selected, &self.pattern, self.width, self.height)
    }

    /// Assemble the final result: the explicitly selected candidates
    /// in toggle order, or the candidate under the cursor, or nothing.
    pub fn result(&self, cands: &Vec<String>) -> (r: Vec<String>)
        requires
            self@.wf(views_of(cands@)),
        ensures
            views_of(r@) == spec_result(self@, views_of(cands@)),
    {
        let ghost cv = views_of(cands@);
        if self.selected.len() > 0 {
            let mut r: Vec<String> = Vec::new();
            let mut j: usize = 0;
            while j < self.selected.len()
                invariant
                    j <= self.selected@.len(),
                    self.selected@.len() <= usize::MAX,
                    r@.len() == j,
                    forall|k: int|
                        0 <= k < j ==> (#[trigger] r@[k])@ == views_of(self.selected@)[k],
                decreases self.selected@.len() - j,
            {
                r.push(self.selected[j].clone());
                j = j + 1;
            }
            proof {
                assert(views_of(r@) =~= views_of(self.selected@));
            }
            r
        } else if self.matches.len() > 0 {
            let idx = self.matches[self.vp.offset + self.vp.index];
            let mut r: Vec<String> = Vec::new();
            r.push(cands[idx].clone());
            proof {
                assert(views_of(r@) =~= spec_result(self@, cv));
            }
            r
        } else {
            let r: Vec<String> = Vec::new();
            proof {
                assert(views_of(r@) =~= spec_result(self@, cv));
            }
            r
        }
    }
}

/// Every step leaves the state well-formed; and any event besides a
/// resize keeps the cursor inside the visible frame.
pub proof fn lemma_step_preserves_wf(s: State, cands: Seq<Seq<char>>, ev: Event)
    requires
        s.wf(cands),
    ensures
        step_spec(s, cands, ev).0.wf(cands),
        s.vp.fits() && !(ev matches Event::Resize(_, _)) ==> step_spec(s, cands, ev).0.vp.fits(),
{
    match ev {
        Event::Resize(_, _) => {
        },
        Event::Key(k, m) => {
            if k == Key::Enter || (k == Key::Char('m') && m.control_only()) {
            } else if k == Key::Up || (k == Key::Char('p') && m.control_only()) {
            } else if k == Key::Down || (k == Key::Char('n') && m.control_only()) {
            } else if k == Key::Tab {
                if s.matches.len() > 0 {
                    lemma_spec_toggle_distinct(s.selected, cands[s.current() as int]);
                }
            } else if k == Key::Backspace {
                let p2 = if s.pattern.len() > 0 {
                    s.pattern.drop_last()
                } else {
                    s.pattern
                };
                lemma_spec_rank_elements(cands, p2);
            } else {
                match k {
                    Key::Char(c) => {
                        if m.at_most_shift() {
                            let p2 = s.pattern.push(
                                if m.shift {
                                    upper_of(c)
                                } else {
                                    c
                                },
                            );
                            lemma_spec_rank_elements(cands, p2);
                        }
                    },
                    _ => {
                    },
                }
            }
        },
        Event::Other => {
        },
    }
}

/// Viewport invariant: through any sequence of events that never
/// resizes the terminal, the cursor position `offset + index` stays
/// inside the match list whenever it is non-empty, and the cursor
/// index stays inside the visible frame.
pub proof fn lemma_run_viewport_invariant(s: State, cands: Seq<Seq<char>>, events: Seq<Event>)
    requires
        s.wf(cands),
        s.vp.fits(),
        forall|i: int| 0 <= i < events.len() ==> !((#[trigger] events[i]) matches Event::Resize(_, _)),
    ensures
        spec_run(s, cands, events).wf(cands),
        spec_run(s, cands, events).vp.fits(),
        spec_run(s, cands, events).matches.len() > 0 ==> spec_run(s, cands, events).vp.offset
            + spec_run(s, cands, events).vp.index < spec_run(s, cands, events).matches.len(),
        spec_run(s, cands, events).vp.index <= spec_run(s, cands, events).vp.visible_rows,
    decreases events.len(),
{
    if events.len() > 0 {
        lemma_step_preserves_wf(s, cands, events[0]);
        let next = step_spec(s, cands, events[0]);
        if next.1 == Effect::Quit {
        } else {
            assert(forall|i: int|
                0 <= i < events.drop_first().len() ==> !((#[trigger] events.drop_first()[i]) matches Event::Resize(
                    _,
                    _,
                )));
            lemma_run_viewport_invariant(next.0, cands, events.drop_first());
        }
    }
}

/// A resize touches only the dimensions and the row budget derived
/// from the height: pattern, match list, cursor and selection are
/// exactly as they were, and the whole screen is redrawn.
pub proof fn lemma_resize_touches_only_dimensions(
    s: State,
    cands: Seq<Seq<char>>,
    w: u16,
    h: u16,
)
    ensures
        step_spec(s, cands, Event::Resize(w, h)).0.pattern == s.pattern,
        step_spec(s, cands, Event::Resize(w, h)).0.matches == s.matches,
        step_spec(s, cands, Event::Resize(w, h)).0.vp.offset == s.vp.offset,
        step_spec(s, cands, Event::Resize(w, h)).0.vp.index == s.vp.index,
        step_spec(s, cands, Event::Resize(w, h)).0.selected == s.selected,
        step_spec(s, cands, Event::Resize(w, h)).0.width == w,
        step_spec(s, cands, Event::Resize(w, h)).0.height == h,
        step_spec(s, cands, Event::Resize(w, h)).0.vp.visible_rows == vr_of(h),
        step_spec(s, cands, Event::Resize(w, h)).1 == Effect::Full,
{
}

/// Run a whole session over a fixed candidate list: feed the events in
/// order until one confirms, then assemble the result. Events after
/// the confirming one are ignored; if none confirms, the result is
/// assembled from the state the events leave behind.
pub fn select(cands: &Vec<String>, width: u16, height: u16, events: &Vec<Event>) -> (r: Vec<
    String,
>)
    ensures
        views_of(r@) == spec_result(
            spec_run(spec_init(views_of(cands@), width, height), views_of(cands@), events@),
            views_of(cands@),
        ),
{
    let ghost cv = views_of(cands@);
    let mut fz = Fz::new(cands, width, height);
    let ghost goal = spec_run(spec_init(cv, width, height), cv, events@);
    proof {
        assert(events@.skip(0) =~= events@);
    }
    let n_events = events.len();
    let mut i: usize = 0;
    while i < n_events
        invariant
            i <= events@.len(),
            n_events == events@.len(),
            cv == views_of(cands@),
            fz@.wf(cv),
            goal == spec_run(spec_init(cv, width, height), cv, events@),
            spec_run(fz@, cv, events@.skip(i as int)) == goal,
        decreases events@.len() - i,
    {
        let ev = events[i];
        let ghost pre = fz@;
        let eff = fz.step(cands, ev);
        proof {
            assert(events@.skip(i as int)[0] == events@[i as int]);
            assert(events@.skip(i as int).drop_first() =~= events@.skip(i as int + 1));
        }
        if (match eff {
            Effect::Quit => true,
            _ => false,
        }) {
            proof {
                assert(spec_run(pre, cv, events@.skip(i as int)) == fz@);
            }
            return fz.result(cands);
        }
        i = i + 1;
    }
    proof {
        assert(events@.skip(i as int) =~= Seq::<Event>::empty());
        assert(spec_run(fz@, cv, events@.skip(i as int)) == fz@);
    }
    fz.result(cands)
}

} // verus!
