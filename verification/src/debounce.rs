//! Debouncing: running configured commands once the buffer has been idle for a while.

use vstd::prelude::*;

verus! {

#[verifier::external_type_specification]
#[verifier::external_body]
pub struct ExInstant(std::time::Instant);

/// `Instant::now`: the current time. Nothing is stated of the value.
#[verifier::external_body]
fn now() -> std::time::Instant {
    std::time::Instant::now()
}

/// `Instant::elapsed`: the time passed since `start`. Nothing is stated of the value.
#[verifier::external_body]
fn elapsed(start: &std::time::Instant) -> core::time::Duration {
    start.elapsed()
}

/// `Duration::as_millis`: the whole milliseconds of a duration. Nothing is stated of
/// the value.
#[verifier::external_body]
fn millis(d: &core::time::Duration) -> u128 {
    d.as_millis()
}

/// Commands to run once the buffer has been idle for `min_ms` milliseconds.
pub struct DebounceEvent {
    pub events: Vec<String>,
    pub min_ms: u64,
    /// Only while one of these modes is on the mode stack (any mode when empty)
    pub modes: Vec<char>,
    /// Never while one of these modes is on the mode stack
    pub ignore_modes: Vec<char>,
    /// Never while one of these templates is defined
    pub ignore_with_template: Vec<String>,
}

/// The debounce state of a buffer.
pub struct Debounce {
    flag: bool,
    /// When the idle period started, and in which mode
    state: Option<(std::time::Instant, char)>,
    triggered_events: Vec<usize>,
}

/// What `reset(mode)` makes of `a`: an idle period in `mode`, nothing triggered, the
/// flag kept.
pub open spec fn reset_effect(a: Debounce, b: Debounce, mode: char) -> bool {
    &&& b.idle_mode() == Some(mode)
    &&& b.triggered()@.len() == 0
    &&& b.flag_set() == a.flag_set()
}

/// What `clear()` makes of `a`: no idle period, nothing triggered, the flag kept.
pub open spec fn clear_effect(a: Debounce, b: Debounce) -> bool {
    &&& b.idle_mode() is None
    &&& b.triggered()@.len() == 0
    &&& b.flag_set() == a.flag_set()
}

/// `b` is what `reset` (in some mode) or `clear` made of `a`.
pub open spec fn reset_or_clear(a: Debounce, b: Debounce) -> bool {
    clear_effect(a, b) || exists|m: char| #[trigger] reset_effect(a, b, m)
}

/// The flag set last survives any run of resets and clears: `ds[0]` is the state right
/// after `set_flag(b)`, and each next state is what `reset` or `clear` made of the one
/// before it.
pub proof fn lemma_flag_survives_resets(ds: Seq<Debounce>, b: bool)
    requires
        ds.len() > 0,
        ds[0].flag_set() == b,
        forall|i: int| 0 <= i < ds.len() - 1 ==> reset_or_clear(#[trigger] ds[i], ds[i + 1]),
    ensures
        forall|i: int| 0 <= i < ds.len() ==> (#[trigger] ds[i]).flag_set() == b,
    decreases ds.len(),
{
    if ds.len() > 1 {
        let d = ds.drop_last();
        assert forall|i: int| 0 <= i < d.len() - 1 implies reset_or_clear(#[trigger] d[i], d[i + 1]) by {
            assert(d[i] == ds[i] && d[i + 1] == ds[i + 1]);
            assert(reset_or_clear(ds[i], ds[i + 1]));
        }
        lemma_flag_survives_resets(d, b);
        let k = ds.len() - 2;
        assert(d[k] == ds[k]);
        assert(reset_or_clear(ds[k], ds[k + 1]));
        if !clear_effect(ds[k], ds[k + 1]) {
            let m = choose|m: char| #[trigger] reset_effect(ds[k], ds[k + 1], m);
            assert(reset_effect(ds[k], ds[k + 1], m));
        }
        assert forall|i: int| 0 <= i < ds.len() implies (#[trigger] ds[i]).flag_set() == b by {
            if i < ds.len() - 1 {
                assert(d[i] == ds[i]);
            }
        }
    }
}

/// What a debounce update leads to.
#[derive(Debug, Clone, Copy, PartialEq, Eq, Structural)]
pub enum DebounceStep {
    /// Nothing more to do this frame
    Wait,
    /// The idle period runs: check which events are due
    CheckEvents,
}

impl Debounce {
    /// No idle period, no flag, no event triggered.
    pub fn default() -> (d: Debounce)
        ensures
            !d.flag_set(),
            d.idle_mode() is None,
            d.triggered()@.len() == 0,
    {
        Debounce { flag: false, state: None, triggered_events: Vec::new() }
    }

    /// Whether changes were made since the last idle period.
    pub closed spec fn flag_set(&self) -> bool {
        self.flag
    }

    /// The mode in which the current idle period started, if one runs.
    pub closed spec fn idle_mode(&self) -> Option<char> {
        match self.state {
            Some(s) => Some(s.1),
            None => None,
        }
    }

    /// The events triggered during the current idle period.
    pub closed spec fn triggered(&self) -> Vec<usize> {
        self.triggered_events
    }

    /// How long the current idle period has lasted, if one runs.
    pub fn debounce_time(&self) -> (r: Option<core::time::Duration>)
        ensures
            r is Some <==> self.idle_mode() is Some,
    {
        match &self.state {
            Some(s) => Some(elapsed(&s.0)),
            None => None,
        }
    }

    /// The idle period's length in whole milliseconds, if one runs.
    pub fn elapsed_ms(&self) -> (r: Option<u128>)
        ensures
            r is Some <==> self.idle_mode() is Some,
    {
        match &self.state {
            Some(s) => {
                let d = elapsed(&s.0);
                Some(millis(&d))
            },
            None => None,
        }
    }

    pub fn set_flag(&mut self, flag: bool)
        ensures
            final(self).flag_set() == flag,
            final(self).idle_mode() == old(self).idle_mode(),
            final(self).triggered() == old(self).triggered(),
    {
        self.flag = flag;
    }

    /// Whether changes were made since the last idle period.
    pub fn flag(&self) -> (r: bool)
        ensures
            r == self.flag_set(),
    {
        self.flag
    }

    /// Starts an idle period in `mode`, with no event triggered yet.
    pub fn reset(&mut self, mode: char)
        ensures
            reset_effect(*old(self), *final(self), mode),
    {
        self.state = Some((now(), mode));
        self.triggered_events = Vec::new();
    }

    /// Ends the idle period.
    pub fn clear(&mut self)
        ensures
            clear_effect(*old(self), *final(self)),
    {
        self.state = None;
        self.triggered_events = Vec::new();
    }

    /// One debounce update, given whether the buffer changed this frame and the
    /// current mode: a change ends any idle period and raises the flag; a mode change
    /// ends it and lowers the flag; after changes, idleness starts a period; a running
    /// period goes on to check its events.
    pub fn step(&mut self, has_changes: bool, current_mode: char) -> (r: DebounceStep)
        ensures
            if has_changes {
                &&& final(self).idle_mode() is None
                &&& final(self).flag_set()
                &&& r == DebounceStep::Wait
            } else if old(self).idle_mode() matches Some(m) && m != current_mode {
                &&& final(self).idle_mode() is None
                &&& !final(self).flag_set()
                &&& r == DebounceStep::Wait
            } else if old(self).idle_mode() is None {
                &&& r == DebounceStep::Wait
                &&& final(self).flag_set() == old(self).flag_set()
                &&& if old(self).flag_set() {
                    final(self).idle_mode() == Some(current_mode) && final(self).triggered()@.len() == 0
                } else {
                    final(self).idle_mode() is None
                }
            } else {
                &&& r == DebounceStep::CheckEvents
                &&& final(self).idle_mode() == old(self).idle_mode()
                &&& final(self).flag_set() == old(self).flag_set()
                &&& final(self).triggered() == old(self).triggered()
            },
    {
        if has_changes {
            self.clear();
            self.set_flag(true);
            return DebounceStep::Wait;
        }
        let running_mode = match &self.state {
            Some(s) => Some(s.1),
            None => None,
        };
        match running_mode {
            Some(m) => {
                if m != current_mode {
                    self.clear();
                    self.set_flag(false);
                    DebounceStep::Wait
                } else {
                    DebounceStep::CheckEvents
                }
            },
            None => {
                if self.flag {
                    self.reset(current_mode);
                }
                DebounceStep::Wait
            },
        }
    }
}

/// Whether `c` occurs in `s`.
fn has_char(s: &Vec<char>, c: char) -> (r: bool)
    ensures
        r == s@.contains(c),
{
    let mut i: usize = 0;
    while i < s.len()
        invariant
            i <= s@.len(),
            forall|j: int| 0 <= j < i ==> s@[j] != c,
        decreases s@.len() - i,
    {
        if s[i] == c {
            assert(s@[i as int] == c);
            return true;
        }
        i += 1;
    }
    false
}

fn contains_index(v: &Vec<usize>, x: usize) -> (r: bool)
    ensures
        r == v@.contains(x),
{
    let mut i: usize = 0;
    while i < v.len()
        invariant
            i <= v@.len(),
            forall|j: int| 0 <= j < i ==> v@[j] != x,
        decreases v@.len() - i,
    {
        if v[i] == x {
            assert(v@[i as int] == x);
            return true;
        }
        i += 1;
    }
    false
}

/// Whether some mode of `modes` is on the stack.
pub open spec fn any_on_stack(modes: Seq<char>, stack: Seq<char>) -> bool {
    exists|i: int| 0 <= i < modes.len() && stack.contains(#[trigger] modes[i])
}

fn any_on_stack_exec(modes: &Vec<char>, stack: &Vec<char>) -> (r: bool)
    ensures
        r == any_on_stack(modes@, stack@),
{
    let mut i: usize = 0;
    while i < modes.len()
        invariant
            i <= modes@.len(),
            forall|j: int| 0 <= j < i ==> !stack@.contains(#[trigger] modes@[j]),
        decreases modes@.len() - i,
    {
        if has_char(stack, modes[i]) {
            return true;
        }
        i += 1;
    }
    false
}

/// Whether event `e` is due after `elapsed` ms of idleness, given the mode stack and
/// whether one of its ignoring templates is defined.
pub open spec fn event_due(e: DebounceEvent, elapsed: int, template_defined: bool, stack: Seq<char>) -> bool {
    &&& elapsed >= e.min_ms
    &&& !template_defined
    &&& (e.modes@.len() == 0 || any_on_stack(e.modes@, stack))
    &&& !any_on_stack(e.ignore_modes@, stack)
}

/// The events of `events[k..]` to trigger now, in order, given those already triggered.
pub open spec fn due_from(
    events: Seq<DebounceEvent>,
    k: int,
    triggered: Seq<usize>,
    elapsed: int,
    templates: Seq<bool>,
    stack: Seq<char>,
) -> Seq<usize>
    decreases events.len() - k,
{
    if k < 0 || k >= events.len() {
        Seq::empty()
    } else if !triggered.contains(k as usize) && event_due(events[k], elapsed, templates[k], stack) {
        seq![k as usize] + due_from(events, k + 1, triggered.push(k as usize), elapsed, templates, stack)
    } else {
        due_from(events, k + 1, triggered, elapsed, templates, stack)
    }
}

impl Debounce {
    /// Marks as triggered, and returns in order, the events due now: not triggered yet
    /// in this idle period, idle long enough, not ignored because of a defined template
    /// (`template_defined[i]` for event `i`), in one of their modes, and in none of the
    /// modes they ignore.
    pub fn take_due_events(
        &mut self,
        events: &[DebounceEvent],
        elapsed_ms: u128,
        template_defined: &[bool],
        mode_stack: &Vec<char>,
    ) -> (r: Vec<usize>)
        requires
            template_defined@.len() == events@.len(),
        ensures
            r@ == due_from(
                events@,
                0,
                old(self).triggered()@,
                elapsed_ms as int,
                template_defined@,
                mode_stack@,
            ),
            final(self).triggered()@ == old(self).triggered()@ + r@,
            final(self).idle_mode() == old(self).idle_mode(),
            final(self).flag_set() == old(self).flag_set(),
    {
        let ghost start = self.triggered_events@;
        let mut out: Vec<usize> = Vec::new();
        let mut i: usize = 0;
        while i < events.len()
            invariant
                i <= events@.len(),
                template_defined@.len() == events@.len(),
                self.triggered_events@ == start + out@,
                due_from(events@, 0, start, elapsed_ms as int, template_defined@, mode_stack@)
                    == out@ + due_from(
                    events@,
                    i as int,
                    self.triggered_events@,
                    elapsed_ms as int,
                    template_defined@,
                    mode_stack@,
                ),
                self.idle_mode() == old(self).idle_mode(),
                self.flag_set() == old(self).flag_set(),
            decreases events@.len() - i,
        {
            let seen = contains_index(&self.triggered_events, i);
            let e = &events[i];
            let due = !seen && (elapsed_ms >= e.min_ms as u128) && !template_defined[i] && (
            e.modes.len() == 0 || any_on_stack_exec(&e.modes, mode_stack)) && !any_on_stack_exec(
                &e.ignore_modes,
                mode_stack,
            );
            if due {
                self.triggered_events.push(i);
                out.push(i);
                proof {
                    assert(out@ + due_from(events@, i + 1, self.triggered_events@, elapsed_ms as int, template_defined@, mode_stack@)
                        =~= out@.drop_last() + (seq![i] + due_from(events@, i + 1, self.triggered_events@, elapsed_ms as int, template_defined@, mode_stack@)));
                }
            }
            i += 1;
        }
        out
    }
}

} // verus!
