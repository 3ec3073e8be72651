use vstd::prelude::*;
use vstd::string::StringExecFns;
use crate::duration::{arg_view, duration_for, duration_from_arg};
use crate::geometry::{bar_geometry, bar_of, lemma_bar_width_monotone, Rect};
use crate::progress::{progress, progress_of};

verus! {

/// How often the widget is redrawn, in milliseconds.
pub const TICK_INTERVAL_MS: u64 = 10;

/// The side of the square window the widget opens in.
pub const WINDOW_SIZE: u32 = 250;

/// The events the widget reacts to.
#[derive(Clone, Copy, Debug, PartialEq, Eq, Structural)]
pub enum Message {
    /// The periodic redraw timer fired.
    Tick,
}

/// A drawn bar, kept with the size of the bounds it was drawn for.
#[derive(Clone, Copy, Debug, PartialEq, Eq, Structural)]
pub struct CachedBar {
    pub width: u32,
    pub height: u32,
    pub bar: Rect,
}

/// What a [`FocusTimer`] holds: its duration and the bar drawn since the
/// last tick, if any.
pub struct TimerModel {
    pub duration_ms: u64,
    pub cache: Option<CachedBar>,
}

/// The state of the focus timer widget.
pub struct FocusTimer {
    duration_ms: u64,
    cache: Option<CachedBar>,
}

impl View for FocusTimer {
    type V = TimerModel;

    closed spec fn view(&self) -> TimerModel {
        TimerModel { duration_ms: self.duration_ms, cache: self.cache }
    }
}

/// The state after a tick: the drawn bar is forgotten.
pub open spec fn tick_model(m: TimerModel) -> TimerModel {
    TimerModel { duration_ms: m.duration_ms, cache: None }
}

/// Whether `m` holds a bar drawn for bounds of the size of `bounds`.
pub open spec fn cache_fits(m: TimerModel, bounds: Rect) -> bool {
    match m.cache {
        Some(c) => c.width == bounds.width && c.height == bounds.height,
        None => false,
    }
}

/// Rendering inside `bounds` when `elapsed_ms` have passed since the start:
/// the kept bar where one was drawn for bounds of this size, else the bar
/// for the current progress, which is then kept.
pub open spec fn render_model(m: TimerModel, bounds: Rect, elapsed_ms: u64) -> (TimerModel, Rect) {
    if cache_fits(m, bounds) {
        (m, m.cache->0.bar)
    } else {
        let bar = bar_of(bounds, progress_of(elapsed_ms as nat, m.duration_ms as nat));
        (
            TimerModel {
                duration_ms: m.duration_ms,
                cache: Some(CachedBar { width: bounds.width, height: bounds.height, bar }),
            },
            bar,
        )
    }
}

impl FocusTimer {
    /// A timer's duration is positive.
    pub open spec fn wf(&self) -> bool {
        self@.duration_ms > 0
    }

    /// A timer of `duration_ms` milliseconds with nothing drawn yet.
    pub fn new(duration_ms: u64) -> (r: FocusTimer)
        requires
            duration_ms > 0,
        ensures
            r.wf(),
            r@.duration_ms == duration_ms,
            r@.cache is None,
    {
        FocusTimer { duration_ms, cache: None }
    }

    /// A timer whose duration comes from its optional argument, a count of
    /// seconds (one minute where it is absent or unusable).
    pub fn from_arg(arg: Option<&str>) -> (r: FocusTimer)
        ensures
            r.wf(),
            r@.duration_ms == duration_for(arg_view(arg)),
            r@.cache is None,
    {
        FocusTimer::new(duration_from_arg(arg))
    }

    pub fn duration_ms(&self) -> (r: u64)
        ensures
            r == self@.duration_ms,
    {
        self.duration_ms
    }

    /// The window's title.
    pub fn title(&self) -> (r: String)
        ensures
            r@ == "Focus timer"@,
    {
        String::from_str("Focus timer")
    }

    /// Reacts to an event: a tick forgets the drawn bar, so that the next
    /// render draws afresh.
    pub fn update(&mut self, message: Message)
        ensures
            final(self)@ == tick_model(old(self)@),
    {
        match message {
            Message::Tick => {
                self.cache = None;
            },
        }
    }

    /// The bar to show inside `bounds` when `elapsed_ms` have passed since
    /// the start.
    pub fn render(&mut self, bounds: Rect, elapsed_ms: u64) -> (r: Rect)
        requires
            old(self).wf(),
        ensures
            (final(self)@, r) == render_model(old(self)@, bounds, elapsed_ms),
            final(self).wf(),
    {
        match self.cache {
            Some(c) => {
                if c.width == bounds.width && c.height == bounds.height {
                    return c.bar;
                }
            },
            None => {},
        }
        let bar = bar_geometry(bounds, progress(elapsed_ms, self.duration_ms));
        self.cache = Some(CachedBar { width: bounds.width, height: bounds.height, bar });
        bar
    }
}

/// Rendering twice with no tick between gives the same bar, whatever time
/// has passed, and the second render changes nothing.
pub proof fn lemma_render_twice_is_cached(m: TimerModel, bounds: Rect, t1: u64, t2: u64)
    ensures
        render_model(render_model(m, bounds, t1).0, bounds, t2).1 == render_model(m, bounds, t1).1,
        render_model(render_model(m, bounds, t1).0, bounds, t2).0 == render_model(m, bounds, t1).0,
{
}

/// After a tick, a render draws the bar for the current progress.
pub proof fn lemma_render_after_tick(m: TimerModel, bounds: Rect, t: u64)
    ensures
        render_model(tick_model(m), bounds, t).1 == bar_of(
            bounds,
            progress_of(t as nat, m.duration_ms as nat),
        ),
{
}

/// Bars drawn afresh after ticks never get narrower as time goes on: from a
/// tick, a render at `t1`, another tick and a render at a later `t2` give a
/// second bar at least as wide as the first.
pub proof fn lemma_later_bar_not_narrower(m: TimerModel, bounds: Rect, t1: u64, t2: u64)
    requires
        m.duration_ms > 0,
        t1 <= t2,
    ensures
        render_model(tick_model(m), bounds, t1).1.width <= render_model(
            tick_model(render_model(tick_model(m), bounds, t1).0),
            bounds,
            t2,
        ).1.width,
{
    lemma_bar_width_monotone(bounds, t1 as nat, t2 as nat, m.duration_ms as nat);
}

} // verus!
