use vstd::arithmetic::mul::lemma_mul_inequality;
use vstd::prelude::*;

use crate::buffer::{spec_evict, WindowBuffer};
use crate::config::Config;
use crate::grid::{grid_ok, render};
use crate::parse::{parse_line, spec_line, LineResult};
use crate::sample::Sample;

verus! {

/// What the poll of the ingestion channel yielded this tick.
pub enum PollEvent {
    /// One raw input line was available.
    Line(Vec<u8>),
    /// Nothing was waiting.
    Empty,
    /// The producer is gone for good.
    Disconnected,
}

/// What one tick asks the caller to do.
#[derive(Debug)]
pub enum TickOutcome {
    /// Draw this grid and keep looping.
    Continue(Vec<Vec<char>>),
    /// Draw this grid, then stop: the input has ended.
    FinalRender(Vec<Vec<char>>),
    /// Stop at once without drawing: the shutdown flag was set.
    Interrupted,
    /// Abort: a numeric field of the input failed to parse.
    Fatal,
}

/// The window's left edge at `now_ms`: the wall clock minus the width of
/// the visible window.
pub open spec fn spec_base(cfg: Config, now_ms: int) -> int {
    now_ms - cfg.window_ms()
}

/// The buffer once the polled event has been taken in: a parsed sample goes
/// to the new end; everything else leaves the buffer alone.
pub open spec fn spec_after_ingest(buf: Seq<Sample>, event: PollEvent) -> Seq<Sample> {
    match event {
        PollEvent::Line(l) => match spec_line(l@) {
            LineResult::Value(s) => seq![s] + buf,
            _ => buf,
        },
        _ => buf,
    }
}

/// Whether the event aborts the process: a line with a field that is no
/// number.
pub open spec fn spec_is_fatal(event: PollEvent) -> bool {
    match event {
        PollEvent::Line(l) => spec_line(l@) is BadNumber,
        _ => false,
    }
}

/// Whether the event ends ingestion for good: a line of the wrong shape or
/// a closed channel. One last grid is still drawn.
pub open spec fn spec_ends_input(event: PollEvent) -> bool {
    match event {
        PollEvent::Line(l) => spec_line(l@) is Malformed,
        PollEvent::Empty => false,
        PollEvent::Disconnected => true,
    }
}

/// The left edge of the visible window at `now_ms`.
pub fn base_epoch(cfg: &Config, now_ms: i64) -> (b: i64)
    requires
        cfg.valid(),
        now_ms as int - cfg.window_ms() >= i64::MIN,
    ensures
        b as int == spec_base(*cfg, now_ms as int),
{
    proof {
        lemma_mul_inequality(1, cfg.step_ms as int, cfg.columns as int);
    }
    let w: i128 = (cfg.step_ms as i128) * (cfg.columns as i128);
    let b: i128 = (now_ms as i128) - w;
    b as i64
}

/// The whole oscilloscope state: the configuration and the rolling buffer.
pub struct Scope {
    pub config: Config,
    pub buffer: WindowBuffer,
}

impl Scope {
    pub fn new(config: Config) -> (s: Scope)
        requires
            config.valid(),
        ensures
            s.config == config,
            s.buffer@ == Seq::<Sample>::empty(),
    {
        Scope { config, buffer: WindowBuffer::new() }
    }

    /// One tick of the render loop: take in what the channel poll yielded,
    /// evict what has aged out of the window, and say what to do next —
    /// draw and continue, draw one last time, stop at once, or abort.
    pub fn tick(&mut self, event: PollEvent, now_ms: i64, shutdown: bool) -> (out: TickOutcome)
        requires
            old(self).config.valid(),
            now_ms as int - old(self).config.window_ms() >= i64::MIN,
        ensures
            final(self).config == old(self).config,
            spec_is_fatal(event) ==> out is Fatal && final(self).buffer@ == old(self).buffer@,
            !spec_is_fatal(event) ==> final(self).buffer@ == spec_evict(
                spec_after_ingest(old(self).buffer@, event),
                spec_base(old(self).config, now_ms as int),
            ),
            !spec_is_fatal(event) && shutdown ==> out is Interrupted,
            !spec_is_fatal(event) && !shutdown ==> (match out {
                TickOutcome::Continue(g) => !spec_ends_input(event) && grid_ok(
                    old(self).config,
                    spec_base(old(self).config, now_ms as int),
                    final(self).buffer@,
                    g@,
                ),
                TickOutcome::FinalRender(g) => spec_ends_input(event) && grid_ok(
                    old(self).config,
                    spec_base(old(self).config, now_ms as int),
                    final(self).buffer@,
                    g@,
                ),
                _ => false,
            }),
    {
        let mut ends = false;
        match event {
            PollEvent::Line(l) => {
                match parse_line(&l) {
                    LineResult::Value(s) => self.buffer.push(s),
                    LineResult::Malformed => ends = true,
                    LineResult::BadNumber => {
                        return TickOutcome::Fatal;
                    },
                }
            },
            PollEvent::Empty => {},
            PollEvent::Disconnected => ends = true,
        }
        let base = base_epoch(&self.config, now_ms);
        self.buffer.evict(base);
        if shutdown {
            return TickOutcome::Interrupted;
        }
        let g = render(&self.config, base, &self.buffer);
        if ends {
            TickOutcome::FinalRender(g)
        } else {
            TickOutcome::Continue(g)
        }
    }
}

} // verus!
