use vstd::prelude::*;

use crate::errors::InterpreterError;
use crate::executable::Executable;
use crate::interpreter::cycle_rel;
use crate::interpreter::plat_view;
use crate::interpreter::Interpreter;
use crate::interpreter::MachineView;
use crate::interpreter::PlatView;
use crate::executable::loaded_memory;
use crate::memory::zeroed_memory;
use crate::platform::saturating_dec;
use crate::platform::Platform;
use crate::registers::zeroed_registers;

verus! {

/// Default instruction clock interval, in nanoseconds of virtual time.
pub const DEFAULT_INSTRUCTION_DURATION: u64 = 2000000;

/// Default delay timer interval, in nanoseconds of virtual time.
pub const DEFAULT_DELAY_TIMER_DURATION: u64 = 16000000;

/// Default sound timer interval, in nanoseconds of virtual time.
pub const DEFAULT_SOUND_TIMER_DURATION: u64 = 16000000;

/// One logical timer: accumulated elapsed time and a fixed tick interval,
/// both in nanoseconds of virtual time. When the accumulated time reaches
/// the interval the timer ticks and keeps the remainder, so fractional
/// carry-over is never truncated between calls.
#[derive(Clone, Copy, Debug, PartialEq, Eq, Structural)]
pub struct Timer {
    pub(crate) cur_time: u64,
    pub(crate) interval: u64,
}

/// A timer between scheduler steps: a positive interval, with strictly
/// less than one interval accumulated.
pub open(crate) spec fn timer_wf(t: Timer) -> bool {
    0 < t.interval && t.cur_time < t.interval
}

/// The time left until the timer's next tick.
pub open(crate) spec fn until_tick(t: Timer) -> int {
    if t.cur_time < t.interval {
        t.interval - t.cur_time
    } else {
        0
    }
}

/// Addition capped at the largest representable time.
pub open(crate) spec fn sat_add(a: u64, b: u64) -> int {
    if a + b <= u64::MAX {
        a + b
    } else {
        u64::MAX as int
    }
}

/// The timer after `v` nanoseconds pass: the accumulator grows, and on
/// reaching the interval the timer ticks, keeping the remainder.
pub open(crate) spec fn timer_after(t: Timer, v: u64) -> Timer {
    let s = sat_add(t.cur_time, v);
    Timer {
        cur_time: (if s >= t.interval {
            s - t.interval
        } else {
            s
        }) as u64,
        interval: t.interval,
    }
}

impl Timer {
    /// The accumulated elapsed time, for use in specifications.
    pub open(crate) spec fn current(self) -> u64 {
        self.cur_time
    }

    /// The tick interval, for use in specifications.
    pub open(crate) spec fn tick_interval(self) -> u64 {
        self.interval
    }

    /// A timer with nothing accumulated. A zero interval would tick
    /// forever without time passing, so it is excluded.
    pub fn new(interval: u64) -> (r: Self)
        requires
            interval > 0,
        ensures
            r.current() == 0,
            r.tick_interval() == interval,
    {
        Self { interval, cur_time: 0 }
    }

    /// The time left until the next tick.
    pub fn time_until_tick(&self) -> (r: u64)
        ensures
            r as int == until_tick(*self),
    {
        if self.cur_time < self.interval {
            self.interval - self.cur_time
        } else {
            0
        }
    }

    /// Accumulates `value` elapsed nanoseconds, saturating at the largest
    /// representable time, and reports whether the timer ticked; on a tick
    /// the interval is subtracted so the remainder carries over.
    pub fn add_time(&mut self, value: u64) -> (r: bool)
        ensures
            *final(self) == timer_after(*old(self), value),
            r == (sat_add(old(self).current(), value) >= old(self).tick_interval()),
    {
        let s: u64 = if value <= u64::MAX - self.cur_time {
            self.cur_time + value
        } else {
            u64::MAX
        };
        if s >= self.interval {
            self.cur_time = s - self.interval;
            true
        } else {
            self.cur_time = s;
            false
        }
    }
}

/// The three scheduler timers: the delay timer, the sound timer and the
/// instruction clock.
#[derive(Clone, Copy, Debug, PartialEq, Eq, Structural)]
pub struct SchedView {
    pub delay: Timer,
    pub sound: Timer,
    pub instr: Timer,
}

/// All three timers well-formed between steps.
pub open(crate) spec fn sched_wf(t: SchedView) -> bool {
    timer_wf(t.delay) && timer_wf(t.sound) && timer_wf(t.instr)
}

/// The smaller of two durations.
pub open(crate) spec fn min2(a: int, b: int) -> int {
    if a <= b {
        a
    } else {
        b
    }
}

/// The time until the earliest of the three next ticks.
pub open(crate) spec fn min_until(t: SchedView) -> int {
    min2(until_tick(t.delay), min2(until_tick(t.sound), until_tick(t.instr)))
}

/// One scheduler step in which at least one timer ticked: which of the
/// three fired, and the timer state right after the step.
#[derive(Clone, Copy, Debug, PartialEq, Eq, Structural)]
pub struct Event {
    pub delay: bool,
    pub sound: bool,
    pub instr: bool,
    pub after: SchedView,
}

/// All three timers advanced by `step` nanoseconds.
pub open(crate) spec fn stepped(t: SchedView, step: u64) -> SchedView {
    SchedView {
        delay: timer_after(t.delay, step),
        sound: timer_after(t.sound, step),
        instr: timer_after(t.instr, step),
    }
}

/// The event of one scheduler step of `step` nanoseconds from `t`: each
/// timer whose tick falls exactly at the step's end fires.
pub open(crate) spec fn step_event(t: SchedView, step: u64) -> Event {
    Event {
        delay: step as int == until_tick(t.delay),
        sound: step as int == until_tick(t.sound),
        instr: step as int == until_tick(t.instr),
        after: stepped(t, step),
    }
}

/// Whether any of the three timers fires in the step.
pub open(crate) spec fn event_fires(e: Event) -> bool {
    e.delay || e.sound || e.instr
}

/// Advances all three timers through `d` nanoseconds exactly as the
/// scheduler loop does: each step covers the minimum of the remaining
/// time and the three times-until-tick, so no tick is ever skipped. The
/// result is the final timer state and the sequence of tick events, in
/// order; steps in which no timer ticks produce no event.
pub open(crate) spec fn run_timers(t: SchedView, d: u64) -> (SchedView, Seq<Event>)
    decreases d,
{
    if d == 0 || !sched_wf(t) {
        (t, Seq::empty())
    } else {
        let step = min2(d as int, min_until(t));
        let t2 = stepped(t, step as u64);
        let ev = step_event(t, step as u64);
        let rest = run_timers(t2, (d - step) as u64);
        if event_fires(ev) {
            (rest.0, seq![ev] + rest.1)
        } else {
            (rest.0, rest.1)
        }
    }
}

/// One unfolding of `run_timers`, for a step of the right size.
#[verifier::rlimit(100)]
proof fn lemma_run_timers_unfold(t: SchedView, d: u64, step: u64)
    requires
        sched_wf(t),
        d > 0,
        step as int == min2(d as int, min_until(t)),
    ensures
        1 <= step <= d,
        sched_wf(stepped(t, step)),
        event_fires(step_event(t, step)) ==> run_timers(t, d) == (
            run_timers(stepped(t, step), (d - step) as u64).0,
            seq![step_event(t, step)] + run_timers(stepped(t, step), (d - step) as u64).1,
        ),
        !event_fires(step_event(t, step)) ==> run_timers(t, d) == run_timers(
            stepped(t, step),
            (d - step) as u64,
        ),
{
}

/// How many events of the sequence fire the delay timer.
pub open(crate) spec fn count_delay_events(evs: Seq<Event>) -> int
    decreases evs.len(),
{
    if evs.len() == 0 {
        0
    } else {
        (if evs[0].delay {
            1int
        } else {
            0
        }) + count_delay_events(evs.drop_first())
    }
}

/// How many events of the sequence fire the sound timer.
pub open(crate) spec fn count_sound_events(evs: Seq<Event>) -> int
    decreases evs.len(),
{
    if evs.len() == 0 {
        0
    } else {
        (if evs[0].sound {
            1int
        } else {
            0
        }) + count_sound_events(evs.drop_first())
    }
}

/// How many events of the sequence fire the instruction clock.
pub open(crate) spec fn count_instr_events(evs: Seq<Event>) -> int
    decreases evs.len(),
{
    if evs.len() == 0 {
        0
    } else {
        (if evs[0].instr {
            1int
        } else {
            0
        }) + count_instr_events(evs.drop_first())
    }
}

/// Prepending one event adds its own firings to the counts.
proof fn lemma_counts_cons(e: Event, rest: Seq<Event>)
    ensures
        count_delay_events(seq![e] + rest) == (if e.delay {
            1int
        } else {
            0
        }) + count_delay_events(rest),
        count_sound_events(seq![e] + rest) == (if e.sound {
            1int
        } else {
            0
        }) + count_sound_events(rest),
        count_instr_events(seq![e] + rest) == (if e.instr {
            1int
        } else {
            0
        }) + count_instr_events(rest),
{
    assert((seq![e] + rest)[0] == e);
    assert((seq![e] + rest).drop_first() =~= rest);
}

/// Tick-count law: advancing through `d` nanoseconds fires each timer
/// exactly floor((accumulated + d) / interval) times — for fresh timers,
/// floor(d / interval) delay decrements, sound decrements and instruction
/// cycles. Since `advance_rel` drives one saturating decrement per delay
/// or sound event and one execution cycle per instruction event, these
/// are the effect counts of an unfaulted `simulate_duration(d)`.
#[verifier::rlimit(100)]
pub proof fn lemma_tick_counts(t: SchedView, d: u64)
    requires
        sched_wf(t),
        t.delay.current() + d <= u64::MAX,
        t.sound.current() + d <= u64::MAX,
        t.instr.current() + d <= u64::MAX,
    ensures
        count_delay_events(run_timers(t, d).1) == (t.delay.current() + d) / (
        t.delay.tick_interval() as int),
        count_sound_events(run_timers(t, d).1) == (t.sound.current() + d) / (
        t.sound.tick_interval() as int),
        count_instr_events(run_timers(t, d).1) == (t.instr.current() + d) / (
        t.instr.tick_interval() as int),
    decreases d,
{
    if d == 0 {
        vstd::arithmetic::div_mod::lemma_basic_div_specific_divisor(t.delay.interval as int);
        vstd::arithmetic::div_mod::lemma_basic_div_specific_divisor(t.sound.interval as int);
        vstd::arithmetic::div_mod::lemma_basic_div_specific_divisor(t.instr.interval as int);
    } else {
        let step = min2(d as int, min_until(t)) as u64;
        lemma_run_timers_unfold(t, d, step);
        let t2 = stepped(t, step);
        let ev = step_event(t, step);
        let rest = run_timers(t2, (d - step) as u64).1;
        assert(t2.delay.cur_time <= t.delay.cur_time + step);
        assert(t2.sound.cur_time <= t.sound.cur_time + step);
        assert(t2.instr.cur_time <= t.instr.cur_time + step);
        lemma_tick_counts(t2, (d - step) as u64);
        if ev.delay {
            assert(t2.delay.cur_time == 0);
            vstd::arithmetic::div_mod::lemma_div_plus_one(
                t.delay.cur_time + d - t.delay.interval,
                t.delay.interval as int,
            );
        }
        if ev.sound {
            assert(t2.sound.cur_time == 0);
            vstd::arithmetic::div_mod::lemma_div_plus_one(
                t.sound.cur_time + d - t.sound.interval,
                t.sound.interval as int,
            );
        }
        if ev.instr {
            assert(t2.instr.cur_time == 0);
            vstd::arithmetic::div_mod::lemma_div_plus_one(
                t.instr.cur_time + d - t.instr.interval,
                t.instr.interval as int,
            );
        }
        if event_fires(ev) {
            lemma_counts_cons(ev, rest);
        }
    }
}

/// The platform state after the delay and sound decrements of one
/// scheduler step, applied in that order.
pub open(crate) spec fn after_ticks(e: Event, p: PlatView) -> PlatView {
    let pd = if e.delay {
        PlatView { delay: saturating_dec(p.delay), ..p }
    } else {
        p
    };
    if e.sound {
        PlatView { sound: saturating_dec(pd.sound), ..pd }
    } else {
        pd
    }
}

/// How the machine and platform states evolve through a sequence of tick
/// events: each delay or sound tick decrements its platform register,
/// saturating at zero, and each instruction tick performs one execution
/// cycle (`cycle_rel`). A faulting cycle stops the run at once with the
/// fault, the states as the fault left them, and the timers of that very
/// step; a completed run ends with `Ok`.
pub open(crate) spec fn run_rel(
    evs: Seq<Event>,
    m0: MachineView,
    p0: PlatView,
    m1: MachineView,
    p1: PlatView,
    t1: SchedView,
    r: Result<(), InterpreterError>,
) -> bool
    decreases evs.len(),
{
    if evs.len() == 0 {
        m1 == m0 && p1 == p0 && r is Ok
    } else {
        let e = evs[0];
        let ps = after_ticks(e, p0);
        if e.instr {
            exists|mm: MachineView, pm: PlatView, rr: Result<(), InterpreterError>|
                {
                    &&& #[trigger] cycle_rel(m0, ps, mm, pm, rr)
                    &&& if rr is Err {
                        r == rr && m1 == mm && p1 == pm && t1 == e.after
                    } else {
                        run_rel(evs.drop_first(), mm, pm, m1, p1, t1, r)
                    }
                }
        } else {
            run_rel(evs.drop_first(), m0, ps, m1, p1, t1, r)
        }
    }
}

/// A successful unit result is the unit `Ok` value.
proof fn lemma_ok_unit(r: Result<(), InterpreterError>)
    requires
        r is Ok,
    ensures
        r == Ok::<(), InterpreterError>(()),
{
    match r {
        Ok(u) => {
            assert(u =~= ());
        },
        Err(_) => {},
    }
}

/// Introduces one step of `run_rel` from an explicit intermediate state.
#[verifier::rlimit(100)]
proof fn lemma_run_rel_step_intro(
    evs: Seq<Event>,
    m0: MachineView,
    p0: PlatView,
    mm: MachineView,
    pm: PlatView,
    rr: Result<(), InterpreterError>,
    m1: MachineView,
    p1: PlatView,
    t1: SchedView,
    r: Result<(), InterpreterError>,
)
    requires
        evs.len() > 0,
        evs[0].instr ==> cycle_rel(m0, after_ticks(evs[0], p0), mm, pm, rr),
        evs[0].instr && rr is Err ==> r == rr && m1 == mm && p1 == pm && t1 == evs[0].after,
        evs[0].instr && rr is Ok ==> run_rel(evs.drop_first(), mm, pm, m1, p1, t1, r),
        !evs[0].instr ==> run_rel(evs.drop_first(), m0, after_ticks(evs[0], p0), m1, p1, t1, r),
    ensures
        run_rel(evs, m0, p0, m1, p1, t1, r),
{
    let e = evs[0];
    let ps = after_ticks(e, p0);
    if e.instr {
        assert(cycle_rel(m0, ps, mm, pm, rr) && if rr is Err {
            r == rr && m1 == mm && p1 == pm && t1 == e.after
        } else {
            run_rel(evs.drop_first(), mm, pm, m1, p1, t1, r)
        });
    }
}

/// A run of a single event, ending without a fault.
#[verifier::rlimit(100)]
proof fn lemma_run_rel_single_ok(
    e: Event,
    m0: MachineView,
    p0: PlatView,
    m1: MachineView,
    p1: PlatView,
    t1: SchedView,
)
    requires
        e.instr ==> cycle_rel(m0, after_ticks(e, p0), m1, p1, Ok::<(), InterpreterError>(())),
        !e.instr ==> m1 == m0 && p1 == after_ticks(e, p0),
    ensures
        run_rel(seq![e], m0, p0, m1, p1, t1, Ok::<(), InterpreterError>(())),
{
    assert(seq![e].drop_first() =~= Seq::<Event>::empty());
    lemma_run_rel_step_intro(
        seq![e],
        m0,
        p0,
        m1,
        p1,
        Ok::<(), InterpreterError>(()),
        m1,
        p1,
        t1,
        Ok::<(), InterpreterError>(()),
    );
}

/// A run of a single event whose instruction cycle faults.
#[verifier::rlimit(100)]
proof fn lemma_run_rel_single_err(
    e: Event,
    m0: MachineView,
    p0: PlatView,
    m1: MachineView,
    p1: PlatView,
    r: Result<(), InterpreterError>,
)
    requires
        e.instr,
        r is Err,
        cycle_rel(m0, after_ticks(e, p0), m1, p1, r),
    ensures
        run_rel(seq![e], m0, p0, m1, p1, e.after, r),
{
    lemma_run_rel_step_intro(seq![e], m0, p0, m1, p1, r, m1, p1, e.after, r);
}

/// The contract of advancing the scheduler by `d` nanoseconds: the states
/// evolve through exactly the tick events that `run_timers` produces, and
/// on success the timers end in the `run_timers` final state.
pub open(crate) spec fn advance_rel(
    t0: SchedView,
    m0: MachineView,
    p0: PlatView,
    d: u64,
    t1: SchedView,
    m1: MachineView,
    p1: PlatView,
    r: Result<(), InterpreterError>,
) -> bool {
    &&& run_rel(run_timers(t0, d).1, m0, p0, m1, p1, t1, r)
    &&& (r is Ok ==> t1 == run_timers(t0, d).0)
}

/// A run related through `evs` with `Ok` does not depend on the final
/// timer argument.
#[verifier::rlimit(100)]
proof fn lemma_run_rel_ok_t_any(
    evs: Seq<Event>,
    m0: MachineView,
    p0: PlatView,
    m1: MachineView,
    p1: PlatView,
    ta: SchedView,
    tb: SchedView,
)
    requires
        run_rel(evs, m0, p0, m1, p1, ta, Ok::<(), InterpreterError>(())),
    ensures
        run_rel(evs, m0, p0, m1, p1, tb, Ok::<(), InterpreterError>(())),
    decreases evs.len(),
{
    if evs.len() == 0 {
    } else {
        let e = evs[0];
        let ps = after_ticks(e, p0);
        if e.instr {
            let (mm, pm, rr) = choose|mm: MachineView, pm: PlatView, rr: Result<
                (),
                InterpreterError,
            >|
                {
                    &&& #[trigger] cycle_rel(m0, ps, mm, pm, rr)
                    &&& if rr is Err {
                        Ok::<(), InterpreterError>(()) == rr && m1 == mm && p1 == pm && ta
                            == e.after
                    } else {
                        run_rel(evs.drop_first(), mm, pm, m1, p1, ta, Ok::<(), InterpreterError>(()))
                    }
                };
            assert(rr is Ok);
            lemma_run_rel_ok_t_any(evs.drop_first(), mm, pm, m1, p1, ta, tb);
            lemma_run_rel_step_intro(evs, m0, p0, mm, pm, rr, m1, p1, tb,
                Ok::<(), InterpreterError>(()));
        } else {
            lemma_run_rel_ok_t_any(evs.drop_first(), m0, ps, m1, p1, ta, tb);
            lemma_run_rel_step_intro(evs, m0, p0, m0, ps, Ok::<(), InterpreterError>(()), m1, p1,
                tb, Ok::<(), InterpreterError>(()));
        }
    }
}

/// Runs compose: a completed run through `e1` followed by a run through
/// `e2` is a run through `e1 + e2`.
#[verifier::rlimit(100)]
pub proof fn lemma_run_rel_compose(
    e1: Seq<Event>,
    e2: Seq<Event>,
    m0: MachineView,
    p0: PlatView,
    mm: MachineView,
    pm: PlatView,
    m1: MachineView,
    p1: PlatView,
    t1: SchedView,
    r: Result<(), InterpreterError>,
)
    requires
        run_rel(e1, m0, p0, mm, pm, t1, Ok::<(), InterpreterError>(())),
        run_rel(e2, mm, pm, m1, p1, t1, r),
    ensures
        run_rel(e1 + e2, m0, p0, m1, p1, t1, r),
    decreases e1.len(),
{
    if e1.len() == 0 {
        assert(e1 + e2 =~= e2);
    } else {
        let e = e1[0];
        let whole = e1 + e2;
        assert(whole[0] == e);
        assert(whole.drop_first() =~= e1.drop_first() + e2);
        let ps = after_ticks(e, p0);
        if e.instr {
            let (m2, p2, rr) = choose|m2: MachineView, p2: PlatView, rr: Result<
                (),
                InterpreterError,
            >|
                {
                    &&& #[trigger] cycle_rel(m0, ps, m2, p2, rr)
                    &&& if rr is Err {
                        Ok::<(), InterpreterError>(()) == rr && mm == m2 && pm == p2 && t1
                            == e.after
                    } else {
                        run_rel(e1.drop_first(), m2, p2, mm, pm, t1, Ok::<(), InterpreterError>(()))
                    }
                };
            assert(rr is Ok);
            lemma_run_rel_compose(e1.drop_first(), e2, m2, p2, mm, pm, m1, p1, t1, r);
            lemma_run_rel_step_intro(whole, m0, p0, m2, p2, rr, m1, p1, t1, r);
        } else {
            lemma_run_rel_compose(e1.drop_first(), e2, m0, ps, mm, pm, m1, p1, t1, r);
            lemma_run_rel_step_intro(whole, m0, p0, m0, ps, Ok::<(), InterpreterError>(()), m1, p1,
                t1, r);
        }
    }
}

/// A timer advanced twice without reaching a tick boundary in between
/// behaves as if advanced once by the sum.
proof fn lemma_timer_split(t: Timer, a: u64, s: u64)
    requires
        timer_wf(t),
        a + s <= until_tick(t),
    ensures
        timer_after(timer_after(t, a), s) == timer_after(t, (a + s) as u64),
{
}

/// Timer fairness: advancing the scheduler's timers by `a + b` in one
/// call produces exactly the timer state and tick-event sequence of
/// advancing by `a` and then by `b`. No tick is skipped and none is
/// duplicated, whatever the chunking.
#[verifier::rlimit(100)]
pub proof fn lemma_run_timers_additive(t: SchedView, a: u64, b: u64)
    requires
        a + b <= u64::MAX,
    ensures
        run_timers(t, (a + b) as u64).0 == run_timers(run_timers(t, a).0, b).0,
        run_timers(t, (a + b) as u64).1 == run_timers(t, a).1 + run_timers(
            run_timers(t, a).0,
            b,
        ).1,
    decreases a,
{
    if !sched_wf(t) {
        assert(run_timers(t, (a + b) as u64).1 =~= run_timers(t, a).1 + run_timers(
            run_timers(t, a).0,
            b,
        ).1);
    } else if a == 0 {
        assert(run_timers(t, a).1 =~= Seq::<Event>::empty());
        assert(run_timers(t, (a + b) as u64).1 =~= run_timers(t, a).1 + run_timers(
            run_timers(t, a).0,
            b,
        ).1);
    } else {
        let u = min_until(t);
        if u <= a {
            let step = u as u64;
            lemma_run_timers_unfold(t, a, step);
            lemma_run_timers_unfold(t, (a + b) as u64, step);
            assert(event_fires(step_event(t, step)));
            let t2 = stepped(t, step);
            lemma_run_timers_additive(t2, (a - step) as u64, b);
            assert((a - step) + b == (a + b) - step);
            assert(run_timers(t, (a + b) as u64).1 =~= run_timers(t, a).1 + run_timers(
                run_timers(t, a).0,
                b,
            ).1);
        } else {
            // a < u: the first chunk's last step only accumulates time.
            lemma_run_timers_unfold(t, a, a);
            let ta = stepped(t, a);
            assert(!event_fires(step_event(t, a)));
            assert(run_timers(ta, 0) == (ta, Seq::<Event>::empty()));
            assert(run_timers(t, a) == (ta, Seq::<Event>::empty()));
            assert(until_tick(ta.delay) == until_tick(t.delay) - a);
            assert(until_tick(ta.sound) == until_tick(t.sound) - a);
            assert(until_tick(ta.instr) == until_tick(t.instr) - a);
            assert(min_until(ta) == u - a);
            if b == 0 {
                assert(run_timers(t, (a + b) as u64) == (ta, Seq::<Event>::empty()));
                assert(run_timers(t, (a + b) as u64).1 =~= run_timers(t, a).1 + run_timers(
                    ta,
                    b,
                ).1);
            } else {
                let step_whole = min2((a + b) as int, u) as u64;
                let step_rest = min2(b as int, u - a) as u64;
                lemma_run_timers_unfold(t, (a + b) as u64, step_whole);
                lemma_run_timers_unfold(ta, b, step_rest);
                assert(step_whole as int == a + step_rest);
                lemma_timer_split(t.delay, a, step_rest);
                lemma_timer_split(t.sound, a, step_rest);
                lemma_timer_split(t.instr, a, step_rest);
                assert(stepped(ta, step_rest) == stepped(t, step_whole));
                let ew = step_event(t, step_whole);
                let er = step_event(ta, step_rest);
                assert(ew.delay == er.delay && ew.sound == er.sound && ew.instr == er.instr);
                assert(ew == er);
                assert((a + b) - step_whole == b - step_rest);
                if !event_fires(ew) {
                    // only possible when the whole duration stays short of
                    // every tick: both runs end after this step.
                    assert(step_whole as int == (a + b) as int);
                    assert(run_timers(stepped(t, step_whole), 0) == (
                        stepped(t, step_whole),
                        Seq::<Event>::empty(),
                    ));
                }
                assert(run_timers(t, (a + b) as u64).1 =~= run_timers(t, a).1 + run_timers(
                    ta,
                    b,
                ).1);
            }
        }
    }
}

/// Scheduler fairness: one `Ok` advance by `a` followed by an advance by
/// `b` meets the contract of a single advance by `a + b` — the same tick
/// events drive the interpreter and the timers end in the same state, for
/// any chunking of a duration.
pub proof fn lemma_advance_chunked(
    t0: SchedView,
    m0: MachineView,
    p0: PlatView,
    a: u64,
    tm: SchedView,
    mm: MachineView,
    pm: PlatView,
    b: u64,
    t1: SchedView,
    m1: MachineView,
    p1: PlatView,
    r: Result<(), InterpreterError>,
)
    requires
        a + b <= u64::MAX,
        advance_rel(t0, m0, p0, a, tm, mm, pm, Ok::<(), InterpreterError>(())),
        advance_rel(tm, mm, pm, b, t1, m1, p1, r),
    ensures
        advance_rel(t0, m0, p0, (a + b) as u64, t1, m1, p1, r),
{
    lemma_run_timers_additive(t0, a, b);
    lemma_run_rel_ok_t_any(run_timers(t0, a).1, m0, p0, mm, pm, tm, t1);
    lemma_run_rel_compose(
        run_timers(t0, a).1,
        run_timers(tm, b).1,
        m0,
        p0,
        mm,
        pm,
        m1,
        p1,
        t1,
        r,
    );
}

/// The timed scheduler: the interpreter together with the delay timer,
/// sound timer and instruction clock, advanced through virtual time
/// without ever skipping a tick.
pub struct ControlledInterpreter<P: Platform> {
    pub(crate) interpreter: Interpreter<P>,
    pub(crate) delay_timer: Timer,
    pub(crate) sound_timer: Timer,
    pub(crate) instruction_timer: Timer,
}

impl<P: Platform> ControlledInterpreter<P> {
    /// Well-formedness: the interpreter's and all three timers' own.
    pub open(crate) spec fn wf(&self) -> bool {
        self.interpreter.wf() && sched_wf(self.timers())
    }

    /// The three timers.
    pub open(crate) spec fn timers(&self) -> SchedView {
        SchedView { delay: self.delay_timer, sound: self.sound_timer, instr: self.instruction_timer }
    }

    /// The interpreter's machine state.
    pub open(crate) spec fn machine(&self) -> MachineView {
        self.interpreter.machine()
    }

    /// The platform's observable state.
    pub open(crate) spec fn pview(&self) -> PlatView {
        self.interpreter.pview()
    }

    /// The platform value, for use in specifications.
    pub open(crate) spec fn plat(&self) -> P {
        self.interpreter.plat()
    }

    /// A fresh scheduler over a fresh interpreter, with the three tick
    /// intervals given explicitly (in nanoseconds of virtual time) and
    /// nothing accumulated.
    pub fn new<E: Executable>(
        platform: P,
        executable: E,
        instruction_duration: u64,
        delay_timer_duration: u64,
        sound_timer_duration: u64,
    ) -> (r: Self)
        requires
            executable.wf(),
            platform.inv(),
            instruction_duration > 0,
            delay_timer_duration > 0,
            sound_timer_duration > 0,
        ensures
            r.wf(),
            r.machine() == (MachineView {
                regs: zeroed_registers(),
                index: 0,
                mem: loaded_memory(zeroed_memory(), executable.load_point(), executable.image()),
                ip: executable.entry().value(),
                stack: Seq::<u16>::empty(),
                expecting: None::<u8>,
                crashed: false,
            }),
            r.pview() == plat_view(&platform),
            r.timers().delay.current() == 0,
            r.timers().delay.tick_interval() == delay_timer_duration,
            r.timers().sound.current() == 0,
            r.timers().sound.tick_interval() == sound_timer_duration,
            r.timers().instr.current() == 0,
            r.timers().instr.tick_interval() == instruction_duration,
    {
        Self {
            interpreter: Interpreter::new(platform, executable),
            delay_timer: Timer::new(delay_timer_duration),
            sound_timer: Timer::new(sound_timer_duration),
            instruction_timer: Timer::new(instruction_duration),
        }
    }

    /// The platform, for the caller to mutate; the machine state and the
    /// timers stay as they were.
    pub fn get_platform_mut(&mut self) -> (p: &mut P)
        ensures
            *p == old(self).plat(),
            final(self).plat() == *final(p),
            final(self).machine() == old(self).machine(),
            final(self).timers() == old(self).timers(),
    {
        self.interpreter.get_platform_mut()
    }

    /// The value of register `index`, for callers that inspect progress.
    pub fn read_register(&self, index: crate::nibble::Nibble) -> (r: u8)
        ensures
            r == self.machine().regs[index.value() as int],
    {
        self.interpreter.read_register(index)
    }

    /// Advances by exactly the time left until the next instruction tick,
    /// so one instruction cycle runs (together with any timer ticks due at
    /// the same moment).
    pub fn simulate_one_instruction(&mut self) -> (r: Result<(), InterpreterError>)
        requires
            old(self).wf(),
        ensures
            final(self).wf(),
            advance_rel(
                old(self).timers(),
                old(self).machine(),
                old(self).pview(),
                until_tick(old(self).timers().instr) as u64,
                final(self).timers(),
                final(self).machine(),
                final(self).pview(),
                r,
            ),
    {
        let d = self.instruction_timer.time_until_tick();
        self.simulate_duration(d)
    }

    /// Performs one scheduler step: advances all three timers by the
    /// minimum of `remaining` and the three times-until-tick, and runs the
    /// effect of every timer that fires — the delay and sound decrements
    /// and, for the instruction clock, one execution cycle.
    #[verifier::rlimit(100)]
    fn advance_one_step(&mut self, remaining: u64) -> (out: (Result<(), InterpreterError>, u64))
        requires
            old(self).wf(),
            remaining > 0,
        ensures
            final(self).wf(),
            out.1 as int == min2(remaining as int, min_until(old(self).timers())),
            1 <= out.1 <= remaining,
            final(self).timers() == stepped(old(self).timers(), out.1),
            event_fires(step_event(old(self).timers(), out.1)) ==> run_rel(
                seq![step_event(old(self).timers(), out.1)],
                old(self).machine(),
                old(self).pview(),
                final(self).machine(),
                final(self).pview(),
                final(self).timers(),
                out.0,
            ),
            !event_fires(step_event(old(self).timers(), out.1)) ==> out.0 is Ok
                && final(self).machine() == old(self).machine()
                && final(self).pview() == old(self).pview(),
    {
        let ghost t_cur = self.timers();
        let ghost m_cur = self.machine();
        let ghost p_cur = self.pview();
        let until_d = self.delay_timer.time_until_tick();
        let until_s = self.sound_timer.time_until_tick();
        let until_i = self.instruction_timer.time_until_tick();
        let mut step = remaining;
        if until_d < step {
            step = until_d;
        }
        if until_s < step {
            step = until_s;
        }
        if until_i < step {
            step = until_i;
        }
        proof {
            assert(step as int == min2(remaining as int, min_until(t_cur)));
        }
        let ticked_d = self.delay_timer.add_time(step);
        let ticked_s = self.sound_timer.add_time(step);
        let ticked_i = self.instruction_timer.add_time(step);
        let ghost t_next = self.timers();
        let ghost ev = step_event(t_cur, step);
        proof {
            assert(t_next == stepped(t_cur, step));
            assert(ev == (Event { delay: ticked_d, sound: ticked_s, instr: ticked_i, after: t_next }));
        }
        if ticked_d {
            self.interpreter.tick_delay_timer();
        }
        if ticked_s {
            self.interpreter.tick_sound_timer();
        }
        let ghost p_ds = self.pview();
        proof {
            assert(self.machine() == m_cur);
            assert(p_ds == after_ticks(ev, p_cur));
        }
        if ticked_i {
            let res = self.interpreter.run_next();
            proof {
                assert(cycle_rel(m_cur, p_ds, self.machine(), self.pview(), res));
                if res is Err {
                    lemma_run_rel_single_err(ev, m_cur, p_cur, self.machine(), self.pview(), res);
                    assert(ev.after == t_next);
                } else {
                    lemma_ok_unit(res);
                    lemma_run_rel_single_ok(ev, m_cur, p_cur, self.machine(), self.pview(), t_next);
                }
            }
            (res, step)
        } else {
            proof {
                if ticked_d || ticked_s {
                    lemma_run_rel_single_ok(ev, m_cur, p_cur, self.machine(), self.pview(), t_next);
                }
            }
            (Ok(()), step)
        }
    }

    /// Advances all three timers through `duration` nanoseconds of
    /// virtual time, running every delay, sound and instruction tick that
    /// falls in it, in order, exactly as `advance_rel` states. A fault
    /// from an instruction cycle aborts the call at once; the timer
    /// decrements already applied are not rolled back.
    #[verifier::rlimit(100)]
    pub fn simulate_duration(&mut self, duration: u64) -> (r: Result<(), InterpreterError>)
        requires
            old(self).wf(),
        ensures
            final(self).wf(),
            advance_rel(
                old(self).timers(),
                old(self).machine(),
                old(self).pview(),
                duration,
                final(self).timers(),
                final(self).machine(),
                final(self).pview(),
                r,
            ),
    {
        let ghost t_init = self.timers();
        let ghost m_init = self.machine();
        let ghost p_init = self.pview();
        let ghost t_fin = run_timers(t_init, duration).0;
        let ghost mut evs_done: Seq<Event> = Seq::empty();
        let mut remaining = duration;
        while remaining > 0
            invariant
                self.wf(),
                t_init == old(self).timers(),
                m_init == old(self).machine(),
                p_init == old(self).pview(),
                run_timers(t_init, duration).0 == run_timers(self.timers(), remaining).0,
                run_timers(t_init, duration).1 == evs_done + run_timers(self.timers(), remaining).1,
                t_fin == run_timers(t_init, duration).0,
                run_rel(
                    evs_done,
                    m_init,
                    p_init,
                    self.machine(),
                    self.pview(),
                    t_fin,
                    Ok::<(), InterpreterError>(()),
                ),
            decreases remaining,
        {
            let ghost t_cur = self.timers();
            let ghost m_cur = self.machine();
            let ghost p_cur = self.pview();
            let ghost evs_before = evs_done;
            let (res, step) = self.advance_one_step(remaining);
            let ghost t_next = self.timers();
            let ghost ev = step_event(t_cur, step);
            proof {
                lemma_run_timers_unfold(t_cur, remaining, step);
            }
            if res.is_err() {
                proof {
                    assert(event_fires(ev));
                    assert(run_rel(
                        seq![ev],
                        m_cur,
                        p_cur,
                        self.machine(),
                        self.pview(),
                        t_next,
                        res,
                    ));
                    lemma_run_rel_ok_t_any(evs_before, m_init, p_init, m_cur, p_cur, t_fin, t_next);
                    lemma_run_rel_compose(
                        evs_before,
                        seq![ev],
                        m_init,
                        p_init,
                        m_cur,
                        p_cur,
                        self.machine(),
                        self.pview(),
                        t_next,
                        res,
                    );
                    assert((evs_before + seq![ev]) + run_timers(
                        t_next,
                        (remaining - step) as u64,
                    ).1 =~= evs_before + (seq![ev] + run_timers(t_next, (remaining - step) as u64).1));
                    lemma_run_rel_err_prefix(
                        evs_before + seq![ev],
                        run_timers(t_next, (remaining - step) as u64).1,
                        m_init,
                        p_init,
                        self.machine(),
                        self.pview(),
                        t_next,
                        res,
                    );
                    assert(run_timers(t_init, duration).1 == evs_before + (seq![ev] + run_timers(
                        t_next,
                        (remaining - step) as u64,
                    ).1));
                    assert(advance_rel(
                        old(self).timers(),
                        old(self).machine(),
                        old(self).pview(),
                        duration,
                        self.timers(),
                        self.machine(),
                        self.pview(),
                        res,
                    ));
                }
                return res;
            }
            proof {
                if event_fires(ev) {
                    lemma_ok_unit(res);
                    assert(run_rel(
                        seq![ev],
                        m_cur,
                        p_cur,
                        self.machine(),
                        self.pview(),
                        t_next,
                        Ok::<(), InterpreterError>(()),
                    ));
                    lemma_run_rel_ok_t_any(
                        seq![ev],
                        m_cur,
                        p_cur,
                        self.machine(),
                        self.pview(),
                        t_next,
                        t_fin,
                    );
                    lemma_run_rel_compose(
                        evs_before,
                        seq![ev],
                        m_init,
                        p_init,
                        m_cur,
                        p_cur,
                        self.machine(),
                        self.pview(),
                        t_fin,
                        Ok::<(), InterpreterError>(()),
                    );
                    evs_done = evs_before + seq![ev];
                    assert((evs_before + seq![ev]) + run_timers(
                        t_next,
                        (remaining - step) as u64,
                    ).1 =~= evs_before + (seq![ev] + run_timers(t_next, (remaining - step) as u64).1));
                }
            }
            remaining = remaining - step;
        }
        proof {
            assert(run_timers(self.timers(), 0).1 =~= Seq::<Event>::empty());
            assert(evs_done + Seq::<Event>::empty() =~= evs_done);
        }
        Ok(())
    }
}

/// A run that faults on the last event of a prefix also relates the full
/// event sequence: the trailing events are never reached.
#[verifier::rlimit(100)]
proof fn lemma_run_rel_err_prefix(
    e1: Seq<Event>,
    e2: Seq<Event>,
    m0: MachineView,
    p0: PlatView,
    m1: MachineView,
    p1: PlatView,
    t1: SchedView,
    r: Result<(), InterpreterError>,
)
    requires
        r is Err,
        run_rel(e1, m0, p0, m1, p1, t1, r),
    ensures
        run_rel(e1 + e2, m0, p0, m1, p1, t1, r),
    decreases e1.len(),
{
    if e1.len() == 0 {
        assert(false);
    } else {
        let e = e1[0];
        let whole = e1 + e2;
        assert(whole[0] == e);
        assert(whole.drop_first() =~= e1.drop_first() + e2);
        let ps = after_ticks(e, p0);
        if e.instr {
            let (m2, p2, rr) = choose|m2: MachineView, p2: PlatView, rr: Result<
                (),
                InterpreterError,
            >|
                {
                    &&& #[trigger] cycle_rel(m0, ps, m2, p2, rr)
                    &&& if rr is Err {
                        r == rr && m1 == m2 && p1 == p2 && t1 == e.after
                    } else {
                        run_rel(e1.drop_first(), m2, p2, m1, p1, t1, r)
                    }
                };
            if rr is Ok {
                lemma_run_rel_err_prefix(e1.drop_first(), e2, m2, p2, m1, p1, t1, r);
            }
            lemma_run_rel_step_intro(whole, m0, p0, m2, p2, rr, m1, p1, t1, r);
        } else {
            lemma_run_rel_err_prefix(e1.drop_first(), e2, m0, ps, m1, p1, t1, r);
            lemma_run_rel_step_intro(whole, m0, p0, m0, ps, Ok::<(), InterpreterError>(()), m1, p1,
                t1, r);
        }
    }
}

} // verus!
