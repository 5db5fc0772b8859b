//! The game clock, built on the stopwatch of `bevy_core`.

use bevy_core::Stopwatch;
use std::time::Duration;
use vstd::prelude::*;
use vstd::string::StringExecFns;

verus! {

/// The stopwatch type of `bevy_core`, carried as an opaque value.
#[verifier::external_type_specification]
#[verifier::external_body]
pub struct ExStopwatch(Stopwatch);

/// The nanoseconds that a duration holds, as `Duration::as_nanos` returns them.
pub uninterp spec fn duration_nanos(d: Duration) -> nat;

/// The nanoseconds that a stopwatch has counted, as the duration that
/// `Stopwatch::elapsed` returns holds them.
pub uninterp spec fn stopwatch_nanos(watch: Stopwatch) -> nat;

/// Whether a stopwatch is paused, as `Stopwatch::paused` returns it.
pub uninterp spec fn stopwatch_paused(watch: Stopwatch) -> bool;

/// The nanoseconds in a second.
pub const NANOS_PER_SECOND: u64 = 1_000_000_000;

/// The most nanoseconds that a duration can hold: `u64::MAX` seconds and
/// one nanosecond less than a further second.
pub open spec fn max_nanos() -> nat {
    (0x1_0000_0000_0000_0000 * 1_000_000_000 - 1) as nat
}

/// `Stopwatch::new`: a running stopwatch that has counted nothing.
#[verifier::external_body]
fn stopwatch_new() -> (watch: Stopwatch)
    ensures
        stopwatch_nanos(watch) == 0,
        !stopwatch_paused(watch),
{
    Stopwatch::new()
}

/// `Stopwatch::pause`: the stopwatch is paused and keeps its count.
#[verifier::external_body]
fn stopwatch_pause(watch: &mut Stopwatch)
    ensures
        stopwatch_paused(*final(watch)),
        stopwatch_nanos(*final(watch)) == stopwatch_nanos(*old(watch)),
{
    watch.pause()
}

/// `Stopwatch::unpause`: the stopwatch runs and keeps its count.
#[verifier::external_body]
fn stopwatch_unpause(watch: &mut Stopwatch)
    ensures
        !stopwatch_paused(*final(watch)),
        stopwatch_nanos(*final(watch)) == stopwatch_nanos(*old(watch)),
{
    watch.unpause()
}

/// `Stopwatch::paused`: whether the stopwatch is paused.
#[verifier::external_body]
fn stopwatch_is_paused(watch: &Stopwatch) -> (paused: bool)
    ensures
        paused == stopwatch_paused(*watch),
{
    watch.paused()
}

/// `Stopwatch::reset`: the count goes back to nothing; paused stays paused.
#[verifier::external_body]
fn stopwatch_reset(watch: &mut Stopwatch)
    ensures
        stopwatch_nanos(*final(watch)) == 0,
        stopwatch_paused(*final(watch)) == stopwatch_paused(*old(watch)),
{
    watch.reset()
}

/// `Stopwatch::elapsed`: the duration that the stopwatch has counted.
#[verifier::external_body]
fn stopwatch_elapsed(watch: &Stopwatch) -> (elapsed: Duration)
    ensures
        duration_nanos(elapsed) == stopwatch_nanos(*watch),
{
    watch.elapsed()
}

/// `Stopwatch::tick`: a running stopwatch adds the duration to its count, a
/// paused one keeps it. The addition panics where the sum is more than a
/// duration can hold, so that case is left out.
#[verifier::external_body]
fn stopwatch_tick(watch: &mut Stopwatch, delta: Duration)
    requires
        !stopwatch_paused(*old(watch)) ==> stopwatch_nanos(*old(watch)) + duration_nanos(delta)
            <= max_nanos(),
    ensures
        stopwatch_paused(*final(watch)) == stopwatch_paused(*old(watch)),
        stopwatch_nanos(*final(watch)) == if stopwatch_paused(*old(watch)) {
            stopwatch_nanos(*old(watch))
        } else {
            stopwatch_nanos(*old(watch)) + duration_nanos(delta)
        },
{
    watch.tick(delta);
}

/// `Duration::as_secs`: the whole seconds that the duration holds.
#[verifier::external_body]
fn duration_as_secs(d: Duration) -> (secs: u64)
    ensures
        secs == duration_nanos(d) / (NANOS_PER_SECOND as nat),
{
    d.as_secs()
}

/// `Duration::checked_add`: the sum of the two durations, or `None` where
/// it is more than a duration can hold.
#[verifier::external_body]
fn duration_checked_add(a: Duration, b: Duration) -> (sum: Option<Duration>)
    ensures
        sum is Some <==> duration_nanos(a) + duration_nanos(b) <= max_nanos(),
        sum matches Some(d) ==> duration_nanos(d) == duration_nanos(a) + duration_nanos(b),
{
    a.checked_add(b)
}

/// The character of a decimal digit.
pub open spec fn digit_char(d: nat) -> char {
    if d == 0 {
        '0'
    } else if d == 1 {
        '1'
    } else if d == 2 {
        '2'
    } else if d == 3 {
        '3'
    } else if d == 4 {
        '4'
    } else if d == 5 {
        '5'
    } else if d == 6 {
        '6'
    } else if d == 7 {
        '7'
    } else if d == 8 {
        '8'
    } else {
        '9'
    }
}

/// The decimal digits of a number, without leading zeros.
pub open spec fn decimal(n: nat) -> Seq<char>
    decreases n,
{
    if n < 10 {
        seq![digit_char(n)]
    } else {
        decimal(n / 10).push(digit_char(n % 10))
    }
}

/// The decimal digits of a number, with a zero in front of a single digit.
pub open spec fn two_digits(n: nat) -> Seq<char> {
    if n < 10 {
        seq!['0'] + decimal(n)
    } else {
        decimal(n)
    }
}

/// The minutes that the clock shows after `secs` seconds: the whole
/// minutes, but no more than 65535.
pub open spec fn clock_minutes(secs: nat) -> nat {
    if secs / 60 > u16::MAX {
        u16::MAX as nat
    } else {
        secs / 60
    }
}

/// What the clock shows after `secs` seconds: minutes and seconds, each
/// with at least two digits, with a colon between them.
pub open spec fn clock_text(secs: nat) -> Seq<char> {
    two_digits(clock_minutes(secs)) + seq![':'] + two_digits(secs % 60)
}

fn push_digit(text: &mut String, d: u16)
    requires
        d < 10,
    ensures
        final(text)@ == old(text)@.push(digit_char(d as nat)),
{
    let digit = if d == 0 {
        "0"
    } else if d == 1 {
        "1"
    } else if d == 2 {
        "2"
    } else if d == 3 {
        "3"
    } else if d == 4 {
        "4"
    } else if d == 5 {
        "5"
    } else if d == 6 {
        "6"
    } else if d == 7 {
        "7"
    } else if d == 8 {
        "8"
    } else {
        "9"
    };
    proof {
        reveal_strlit("0");
        reveal_strlit("1");
        reveal_strlit("2");
        reveal_strlit("3");
        reveal_strlit("4");
        reveal_strlit("5");
        reveal_strlit("6");
        reveal_strlit("7");
        reveal_strlit("8");
        reveal_strlit("9");
        assert(digit@ =~= seq![digit_char(d as nat)]);
    }
    text.append(digit);
    assert(final(text)@ =~= old(text)@.push(digit_char(d as nat)));
}

fn push_decimal(text: &mut String, n: u16)
    ensures
        final(text)@ == old(text)@ + decimal(n as nat),
    decreases n,
{
    if n >= 10 {
        push_decimal(text, n / 10);
    }
    push_digit(text, n % 10);
    assert(final(text)@ =~= old(text)@ + decimal(n as nat));
}

fn push_two_digits(text: &mut String, n: u16)
    ensures
        final(text)@ == old(text)@ + two_digits(n as nat),
{
    if n < 10 {
        push_digit(text, 0);
    }
    push_decimal(text, n);
    assert(final(text)@ =~= old(text)@ + two_digits(n as nat));
}

/// The text that the clock shows after `secs` seconds, such as `03:07`.
pub fn clock_string(secs: u64) -> (text: String)
    ensures
        text@ == clock_text(secs as nat),
{
    let whole: u64 = secs / 60;
    let minutes: u16 = if whole > 65535 {
        65535
    } else {
        whole as u16
    };
    let seconds: u16 = (secs % 60) as u16;
    let mut text = String::new();
    push_two_digits(&mut text, minutes);
    proof {
        reveal_strlit(":");
        assert(":"@ =~= seq![':']);
    }
    text.append(":");
    push_two_digits(&mut text, seconds);
    assert(text@ =~= clock_text(secs as nat));
    text
}

/// The time played in the current round.
pub struct GameTime {
    watch: Stopwatch,
}

impl GameTime {
    /// Whether the clock is paused.
    pub closed spec fn paused(&self) -> bool {
        stopwatch_paused(self.watch)
    }

    /// The nanoseconds that the clock has counted.
    pub closed spec fn nanos(&self) -> nat {
        stopwatch_nanos(self.watch)
    }

    /// The whole seconds that the clock has counted.
    pub open spec fn secs(&self) -> nat {
        self.nanos() / (NANOS_PER_SECOND as nat)
    }

    /// The clock can still count `delta` more.
    pub open spec fn fits(&self, delta: Duration) -> bool {
        self.nanos() + duration_nanos(delta) <= max_nanos()
    }

    /// A clock that has counted nothing and is paused.
    pub fn new_paused() -> (time: GameTime)
        ensures
            time.paused(),
            time.nanos() == 0,
    {
        let mut watch = stopwatch_new();
        stopwatch_pause(&mut watch);
        GameTime { watch }
    }

    /// Sets the count back to nothing; a paused clock stays paused.
    pub fn reset(&mut self)
        ensures
            final(self).nanos() == 0,
            final(self).paused() == old(self).paused(),
    {
        stopwatch_reset(&mut self.watch);
    }

    pub fn pause(&mut self)
        ensures
            final(self).paused(),
            final(self).nanos() == old(self).nanos(),
    {
        stopwatch_pause(&mut self.watch);
    }

    pub fn unpause(&mut self)
        ensures
            !final(self).paused(),
            final(self).nanos() == old(self).nanos(),
    {
        stopwatch_unpause(&mut self.watch);
    }

    pub fn is_paused(&self) -> (paused: bool)
        ensures
            paused == self.paused(),
    {
        stopwatch_is_paused(&self.watch)
    }

    /// The time that the clock has counted.
    pub fn elapsed(&self) -> (elapsed: Duration)
        ensures
            duration_nanos(elapsed) == self.nanos(),
    {
        stopwatch_elapsed(&self.watch)
    }

    /// The whole seconds that the clock has counted.
    pub fn elapsed_secs(&self) -> (secs: u64)
        ensures
            secs == self.secs(),
    {
        duration_as_secs(stopwatch_elapsed(&self.watch))
    }

    /// Whether the clock can still count `delta` more.
    pub fn can_tick(&self, delta: Duration) -> (fits: bool)
        ensures
            fits == self.fits(delta),
    {
        duration_checked_add(stopwatch_elapsed(&self.watch), delta).is_some()
    }

    /// Adds `delta` to the count of a running clock; a paused clock keeps its count.
    pub fn tick(&mut self, delta: Duration)
        requires
            !old(self).paused() ==> old(self).fits(delta),
        ensures
            final(self).paused() == old(self).paused(),
            final(self).nanos() == if old(self).paused() {
                old(self).nanos()
            } else {
                old(self).nanos() + duration_nanos(delta)
            },
    {
        stopwatch_tick(&mut self.watch, delta);
    }

    /// Adds `delta` to the count of a running clock where the clock can
    /// still count it, and says whether it could; a clock that cannot is
    /// left as it is, and so is a paused one.
    pub fn try_tick(&mut self, delta: Duration) -> (done: bool)
        ensures
            done == (old(self).paused() || old(self).fits(delta)),
            !done ==> *final(self) == *old(self),
            done ==> final(self).paused() == old(self).paused(),
            done ==> final(self).nanos() == if old(self).paused() {
                old(self).nanos()
            } else {
                old(self).nanos() + duration_nanos(delta)
            },
    {
        if !self.is_paused() && !self.can_tick(delta) {
            return false;
        }
        self.tick(delta);
        true
    }

    /// The time played as minutes and seconds, such as `03:07`.
    pub fn to_string(&self) -> (text: String)
        ensures
            text@ == clock_text(self.secs()),
    {
        clock_string(self.elapsed_secs())
    }
}

/// Whether the clock runs in this frame: it runs already, or it is paused
/// and the player has triggered or marked a tile.
pub open spec fn clock_runs(paused: bool, trigger_events: usize, mark_events: usize) -> bool {
    !paused || trigger_events > 0 || mark_events > 0
}

/// Moves the game clock on by one frame. A paused clock starts with the
/// first tile that the player triggers or marks; a running clock counts
/// the time `delta` that the frame took.
pub fn game_time_system(
    game_time: &mut GameTime,
    delta: Duration,
    trigger_events: usize,
    mark_events: usize,
)
    requires
        clock_runs(old(game_time).paused(), trigger_events, mark_events) ==> old(game_time).fits(
            delta,
        ),
    ensures
        final(game_time).paused() == !clock_runs(
            old(game_time).paused(),
            trigger_events,
            mark_events,
        ),
        final(game_time).nanos() == if final(game_time).paused() {
            old(game_time).nanos()
        } else {
            old(game_time).nanos() + duration_nanos(delta)
        },
{
    if game_time.is_paused() {
        if trigger_events > 0 || mark_events > 0 {
            game_time.unpause();
        }
    }
    if !game_time.is_paused() {
        game_time.tick(delta);
    }
}

/// Moves the game clock on by one frame where it can count the time of the
/// frame, and says whether it did; a clock that cannot is left as it is.
pub fn try_game_time_system(
    game_time: &mut GameTime,
    delta: Duration,
    trigger_events: usize,
    mark_events: usize,
) -> (done: bool)
    ensures
        done == (clock_runs(old(game_time).paused(), trigger_events, mark_events) ==> old(
            game_time,
        ).fits(delta)),
        !done ==> *final(game_time) == *old(game_time),
        done ==> final(game_time).paused() == !clock_runs(
            old(game_time).paused(),
            trigger_events,
            mark_events,
        ),
        done ==> final(game_time).nanos() == if final(game_time).paused() {
            old(game_time).nanos()
        } else {
            old(game_time).nanos() + duration_nanos(delta)
        },
{
    let runs = !game_time.is_paused() || trigger_events > 0 || mark_events > 0;
    if runs && !game_time.can_tick(delta) {
        return false;
    }
    game_time_system(game_time, delta, trigger_events, mark_events);
    true
}

} // verus!
