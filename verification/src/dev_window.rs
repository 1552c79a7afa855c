//! The stopwatch window: a stopwatch that the space bar starts and stops and
//! `r` resets, and that shows the time it has counted as hours, minutes and
//! seconds.
//!
//! Instants are nanoseconds since an origin that the caller fixes (the
//! clock's reading when the program started, say); durations are counts of
//! nanoseconds.

use vstd::prelude::*;

use crate::app::Command;
use crate::digits::{decimal, push_char, push_decimal};

verus! {

/// Nanoseconds in one second.
pub const NANOS_PER_SEC: u64 = 1_000_000_000u64;

/// A mark on the stopwatch's record: when it was started, or stopped.
#[derive(Clone, Copy, PartialEq, Eq)]
pub enum StartStop {
    Start(u64),
    Stop(u64),
}

/// The time from `earlier` to `later`, or zero when `later` comes first.
pub open spec fn elapsed_between(earlier: u64, later: u64) -> nat {
    if earlier <= later {
        (later - earlier) as nat
    } else {
        0
    }
}

/// The marks alternate: a start, a stop, a start, and so on.
pub open spec fn alternates(marks: Seq<StartStop>) -> bool {
    forall|i: int| 0 <= i < marks.len() ==> ((#[trigger] marks[i] is Start) <==> i % 2 == 0)
}

/// Whether the stopwatch is counting: its last mark is a start.
pub open spec fn running(marks: Seq<StartStop>) -> bool {
    marks.len() > 0 && marks.last() is Start
}

/// The number of pairs the marks fall into, a lone last start counting as
/// one.
pub open spec fn chunk_count(len: nat) -> nat {
    len / 2 + len % 2
}

/// The time that the `k`-th pair of marks counts: from its start to its
/// stop, or, for a lone last start, from that start to `now`.
pub open spec fn chunk_time(marks: Seq<StartStop>, k: int, now: u64) -> nat {
    if 2 * k + 1 < marks.len() {
        match (marks[2 * k], marks[2 * k + 1]) {
            (StartStop::Start(a), StartStop::Stop(b)) => elapsed_between(a, b),
            _ => 0,
        }
    } else if 2 * k < marks.len() {
        match marks[2 * k] {
            StartStop::Start(a) => elapsed_between(a, now),
            _ => 0,
        }
    } else {
        0
    }
}

/// The time that the first `k` pairs of marks count.
pub open spec fn chunks_time(marks: Seq<StartStop>, k: nat, now: u64) -> nat
    decreases k,
{
    if k == 0 {
        0
    } else {
        chunks_time(marks, (k - 1) as nat, now) + chunk_time(marks, k - 1, now)
    }
}

/// The time the stopwatch has counted at `now`.
pub open spec fn total_time(marks: Seq<StartStop>, now: u64) -> nat {
    chunks_time(marks, chunk_count(marks.len()), now)
}

/// Whole seconds in `nanos`.
pub open spec fn whole_secs(nanos: nat) -> nat {
    nanos / (NANOS_PER_SEC as nat)
}

/// Whole hours in `secs` seconds.
pub open spec fn hours_of(secs: nat) -> nat {
    secs / 60 / 60
}

/// Minutes past the last whole hour.
pub open spec fn minutes_of(secs: nat) -> nat {
    (secs / 60) % 60
}

/// Seconds past the last whole minute.
pub open spec fn seconds_of(secs: nat) -> nat {
    secs % 60
}

/// A duration written as `H:M:S`.
pub open spec fn clock_face(nanos: nat) -> Seq<char> {
    let secs = whole_secs(nanos);
    decimal(hours_of(secs)) + seq![':'] + decimal(minutes_of(secs)) + seq![':'] + decimal(
        seconds_of(secs),
    )
}

/// A duration written as `Hh Mm Ss`.
pub open spec fn spelled(nanos: nat) -> Seq<char> {
    let secs = whole_secs(nanos);
    decimal(hours_of(secs)) + "h "@ + decimal(minutes_of(secs)) + "m "@ + decimal(seconds_of(secs))
        + "s"@
}

/// The name of a mark as the window shows it.
pub open spec fn mark_name(m: StartStop) -> Seq<char> {
    match m {
        StartStop::Start(_) => "Start"@,
        StartStop::Stop(_) => "Stop"@,
    }
}

/// The names of the marks, separated by `, `.
pub open spec fn mark_names(marks: Seq<StartStop>) -> Seq<char>
    decreases marks.len(),
{
    if marks.len() == 0 {
        Seq::empty()
    } else if marks.len() == 1 {
        mark_name(marks[0])
    } else {
        mark_names(marks.drop_last()) + ", "@ + mark_name(marks.last())
    }
}

/// The marks as a bracketed list, such as `[Start, Stop]`.
pub open spec fn marks_list(marks: Seq<StartStop>) -> Seq<char> {
    "["@ + mark_names(marks) + "]"@
}

/// The list names the marks in the order they were recorded: a new mark's
/// name comes last, after those of the marks before it.
pub proof fn lemma_marks_list_in_record_order(marks: Seq<StartStop>, m: StartStop)
    ensures
        marks.len() == 0 ==> marks_list(marks.push(m)) == "["@ + mark_name(m) + "]"@,
        marks.len() > 0 ==> marks_list(marks.push(m)) == marks_list(marks).subrange(
            0,
            marks_list(marks).len() - 1,
        ) + ", "@ + mark_name(m) + "]"@,
        marks_list(Seq::<StartStop>::empty()) == "["@ + "]"@,
{
    let p = marks.push(m);
    assert(p.drop_last() =~= marks);
    if marks.len() == 0 {
        assert(mark_names(p) == mark_name(p[0]));
        assert(marks_list(p) =~= "["@ + mark_name(m) + "]"@);
    } else {
        let l = marks_list(marks);
        reveal_strlit("]");
        assert("]"@.len() == 1);
        assert(l.subrange(0, l.len() - 1) =~= "["@ + mark_names(marks));
        assert(marks_list(p) =~= "["@ + mark_names(marks) + ", "@ + mark_name(m) + "]"@);
    }
    assert(mark_names(Seq::<StartStop>::empty()) =~= Seq::<char>::empty());
}

/// The text the window shows at `now`: the counted time as `H:M:S`, a line
/// break, then the list of marks.
pub open spec fn frame_text_of(marks: Seq<StartStop>, now: u64) -> Seq<char> {
    clock_face(total_time(marks, now)) + seq!['\n'] + marks_list(marks)
}

/// The time from `earlier` to `later`, or zero when `later` comes first.
pub fn since(earlier: u64, later: u64) -> (d: u64)
    ensures
        d == elapsed_between(earlier, later),
        earlier <= later ==> d + earlier == later,
        later < earlier ==> d == 0,
{
    if earlier <= later {
        later - earlier
    } else {
        0
    }
}

impl StartStop {
    /// The name of the mark as the window shows it: `Start` or `Stop`.
    pub fn name(&self) -> (s: &'static str)
        ensures
            s@ == mark_name(*self),
    {
        match self {
            StartStop::Start(_) => "Start",
            StartStop::Stop(_) => "Stop",
        }
    }
}

/// The whole seconds in `nanos` and the nanoseconds past them, when the
/// seconds fit in 64 bits.
pub fn duration_parts(nanos: u128) -> (parts: Option<(u64, u32)>)
    ensures
        match parts {
            Some((secs, sub)) => secs == whole_secs(nanos as nat) && sub == nanos % (
            NANOS_PER_SEC as u128),
            None => whole_secs(nanos as nat) > u64::MAX,
        },
{
    let secs = nanos / (NANOS_PER_SEC as u128);
    let sub = nanos % (NANOS_PER_SEC as u128);
    if secs <= u64::MAX as u128 {
        Some((secs as u64, sub as u32))
    } else {
        None
    }
}

/// Whole hours, minutes past the hour, and seconds past the minute in
/// `nanos`.
pub fn split_hms(nanos: u128) -> (hms: (u128, u128, u128))
    ensures
        hms.0 == hours_of(whole_secs(nanos as nat)),
        hms.1 == minutes_of(whole_secs(nanos as nat)),
        hms.2 == seconds_of(whole_secs(nanos as nat)),
{
    let secs = nanos / (NANOS_PER_SEC as u128);
    (secs / 60 / 60, (secs / 60) % 60, secs % 60)
}

/// Appends `nanos` written as `Hh Mm Ss` to `s`.
pub fn push_spelled(s: &mut String, nanos: u128)
    ensures
        final(s)@ == old(s)@ + spelled(nanos as nat),
{
    let (h, m, sec) = split_hms(nanos);
    push_decimal(s, h);
    s.append("h ");
    push_decimal(s, m);
    s.append("m ");
    push_decimal(s, sec);
    s.append("s");
    assert(final(s)@ =~= old(s)@ + spelled(nanos as nat));
}

/// Appends `nanos` written as `H:M:S` to `s`.
pub fn push_clock_face(s: &mut String, nanos: u128)
    ensures
        final(s)@ == old(s)@ + clock_face(nanos as nat),
{
    let (h, m, sec) = split_hms(nanos);
    push_decimal(s, h);
    push_char(s, ':');
    push_decimal(s, m);
    push_char(s, ':');
    push_decimal(s, sec);
    assert(final(s)@ =~= old(s)@ + clock_face(nanos as nat));
}

/// Appends the marks as a bracketed list, such as `[Start, Stop]`, to `s`.
pub fn push_marks_list(s: &mut String, marks: &Vec<StartStop>)
    ensures
        final(s)@ == old(s)@ + marks_list(marks@),
{
    s.append("[");
    let n = marks.len();
    let mut i: usize = 0;
    while i < n
        invariant
            n == marks@.len(),
            i <= n,
            s@ == old(s)@ + "["@ + mark_names(marks@.take(i as int)),
        decreases n - i,
    {
        if i > 0 {
            s.append(", ");
        }
        let name = marks[i].name();
        s.append(name);
        proof {
            let taken = marks@.take(i + 1);
            assert(taken.drop_last() =~= marks@.take(i as int));
            assert(taken.last() == marks@[i as int]);
            if i == 0 {
                assert(taken.len() == 1);
                assert(mark_names(marks@.take(0)) =~= Seq::<char>::empty());
            }
        }
        i = i + 1;
    }
    s.append("]");
    assert(marks@.take(n as int) =~= marks@);
    assert(final(s)@ =~= old(s)@ + marks_list(marks@));
}

/// What the space bar did to the stopwatch.
#[derive(Clone, Copy, PartialEq, Eq)]
pub enum Toggle {
    /// It had never run; it is now counting.
    Started,
    /// It was counting and has stopped; `total` is the time it counted.
    Stopped { total: u128 },
    /// It was stopped for `paused_for` and counts again; `total` is the time
    /// it had counted before.
    Resumed { paused_for: u64, total: u128 },
}

/// The marks after the space bar was pressed at `now`.
pub open spec fn toggled_marks(marks: Seq<StartStop>, now: u64) -> Seq<StartStop> {
    if running(marks) {
        marks.push(StartStop::Stop(now))
    } else {
        marks.push(StartStop::Start(now))
    }
}

/// Whether `outcome` is what the space bar pressed at `now` reports.
pub open spec fn toggle_reports(marks: Seq<StartStop>, now: u64, outcome: Toggle) -> bool {
    match outcome {
        Toggle::Started => marks.len() == 0,
        Toggle::Stopped { total } => running(marks) && total == total_time(marks, now),
        Toggle::Resumed { paused_for, total } => {
            &&& marks.len() > 0
            &&& marks.last() matches StartStop::Stop(t) && paused_for == elapsed_between(t, now)
            &&& total == total_time(marks, now)
        },
    }
}

/// A stopwatch: the record of when it was started and stopped.
pub struct Stopwatch {
    marks: Vec<StartStop>,
}

impl View for Stopwatch {
    type V = Seq<StartStop>;

    closed spec fn view(&self) -> Seq<StartStop> {
        self.marks@
    }
}

impl Stopwatch {
    #[verifier::type_invariant]
    spec fn marks_alternate(&self) -> bool {
        alternates(self.marks@)
    }

    /// A stopwatch that has never run.
    pub fn new() -> (w: Self)
        ensures
            w@ == Seq::<StartStop>::empty(),
    {
        Stopwatch { marks: Vec::new() }
    }

    /// The record of starts and stops, oldest first.
    pub fn marks(&self) -> (m: &Vec<StartStop>)
        ensures
            m@ == self@,
            alternates(self@),
    {
        proof {
            use_type_invariant(self);
        }
        &self.marks
    }

    /// The time counted at `now`: the sum, over each start, of the time to
    /// the stop that follows it, or to `now` if none does yet.
    pub fn total(&self, now: u64) -> (t: u128)
        ensures
            t == total_time(self@, now),
            alternates(self@),
    {
        proof {
            use_type_invariant(self);
        }
        let n = self.marks.len();
        let count = n / 2 + n % 2;
        let mut k: usize = 0;
        let mut t: u128 = 0;
        while k < count
            invariant
                n == self.marks@.len(),
                count == chunk_count(n as nat),
                k <= count,
                t == chunks_time(self.marks@, k as nat, now),
                t <= k * 0xffff_ffff_ffff_ffffu128,
            decreases count - k,
        {
            let i = 2 * k;
            let seg: u64 = if i + 1 < n {
                match (self.marks[i], self.marks[i + 1]) {
                    (StartStop::Start(a), StartStop::Stop(b)) => since(a, b),
                    _ => 0,
                }
            } else {
                match self.marks[i] {
                    StartStop::Start(a) => since(a, now),
                    _ => 0,
                }
            };
            assert(seg == chunk_time(self.marks@, k as int, now));
            assert(t + seg <= (k + 1) * 0xffff_ffff_ffff_ffffu128 < 0x1_0000_0000_0000_0000_0000_0000_0000_0000)
                by (nonlinear_arith)
                requires
                    t <= k * 0xffff_ffff_ffff_ffffu128,
                    seg <= 0xffff_ffff_ffff_ffffu64,
                    k < 0x1_0000_0000_0000_0000,
            ;
            t = t + seg as u128;
            k = k + 1;
        }
        t
    }

    /// Appends `mark`, which keeps the marks alternating.
    fn push_mark(&mut self, mark: StartStop)
        requires
            alternates(old(self)@.push(mark)),
        ensures
            final(self)@ == old(self)@.push(mark),
    {
        let mut marks = Vec::new();
        std::mem::swap(&mut marks, &mut self.marks);
        marks.push(mark);
        self.marks = marks;
    }

    /// The space bar: stops a running stopwatch, starts one that is not
    /// running, and reports which it did.
    pub fn toggle(&mut self, now: u64) -> (outcome: Toggle)
        ensures
            final(self)@ == toggled_marks(old(self)@, now),
            toggle_reports(old(self)@, now, outcome),
            alternates(final(self)@),
    {
        proof {
            use_type_invariant(&*self);
        }
        let total = self.total(now);
        let n = self.marks.len();
        if n == 0 {
            proof {
                assert(alternates(self.marks@.push(StartStop::Start(now))));
            }
            self.push_mark(StartStop::Start(now));
            Toggle::Started
        } else {
            let last = self.marks[n - 1];
            match last {
                StartStop::Start(_) => {
                    proof {
                        let m = self.marks@;
                        assert(m[n - 1] is Start);
                        assert((n - 1) % 2 == 0);
                        assert(alternates(m.push(StartStop::Stop(now)))) by {
                            assert forall|i: int| 0 <= i < m.len() + 1 implies ((#[trigger] m.push(
                                StartStop::Stop(now),
                            )[i] is Start) <==> i % 2 == 0) by {
                                if i < m.len() {
                                    assert(m.push(StartStop::Stop(now))[i] == m[i]);
                                }
                            }
                        }
                    }
                    self.push_mark(StartStop::Stop(now));
                    Toggle::Stopped { total }
                },
                StartStop::Stop(stopped) => {
                    let paused_for = since(stopped, now);
                    proof {
                        let m = self.marks@;
                        assert(!(m[n - 1] is Start));
                        assert((n - 1) % 2 == 1);
                        assert(alternates(m.push(StartStop::Start(now)))) by {
                            assert forall|i: int| 0 <= i < m.len() + 1 implies ((#[trigger] m.push(
                                StartStop::Start(now),
                            )[i] is Start) <==> i % 2 == 0) by {
                                if i < m.len() {
                                    assert(m.push(StartStop::Start(now))[i] == m[i]);
                                }
                            }
                        }
                    }
                    self.push_mark(StartStop::Start(now));
                    Toggle::Resumed { paused_for, total }
                },
            }
        }
    }

    /// The `r` key: forgets every start and stop.
    pub fn reset(&mut self)
        ensures
            final(self)@ == Seq::<StartStop>::empty(),
            alternates(final(self)@),
    {
        self.marks = Vec::new();
    }
}

/// The first `k` pairs of marks, when all of them are complete pairs, count
/// the same whatever the reading of the clock, and the same once a mark is
/// appended.
proof fn lemma_complete_chunks(marks: Seq<StartStop>, extra: StartStop, k: nat, now1: u64, now2: u64)
    requires
        2 * k <= marks.len(),
    ensures
        chunks_time(marks.push(extra), k, now1) == chunks_time(marks, k, now2),
    decreases k,
{
    if k > 0 {
        lemma_complete_chunks(marks, extra, (k - 1) as nat, now1, now2);
        let j = k - 1;
        assert(marks.push(extra)[2 * j] == marks[2 * j]);
        assert(marks.push(extra)[2 * j + 1] == marks[2 * j + 1]);
    }
}

/// The same, without appending anything.
proof fn lemma_complete_chunks_frozen(marks: Seq<StartStop>, k: nat, now1: u64, now2: u64)
    requires
        2 * k <= marks.len(),
    ensures
        chunks_time(marks, k, now1) == chunks_time(marks, k, now2),
    decreases k,
{
    if k > 0 {
        lemma_complete_chunks_frozen(marks, (k - 1) as nat, now1, now2);
    }
}

/// A stopwatch that is not running shows the same time whenever it is
/// read.
pub proof fn lemma_stopped_total_is_frozen(marks: Seq<StartStop>, now1: u64, now2: u64)
    requires
        alternates(marks),
        !running(marks),
    ensures
        total_time(marks, now1) == total_time(marks, now2),
{
    if marks.len() % 2 == 1 {
        assert(marks.last() is Start);
    }
    lemma_complete_chunks_frozen(marks, chunk_count(marks.len()), now1, now2);
}

/// A running stopwatch shows the time of its completed runs plus the time
/// since its last start.
pub proof fn lemma_running_total(marks: Seq<StartStop>, now: u64)
    requires
        alternates(marks),
        running(marks),
    ensures
        marks.last() matches StartStop::Start(a) && total_time(marks, now) == total_time(
            marks.drop_last(),
            now,
        ) + elapsed_between(a, now),
{
    let n = marks.len();
    if n % 2 == 0 {
        assert(!(marks[n - 1] is Start));
    }
    let c = ((n - 1) / 2) as nat;
    let prefix = marks.drop_last();
    assert(prefix.push(marks.last()) =~= marks);
    lemma_complete_chunks(prefix, marks.last(), c, now, now);
}

/// The time shown never goes back as the clock goes on.
pub proof fn lemma_total_monotone(marks: Seq<StartStop>, now1: u64, now2: u64)
    requires
        alternates(marks),
        now1 <= now2,
    ensures
        total_time(marks, now1) <= total_time(marks, now2),
{
    if running(marks) {
        lemma_running_total(marks, now1);
        lemma_running_total(marks, now2);
        let prefix = marks.drop_last();
        assert(alternates(prefix));
        if prefix.len() % 2 == 1 {
            assert(prefix[prefix.len() - 1] is Start);
            assert(marks[marks.len() - 2] is Start);
        }
        assert(!running(prefix));
        lemma_stopped_total_is_frozen(prefix, now1, now2);
    } else {
        lemma_stopped_total_is_frozen(marks, now1, now2);
    }
}

/// Stopping at `t` freezes the time shown at what it was at `t`.
pub proof fn lemma_stop_freezes(marks: Seq<StartStop>, t: u64, later: u64)
    requires
        alternates(marks),
        running(marks),
    ensures
        !running(toggled_marks(marks, t)),
        total_time(toggled_marks(marks, t), later) == total_time(marks, t),
{
    let n = marks.len();
    if n % 2 == 0 {
        assert(!(marks[n - 1] is Start));
    }
    let c = ((n - 1) / 2) as nat;
    let stopped = marks.push(StartStop::Stop(t));
    lemma_complete_chunks(marks, StartStop::Stop(t), c, later, t);
    assert(stopped[2 * c as int] == marks[2 * c as int]);
}

/// Starting again at `t` counts on from the time shown when stopped.
pub proof fn lemma_resume_counts_on(marks: Seq<StartStop>, t: u64, now: u64)
    requires
        alternates(marks),
        !running(marks),
    ensures
        running(toggled_marks(marks, t)),
        total_time(toggled_marks(marks, t), now) == total_time(marks, t) + elapsed_between(t, now),
{
    let n = marks.len();
    if n % 2 == 1 {
        assert(marks[n - 1] is Start);
    }
    let c = (n / 2) as nat;
    let started = marks.push(StartStop::Start(t));
    lemma_complete_chunks(marks, StartStop::Start(t), c, now, t);
}

/// A start and a stop at the same instant count nothing: the time shown
/// stays what it was.
pub proof fn lemma_instant_toggle_counts_nothing(marks: Seq<StartStop>, t: u64, later: u64)
    requires
        alternates(marks),
        !running(marks),
    ensures
        total_time(toggled_marks(toggled_marks(marks, t), t), later) == total_time(marks, later),
{
    lemma_resume_counts_on(marks, t, t);
    let started = toggled_marks(marks, t);
    assert(alternates(started)) by {
        assert forall|i: int| 0 <= i < started.len() implies ((#[trigger] started[i] is Start)
            <==> i % 2 == 0) by {
            if i < marks.len() {
                assert(started[i] == marks[i]);
            } else if marks.len() % 2 == 1 {
                assert(marks[marks.len() - 1] is Start);
            }
        }
    }
    lemma_stop_freezes(started, t, later);
    lemma_stopped_total_is_frozen(marks, t, later);
}

/// The time between two instants in order is their difference, however
/// long: nothing caps it.
pub proof fn lemma_elapsed_is_difference(earlier: u64, later: u64)
    ensures
        earlier <= later ==> elapsed_between(earlier, later) + earlier == later,
        later < earlier ==> elapsed_between(earlier, later) == 0,
{
}

/// One run from `a` to `b` counts exactly `b - a`, whenever it is read.
pub proof fn lemma_single_run_total(a: u64, b: u64, now: u64)
    requires
        a <= b,
    ensures
        total_time(seq![StartStop::Start(a), StartStop::Stop(b)], now) + a == b,
{
    let m = seq![StartStop::Start(a), StartStop::Stop(b)];
    assert(chunk_count(m.len()) == 1);
    assert(chunks_time(m, 1, now) == chunks_time(m, 0, now) + chunk_time(m, 0, now));
}

/// Runs add up: appending a completed run from `a` to `b` to a stopped
/// stopwatch adds exactly `b - a` to the time it shows.
pub proof fn lemma_runs_add_up(marks: Seq<StartStop>, a: u64, b: u64, now: u64)
    requires
        alternates(marks),
        !running(marks),
        a <= b,
    ensures
        total_time(marks.push(StartStop::Start(a)).push(StartStop::Stop(b)), now) == total_time(
            marks,
            now,
        ) + (b - a),
{
    lemma_resume_counts_on(marks, a, b);
    let started = marks.push(StartStop::Start(a));
    assert(started == toggled_marks(marks, a));
    assert(alternates(started)) by {
        assert forall|i: int| 0 <= i < started.len() implies ((#[trigger] started[i] is Start)
            <==> i % 2 == 0) by {
            if i < marks.len() {
                assert(started[i] == marks[i]);
            } else if marks.len() % 2 == 1 {
                assert(marks[marks.len() - 1] is Start);
            }
        }
    }
    lemma_stop_freezes(started, b, now);
    assert(toggled_marks(started, b) == started.push(StartStop::Stop(b)));
    lemma_stopped_total_is_frozen(marks, a, now);
}

/// The line printed when the space bar stops a running stopwatch gives the
/// whole time counted over all its runs, the same time that `toggle`
/// reports and that the window shows afterwards.
pub proof fn lemma_stop_line_is_whole_total(marks: Seq<StartStop>, now: u64, later: u64)
    requires
        alternates(marks),
        running(marks),
    ensures
        toggle_message(marks, now) == Some("total "@ + spelled(total_time(marks, now))),
        toggle_message(marks, now) == Some(
            "total "@ + spelled(total_time(toggled_marks(marks, now), later)),
        ),
{
    lemma_stop_freezes(marks, now, later);
}

/// A stopwatch with no record shows no time.
pub proof fn lemma_reset_shows_nothing(now: u64)
    ensures
        total_time(Seq::<StartStop>::empty(), now) == 0,
{
}

/// Whole hours, minutes and seconds make up the seconds they were taken
/// from, with fewer than sixty minutes and sixty seconds.
pub proof fn lemma_hms_decomposition(secs: nat)
    ensures
        hours_of(secs) * 3600 + minutes_of(secs) * 60 + seconds_of(secs) == secs,
        minutes_of(secs) < 60,
        seconds_of(secs) < 60,
{
    let q = secs / 60;
    assert(q * 60 + secs % 60 == secs);
    assert((q / 60) * 60 + q % 60 == q);
    assert(hours_of(secs) * 3600 == (q / 60) * 60 * 60) by (nonlinear_arith)
        requires
            hours_of(secs) == q / 60,
    ;
}

/// How the window asks the event loop to wait for the next event.
#[derive(Clone, Copy, PartialEq, Eq)]
pub enum TimerFlow {
    /// Until something happens.
    Wait,
    /// At most `nanos` nanoseconds.
    WaitFor { nanos: u64 },
    /// At most `whole_secs` seconds less the fraction of a second in
    /// `elapsed_nanos`: until the counted time, `elapsed_nanos` now, next
    /// reaches a whole second, and `whole_secs - 1` seconds more.
    WaitRemainder { whole_secs: u64, elapsed_nanos: u128 },
}

/// What the window shows: its text, and the right and bottom edges of the
/// area the text is laid out in.
pub struct Frame {
    pub text: String,
    pub right: i32,
    pub bottom: i32,
}

/// What the window wants done after an event, by the type `H` of the
/// window handlers that the application's commands carry.
pub struct Reaction<H> {
    /// Let the user drag the window.
    pub drag_window: bool,
    /// A line to print.
    pub print: Option<String>,
    /// Draw the window again.
    pub request_redraw: bool,
    /// Resize the drawing surface to this width and height.
    pub reconfigure: Option<(u32, u32)>,
    /// Draw this frame now.
    pub frame: Option<Frame>,
    /// Commands for the application.
    pub commands: Vec<Command<H, TimerFlow>>,
}

/// The events the window reacts to.
pub enum DevEvent {
    /// A mouse button went down.
    MousePressed,
    /// A key went down and produced `text`.
    KeyPressed { text: String },
    /// The window now has this size in pixels.
    Resized { width: u32, height: u32 },
    /// The window should be drawn.
    RedrawRequested,
    /// The user asked to close the window.
    CloseRequested,
    /// Anything else.
    Other,
}

/// A reaction that prints nothing and asks for nothing but the parts
/// flagged here.
pub open spec fn asks_at_most<H>(
    r: Reaction<H>,
    drag: bool,
    redraw: bool,
    reconfigure: bool,
    frame: bool,
    commands: bool,
) -> bool {
    &&& (!drag ==> !r.drag_window)
    &&& r.print is None
    &&& (!redraw ==> !r.request_redraw)
    &&& (!reconfigure ==> r.reconfigure is None)
    &&& (!frame ==> r.frame is None)
    &&& (!commands ==> r.commands@.len() == 0)
}

/// A reaction that asks for nothing.
pub open spec fn quiet<H>(r: Reaction<H>) -> bool {
    asks_at_most(r, false, false, false, false, false)
}

/// The text of an optional line.
pub open spec fn opt_text(line: Option<String>) -> Option<Seq<char>> {
    match line {
        Some(s) => Some(s@),
        None => None,
    }
}

/// The line that the space bar pressed at `now` prints: the time counted,
/// when it stops the stopwatch; the time it stood still, when it restarts
/// it; nothing on the very first start.
pub open spec fn toggle_message(marks: Seq<StartStop>, now: u64) -> Option<Seq<char>> {
    if marks.len() == 0 {
        None
    } else {
        match marks.last() {
            StartStop::Start(_) => Some("total "@ + spelled(total_time(marks, now))),
            StartStop::Stop(t) => Some("stopped for "@ + spelled(elapsed_between(t, now))),
        }
    }
}

/// How the window waits after the space bar was pressed at `now`: for the
/// next event once stopped; for the next tick of the second hand, a second
/// on, when restarted; for one second on the very first start.
pub open spec fn toggle_flow(marks: Seq<StartStop>, now: u64) -> TimerFlow {
    if marks.len() == 0 {
        TimerFlow::WaitFor { nanos: NANOS_PER_SEC }
    } else {
        match marks.last() {
            StartStop::Start(_) => TimerFlow::Wait,
            StartStop::Stop(_) => TimerFlow::WaitRemainder {
                whole_secs: 2,
                elapsed_nanos: total_time(marks, now) as u128,
            },
        }
    }
}

impl<H> Reaction<H> {
    /// A reaction that asks for nothing.
    pub fn none() -> (r: Self)
        ensures
            quiet(r),
    {
        Reaction {
            drag_window: false,
            print: None,
            request_redraw: false,
            reconfigure: None,
            frame: None,
            commands: Vec::new(),
        }
    }
}

/// The decisions of the stopwatch window: its id, its size, and its
/// stopwatch.
pub struct DevWindow {
    pub window_id: u64,
    pub width: u32,
    pub height: u32,
    pub stopwatch: Stopwatch,
}

impl DevWindow {
    /// Window `window_id`, `width` by `height` pixels, with a stopwatch
    /// that has never run.
    pub fn new(window_id: u64, width: u32, height: u32) -> (w: Self)
        ensures
            w.window_id == window_id,
            w.width == width,
            w.height == height,
            w.stopwatch@ == Seq::<StartStop>::empty(),
    {
        DevWindow { window_id, width, height, stopwatch: Stopwatch::new() }
    }

    /// The frame to draw at `now`.
    pub fn frame(&self, now: u64) -> (f: Frame)
        ensures
            f.text@ == frame_text_of(self.stopwatch@, now),
            f.right == self.width as i32,
            f.bottom == self.height as i32,
    {
        let total = self.stopwatch.total(now);
        let mut text = String::new();
        push_clock_face(&mut text, total);
        push_char(&mut text, '\n');
        push_marks_list(&mut text, self.stopwatch.marks());
        assert(text@ =~= frame_text_of(self.stopwatch@, now));
        Frame { text, right: self.width as i32, bottom: self.height as i32 }
    }

    /// The reaction to `event`, which happened at `now`.
    ///
    /// A mouse button lets the user drag the window. The space bar starts or
    /// stops the stopwatch (see `toggled_marks`), prints what
    /// `toggle_message` says, asks for a redraw and sets the control flow to
    /// `toggle_flow`. `r` resets the stopwatch and asks for a redraw; other
    /// keys do nothing. A resize records the new size and asks for the
    /// surface to follow. A redraw request draws `frame_text_of` the
    /// stopwatch in the window's area. A close request asks the application
    /// to remove this window.
    pub fn window_event<H>(&mut self, event: DevEvent, now: u64) -> (r: Reaction<H>)
        ensures
            final(self).window_id == old(self).window_id,
            match event {
                DevEvent::MousePressed => {
                    &&& r.drag_window
                    &&& asks_at_most(r, true, false, false, false, false)
                    &&& final(self).same_as(*old(self))
                },
                DevEvent::KeyPressed { text } => {
                    if text@ == " "@ {
                        &&& final(self).width == old(self).width
                        &&& final(self).height == old(self).height
                        &&& final(self).stopwatch@ == toggled_marks(old(self).stopwatch@, now)
                        &&& opt_text(r.print) == toggle_message(old(self).stopwatch@, now)
                        &&& (running(old(self).stopwatch@) ==> (r.print matches Some(line)
                            && line@ == "total "@ + spelled(total_time(old(self).stopwatch@, now))))
                        &&& r.request_redraw
                        &&& !r.drag_window
                        &&& r.reconfigure is None
                        &&& r.frame is None
                        &&& r.commands@ == seq![
                            Command::<H, TimerFlow>::SetControlFlow(
                                toggle_flow(old(self).stopwatch@, now),
                            ),
                        ]
                    } else if text@ == "r"@ {
                        &&& final(self).width == old(self).width
                        &&& final(self).height == old(self).height
                        &&& final(self).stopwatch@ == Seq::<StartStop>::empty()
                        &&& r.request_redraw
                        &&& asks_at_most(r, false, true, false, false, false)
                    } else {
                        &&& quiet(r)
                        &&& final(self).same_as(*old(self))
                    }
                },
                DevEvent::Resized { width, height } => {
                    &&& final(self).width == width
                    &&& final(self).height == height
                    &&& final(self).stopwatch@ == old(self).stopwatch@
                    &&& r.reconfigure == Some((width, height))
                    &&& asks_at_most(r, false, false, true, false, false)
                },
                DevEvent::RedrawRequested => {
                    &&& final(self).same_as(*old(self))
                    &&& r.frame matches Some(f) && f.text@ == frame_text_of(
                        old(self).stopwatch@,
                        now,
                    ) && f.right == old(self).width as i32 && f.bottom == old(self).height as i32
                    &&& asks_at_most(r, false, false, false, true, false)
                },
                DevEvent::CloseRequested => {
                    &&& final(self).same_as(*old(self))
                    &&& r.commands@ == seq![Command::<H, TimerFlow>::RemoveWindow(old(self).window_id)]
                    &&& asks_at_most(r, false, false, false, false, true)
                },
                DevEvent::Other => quiet(r) && final(self).same_as(*old(self)),
            },
    {
        match event {
            DevEvent::MousePressed => {
                let mut r = Reaction::none();
                r.drag_window = true;
                r
            },
            DevEvent::KeyPressed { text } => {
                if text == String::from_str(" ") {
                    self.press_space(now)
                } else if text == String::from_str("r") {
                    self.stopwatch.reset();
                    let mut r = Reaction::none();
                    r.request_redraw = true;
                    r
                } else {
                    Reaction::none()
                }
            },
            DevEvent::Resized { width, height } => {
                self.width = width;
                self.height = height;
                let mut r = Reaction::none();
                r.reconfigure = Some((width, height));
                r
            },
            DevEvent::RedrawRequested => {
                let mut r = Reaction::none();
                r.frame = Some(self.frame(now));
                r
            },
            DevEvent::CloseRequested => {
                let mut r = Reaction::none();
                r.commands.push(Command::RemoveWindow(self.window_id));
                r
            },
            DevEvent::Other => Reaction::none(),
        }
    }

    /// The reaction to the start of a new batch of events at `now`: when the
    /// wait that the window asked for ran out (`resume_time_reached`), draw
    /// again and wait for the next tick of the second hand of the counted
    /// time; otherwise nothing.
    pub fn new_events<H>(&self, resume_time_reached: bool, now: u64) -> (r: Reaction<H>)
        ensures
            resume_time_reached ==> {
                &&& r.request_redraw
                &&& r.commands@ == seq![
                    Command::<H, TimerFlow>::SetControlFlow(
                        TimerFlow::WaitRemainder {
                            whole_secs: 1,
                            elapsed_nanos: total_time(self.stopwatch@, now) as u128,
                        },
                    ),
                ]
                &&& asks_at_most(r, false, true, false, false, true)
            },
            !resume_time_reached ==> quiet(r),
    {
        if resume_time_reached {
            let total = self.stopwatch.total(now);
            let mut r = Reaction::none();
            r.request_redraw = true;
            r.commands.push(
                Command::SetControlFlow(TimerFlow::WaitRemainder { whole_secs: 1, elapsed_nanos: total }),
            );
            r
        } else {
            Reaction::none()
        }
    }

    /// Same id, size and record of starts and stops.
    pub open spec fn same_as(&self, other: Self) -> bool {
        &&& self.window_id == other.window_id
        &&& self.width == other.width
        &&& self.height == other.height
        &&& self.stopwatch@ == other.stopwatch@
    }

    /// The space bar at `now`.
    fn press_space<H>(&mut self, now: u64) -> (r: Reaction<H>)
        ensures
            final(self).window_id == old(self).window_id,
            final(self).width == old(self).width,
            final(self).height == old(self).height,
            final(self).stopwatch@ == toggled_marks(old(self).stopwatch@, now),
            opt_text(r.print) == toggle_message(old(self).stopwatch@, now),
            running(old(self).stopwatch@) ==> (r.print matches Some(line) && line@ == "total "@
                + spelled(total_time(old(self).stopwatch@, now))),
            r.request_redraw,
            !r.drag_window,
            r.reconfigure is None,
            r.frame is None,
            r.commands@ == seq![
                Command::<H, TimerFlow>::SetControlFlow(toggle_flow(old(self).stopwatch@, now)),
            ],
    {
        let outcome = self.stopwatch.toggle(now);
        let (print, flow) = match outcome {
            Toggle::Stopped { total } => {
                let mut line = String::from_str("total ");
                push_spelled(&mut line, total);
                (Some(line), TimerFlow::Wait)
            },
            Toggle::Resumed { paused_for, total } => {
                let mut line = String::from_str("stopped for ");
                push_spelled(&mut line, paused_for as u128);
                (Some(line), TimerFlow::WaitRemainder { whole_secs: 2, elapsed_nanos: total })
            },
            Toggle::Started => (None, TimerFlow::WaitFor { nanos: NANOS_PER_SEC }),
        };
        let mut commands = Vec::new();
        commands.push(Command::SetControlFlow(flow));
        Reaction {
            drag_window: false,
            print,
            request_redraw: true,
            reconfigure: None,
            frame: None,
            commands,
        }
    }
}

} // verus!
