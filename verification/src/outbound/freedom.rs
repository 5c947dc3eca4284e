//! The direct way out, and the pump that carries bytes through a pipe.

use vstd::prelude::*;

verus! {

/// The direct way out.
#[derive(Debug)]
pub struct FreedomOutbound {
    pub outbound_proxy: Option<String>,
    pub bind_address: Option<String>,
}

impl FreedomOutbound {
    /// The direct way out, through a proxy and from a local address where they are given.
    pub fn new(outbound_proxy: Option<String>, bind_address: Option<String>) -> (r:
        FreedomOutbound)
        ensures
            r == (FreedomOutbound { outbound_proxy, bind_address }),
    {
        FreedomOutbound { outbound_proxy, bind_address }
    }
}

/// How many bytes the pipe takes.
pub const PIPE_CAPACITY: usize = 65536;

/// How long the pump rests when nothing moved, in milliseconds.
pub const IDLE_PAUSE: u64 = 5;

/// How long the pump rests when the rest cannot be written yet, in milliseconds.
pub const FLUSH_PAUSE: u64 = 2;

/// What the pump is about to do.
#[derive(Debug, Clone, Copy, PartialEq, Eq)]
pub enum Stage {
    /// Fill the pipe from the source.
    Fill,
    /// Empty the pipe into the sink.
    Drain,
    /// Rest, since nothing moved in this round.
    Rest,
    /// Shut down the reading side of the source and the writing side of the sink.
    Close,
    /// Empty what is left in the pipe into the sink.
    Flush,
    /// Rest, since the sink takes nothing for now.
    FlushRest,
    /// Nothing more.
    Done,
}

/// What is to be done outside.
#[derive(Debug, Clone, Copy, PartialEq, Eq)]
pub enum PumpAction {
    /// Move at most that many bytes from the source into the pipe.
    Fill(usize),
    /// Move at most that many bytes from the pipe into the sink.
    Drain(usize),
    /// Sleep for that many milliseconds.
    Sleep(u64),
    /// Shut down the two sockets.
    Shutdown,
    /// Report how many bytes reached the sink.
    Report(u64),
}

/// What came of it.
#[derive(Debug, Clone, Copy, PartialEq, Eq)]
pub enum PumpEvent {
    /// That many bytes moved. None means that the other side has closed.
    Moved(usize),
    /// Nothing can move for now.
    Again,
    /// The move failed.
    Failed,
    /// The sleep is over, or the sockets are shut down.
    Woke,
}

/// A pump that carries bytes from a source to a sink through a pipe.
#[derive(Debug, Clone, Copy, PartialEq, Eq)]
pub struct Pump {
    pub stage: Stage,
    /// How many bytes the pipe holds.
    pub in_pipe: usize,
    /// How many bytes reached the sink.
    pub total: u64,
    /// Whether something moved in this round.
    pub progress: bool,
}

/// Whether the pump is in a state that it can be in: the pipe is not overfull, there is room
/// to fill and something to drain when that is what it is about to do.
pub open spec fn pump_valid(p: Pump) -> bool {
    &&& p.in_pipe <= PIPE_CAPACITY
    &&& p.stage == Stage::Fill ==> p.in_pipe < PIPE_CAPACITY
    &&& p.stage == Stage::Drain || p.stage == Stage::Flush || p.stage == Stage::FlushRest
        ==> p.in_pipe > 0
}

/// What the pump asks for.
pub open spec fn pump_action(p: Pump) -> PumpAction {
    match p.stage {
        Stage::Fill => PumpAction::Fill((PIPE_CAPACITY - p.in_pipe) as usize),
        Stage::Drain => PumpAction::Drain(p.in_pipe),
        Stage::Rest => PumpAction::Sleep(IDLE_PAUSE),
        Stage::Close => PumpAction::Shutdown,
        Stage::Flush => PumpAction::Drain(p.in_pipe),
        Stage::FlushRest => PumpAction::Sleep(FLUSH_PAUSE),
        Stage::Done => PumpAction::Report(p.total),
    }
}

/// Whether the event can answer what the pump asks for: no more bytes move than it asked for,
/// and the total stays below the largest number.
pub open spec fn pump_accepts(p: Pump, e: PumpEvent) -> bool {
    match p.stage {
        Stage::Fill => e is Moved ==> e->Moved_0 <= PIPE_CAPACITY - p.in_pipe,
        Stage::Drain | Stage::Flush => e is Moved ==> e->Moved_0 <= p.in_pipe && p.total
            + e->Moved_0 <= u64::MAX,
        _ => e is Woke,
    }
}

/// The beginning of a round.
pub open spec fn next_round(p: Pump) -> Pump {
    Pump {
        stage: if p.in_pipe < PIPE_CAPACITY {
            Stage::Fill
        } else {
            Stage::Drain
        },
        progress: false,
        ..p
    }
}

/// The end of a round.
pub open spec fn end_round(p: Pump) -> Pump {
    if p.progress {
        next_round(p)
    } else {
        Pump { stage: Stage::Rest, ..p }
    }
}

/// Behind the first half of a round.
pub open spec fn after_fill(p: Pump) -> Pump {
    if p.in_pipe > 0 {
        Pump { stage: Stage::Drain, ..p }
    } else {
        end_round(p)
    }
}

/// While something is left in the pipe, it is flushed.
pub open spec fn flush_on(p: Pump) -> Pump {
    Pump {
        stage: if p.in_pipe > 0 {
            Stage::Flush
        } else {
            Stage::Done
        },
        ..p
    }
}

/// The pump after bytes have left the pipe for the sink.
pub open spec fn drained(p: Pump, n: usize) -> Pump {
    Pump { in_pipe: (p.in_pipe - n) as usize, total: (p.total + n) as u64, progress: true, ..p }
}

/// The pump after an event.
pub open spec fn pump_step(p: Pump, e: PumpEvent) -> Pump {
    match p.stage {
        Stage::Fill => match e {
            PumpEvent::Moved(n) => if n == 0 {
                Pump { stage: Stage::Close, ..p }
            } else {
                after_fill(Pump { in_pipe: (p.in_pipe + n) as usize, progress: true, ..p })
            },
            PumpEvent::Failed => Pump { stage: Stage::Close, ..p },
            _ => after_fill(p),
        },
        Stage::Drain => match e {
            PumpEvent::Moved(n) => if n == 0 {
                Pump { stage: Stage::Close, ..p }
            } else {
                end_round(drained(p, n))
            },
            PumpEvent::Failed => Pump { stage: Stage::Close, ..p },
            _ => end_round(p),
        },
        Stage::Rest => next_round(p),
        Stage::Close => flush_on(p),
        Stage::Flush => match e {
            PumpEvent::Moved(n) => if n == 0 {
                Pump { stage: Stage::Done, ..p }
            } else {
                flush_on(drained(p, n))
            },
            PumpEvent::Failed => Pump { stage: Stage::Done, ..p },
            _ => Pump { stage: Stage::FlushRest, ..p },
        },
        Stage::FlushRest => Pump { stage: Stage::Flush, ..p },
        Stage::Done => p,
    }
}

/// A pump that has not moved anything yet.
pub open spec fn pump_start() -> Pump {
    Pump { stage: Stage::Fill, in_pipe: 0, total: 0, progress: false }
}

/// The pump after a run of events.
pub open spec fn pump_run(events: Seq<PumpEvent>) -> Pump
    decreases events.len(),
{
    if events.len() == 0 {
        pump_start()
    } else {
        pump_step(pump_run(events.drop_last()), events.last())
    }
}

/// Whether each event of a run can answer what the pump asked for.
pub open spec fn pump_accepts_all(events: Seq<PumpEvent>) -> bool
    decreases events.len(),
{
    events.len() > 0 ==> pump_accepts_all(events.drop_last()) && pump_accepts(
        pump_run(events.drop_last()),
        events.last(),
    )
}

/// How many bytes a run of events has taken from the source.
pub open spec fn taken_in(events: Seq<PumpEvent>) -> nat
    decreases events.len(),
{
    if events.len() == 0 {
        0
    } else {
        taken_in(events.drop_last()) + match events.last() {
            PumpEvent::Moved(n) => if pump_run(events.drop_last()).stage == Stage::Fill {
                n as nat
            } else {
                0
            },
            _ => 0,
        }
    }
}

/// No byte is lost and none is made: after every run of events, what was taken from the
/// source has reached the sink or is still in the pipe. The pipe is never overfull.
pub proof fn law_pump_conserves(events: Seq<PumpEvent>)
    requires
        pump_accepts_all(events),
    ensures
        pump_valid(pump_run(events)),
        taken_in(events) == pump_run(events).total + pump_run(events).in_pipe,
    decreases events.len(),
{
    if events.len() > 0 {
        law_pump_conserves(events.drop_last());
    }
}

/// Once the pump reports, it has reported for good.
pub proof fn law_pump_report_is_final(p: Pump, e: PumpEvent)
    requires
        p.stage == Stage::Done,
    ensures
        pump_action(pump_step(p, e)) == pump_action(p),
{
}

/// When the source has closed and the sink takes everything that is left in one move, the
/// pump reports all that was taken in.
pub proof fn law_pump_flushes(p: Pump)
    requires
        pump_valid(p),
        p.stage == Stage::Fill,
        p.total + p.in_pipe <= u64::MAX,
    ensures
        ({
            let closed = pump_step(pump_step(p, PumpEvent::Moved(0)), PumpEvent::Woke);
            let end = if p.in_pipe > 0 {
                pump_step(closed, PumpEvent::Moved(p.in_pipe))
            } else {
                closed
            };
            pump_action(end) == PumpAction::Report((p.total + p.in_pipe) as u64)
        }),
{
}

impl Pump {
    /// A pump that has not moved anything yet.
    pub fn new() -> (r: Pump)
        ensures
            r == pump_start(),
            pump_valid(r),
    {
        Pump { stage: Stage::Fill, in_pipe: 0, total: 0, progress: false }
    }

    /// What is to be done next.
    pub fn action(&self) -> (r: PumpAction)
        requires
            pump_valid(*self),
        ensures
            r == pump_action(*self),
    {
        match self.stage {
            Stage::Fill => PumpAction::Fill(PIPE_CAPACITY - self.in_pipe),
            Stage::Drain => PumpAction::Drain(self.in_pipe),
            Stage::Rest => PumpAction::Sleep(IDLE_PAUSE),
            Stage::Close => PumpAction::Shutdown,
            Stage::Flush => PumpAction::Drain(self.in_pipe),
            Stage::FlushRest => PumpAction::Sleep(FLUSH_PAUSE),
            Stage::Done => PumpAction::Report(self.total),
        }
    }

    /// Takes note of what came of it.
    pub fn advance(&mut self, event: PumpEvent)
        requires
            pump_valid(*old(self)),
            pump_accepts(*old(self), event),
        ensures
            pump_valid(*final(self)),
            *final(self) == pump_step(*old(self), event),
    {
        match self.stage {
            Stage::Fill => match event {
                PumpEvent::Moved(n) => {
                    if n == 0 {
                        self.stage = Stage::Close;
                    } else {
                        self.in_pipe = self.in_pipe + n;
                        self.progress = true;
                        self.after_fill();
                    }
                },
                PumpEvent::Failed => {
                    self.stage = Stage::Close;
                },
                _ => {
                    self.after_fill();
                },
            },
            Stage::Drain => match event {
                PumpEvent::Moved(n) => {
                    if n == 0 {
                        self.stage = Stage::Close;
                    } else {
                        self.drained(n);
                        self.end_round();
                    }
                },
                PumpEvent::Failed => {
                    self.stage = Stage::Close;
                },
                _ => {
                    self.end_round();
                },
            },
            Stage::Rest => {
                self.next_round();
            },
            Stage::Close => {
                self.flush_on();
            },
            Stage::Flush => match event {
                PumpEvent::Moved(n) => {
                    if n == 0 {
                        self.stage = Stage::Done;
                    } else {
                        self.drained(n);
                        self.flush_on();
                    }
                },
                PumpEvent::Failed => {
                    self.stage = Stage::Done;
                },
                _ => {
                    self.stage = Stage::FlushRest;
                },
            },
            Stage::FlushRest => {
                self.stage = Stage::Flush;
            },
            Stage::Done => {},
        }
    }

    fn next_round(&mut self)
        ensures
            *final(self) == next_round(*old(self)),
    {
        self.stage = if self.in_pipe < PIPE_CAPACITY {
            Stage::Fill
        } else {
            Stage::Drain
        };
        self.progress = false;
    }

    fn end_round(&mut self)
        ensures
            *final(self) == end_round(*old(self)),
    {
        if self.progress {
            self.next_round();
        } else {
            self.stage = Stage::Rest;
        }
    }

    fn after_fill(&mut self)
        ensures
            *final(self) == after_fill(*old(self)),
    {
        if self.in_pipe > 0 {
            self.stage = Stage::Drain;
        } else {
            self.end_round();
        }
    }

    fn flush_on(&mut self)
        ensures
            *final(self) == flush_on(*old(self)),
    {
        self.stage = if self.in_pipe > 0 {
            Stage::Flush
        } else {
            Stage::Done
        };
    }

    fn drained(&mut self, n: usize)
        requires
            n <= old(self).in_pipe,
            old(self).total + n <= u64::MAX,
        ensures
            *final(self) == drained(*old(self), n),
    {
        self.in_pipe = self.in_pipe - n;
        self.total = self.total + n as u64;
        self.progress = true;
    }
}

/// The pump closes only for a reason: as long as bytes move or nothing can move for now, it goes
/// on filling, draining or resting. When the other side has closed or a move has failed, it
/// closes at once.
pub proof fn law_pump_closes_for_a_reason(p: Pump, e: PumpEvent)
    requires
        pump_valid(p),
        pump_accepts(p, e),
        p.stage == Stage::Fill || p.stage == Stage::Drain || p.stage == Stage::Rest,
    ensures
        ({
            let next = pump_action(pump_step(p, e));
            let over = p.stage != Stage::Rest && (e == PumpEvent::Moved(0) || e
                == PumpEvent::Failed);
            &&& over ==> next == PumpAction::Shutdown
            &&& !over ==> next is Fill || next is Drain || next == PumpAction::Sleep(5)
            &&& pump_step(p, e).stage == Stage::Close <==> over
        }),
{
}

/// A connection stays open as long as its source has not closed and nothing has failed: over
/// any run of such events, the pump neither shuts down nor reports.
pub proof fn law_pump_stays_open(events: Seq<PumpEvent>)
    requires
        pump_accepts_all(events),
        forall|i: int|
            0 <= i < events.len() ==> #[trigger] events[i] != PumpEvent::Moved(0) && events[i]
                != PumpEvent::Failed,
    ensures
        ({
            let p = pump_run(events);
            &&& p.stage == Stage::Fill || p.stage == Stage::Drain || p.stage == Stage::Rest
            &&& pump_action(p) != PumpAction::Shutdown
            &&& !(pump_action(p) is Report)
        }),
    decreases events.len(),
{
    if events.len() > 0 {
        let front = events.drop_last();
        assert forall|i: int| 0 <= i < front.len() implies #[trigger] front[i]
            != PumpEvent::Moved(0) && front[i] != PumpEvent::Failed by {
            assert(front[i] == events[i]);
        }
        law_pump_stays_open(front);
        law_pump_conserves(front);
        assert(events.last() == events[events.len() - 1]);
    }
}

/// Whether something that was taken in this round is why the pump goes on: at the beginning of
/// a round nothing has moved yet.
proof fn lemma_round_begins_still(events: Seq<PumpEvent>)
    requires
        pump_accepts_all(events),
    ensures
        pump_run(events).stage == Stage::Fill ==> !pump_run(events).progress,
        pump_run(events).stage == Stage::Rest ==> !pump_run(events).progress,
    decreases events.len(),
{
    if events.len() > 0 {
        lemma_round_begins_still(events.drop_last());
    }
}

/// What the pump holds is offered to the sink, and what there is room for is asked of the
/// source, each time as much as there is: after bytes came in, all that the pipe holds is to go
/// out; after bytes went out, the source is asked for as many as there is room for. Where
/// nothing could move in a round, the pump rests, and then it tries again.
pub proof fn law_pump_keeps_moving(events: Seq<PumpEvent>, e: PumpEvent)
    requires
        pump_accepts_all(events),
        pump_accepts(pump_run(events), e),
    ensures
        ({
            let p = pump_run(events);
            let q = pump_step(p, e);
            let next = pump_action(q);
            &&& p.stage == Stage::Fill ==> pump_action(p) == PumpAction::Fill(
                (65536 - p.in_pipe) as usize,
            ) && p.in_pipe < 65536
            &&& p.stage == Stage::Drain || p.stage == Stage::Flush ==> pump_action(p)
                == PumpAction::Drain(p.in_pipe) && p.in_pipe > 0
            &&& p.stage == Stage::Fill ==> match e {
                PumpEvent::Moved(n) => q.in_pipe == p.in_pipe + n && q.total == p.total && (n > 0
                    ==> next == PumpAction::Drain(q.in_pipe)),
                PumpEvent::Failed => q.in_pipe == p.in_pipe && q.total == p.total,
                _ => q.in_pipe == p.in_pipe && q.total == p.total && next == if p.in_pipe > 0 {
                    PumpAction::Drain(p.in_pipe)
                } else {
                    PumpAction::Sleep(5)
                },
            }
            &&& p.stage == Stage::Drain ==> match e {
                PumpEvent::Moved(n) => q.in_pipe == p.in_pipe - n && q.total == p.total + n && (n
                    > 0 ==> next == PumpAction::Fill((65536 - q.in_pipe) as usize)),
                PumpEvent::Failed => q.in_pipe == p.in_pipe && q.total == p.total,
                _ => q.in_pipe == p.in_pipe && q.total == p.total && next == if !p.progress {
                    PumpAction::Sleep(5)
                } else if p.in_pipe < 65536 {
                    PumpAction::Fill((65536 - p.in_pipe) as usize)
                } else {
                    PumpAction::Drain(p.in_pipe)
                },
            }
            &&& p.stage == Stage::Rest ==> q.in_pipe == p.in_pipe && q.total == p.total && next
                == if p.in_pipe < 65536 {
                PumpAction::Fill((65536 - p.in_pipe) as usize)
            } else {
                PumpAction::Drain(p.in_pipe)
            }
        }),
{
    law_pump_conserves(events);
    lemma_round_begins_still(events);
}

/// After the sockets are shut down, what is left in the pipe still goes to the sink: the pump
/// drains until the pipe is empty or the sink takes nothing more for good, rests while the sink
/// takes nothing for now, and then reports all that has reached the sink.
pub proof fn law_pump_empties_the_pipe(p: Pump, e: PumpEvent)
    requires
        pump_valid(p),
        pump_accepts(p, e),
        p.stage == Stage::Close || p.stage == Stage::Flush || p.stage == Stage::FlushRest,
    ensures
        ({
            let q = pump_step(p, e);
            let next = pump_action(q);
            let rest = if q.in_pipe > 0 {
                PumpAction::Drain(q.in_pipe)
            } else {
                PumpAction::Report(q.total)
            };
            &&& q.in_pipe + q.total == p.in_pipe + p.total
            &&& p.stage == Stage::Close || p.stage == Stage::FlushRest ==> next == rest && q.in_pipe
                == p.in_pipe
            &&& p.stage == Stage::Flush ==> match e {
                PumpEvent::Moved(n) => q.in_pipe == p.in_pipe - n && next == if n > 0 {
                    rest
                } else {
                    PumpAction::Report(p.total)
                },
                PumpEvent::Failed => q.in_pipe == p.in_pipe && next == PumpAction::Report(p.total),
                _ => q.in_pipe == p.in_pipe && next == PumpAction::Sleep(2),
            }
        }),
{
}

/// Whether the sink has taken what it was offered, as far as it was ready: no move towards it
/// has failed or found it closed.
pub open spec fn sink_held(events: Seq<PumpEvent>) -> bool
    decreases events.len(),
{
    events.len() > 0 ==> sink_held(events.drop_last()) && {
        let stage = pump_run(events.drop_last()).stage;
        stage == Stage::Drain || stage == Stage::Flush ==> events.last() != PumpEvent::Moved(0)
            && events.last() != PumpEvent::Failed
    }
}

/// A connection carries everything: if the sink has held, then when the pump reports, all bytes
/// that were taken from the source have reached the sink.
pub proof fn law_pump_delivers_everything(events: Seq<PumpEvent>)
    requires
        pump_accepts_all(events),
        sink_held(events),
    ensures
        pump_action(pump_run(events)) matches PumpAction::Report(total) ==> total == taken_in(
            events,
        ),
        pump_run(events).stage == Stage::Done ==> pump_run(events).in_pipe == 0,
    decreases events.len(),
{
    law_pump_conserves(events);
    if events.len() > 0 {
        law_pump_delivers_everything(events.drop_last());
        law_pump_conserves(events.drop_last());
    }
}

/// The pump takes everything that can happen: any number of bytes up to what it asked for, that
/// nothing can move for now, that a move fails; and the end of a sleep. It begins with an empty
/// pipe and asks for as much as the pipe holds.
pub proof fn law_pump_takes_what_can_happen(p: Pump, n: usize)
    requires
        pump_valid(p),
        p.total <= u64::MAX - 65536,
    ensures
        p.stage == Stage::Fill ==> (pump_accepts(p, PumpEvent::Moved(n)) <==> n <= 65536
            - p.in_pipe),
        p.stage == Stage::Drain || p.stage == Stage::Flush ==> (pump_accepts(
            p,
            PumpEvent::Moved(n),
        ) <==> n <= p.in_pipe),
        p.stage == Stage::Fill || p.stage == Stage::Drain || p.stage == Stage::Flush
            ==> pump_accepts(p, PumpEvent::Again) && pump_accepts(p, PumpEvent::Failed),
        p.stage == Stage::Rest || p.stage == Stage::Close || p.stage == Stage::FlushRest
            ==> pump_accepts(p, PumpEvent::Woke),
        pump_valid(pump_start()),
        pump_action(pump_start()) == PumpAction::Fill(65536),
        pump_start().total == 0,
{
}

} // verus!
