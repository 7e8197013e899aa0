//! The process stream supervisor.
//!
//! A `Runner` owns the decision logic of one supervised command: an optional
//! head budget (the greatest number of lines ever delivered, restarts
//! included), a restart flag, and the terminal phases of the run.  The
//! caller does the outside work — spawning, reading, relaunching — and hands
//! the outcome of each poll of the merged line stream in as a
//! [`StreamEvent`]; the `Runner` answers with the [`PollStep`] to take.

use vstd::prelude::*;

verus! {

/// One delivered line, wrapped as a raw record for downstream consumers.
#[derive(Debug)]
pub struct Record {
    pub raw: String,
}

/// What polling the merged line stream reported.
#[derive(Debug)]
pub enum StreamEvent {
    /// The stream yielded one decoded line.
    Line(String),
    /// Both pipes have closed: the command produced no more output.
    Exhausted,
    /// Nothing is ready yet.
    NotReady,
    /// Reading a pipe failed.
    Failed,
}

/// The phase of a supervised run.
#[derive(Clone, Copy, Debug, PartialEq, Eq, Structural)]
pub enum RunPhase {
    /// The merged stream is live.
    Running,
    /// The command exited and must be relaunched before the next poll.
    Respawning,
    /// The sequence has ended; no further poll produces a value.
    Done,
    /// A read failed; no further poll produces a value.
    Failed,
}

/// What the caller must do after one poll.
#[derive(Debug)]
pub enum PollStep {
    /// Deliver this record to the consumer.
    Deliver(Record),
    /// Deliver the terminal marker of a clean, non-restarting end.
    Marker,
    /// Relaunch the command, then report back with [`Runner::restarted`].
    Respawn,
    /// Nothing is ready: try again when the stream wakes up.
    Pending,
    /// The sequence is over: deliver nothing.
    End,
    /// Surface the read error; the whole sequence is failed.
    Fail,
}

/// True when a head budget is present and used up.
pub open spec fn budget_spent(head: Option<usize>) -> bool {
    head == Some(0usize)
}

/// Whether a poll step delivers a line to the consumer.
pub open spec fn delivers(phase: RunPhase, head: Option<usize>, ev: StreamEvent) -> bool {
    &&& phase == RunPhase::Running
    &&& !budget_spent(head)
    &&& ev matches StreamEvent::Line(_)
}

/// The phase after one poll.
pub open spec fn next_phase(
    phase: RunPhase,
    restart: bool,
    head: Option<usize>,
    ev: StreamEvent,
) -> RunPhase {
    match phase {
        RunPhase::Running => if budget_spent(head) {
            RunPhase::Done
        } else {
            match ev {
                StreamEvent::Line(_) => RunPhase::Running,
                StreamEvent::Exhausted => if restart {
                    RunPhase::Respawning
                } else {
                    RunPhase::Done
                },
                StreamEvent::NotReady => RunPhase::Running,
                StreamEvent::Failed => RunPhase::Failed,
            }
        },
        RunPhase::Respawning => RunPhase::Respawning,
        RunPhase::Done => RunPhase::Done,
        RunPhase::Failed => RunPhase::Failed,
    }
}

/// The head budget after one poll: delivering a line spends one unit.
pub open spec fn next_head(phase: RunPhase, head: Option<usize>, ev: StreamEvent) -> Option<
    usize,
> {
    if delivers(phase, head, ev) {
        match head {
            Some(n) => Some((n - 1) as usize),
            None => None,
        }
    } else {
        head
    }
}

/// True for the characters with the Unicode `White_Space` property, which
/// separate a command line into executable and arguments.
pub open spec fn is_space(c: char) -> bool {
    ||| c == ' ' || c == '\t' || c == '\n' || c == '\x0b' || c == '\x0c' || c == '\r'
    ||| c == '\u{85}' || c == '\u{a0}' || c == '\u{1680}'
    ||| c == '\u{2000}' || c == '\u{2001}' || c == '\u{2002}' || c == '\u{2003}'
    ||| c == '\u{2004}' || c == '\u{2005}' || c == '\u{2006}' || c == '\u{2007}'
    ||| c == '\u{2008}' || c == '\u{2009}' || c == '\u{200a}'
    ||| c == '\u{2028}' || c == '\u{2029}' || c == '\u{202f}' || c == '\u{205f}' || c == '\u{3000}'
}

/// The end of the whitespace-free run that starts at `i`.
pub open spec fn word_end(s: Seq<char>, i: int) -> int
    decreases s.len() - i,
    when 0 <= i <= s.len()
{
    if i >= s.len() {
        i
    } else if is_space(s[i]) {
        i
    } else {
        word_end(s, i + 1)
    }
}

/// What `word_end` promises: it stays within bounds, moves forward over a
/// word, and stops exactly at the first whitespace character.
pub proof fn lemma_word_end_bounds(s: Seq<char>, i: int)
    requires
        0 <= i <= s.len(),
    ensures
        i <= word_end(s, i) <= s.len(),
        forall|t: int| i <= t < word_end(s, i) ==> !is_space(s[t]),
        word_end(s, i) == s.len() || is_space(s[word_end(s, i)]),
        i < s.len() && !is_space(s[i]) ==> word_end(s, i) > i,
    decreases s.len() - i,
{
    if i < s.len() && !is_space(s[i]) {
        lemma_word_end_bounds(s, i + 1);
    }
}

/// The whitespace-separated words of `s`, starting at `i`.
pub open spec fn tokens_from(s: Seq<char>, i: int) -> Seq<Seq<char>>
    decreases s.len() - i,
    when 0 <= i <= s.len()
    via tokens_from_decreases
{
    if i >= s.len() {
        Seq::<Seq<char>>::empty()
    } else if is_space(s[i]) {
        tokens_from(s, i + 1)
    } else {
        seq![s.subrange(i, word_end(s, i))] + tokens_from(s, word_end(s, i))
    }
}

#[via_fn]
proof fn tokens_from_decreases(s: Seq<char>, i: int) {
    if 0 <= i && i < s.len() && !is_space(s[i]) {
        lemma_word_end_bounds(s, i);
    }
}

/// The whitespace-separated words of a whole command line.
pub open spec fn words_of(s: Seq<char>) -> Seq<Seq<char>> {
    tokens_from(s, 0)
}

/// Exec check for [`is_space`].
fn is_space_char(c: char) -> (b: bool)
    ensures
        b == is_space(c),
{
    c == ' ' || c == '\t' || c == '\n' || c == '\x0b' || c == '\x0c' || c == '\r'
        || c == '\u{85}' || c == '\u{a0}' || c == '\u{1680}' || c == '\u{2000}' || c == '\u{2001}'
        || c == '\u{2002}' || c == '\u{2003}' || c == '\u{2004}' || c == '\u{2005}'
        || c == '\u{2006}' || c == '\u{2007}' || c == '\u{2008}' || c == '\u{2009}'
        || c == '\u{200a}' || c == '\u{2028}' || c == '\u{2029}' || c == '\u{202f}'
        || c == '\u{205f}' || c == '\u{3000}'
}

/// Split a command line on whitespace into executable and arguments, for
/// the caller to spawn.
pub fn split_command(cmd: &String) -> (parts: Vec<String>)
    ensures
        parts.deep_view() =~= words_of(cmd@),
{
    let s = cmd.as_str();
    let n = s.unicode_len();
    let mut parts: Vec<String> = Vec::new();
    let mut i: usize = 0;
    while i < n
        invariant
            i <= n,
            n == s@.len(),
            s@ == cmd@,
            words_of(cmd@) =~= parts.deep_view() + tokens_from(cmd@, i as int),
        decreases n - i,
    {
        let c = s.get_char(i);
        if is_space_char(c) {
            i = i + 1;
        } else {
            proof {
                lemma_word_end_bounds(cmd@, i as int);
            }
            let mut j: usize = i + 1;
            while j < n && !is_space_char(s.get_char(j))
                invariant
                    i < j <= n,
                    n == s@.len(),
                    s@ == cmd@,
                    forall|t: int| i <= t < j ==> !is_space(cmd@[t]),
                decreases n - j,
            {
                j = j + 1;
            }
            proof {
                lemma_word_end_bounds(cmd@, i as int);
                assert(word_end(cmd@, i as int) == j) by {
                    if word_end(cmd@, i as int) < j {
                        assert(!is_space(cmd@[word_end(cmd@, i as int)]));
                    }
                    if word_end(cmd@, i as int) > j {
                        assert(j == n || is_space(cmd@[j as int]));
                    }
                }
            }
            let ghost pre = parts.deep_view();
            let tok = s.substring_char(i, j).to_owned();
            parts.push(tok);
            proof {
                assert(parts.deep_view() =~= pre.push(tok@));
                assert(tokens_from(cmd@, i as int) =~= seq![cmd@.subrange(
                    i as int,
                    j as int,
                )] + tokens_from(cmd@, j as int));
                assert(words_of(cmd@) =~= parts.deep_view() + tokens_from(cmd@, j as int));
            }
            i = j;
        }
    }
    parts
}

/// The supervisor's decision state.
pub struct Runner {
    cmd: String,
    restart: bool,
    head: Option<usize>,
    phase: RunPhase,
}

impl Runner {
    /// The supervised command line.
    pub closed spec fn command(self) -> Seq<char> {
        self.cmd@
    }

    /// Whether a clean exit relaunches the command.
    pub closed spec fn restarts(self) -> bool {
        self.restart
    }

    /// The remaining head budget, if one was set.
    pub closed spec fn budget(self) -> Option<usize> {
        self.head
    }

    /// The current phase.
    pub closed spec fn phase(self) -> RunPhase {
        self.phase
    }

    /// A supervisor for `cmd`, in the running phase.  The caller has already
    /// spawned the command; on spawn failure no supervisor is created.
    pub fn new(cmd: String, restart: bool, head: Option<usize>) -> (r: Runner)
        ensures
            r.command() == cmd@,
            r.restarts() == restart,
            r.budget() == head,
            r.phase() == RunPhase::Running,
    {
        Runner { cmd, restart, head, phase: RunPhase::Running }
    }

    /// The command line, for the caller to relaunch.
    pub fn command_line(&self) -> (c: &String)
        ensures
            c@ == self.command(),
    {
        &self.cmd
    }

    /// The current phase.
    pub fn current_phase(&self) -> (p: RunPhase)
        ensures
            p == self.phase(),
    {
        self.phase
    }

    /// The remaining head budget.
    pub fn budget_left(&self) -> (h: Option<usize>)
        ensures
            h == self.budget(),
    {
        self.head
    }

    /// Decide the next step from one event of the merged stream.
    ///
    /// A spent head budget ends the sequence before anything is delivered.
    /// Otherwise a line is delivered (spending one unit of budget),
    /// exhaustion either asks for a relaunch or delivers the terminal marker
    /// and ends the run, a pending stream stays pending, and a read error
    /// fails the whole sequence.  `Done` and `Failed` absorb every event.
    pub fn poll(&mut self, ev: StreamEvent) -> (step: PollStep)
        ensures
            final(self).command() == old(self).command(),
            final(self).restarts() == old(self).restarts(),
            final(self).phase() == next_phase(
                old(self).phase(),
                old(self).restarts(),
                old(self).budget(),
                ev,
            ),
            final(self).budget() == next_head(old(self).phase(), old(self).budget(), ev),
            (step matches PollStep::Deliver(rec)) <==> delivers(
                old(self).phase(),
                old(self).budget(),
                ev,
            ),
            step matches PollStep::Deliver(rec) ==> (ev matches StreamEvent::Line(s)
                && rec.raw == s),
            (step matches PollStep::Marker) <==> (old(self).phase() == RunPhase::Running
                && !budget_spent(old(self).budget()) && (ev matches StreamEvent::Exhausted)
                && !old(self).restarts()),
            (step matches PollStep::Respawn) <==> ((old(self).phase() == RunPhase::Running
                && !budget_spent(old(self).budget()) && (ev matches StreamEvent::Exhausted)
                && old(self).restarts()) || old(self).phase() == RunPhase::Respawning),
            (step matches PollStep::Pending) <==> (old(self).phase() == RunPhase::Running
                && !budget_spent(old(self).budget()) && ev matches StreamEvent::NotReady),
            (step matches PollStep::Fail) <==> ((old(self).phase() == RunPhase::Running
                && !budget_spent(old(self).budget()) && ev matches StreamEvent::Failed) || old(
                self,
            ).phase() == RunPhase::Failed),
            (step matches PollStep::End) <==> ((old(self).phase() == RunPhase::Running
                && budget_spent(old(self).budget())) || old(self).phase() == RunPhase::Done),
    {
        match self.phase {
            RunPhase::Running => {
                let spent = match self.head {
                    Some(c) => c == 0,
                    None => false,
                };
                if spent {
                    self.phase = RunPhase::Done;
                    PollStep::End
                } else {
                    match ev {
                        StreamEvent::Line(s) => {
                            self.head = match self.head {
                                Some(c) => Some(c - 1),
                                None => None,
                            };
                            PollStep::Deliver(Record { raw: s })
                        },
                        StreamEvent::Exhausted => {
                            if self.restart {
                                self.phase = RunPhase::Respawning;
                                PollStep::Respawn
                            } else {
                                self.phase = RunPhase::Done;
                                PollStep::Marker
                            }
                        },
                        StreamEvent::NotReady => PollStep::Pending,
                        StreamEvent::Failed => {
                            self.phase = RunPhase::Failed;
                            PollStep::Fail
                        },
                    }
                }
            },
            RunPhase::Respawning => PollStep::Respawn,
            RunPhase::Done => PollStep::End,
            RunPhase::Failed => PollStep::Fail,
        }
    }

    /// The caller relaunched the command: a respawning supervisor runs
    /// again.  In any other phase nothing changes.
    pub fn restarted(&mut self)
        ensures
            final(self).command() == old(self).command(),
            final(self).restarts() == old(self).restarts(),
            final(self).budget() == old(self).budget(),
            final(self).phase() == (if old(self).phase() == RunPhase::Respawning {
                RunPhase::Running
            } else {
                old(self).phase()
            }),
    {
        match self.phase {
            RunPhase::Respawning => {
                self.phase = RunPhase::Running;
            },
            _ => {},
        }
    }
}

/// One input to a supervisor over its lifetime: a poll of the merged
/// stream, or the completion of a relaunch.
pub enum SupInput {
    Poll(StreamEvent),
    Relaunched,
}

/// The phase after one input.
pub open spec fn input_next_phase(
    phase: RunPhase,
    restart: bool,
    head: Option<usize>,
    inp: SupInput,
) -> RunPhase {
    match inp {
        SupInput::Poll(ev) => next_phase(phase, restart, head, ev),
        SupInput::Relaunched => if phase == RunPhase::Respawning {
            RunPhase::Running
        } else {
            phase
        },
    }
}

/// The head budget after one input.
pub open spec fn input_next_head(phase: RunPhase, head: Option<usize>, inp: SupInput) -> Option<
    usize,
> {
    match inp {
        SupInput::Poll(ev) => next_head(phase, head, ev),
        SupInput::Relaunched => head,
    }
}

/// Whether one input delivers a line.
pub open spec fn input_delivers(phase: RunPhase, head: Option<usize>, inp: SupInput) -> bool {
    match inp {
        SupInput::Poll(ev) => delivers(phase, head, ev),
        SupInput::Relaunched => false,
    }
}

/// The phase reached after a whole sequence of inputs.
pub open spec fn phase_after(
    phase: RunPhase,
    restart: bool,
    head: Option<usize>,
    inputs: Seq<SupInput>,
) -> RunPhase
    decreases inputs.len(),
{
    if inputs.len() == 0 {
        phase
    } else {
        phase_after(
            input_next_phase(phase, restart, head, inputs.first()),
            restart,
            input_next_head(phase, head, inputs.first()),
            inputs.drop_first(),
        )
    }
}

/// How many lines a whole sequence of inputs delivers.
pub open spec fn delivered_count(
    phase: RunPhase,
    restart: bool,
    head: Option<usize>,
    inputs: Seq<SupInput>,
) -> nat
    decreases inputs.len(),
{
    if inputs.len() == 0 {
        0nat
    } else {
        (if input_delivers(phase, head, inputs.first()) {
            1nat
        } else {
            0nat
        }) + delivered_count(
            input_next_phase(phase, restart, head, inputs.first()),
            restart,
            input_next_head(phase, head, inputs.first()),
            inputs.drop_first(),
        )
    }
}

/// The head budget bounds delivery: with a budget of `n`, no sequence of
/// inputs — polls and relaunches in any order — delivers more than `n`
/// lines.
pub proof fn lemma_head_bounds_deliveries(
    phase: RunPhase,
    restart: bool,
    n: usize,
    inputs: Seq<SupInput>,
)
    ensures
        delivered_count(phase, restart, Some(n), inputs) <= n,
    decreases inputs.len(),
{
    if inputs.len() > 0 {
        let inp = inputs.first();
        if input_delivers(phase, Some(n), inp) {
            lemma_head_bounds_deliveries(
                input_next_phase(phase, restart, Some(n), inp),
                restart,
                (n - 1) as usize,
                inputs.drop_first(),
            );
        } else {
            lemma_head_bounds_deliveries(
                input_next_phase(phase, restart, Some(n), inp),
                restart,
                n,
                inputs.drop_first(),
            );
        }
    }
}

/// A zero head budget delivers nothing at all, whatever the command prints.
pub proof fn lemma_zero_budget_delivers_nothing(
    phase: RunPhase,
    restart: bool,
    inputs: Seq<SupInput>,
)
    ensures
        delivered_count(phase, restart, Some(0usize), inputs) == 0,
{
    lemma_head_bounds_deliveries(phase, restart, 0usize, inputs);
}

/// With the restart flag set and no head budget, the sequence never ends on
/// its own: exhaustion leads to a relaunch, never to `Done`.
pub proof fn lemma_restart_never_ends(phase: RunPhase, inputs: Seq<SupInput>)
    requires
        phase != RunPhase::Done,
    ensures
        phase_after(phase, true, None, inputs) != RunPhase::Done,
    decreases inputs.len(),
{
    if inputs.len() > 0 {
        let next = input_next_phase(phase, true, None, inputs.first());
        assert(next != RunPhase::Done);
        assert(input_next_head(phase, None, inputs.first()) == Option::<usize>::None);
        lemma_restart_never_ends(next, inputs.drop_first());
    }
}

/// `Done` and `Failed` absorb every input and deliver nothing further.
pub proof fn lemma_terminal_phases_absorb(
    phase: RunPhase,
    restart: bool,
    head: Option<usize>,
    inputs: Seq<SupInput>,
)
    requires
        phase == RunPhase::Done || phase == RunPhase::Failed,
    ensures
        phase_after(phase, restart, head, inputs) == phase,
        delivered_count(phase, restart, head, inputs) == 0,
    decreases inputs.len(),
{
    if inputs.len() > 0 {
        lemma_terminal_phases_absorb(
            phase,
            restart,
            input_next_head(phase, head, inputs.first()),
            inputs.drop_first(),
        );
    }
}

} // verus!
