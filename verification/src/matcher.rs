//! The timeout-driven matching state machine.
//!
//! The matcher owns the (read-only, fully built) tree and one evolving
//! candidate buffer of key codes.  On each incoming key code it applies the
//! inter-key timeout rule, extends the buffer, queries the tree, and decides
//! whether to keep accumulating, reset, dispatch a command, or terminate.

use vstd::prelude::*;

use crate::key_tree::command_view;
use crate::key_tree::FindOutcome;
use crate::key_tree::KeySequence;
use crate::key_tree::KTree;

verus! {

/// What the matcher tells its caller to do after one key code.
pub enum MatchOutcome {
    /// The extended buffer spells no registered path: the buffer was
    /// cleared and the stray keystrokes dropped.
    NoMatch,
    /// The buffer is a proper prefix of one or more registered sequences:
    /// keep feeding key codes.
    Pending,
    /// The buffer spelled a registered sequence: run this command; the
    /// buffer was cleared.
    Dispatch(String),
    /// The buffer spelled the sequence registered for the configured quit
    /// command: terminate the matching loop without dispatching.
    Quit,
}

/// The specification-level decision, with the command as a character
/// sequence.
pub enum Step {
    NoMatch,
    Pending,
    Dispatch(Seq<char>),
    Quit,
}

/// The buffer after the timeout rule: a keystroke burst separated from the
/// previous one by more than the inter-key delay starts a fresh candidate
/// sequence.
pub open spec fn effective_buffer(m: SequenceMatcher, t: u64) -> Seq<u16> {
    if m.buffer().len() > 0 && t - m.last_time() > m.max_delay() {
        Seq::<u16>::empty()
    } else {
        m.buffer()
    }
}

/// The candidate sequence that key code `k` arriving at time `t` is judged
/// by: the effective buffer with `k` appended.
pub open spec fn candidate(m: SequenceMatcher, k: u16, t: u64) -> Seq<u16> {
    effective_buffer(m, t).push(k)
}

/// The decision for key code `k` arriving at time `t`, as a function of the
/// tree, the buffer, the elapsed time, and the key alone.
pub open spec fn step(m: SequenceMatcher, k: u16, t: u64) -> Step {
    match m.trie().lookup(candidate(m, k, t)) {
        None => Step::NoMatch,
        Some(None) => Step::Pending,
        Some(Some(cmd)) => if m.quit_command() == Some(cmd) {
            Step::Quit
        } else {
            Step::Dispatch(cmd)
        },
    }
}

/// The buffer contents after the decision: kept only while accumulating.
pub open spec fn next_buffer(m: SequenceMatcher, k: u16, t: u64) -> Seq<u16> {
    match step(m, k, t) {
        Step::Pending => candidate(m, k, t),
        _ => Seq::<u16>::empty(),
    }
}

/// The online matcher: the tree of registered sequences, the working
/// buffer, the arrival time of the last accepted key code, the configured
/// inter-key delay, and the optional quit sentinel.
pub struct SequenceMatcher {
    tree: KTree,
    seq: Vec<u16>,
    last_key_time: u64,
    delay: u64,
    quit: Option<String>,
}

impl SequenceMatcher {
    /// The tree of registered sequences, immutable for the life of the
    /// matcher.
    pub closed spec fn trie(self) -> KTree {
        self.tree
    }

    /// The current candidate buffer.
    pub closed spec fn buffer(self) -> Seq<u16> {
        self.seq@
    }

    /// Arrival time of the last accepted key code.
    pub closed spec fn last_time(self) -> u64 {
        self.last_key_time
    }

    /// The configured maximum inter-key delay.
    pub closed spec fn max_delay(self) -> u64 {
        self.delay
    }

    /// The configured quit sentinel, if any.
    pub closed spec fn quit_command(self) -> Option<Seq<char>> {
        command_view(self.quit)
    }

    pub closed spec fn wf(self) -> bool {
        self.tree.wf()
    }

    /// Create a matcher over a fully built tree, with an empty buffer.
    pub fn new(tree: KTree, delay: u64, quit: Option<String>) -> (r: Self)
        requires
            tree.wf(),
        ensures
            r.wf(),
            r.trie() == tree,
            r.buffer() == Seq::<u16>::empty(),
            r.last_time() == 0,
            r.max_delay() == delay,
            r.quit_command() == command_view(quit),
    {
        SequenceMatcher { tree, seq: Vec::new(), last_key_time: 0, delay, quit }
    }

    /// Consume one key code `k` arriving at time `t`.
    ///
    /// First the timeout rule: a non-empty buffer whose last key is older
    /// than the inter-key delay is cleared before `k` is considered.  Then
    /// `k` is appended and the tree consulted: a dead end clears the buffer
    /// and drops the strays; a command-less path keeps accumulating; a
    /// command fires (or, for the quit sentinel, terminates) and clears the
    /// buffer.
    pub fn on_key(&mut self, k: u16, t: u64) -> (r: MatchOutcome)
        requires
            old(self).wf(),
            t >= old(self).last_time(),
        ensures
            final(self).wf(),
            final(self).trie() == old(self).trie(),
            final(self).max_delay() == old(self).max_delay(),
            final(self).quit_command() == old(self).quit_command(),
            final(self).last_time() == t,
            final(self).buffer() == next_buffer(*old(self), k, t),
            match r {
                MatchOutcome::NoMatch => step(*old(self), k, t) == Step::NoMatch,
                MatchOutcome::Pending => step(*old(self), k, t) == Step::Pending,
                MatchOutcome::Dispatch(c) => step(*old(self), k, t) == Step::Dispatch(c@),
                MatchOutcome::Quit => step(*old(self), k, t) == Step::Quit,
            },
    {
        if self.seq.len() > 0 && t - self.last_key_time > self.delay {
            self.seq.clear();
        }
        self.last_key_time = t;
        self.seq.push(k);
        proof {
            assert(self.seq@ == candidate(*old(self), k, t));
        }
        let ks = KeySequence::from(&self.seq);
        let outcome = self.tree.find(&ks);
        match outcome {
            FindOutcome::NoMatch => {
                self.seq.clear();
                MatchOutcome::NoMatch
            },
            FindOutcome::Prefix => MatchOutcome::Pending,
            FindOutcome::Found(cmd) => {
                let is_quit = match &self.quit {
                    Some(q) => *q == cmd,
                    None => false,
                };
                self.seq.clear();
                if is_quit {
                    MatchOutcome::Quit
                } else {
                    MatchOutcome::Dispatch(cmd)
                }
            },
        }
    }
}

/// An in-time key code extends the running buffer: within the inter-key
/// delay the candidate sequence is the old buffer with the new key
/// appended.
pub proof fn lemma_within_delay_extends(m: SequenceMatcher, k: u16, t: u64)
    requires
        t - m.last_time() <= m.max_delay(),
    ensures
        candidate(m, k, t) == m.buffer().push(k),
{
}

/// A gap exceeding the inter-key delay starts over: the candidate sequence
/// is the new key alone, whatever had accumulated before the pause.
pub proof fn lemma_timeout_resets(m: SequenceMatcher, k: u16, t: u64)
    requires
        m.buffer().len() > 0,
        t - m.last_time() > m.max_delay(),
    ensures
        candidate(m, k, t) == seq![k],
{
    assert(Seq::<u16>::empty().push(k) =~= seq![k]);
}

/// A candidate sequence registered with a command that is not the quit
/// sentinel fires exactly that command, and the buffer is cleared.
pub proof fn lemma_command_dispatches(m: SequenceMatcher, k: u16, t: u64, cmd: Seq<char>)
    requires
        m.trie().lookup(candidate(m, k, t)) == Some(Some(cmd)),
        m.quit_command() != Some(cmd),
    ensures
        step(m, k, t) == Step::Dispatch(cmd),
        next_buffer(m, k, t) == Seq::<u16>::empty(),
{
}

/// A candidate sequence registered with the configured quit command makes
/// the matcher terminate the matching loop instead of dispatching.
pub proof fn lemma_quit_terminates(m: SequenceMatcher, k: u16, t: u64, cmd: Seq<char>)
    requires
        m.trie().lookup(candidate(m, k, t)) == Some(Some(cmd)),
        m.quit_command() == Some(cmd),
    ensures
        step(m, k, t) == Step::Quit,
{
}

} // verus!
