//! Racing candidate paths: which attempts to start, which attempt wins, and
//! what becomes of the others.
//!
//! A `Race` connects nothing itself. Its driver starts the attempts it is
//! told to start, reports how each one ended, and cancels and releases what
//! it is told to.

use vstd::prelude::*;
use crate::endpoint::{ResolutionError, SocketAddress};
use crate::properties::{CandidateStack, StackId};

verus! {

/// One way to reach the peer: a protocol stack over an address, with the
/// score its stack was ranked by.
#[derive(Clone, Copy, Debug, PartialEq, Eq, Structural)]
pub struct CandidatePath {
    pub stack: StackId,
    pub address: SocketAddress,
    pub score: usize,
}

/// Why an attempt did not connect.
#[derive(Clone, Copy, Debug, PartialEq, Eq, Structural)]
pub enum FailureReason {
    /// Nothing came back in time.
    TimedOut,
    /// The network has no way to the address.
    Unreachable,
    /// The host answered that nothing listens there.
    Refused,
    /// The peer was reached and turned the protocol stack down.
    Rejected,
}

/// How far one attempt has come.
#[derive(Clone, Copy, Debug, PartialEq, Eq, Structural)]
pub enum AttemptState {
    /// Not started.
    Waiting,
    /// Started, no result yet.
    InFlight,
    /// Connected: the winner.
    Connected,
    /// Ended without a connection.
    Failed(FailureReason),
    /// Stopped because another attempt won.
    Cancelled,
}

/// One attempt of a race.
#[derive(Clone, Copy, Debug, PartialEq, Eq, Structural)]
pub struct Attempt {
    pub path: CandidatePath,
    pub state: AttemptState,
}

/// The failure of one attempt.
#[derive(Clone, Copy, Debug, PartialEq, Eq, Structural)]
pub struct AttemptFailure {
    pub path: CandidatePath,
    pub reason: FailureReason,
}

/// Why no connection was established.
#[derive(Clone, Debug, PartialEq, Eq)]
pub enum EstablishmentError {
    /// The preconnection names no remote endpoint.
    NoRemoteEndpoint,
    /// No protocol stack is left to try.
    NoViableStack,
    /// The remote endpoint has no address.
    Unresolved(ResolutionError),
    /// Every attempt failed; the failures stand in the order of the ranking.
    AllFailed(Vec<AttemptFailure>),
}

/// The path over `address` by the stack `stack`.
pub open spec fn path_over(stack: CandidateStack, address: SocketAddress) -> CandidatePath {
    CandidatePath { stack: stack.stack.stack, address, score: stack.score }
}

/// Every stack over every address: the stacks in their order, and for each
/// stack the addresses in theirs.
pub open spec fn crossed(stacks: Seq<CandidateStack>, addresses: Seq<SocketAddress>) -> Seq<CandidatePath> {
    Seq::new(
        stacks.len() * addresses.len(),
        |k: int| path_over(stacks[k / addresses.len() as int], addresses[k % addresses.len() as int]),
    )
}

/// Builds the candidate paths of ranked stacks and resolved addresses.
pub fn candidates(stacks: &[CandidateStack], addresses: &[SocketAddress]) -> (paths: Vec<CandidatePath>)
    ensures
        paths@ == crossed(stacks@, addresses@),
{
    let ghost n = addresses.len() as int;
    let mut paths: Vec<CandidatePath> = Vec::new();
    let mut i: usize = 0;
    while i < stacks.len()
        invariant
            i <= stacks.len(),
            n == addresses.len(),
            paths.len() == i * n,
            forall|k: int| 0 <= k < paths.len() ==> #[trigger] paths[k] == crossed(stacks@, addresses@)[k],
        decreases stacks.len() - i,
    {
        let mut j: usize = 0;
        while j < addresses.len()
            invariant
                i < stacks.len(),
                j <= addresses.len(),
                n == addresses.len(),
                paths.len() == i * n + j,
                forall|k: int| 0 <= k < paths.len() ==> #[trigger] paths[k] == crossed(stacks@, addresses@)[k],
            decreases addresses.len() - j,
        {
            proof {
                let k = i * n + j;
                vstd::arithmetic::div_mod::lemma_fundamental_div_mod_converse(k, n, i as int, j as int);
                assert(k < stacks.len() * n) by (nonlinear_arith)
                    requires
                        k == i * n + j,
                        0 <= j < n,
                        0 <= i < stacks.len(),
                ;
            }
            paths.push(CandidatePath { stack: stacks[i].stack.stack, address: addresses[j], score: stacks[i].score });
            j += 1;
        }
        assert((i + 1) * n == i * n + n) by (nonlinear_arith);
        i += 1;
    }
    assert(paths@ =~= crossed(stacks@, addresses@));
    paths
}

/// `attempts` with those from `from` up to `end` in flight.
pub open spec fn started(attempts: Seq<Attempt>, from: int, end: int) -> Seq<Attempt> {
    Seq::new(
        attempts.len(),
        |k: int|
            if from <= k < end {
                Attempt { path: attempts[k].path, state: AttemptState::InFlight }
            } else {
                attempts[k]
            },
    )
}

/// `attempts` with attempt `i` connected and every other attempt that was
/// in flight cancelled.
pub open spec fn claimed(attempts: Seq<Attempt>, i: int) -> Seq<Attempt> {
    Seq::new(
        attempts.len(),
        |k: int|
            if k == i {
                Attempt { path: attempts[k].path, state: AttemptState::Connected }
            } else if attempts[k].state == AttemptState::InFlight {
                Attempt { path: attempts[k].path, state: AttemptState::Cancelled }
            } else {
                attempts[k]
            },
    )
}

/// `cancel` lists, in rising order, the attempts other than `i` that are in
/// flight in `attempts`.
pub open spec fn cancels(attempts: Seq<Attempt>, i: int, cancel: Seq<usize>) -> bool {
    &&& forall|a: int, b: int| 0 <= a < b < cancel.len() ==> cancel[a] < cancel[b]
    &&& forall|a: int|
        0 <= a < cancel.len() ==> (#[trigger] cancel[a]) != i && cancel[a] < attempts.len()
            && attempts[cancel[a] as int].state == AttemptState::InFlight
    &&& forall|k: int|
        0 <= k < attempts.len() && k != i && (#[trigger] attempts[k]).state == AttemptState::InFlight
            ==> cancel.contains(k as usize)
}

/// The attempts of a race and how they are started.
pub struct RaceView {
    /// The attempts, in the order of the ranking.
    pub attempts: Seq<Attempt>,
    /// How many attempts are started together.
    pub batch: nat,
    /// How many attempts have been started: the first `launched` ones.
    pub launched: nat,
}

impl RaceView {
    /// Attempt `i` is started and has no result yet.
    pub open spec fn in_flight(self, i: int) -> bool {
        0 <= i < self.attempts.len() && self.attempts[i].state == AttemptState::InFlight
    }

    /// Attempt `i` is connected.
    pub open spec fn is_winner(self, i: int) -> bool {
        0 <= i < self.attempts.len() && self.attempts[i].state == AttemptState::Connected
    }

    /// Attempt `i` holds no socket: it was never started, it failed, or
    /// it was cancelled.
    pub open spec fn is_closed(self, i: int) -> bool {
        0 <= i < self.attempts.len() && (self.attempts[i].state == AttemptState::Waiting
            || self.attempts[i].state is Failed || self.attempts[i].state == AttemptState::Cancelled)
    }

    /// Some attempt is in flight.
    pub open spec fn any_in_flight(self) -> bool {
        exists|i: int| self.in_flight(i)
    }

    /// Some attempt is connected.
    pub open spec fn won(self) -> bool {
        exists|i: int| self.is_winner(i)
    }

    /// Every attempt was started and failed.
    pub open spec fn lost(self) -> bool {
        forall|i: int| 0 <= i < self.attempts.len() ==> (#[trigger] self.attempts[i]).state is Failed
    }

    /// What holds of every race: the started attempts are the first
    /// `launched` ones; at most one attempt is connected, and then none is
    /// in flight; attempts are cancelled only for a winner; and while
    /// attempts wait to be started, one is in flight or connected.
    pub open spec fn well_formed(self) -> bool {
        &&& self.batch >= 1
        &&& self.launched <= self.attempts.len()
        &&& forall|i: int|
            0 <= i < self.attempts.len() ==> ((#[trigger] self.attempts[i]).state == AttemptState::Waiting <==> i
                >= self.launched)
        &&& forall|i: int, j: int| self.is_winner(i) && self.is_winner(j) ==> i == j
        &&& forall|i: int| self.won() ==> !self.in_flight(i)
        &&& forall|i: int|
            0 <= i < self.attempts.len() && (#[trigger] self.attempts[i]).state == AttemptState::Cancelled
                ==> self.won()
        &&& self.launched < self.attempts.len() ==> self.any_in_flight() || self.won()
    }

    /// Where the batch behind the started attempts ends.
    pub open spec fn batch_end(self) -> nat {
        if self.launched + self.batch <= self.attempts.len() {
            self.launched + self.batch
        } else {
            self.attempts.len()
        }
    }

    /// The race with the attempts up to `end` started.
    pub open spec fn launch(self, end: nat) -> RaceView {
        RaceView {
            attempts: started(self.attempts, self.launched as int, end as int),
            batch: self.batch,
            launched: end,
        }
    }

    /// The race over `paths`, with the first batch started. A `concurrency`
    /// of 0 starts all attempts at once.
    pub open spec fn initial(paths: Seq<CandidatePath>, concurrency: nat) -> RaceView {
        let fresh = RaceView {
            attempts: Seq::new(paths.len(), |k: int| Attempt { path: paths[k], state: AttemptState::Waiting }),
            batch: if concurrency == 0 {
                if paths.len() == 0 {
                    1
                } else {
                    paths.len()
                }
            } else {
                concurrency
            },
            launched: 0,
        };
        fresh.launch(fresh.batch_end())
    }

    /// The race after attempt `i` reported that it is connected.
    ///
    /// If the attempt is in flight it wins, and every other attempt in
    /// flight is cancelled. A report for an attempt that is not in flight
    /// changes nothing.
    pub open spec fn connected(self, i: int) -> RaceView {
        if !self.in_flight(i) {
            self
        } else {
            RaceView { attempts: claimed(self.attempts, i), batch: self.batch, launched: self.launched }
        }
    }

    /// The race with attempt `i` marked as failed for `reason`.
    pub open spec fn marked(self, i: int, reason: FailureReason) -> RaceView {
        RaceView {
            attempts: self.attempts.update(
                i,
                Attempt { path: self.attempts[i].path, state: AttemptState::Failed(reason) },
            ),
            batch: self.batch,
            launched: self.launched,
        }
    }

    /// The race after attempt `i` reported that it failed, or timed out.
    ///
    /// If the attempt is in flight it is marked as failed; if that leaves
    /// no attempt in flight, the next batch is started. A report for an
    /// attempt that is not in flight changes nothing.
    pub open spec fn failed(self, i: int, reason: FailureReason) -> RaceView {
        if !self.in_flight(i) {
            self
        } else if self.marked(i, reason).any_in_flight() {
            self.marked(i, reason)
        } else {
            self.marked(i, reason).launch(self.marked(i, reason).batch_end())
        }
    }

    /// The failures of a lost race, in the order of the ranking.
    pub open spec fn failures(self) -> Seq<AttemptFailure> {
        Seq::new(
            self.attempts.len(),
            |k: int| AttemptFailure { path: self.attempts[k].path, reason: self.attempts[k].state->Failed_0 },
        )
    }
}

/// A race over at least one path begins well formed, with its first
/// attempt in flight and no winner.
pub proof fn lemma_initial(paths: Seq<CandidatePath>, concurrency: nat)
    requires
        paths.len() > 0,
    ensures
        RaceView::initial(paths, concurrency).well_formed(),
        RaceView::initial(paths, concurrency).in_flight(0),
        !RaceView::initial(paths, concurrency).won(),
        RaceView::initial(paths, concurrency).attempts.len() == paths.len(),
{
    let race = RaceView::initial(paths, concurrency);
    assert(race.in_flight(0));
}

/// Starting the next batch of a race in which nothing is in flight and
/// nothing is connected keeps it well formed.
proof fn lemma_launch(race: RaceView)
    requires
        race.batch >= 1,
        race.launched <= race.attempts.len(),
        forall|i: int|
            0 <= i < race.attempts.len() ==> ((#[trigger] race.attempts[i]).state == AttemptState::Waiting <==> i
                >= race.launched),
        !race.won(),
        !race.any_in_flight(),
        forall|i: int| 0 <= i < race.attempts.len() ==> (#[trigger] race.attempts[i]).state != AttemptState::Cancelled,
    ensures
        race.launch(race.batch_end()).well_formed(),
        !race.launch(race.batch_end()).won(),
{
    let next = race.launch(race.batch_end());
    assert forall|i: int| !next.is_winner(i) by {
        if next.is_winner(i) {
            assert(race.is_winner(i));
        }
    }
    if next.launched < next.attempts.len() {
        assert(next.in_flight(race.launched as int));
    }
}

/// A report that an attempt is connected keeps the race well formed, and
/// makes the attempt the winner if it was in flight.
pub proof fn lemma_connected(race: RaceView, i: int)
    requires
        race.well_formed(),
    ensures
        race.connected(i).well_formed(),
        race.in_flight(i) ==> race.connected(i).is_winner(i),
        race.connected(i).attempts.len() == race.attempts.len(),
{
    let next = race.connected(i);
    if race.in_flight(i) {
        assert(next.is_winner(i));
        assert(!race.won());
        assert forall|a: int, b: int| next.is_winner(a) && next.is_winner(b) implies a == b by {
            if a != i {
                assert(race.is_winner(a));
            }
            if b != i {
                assert(race.is_winner(b));
            }
        }
        assert forall|k: int| 0 <= k < next.attempts.len() implies ((#[trigger] next.attempts[k]).state
            == AttemptState::Waiting <==> k >= next.launched) by {
            assert(race.attempts[k].state == AttemptState::Waiting <==> k >= race.launched);
        }
    }
}

/// A report that an attempt failed keeps the race well formed and makes
/// no winner.
pub proof fn lemma_failed(race: RaceView, i: int, reason: FailureReason)
    requires
        race.well_formed(),
    ensures
        race.failed(i, reason).well_formed(),
        race.failed(i, reason).won() == race.won(),
        race.failed(i, reason).attempts.len() == race.attempts.len(),
{
    let next = race.failed(i, reason);
    if race.in_flight(i) {
        let marked = race.marked(i, reason);
        assert(!race.won());
        assert forall|k: int| !marked.is_winner(k) by {
            if marked.is_winner(k) {
                assert(race.is_winner(k));
            }
        }
        assert forall|k: int| 0 <= k < marked.attempts.len() implies ((#[trigger] marked.attempts[k]).state
            == AttemptState::Waiting <==> k >= marked.launched) && marked.attempts[k].state
            != AttemptState::Cancelled by {
            assert(race.attempts[k].state == AttemptState::Waiting <==> k >= race.launched);
            if k != i && race.attempts[k].state == AttemptState::Cancelled {
                assert(race.won());
            }
        }
        if marked.any_in_flight() {
            assert(marked.well_formed());
        } else {
            lemma_launch(marked);
        }
    } else {
    }
}

/// In a well-formed race with a winner, the winner is the only attempt
/// that is connected, and every other attempt is closed: never started,
/// failed, or cancelled.
pub proof fn lemma_single_winner(race: RaceView, winner: int)
    requires
        race.well_formed(),
        race.is_winner(winner),
    ensures
        forall|k: int| 0 <= k < race.attempts.len() && k != winner ==> race.is_closed(k) && !race.is_winner(k),
{
    assert(race.won());
    assert forall|k: int| 0 <= k < race.attempts.len() && k != winner implies race.is_closed(k)
        && !race.is_winner(k) by {
        assert(!race.in_flight(k));
        if race.is_winner(k) {
            assert(k == winner);
        }
    }
}

/// When an attempt in flight reports that it is connected, it is the one
/// connected attempt of the race from then on, and every other attempt is
/// closed: never started, failed, or cancelled.
pub proof fn lemma_established(race: RaceView, i: int)
    requires
        race.well_formed(),
        race.in_flight(i),
    ensures
        race.connected(i).is_winner(i),
        forall|k: int|
            0 <= k < race.attempts.len() && k != i ==> race.connected(i).is_closed(k) && !race.connected(
                i,
            ).is_winner(k),
{
    lemma_connected(race, i);
    lemma_single_winner(race.connected(i), i);
}

/// Once a race has a winner, no report changes it.
pub proof fn lemma_decided(race: RaceView, i: int, reason: FailureReason)
    requires
        race.well_formed(),
        race.won(),
    ensures
        race.connected(i) == race,
        race.failed(i, reason) == race,
{
    assert(!race.in_flight(i));
}

/// A well-formed race without a winner and without an attempt in flight is
/// lost: every attempt was started and failed.
pub proof fn lemma_lost(race: RaceView)
    requires
        race.well_formed(),
        !race.won(),
        !race.any_in_flight(),
    ensures
        race.lost(),
        race.launched == race.attempts.len(),
{
    assert forall|i: int| 0 <= i < race.attempts.len() implies (#[trigger] race.attempts[i]).state is Failed by {
        assert(!race.in_flight(i));
        assert(!race.is_winner(i));
    }
}

impl FailureReason {
    /// How much a failure tells: the more the peer had to do with it, the
    /// more.
    pub open spec fn weight(self) -> nat {
        match self {
            FailureReason::TimedOut => 0,
            FailureReason::Unreachable => 1,
            FailureReason::Refused => 2,
            FailureReason::Rejected => 3,
        }
    }

    /// Computes the weight of a failure.
    pub fn informativeness(&self) -> (weight: u8)
        ensures
            weight == self.weight(),
    {
        match self {
            FailureReason::TimedOut => 0,
            FailureReason::Unreachable => 1,
            FailureReason::Refused => 2,
            FailureReason::Rejected => 3,
        }
    }
}

/// `p` is the failure to report for all of `failures`: none tells more,
/// and of those that tell as much it is the one ranked last.
pub open spec fn is_primary(failures: Seq<AttemptFailure>, p: int) -> bool {
    &&& 0 <= p < failures.len()
    &&& forall|k: int|
        0 <= k < failures.len() ==> (#[trigger] failures[k]).reason.weight() <= failures[p].reason.weight()
    &&& forall|k: int|
        p < k < failures.len() ==> (#[trigger] failures[k]).reason.weight() < failures[p].reason.weight()
}

/// Picks the failure to report for a lost race.
pub fn primary(failures: &[AttemptFailure]) -> (picked: Option<usize>)
    ensures
        failures.len() == 0 ==> picked is None,
        failures.len() > 0 ==> (picked matches Some(p) && is_primary(failures@, p as int)),
{
    if failures.len() == 0 {
        return None;
    }
    let mut best: usize = 0;
    let mut k: usize = 1;
    while k < failures.len()
        invariant
            1 <= k <= failures.len(),
            is_primary(failures@.take(k as int), best as int),
        decreases failures.len() - k,
    {
        let ghost seen = failures@.take(k as int);
        let ghost grown = failures@.take(k + 1);
        let ghost before = best;
        if failures[k].reason.informativeness() >= failures[best].reason.informativeness() {
            best = k;
        }
        proof {
            assert forall|j: int| 0 <= j < grown.len() implies (#[trigger] grown[j]).reason.weight()
                <= grown[best as int].reason.weight() by {
                if j < k {
                    assert(seen[j] == grown[j]);
                    assert(seen[before as int] == grown[before as int]);
                }
            }
            assert forall|j: int| best < j < grown.len() implies (#[trigger] grown[j]).reason.weight()
                < grown[best as int].reason.weight() by {
                if j < k {
                    assert(seen[j] == grown[j]);
                    assert(seen[before as int] == grown[before as int]);
                }
            }
        }
        k += 1;
    }
    assert(failures@.take(k as int) =~= failures@);
    Some(best)
}

impl EstablishmentError {
    /// The failure to report for a lost race: the one that tells most, and
    /// of those that tell as much the one ranked last. Any other error is
    /// its own report and gives `None`.
    pub fn primary_failure(&self) -> (picked: Option<AttemptFailure>)
        ensures
            match *self {
                EstablishmentError::AllFailed(failures) => if failures.len() == 0 {
                    picked is None
                } else {
                    picked matches Some(failure) && exists|p: int|
                        is_primary(failures@, p) && #[trigger] failures@[p] == failure
                },
                _ => picked is None,
            },
    {
        match self {
            EstablishmentError::AllFailed(failures) => match primary(failures.as_slice()) {
                Some(p) => Some(failures[p]),
                None => None,
            },
            _ => None,
        }
    }
}

/// What the driver does after an attempt reported that it is connected.
#[derive(Debug, PartialEq, Eq)]
pub enum Claim {
    /// The attempt won. Its socket is the connection's; the attempts in
    /// `cancel` are to be cancelled and their sockets released.
    Won { cancel: Vec<usize> },
    /// The attempt was not in flight any more. Its socket is to be released.
    Discard,
}

/// What the driver does after an attempt reported that it failed.
#[derive(Debug, PartialEq, Eq)]
pub enum Progress {
    /// Nothing but to wait for the attempts in flight.
    Wait,
    /// Start the attempts from `from` up to `to`.
    Launch { from: usize, to: usize },
    /// Give up: every attempt failed.
    Lost(EstablishmentError),
}

/// A race between candidate paths.
pub struct Race {
    attempts: Vec<Attempt>,
    batch: usize,
    launched: usize,
}

impl View for Race {
    type V = RaceView;

    closed spec fn view(&self) -> RaceView {
        RaceView { attempts: self.attempts@, batch: self.batch as nat, launched: self.launched as nat }
    }
}

/// Tells whether some attempt is in flight.
fn any_flying(attempts: &Vec<Attempt>) -> (flying: bool)
    ensures
        flying == exists|i: int| 0 <= i < attempts.len() && attempts[i].state == AttemptState::InFlight,
{
    let mut k: usize = 0;
    while k < attempts.len()
        invariant
            k <= attempts.len(),
            forall|i: int| 0 <= i < k ==> attempts[i].state != AttemptState::InFlight,
        decreases attempts.len() - k,
    {
        if attempts[k].state == AttemptState::InFlight {
            return true;
        }
        k += 1;
    }
    false
}

/// Copies `attempts` with those from `from` up to `end` in flight.
fn start(attempts: &Vec<Attempt>, from: usize, end: usize) -> (next: Vec<Attempt>)
    ensures
        next@ == started(attempts@, from as int, end as int),
{
    let mut next: Vec<Attempt> = Vec::new();
    let mut k: usize = 0;
    while k < attempts.len()
        invariant
            k <= attempts.len(),
            next.len() == k,
            forall|j: int| 0 <= j < k ==> #[trigger] next[j] == started(attempts@, from as int, end as int)[j],
        decreases attempts.len() - k,
    {
        let attempt = attempts[k];
        if from <= k && k < end {
            next.push(Attempt { path: attempt.path, state: AttemptState::InFlight });
        } else {
            next.push(attempt);
        }
        k += 1;
    }
    assert(next@ =~= started(attempts@, from as int, end as int));
    next
}

/// Copies `attempts` with attempt `i` connected and the others that were in
/// flight cancelled, and lists those.
fn claim(attempts: &Vec<Attempt>, i: usize) -> (next: (Vec<Attempt>, Vec<usize>))
    requires
        i < attempts.len(),
    ensures
        next.0@ == claimed(attempts@, i as int),
        cancels(attempts@, i as int, next.1@),
{
    let mut next: Vec<Attempt> = Vec::new();
    let mut cancel: Vec<usize> = Vec::new();
    let mut k: usize = 0;
    while k < attempts.len()
        invariant
            k <= attempts.len(),
            next.len() == k,
            forall|j: int| 0 <= j < k ==> #[trigger] next[j] == claimed(attempts@, i as int)[j],
            forall|a: int, b: int| 0 <= a < b < cancel.len() ==> cancel[a] < cancel[b],
            forall|a: int|
                0 <= a < cancel.len() ==> (#[trigger] cancel[a]) != i && cancel[a] < k
                    && attempts[cancel[a] as int].state == AttemptState::InFlight,
            forall|j: int|
                0 <= j < k && j != i && (#[trigger] attempts[j]).state == AttemptState::InFlight
                    ==> cancel@.contains(j as usize),
        decreases attempts.len() - k,
    {
        let attempt = attempts[k];
        let ghost listed = cancel@;
        if k == i {
            next.push(Attempt { path: attempt.path, state: AttemptState::Connected });
        } else if attempt.state == AttemptState::InFlight {
            next.push(Attempt { path: attempt.path, state: AttemptState::Cancelled });
            cancel.push(k);
            proof {
                assert(cancel@[listed.len() as int] == k);
                assert forall|j: int|
                    0 <= j < k + 1 && j != i && (#[trigger] attempts[j]).state
                        == AttemptState::InFlight implies cancel@.contains(j as usize) by {
                    if j < k {
                        let a = choose|a: int| 0 <= a < listed.len() && listed[a] == j as usize;
                        assert(cancel@[a] == j as usize);
                    }
                }
            }
        } else {
            next.push(attempt);
        }
        k += 1;
    }
    assert(next@ =~= claimed(attempts@, i as int));
    (next, cancel)
}

/// Lists the failures of attempts that all failed.
fn gather(attempts: &Vec<Attempt>) -> (failures: Vec<AttemptFailure>)
    requires
        forall|i: int| 0 <= i < attempts.len() ==> (#[trigger] attempts[i]).state is Failed,
    ensures
        failures@ == (RaceView { attempts: attempts@, batch: 1, launched: 0 }).failures(),
{
    let ghost all = (RaceView { attempts: attempts@, batch: 1, launched: 0 }).failures();
    let mut failures: Vec<AttemptFailure> = Vec::new();
    let mut k: usize = 0;
    while k < attempts.len()
        invariant
            k <= attempts.len(),
            failures.len() == k,
            all == (RaceView { attempts: attempts@, batch: 1, launched: 0 }).failures(),
            forall|i: int| 0 <= i < attempts.len() ==> (#[trigger] attempts[i]).state is Failed,
            forall|j: int| 0 <= j < k ==> #[trigger] failures[j] == all[j],
        decreases attempts.len() - k,
    {
        let attempt = attempts[k];
        assert(attempts[k as int].state is Failed);
        match attempt.state {
            AttemptState::Failed(reason) => {
                failures.push(AttemptFailure { path: attempt.path, reason });
            },
            _ => {},
        }
        k += 1;
    }
    assert(failures@ =~= all);
    failures
}

impl Race {
    #[verifier::type_invariant]
    spec fn sound(self) -> bool {
        self@.well_formed()
    }

    /// Begins a race over `paths`, in their order. Up to `concurrency`
    /// attempts are in flight together; 0 puts all in flight at once.
    ///
    /// Without a path there is nothing to race: the call fails with
    /// `NoViableStack`, and no attempt is ever started.
    pub fn begin(paths: &[CandidatePath], concurrency: usize) -> (begun: Result<Race, EstablishmentError>)
        ensures
            paths.len() == 0 ==> begun matches Err(EstablishmentError::NoViableStack),
            paths.len() > 0 ==> (begun matches Ok(race) && race@ == RaceView::initial(
                paths@,
                concurrency as nat,
            ) && race@.well_formed()),
    {
        if paths.len() == 0 {
            return Err(EstablishmentError::NoViableStack);
        }
        let batch: usize = if concurrency == 0 {
            paths.len()
        } else {
            concurrency
        };
        let first: usize = if batch <= paths.len() {
            batch
        } else {
            paths.len()
        };
        let mut attempts: Vec<Attempt> = Vec::new();
        let mut k: usize = 0;
        while k < paths.len()
            invariant
                k <= paths.len(),
                attempts.len() == k,
                first <= paths.len(),
                forall|j: int| 0 <= j < k ==> #[trigger] attempts[j] == RaceView::initial(
                    paths@,
                    concurrency as nat,
                ).attempts[j],
                first == RaceView::initial(paths@, concurrency as nat).launched,
            decreases paths.len() - k,
        {
            let state = if k < first {
                AttemptState::InFlight
            } else {
                AttemptState::Waiting
            };
            attempts.push(Attempt { path: paths[k], state });
            k += 1;
        }
        proof {
            lemma_initial(paths@, concurrency as nat);
            assert(attempts@ =~= RaceView::initial(paths@, concurrency as nat).attempts);
        }
        Ok(Race { attempts, batch, launched: first })
    }

    /// The number of attempts.
    pub fn len(&self) -> (len: usize)
        ensures
            len == self@.attempts.len(),
    {
        self.attempts.len()
    }

    /// The number of attempts that were started: the first so many.
    pub fn launched(&self) -> (launched: usize)
        ensures
            launched == self@.launched,
            launched <= self@.attempts.len(),
            self@.well_formed(),
    {
        proof {
            use_type_invariant(self);
        }
        self.launched
    }

    /// Attempt `i`, if there is one.
    pub fn attempt(&self, i: usize) -> (attempt: Option<Attempt>)
        ensures
            attempt == if i < self@.attempts.len() {
                Some(self@.attempts[i as int])
            } else {
                None
            },
    {
        if i < self.attempts.len() {
            Some(self.attempts[i])
        } else {
            None
        }
    }

    /// The attempt that is connected, if one is.
    pub fn winner(&self) -> (winner: Option<usize>)
        ensures
            self@.well_formed(),
            match winner {
                Some(w) => self@.is_winner(w as int),
                None => !self@.won(),
            },
    {
        proof {
            use_type_invariant(self);
        }
        let mut k: usize = 0;
        while k < self.attempts.len()
            invariant
                k <= self.attempts.len(),
                self@.well_formed(),
                forall|i: int| 0 <= i < k ==> !self@.is_winner(i),
            decreases self.attempts.len() - k,
        {
            if self.attempts[k].state == AttemptState::Connected {
                return Some(k);
            }
            k += 1;
        }
        None
    }

    /// Takes the report that attempt `i` is connected.
    ///
    /// An attempt in flight wins: it becomes the one connected attempt, and
    /// all others in flight are cancelled and listed for the driver. For
    /// any other attempt nothing changes, and the driver is told to
    /// release the socket.
    pub fn connected(&mut self, i: usize) -> (claim: Claim)
        ensures
            final(self)@ == old(self)@.connected(i as int),
            final(self)@.well_formed(),
            match claim {
                Claim::Won { cancel } => {
                    &&& old(self)@.in_flight(i as int)
                    &&& final(self)@.is_winner(i as int)
                    &&& forall|k: int|
                        0 <= k < final(self)@.attempts.len() && k != i ==> final(self)@.is_closed(k)
                    &&& cancels(old(self)@.attempts, i as int, cancel@)
                },
                Claim::Discard => !old(self)@.in_flight(i as int),
            },
    {
        proof {
            use_type_invariant(&*self);
            lemma_connected(self@, i as int);
            if self@.in_flight(i as int) {
                lemma_established(self@, i as int);
            }
        }
        if i >= self.attempts.len() || self.attempts[i].state != AttemptState::InFlight {
            return Claim::Discard;
        }
        let (attempts, cancel) = claim(&self.attempts, i);
        self.attempts = attempts;
        Claim::Won { cancel }
    }

    /// Takes the report that attempt `i` failed for `reason`; an attempt
    /// that timed out failed with `TimedOut`.
    ///
    /// The failure of an attempt in flight is recorded. If others are still
    /// in flight the driver waits; if none is and attempts are left, the
    /// next batch is started; if none are left the race is lost, and the
    /// error holds every attempt's failure. For an attempt that is not in
    /// flight nothing changes.
    pub fn failed(&mut self, i: usize, reason: FailureReason) -> (progress: Progress)
        ensures
            final(self)@ == old(self)@.failed(i as int, reason),
            final(self)@.well_formed(),
            match progress {
                Progress::Wait => !old(self)@.in_flight(i as int) || old(self)@.marked(
                    i as int,
                    reason,
                ).any_in_flight(),
                Progress::Launch { from, to } => {
                    &&& old(self)@.in_flight(i as int)
                    &&& !old(self)@.marked(i as int, reason).any_in_flight()
                    &&& from == old(self)@.launched
                    &&& to == final(self)@.launched
                    &&& from < to
                },
                Progress::Lost(error) => {
                    &&& old(self)@.in_flight(i as int)
                    &&& final(self)@.lost()
                    &&& error matches EstablishmentError::AllFailed(failures)
                    &&& failures@ == final(self)@.failures()
                },
            },
    {
        proof {
            use_type_invariant(&*self);
            lemma_failed(self@, i as int, reason);
        }
        if i >= self.attempts.len() || self.attempts[i].state != AttemptState::InFlight {
            return Progress::Wait;
        }
        let ghost marked = self@.marked(i as int, reason);
        let mut attempts = start(&self.attempts, 0, 0);
        assert(attempts@ =~= self.attempts@);
        let path = attempts[i].path;
        attempts.set(i, Attempt { path, state: AttemptState::Failed(reason) });
        assert(attempts@ =~= marked.attempts);
        let flying = any_flying(&attempts);
        proof {
            if flying {
                let k = choose|k: int| 0 <= k < attempts.len() && attempts[k].state == AttemptState::InFlight;
                assert(marked.in_flight(k));
            } else {
                assert forall|k: int| !marked.in_flight(k) by {}
            }
        }
        if flying {
            self.attempts = attempts;
            return Progress::Wait;
        }
        let from = self.launched;
        if from < attempts.len() {
            let to: usize = if self.batch <= attempts.len() - from {
                from + self.batch
            } else {
                attempts.len()
            };
            let next = start(&attempts, from, to);
            *self = Race { attempts: next, batch: self.batch, launched: to };
            return Progress::Launch { from, to };
        }
        proof {
            assert(marked.launch(marked.batch_end()).attempts =~= marked.attempts);
            assert(!self@.won());
            assert forall|k: int| !marked.is_winner(k) by {
                if marked.is_winner(k) {
                    assert(self@.is_winner(k));
                }
            }
            lemma_lost(old(self)@.failed(i as int, reason));
        }
        let failures = gather(&attempts);
        self.attempts = attempts;
        Progress::Lost(EstablishmentError::AllFailed(failures))
    }
}

} // verus!
