//! The bookkeeping of a bounded connection pool: how the pool is configured,
//! who holds a connection, and who waits for one. The connections themselves
//! are opened and handed over by the service around this crate; which caller
//! gets one, and which has to wait, is decided here.

use vstd::prelude::*;
use vstd::string::*;

verus! {

/// The size of a pool that is configured without one.
pub const DEFAULT_MAX_SIZE: usize = 16;

/// Why the service cannot start.
#[derive(Clone, Copy, Debug, PartialEq, Eq, Structural)]
pub enum StartupError {
    /// No connection string was given.
    MissingConnectionString,
    /// The connection string is empty.
    EmptyConnectionString,
}

/// How a pool is set up: where it connects to, and how many connections it
/// may hold at most.
#[derive(Debug)]
pub struct PoolConfig {
    connection_string: String,
    max_size: usize,
}

impl PoolConfig {
    pub closed spec fn spec_connection_string(&self) -> Seq<char> {
        self.connection_string@
    }

    pub closed spec fn spec_max_size(&self) -> usize {
        self.max_size
    }

    /// The configuration for `connection_string`, with the default size. It
    /// is refused if and only if the string is absent or empty.
    pub fn new(connection_string: Option<&str>) -> (made: Result<PoolConfig, StartupError>)
        ensures
            match made {
                Ok(config) => {
                    &&& connection_string matches Some(given)
                    &&& given@.len() > 0
                    &&& config.spec_connection_string() == given@
                    &&& config.spec_max_size() == DEFAULT_MAX_SIZE
                },
                Err(StartupError::MissingConnectionString) => connection_string is None,
                Err(StartupError::EmptyConnectionString) => connection_string matches Some(given)
                    && given@.len() == 0,
            },
    {
        match connection_string {
            None => Err(StartupError::MissingConnectionString),
            Some(given) => {
                if given.is_empty() {
                    Err(StartupError::EmptyConnectionString)
                } else {
                    Ok(
                        PoolConfig {
                            connection_string: String::from_str(given),
                            max_size: DEFAULT_MAX_SIZE,
                        },
                    )
                }
            },
        }
    }

    /// The same configuration with `max_size` connections at most.
    pub fn with_max_size(self, max_size: usize) -> (sized: PoolConfig)
        ensures
            sized.spec_connection_string() == self.spec_connection_string(),
            sized.spec_max_size() == max_size,
    {
        PoolConfig { connection_string: self.connection_string, max_size }
    }

    pub fn connection_string(&self) -> (text: &str)
        ensures
            text@ == self.spec_connection_string(),
    {
        self.connection_string.as_str()
    }

    pub fn max_size(&self) -> (size: usize)
        ensures
            size == self.spec_max_size(),
    {
        self.max_size
    }
}

/// A pool's books as the contracts see them: the tickets of those who hold
/// a connection, and the tickets of those who wait, first come first.
pub struct LedgerModel {
    pub max_size: nat,
    pub borrowed: Seq<u64>,
    pub waiting: Seq<u64>,
}

/// What holds of the books at all times: no more connections are out than
/// the pool may hold, nobody waits while one is free, and no ticket stands
/// in the books twice.
pub open spec fn ledger_sound(m: LedgerModel) -> bool {
    &&& m.borrowed.len() <= m.max_size
    &&& m.waiting.len() > 0 ==> m.borrowed.len() == m.max_size
    &&& forall|i: int, j: int| 0 <= i < j < m.borrowed.len() ==> m.borrowed[i] != m.borrowed[j]
    &&& forall|i: int, j: int| 0 <= i < j < m.waiting.len() ==> m.waiting[i] != m.waiting[j]
    &&& forall|i: int, j: int|
        0 <= i < m.borrowed.len() && 0 <= j < m.waiting.len() ==> m.borrowed[i] != m.waiting[j]
}

/// Whether `ticket` holds a connection or waits for one.
pub open spec fn knows(m: LedgerModel, ticket: u64) -> bool {
    m.borrowed.contains(ticket) || m.waiting.contains(ticket)
}

/// How many connections are free.
pub open spec fn available(m: LedgerModel) -> int {
    m.max_size - m.borrowed.len()
}

/// What a caller that asks for a connection is told.
#[derive(Clone, Copy, Debug, PartialEq, Eq, Structural)]
pub enum Admission {
    /// A connection is the caller's.
    Granted,
    /// All connections are out: the caller waits its turn.
    Suspended,
    /// The ticket is in the books already; nothing changed.
    Refused,
}

/// What became of a connection that was given back.
#[derive(Clone, Copy, Debug, PartialEq, Eq, Structural)]
pub enum Release {
    /// Nobody waited: the connection is free.
    Idle,
    /// The connection went to the caller that waited longest.
    HandedTo(u64),
    /// The ticket held no connection; nothing changed.
    NotHeld,
}

/// What the caller with `ticket` is told when it asks for a connection.
pub open spec fn admission(m: LedgerModel, ticket: u64) -> Admission {
    if knows(m, ticket) {
        Admission::Refused
    } else if m.borrowed.len() < m.max_size {
        Admission::Granted
    } else {
        Admission::Suspended
    }
}

/// The books after the caller with `ticket` asked for a connection.
pub open spec fn after_acquire(m: LedgerModel, ticket: u64) -> LedgerModel {
    match admission(m, ticket) {
        Admission::Refused => m,
        Admission::Granted => LedgerModel { borrowed: m.borrowed.push(ticket), ..m },
        Admission::Suspended => LedgerModel { waiting: m.waiting.push(ticket), ..m },
    }
}

/// What becomes of the connection that `ticket` gives back.
pub open spec fn release_outcome(m: LedgerModel, ticket: u64) -> Release {
    if !m.borrowed.contains(ticket) {
        Release::NotHeld
    } else if m.waiting.len() > 0 {
        Release::HandedTo(m.waiting[0])
    } else {
        Release::Idle
    }
}

/// The books after `ticket` gave its connection back: the caller that waited
/// longest takes its place, or the place is dropped.
pub open spec fn after_release(m: LedgerModel, ticket: u64) -> LedgerModel {
    if !m.borrowed.contains(ticket) {
        m
    } else if m.waiting.len() > 0 {
        LedgerModel {
            borrowed: m.borrowed.update(m.borrowed.index_of(ticket), m.waiting[0]),
            waiting: m.waiting.drop_first(),
            ..m
        }
    } else {
        LedgerModel { borrowed: m.borrowed.remove(m.borrowed.index_of(ticket)), ..m }
    }
}

/// The books after the caller with `ticket` gave up waiting.
pub open spec fn after_withdraw(m: LedgerModel, ticket: u64) -> LedgerModel {
    if m.waiting.contains(ticket) {
        LedgerModel { waiting: m.waiting.remove(m.waiting.index_of(ticket)), ..m }
    } else {
        m
    }
}

/// The books after each of `tickets` in turn was granted a connection, used
/// it, and gave it back.
pub open spec fn after_visits(m: LedgerModel, tickets: Seq<u64>) -> LedgerModel
    decreases tickets.len(),
{
    if tickets.len() == 0 {
        m
    } else {
        let before = after_visits(m, tickets.drop_last());
        after_release(after_acquire(before, tickets.last()), tickets.last())
    }
}

/// In a sequence without repetitions, a value stands where it is found.
proof fn lemma_index_of_unique(tickets: Seq<u64>, i: int)
    requires
        0 <= i < tickets.len(),
        forall|a: int, b: int| 0 <= a < b < tickets.len() ==> tickets[a] != tickets[b],
    ensures
        tickets.index_of(tickets[i]) == i,
        tickets.contains(tickets[i]),
{
    let found = tickets.index_of(tickets[i]);
    assert(tickets.contains(tickets[i]));
    assert(0 <= found < tickets.len() && tickets[found] == tickets[i]);
    if found < i {
        assert(tickets[found] != tickets[i]);
    } else if i < found {
        assert(tickets[i] != tickets[found]);
    }
}

/// Every operation keeps the books sound: whatever is asked or given back, no
/// more than `max_size` connections are out, and no ticket holds two.
pub proof fn lemma_books_stay_sound(m: LedgerModel, ticket: u64)
    requires
        ledger_sound(m),
    ensures
        ledger_sound(after_acquire(m, ticket)),
        ledger_sound(after_release(m, ticket)),
        ledger_sound(after_withdraw(m, ticket)),
{
    if m.borrowed.contains(ticket) {
        let i = m.borrowed.index_of(ticket);
        lemma_index_of_unique(m.borrowed, i);
    }
    if m.waiting.contains(ticket) {
        let i = m.waiting.index_of(ticket);
        lemma_index_of_unique(m.waiting, i);
    }
}

/// A caller that asks while all connections are out is not turned away: it
/// waits, behind those that waited before it, and nothing else changes.
pub proof fn lemma_excess_acquire_waits(m: LedgerModel, ticket: u64)
    requires
        ledger_sound(m),
        !knows(m, ticket),
        m.borrowed.len() == m.max_size,
    ensures
        admission(m, ticket) == Admission::Suspended,
        after_acquire(m, ticket).borrowed == m.borrowed,
        after_acquire(m, ticket).waiting == m.waiting.push(ticket),
{
}

/// A caller that waits goes on waiting whatever others ask for: only a
/// connection that is given back ends its wait.
pub proof fn lemma_waiting_lasts(m: LedgerModel, ticket: u64, other: u64)
    requires
        ledger_sound(m),
        m.waiting.contains(ticket),
    ensures
        after_acquire(m, other).waiting.contains(ticket),
        !after_acquire(m, other).borrowed.contains(ticket),
        other != ticket ==> after_withdraw(m, other).waiting.contains(ticket),
{
    let i = m.waiting.index_of(ticket);
    let grown = after_acquire(m, other);
    if grown.waiting != m.waiting {
        assert(grown.waiting[i] == ticket);
    }
    if grown.borrowed.contains(ticket) {
        let j = grown.borrowed.index_of(ticket);
        assert(grown.borrowed[j] == ticket);
    }
    if other != ticket && m.waiting.contains(other) {
        let k = m.waiting.index_of(other);
        let fewer = m.waiting.remove(k);
        if i < k {
            assert(fewer[i] == ticket);
        } else {
            assert(fewer[i - 1] == ticket);
        }
    }
}

/// A connection that is given back while callers wait goes to exactly one of
/// them, the one that waited longest: it holds a connection now and waits no
/// more, the others wait on in their order, and nobody else has gained one.
pub proof fn lemma_release_wakes_one(m: LedgerModel, ticket: u64)
    requires
        ledger_sound(m),
        m.borrowed.contains(ticket),
        m.waiting.len() > 0,
    ensures
        release_outcome(m, ticket) == Release::HandedTo(m.waiting[0]),
        after_release(m, ticket).waiting == m.waiting.drop_first(),
        after_release(m, ticket).borrowed.len() == m.borrowed.len(),
        after_release(m, ticket).borrowed.contains(m.waiting[0]),
        !after_release(m, ticket).waiting.contains(m.waiting[0]),
        !after_release(m, ticket).borrowed.contains(ticket),
        forall|t: u64|
            t != m.waiting[0] ==> (after_release(m, ticket).borrowed.contains(t) <==> t != ticket
                && m.borrowed.contains(t)),
{
    let i = m.borrowed.index_of(ticket);
    let next = m.waiting[0];
    let after = after_release(m, ticket);
    lemma_index_of_unique(m.borrowed, i);
    lemma_books_stay_sound(m, ticket);
    assert(after.borrowed[i] == next);
    if after.waiting.contains(next) {
        let k = after.waiting.index_of(next);
        assert(m.waiting[k + 1] == next);
    }
    if after.borrowed.contains(ticket) {
        let k = after.borrowed.index_of(ticket);
        assert(m.borrowed[k] == ticket);
    }
    assert forall|t: u64| t != next implies (after.borrowed.contains(t) <==> t != ticket
        && m.borrowed.contains(t)) by {
        if after.borrowed.contains(t) {
            let k = after.borrowed.index_of(t);
            assert(m.borrowed[k] == t);
        }
        if t != ticket && m.borrowed.contains(t) {
            let k = m.borrowed.index_of(t);
            assert(after.borrowed[k] == t);
        }
    }
}

/// A connection that is given back while nobody waits is free again.
pub proof fn lemma_release_frees(m: LedgerModel, ticket: u64)
    requires
        ledger_sound(m),
        m.borrowed.contains(ticket),
        m.waiting.len() == 0,
    ensures
        release_outcome(m, ticket) == Release::Idle,
        available(after_release(m, ticket)) == available(m) + 1,
        !knows(after_release(m, ticket), ticket),
{
    let i = m.borrowed.index_of(ticket);
    lemma_index_of_unique(m.borrowed, i);
    let after = after_release(m, ticket);
    if after.borrowed.contains(ticket) {
        let k = after.borrowed.index_of(ticket);
        if k < i {
            assert(m.borrowed[k] == ticket);
        } else {
            assert(m.borrowed[k + 1] == ticket);
        }
    }
}

/// A caller that was granted a connection and gives it back leaves the books
/// as they were.
pub proof fn lemma_visit_restores(m: LedgerModel, ticket: u64)
    requires
        ledger_sound(m),
        admission(m, ticket) == Admission::Granted,
    ensures
        after_release(after_acquire(m, ticket), ticket) == m,
{
    let held = after_acquire(m, ticket);
    lemma_books_stay_sound(m, ticket);
    let last = m.borrowed.len() as int;
    assert(held.borrowed[last] == ticket);
    lemma_index_of_unique(held.borrowed, last);
    assert(held.borrowed.remove(last) =~= m.borrowed);
}

/// Callers that come one after the other, each giving its connection back
/// before the next one asks, leave as many connections free as they found,
/// however their queries went.
pub proof fn lemma_visits_restore(m: LedgerModel, tickets: Seq<u64>)
    requires
        ledger_sound(m),
        m.borrowed.len() < m.max_size,
        forall|i: int| 0 <= i < tickets.len() ==> !knows(m, #[trigger] tickets[i]),
    ensures
        after_visits(m, tickets) == m,
        available(after_visits(m, tickets)) == available(m),
    decreases tickets.len(),
{
    if tickets.len() > 0 {
        lemma_visits_restore(m, tickets.drop_last());
        assert(!knows(m, tickets[tickets.len() - 1]));
        lemma_visit_restores(m, tickets.last());
    }
}

/// Where `ticket` stands in `tickets`.
fn position(tickets: &Vec<u64>, ticket: u64) -> (found: Option<usize>)
    ensures
        match found {
            Some(i) => i < tickets.len() && tickets[i as int] == ticket && forall|k: int|
                0 <= k < i ==> tickets[k] != ticket,
            None => !tickets@.contains(ticket),
        },
{
    let mut i: usize = 0;
    while i < tickets.len()
        invariant
            i <= tickets.len(),
            forall|k: int| 0 <= k < i ==> tickets[k] != ticket,
        decreases tickets.len() - i,
    {
        if tickets[i] == ticket {
            return Some(i);
        }
        i = i + 1;
    }
    None
}

/// The books of one pool.
#[derive(Debug)]
pub struct PoolLedger {
    max_size: usize,
    borrowed: Vec<u64>,
    waiting: Vec<u64>,
}

impl View for PoolLedger {
    type V = LedgerModel;

    closed spec fn view(&self) -> LedgerModel {
        LedgerModel {
            max_size: self.max_size as nat,
            borrowed: self.borrowed@,
            waiting: self.waiting@,
        }
    }
}

impl PoolLedger {
    #[verifier::type_invariant]
    spec fn sound(self) -> bool {
        ledger_sound(self@)
    }

    /// The books of a pool of `max_size` connections, all of them free.
    pub fn new(max_size: usize) -> (ledger: PoolLedger)
        ensures
            ledger@ == (LedgerModel {
                max_size: max_size as nat,
                borrowed: Seq::empty(),
                waiting: Seq::empty(),
            }),
    {
        PoolLedger { max_size, borrowed: Vec::new(), waiting: Vec::new() }
    }

    /// Takes the books out, and leaves those of a pool without connections.
    fn take(&mut self) -> (taken: PoolLedger)
        ensures
            taken@ == old(self)@,
            ledger_sound(taken@),
    {
        proof {
            use_type_invariant(&*self);
        }
        let mut taken = PoolLedger::new(0);
        std::mem::swap(self, &mut taken);
        taken
    }

    /// The caller with `ticket` asks for a connection. It is granted one
    /// while fewer than `max_size` are out; otherwise it is put behind those
    /// who wait already. A ticket that is in the books is refused.
    pub fn acquire(&mut self, ticket: u64) -> (told: Admission)
        ensures
            told == admission(old(self)@, ticket),
            final(self)@ == after_acquire(old(self)@, ticket),
            ledger_sound(final(self)@),
    {
        let PoolLedger { max_size, mut borrowed, mut waiting } = self.take();
        let known = position(&borrowed, ticket).is_some() || position(&waiting, ticket).is_some();
        let told = if known {
            Admission::Refused
        } else if borrowed.len() < max_size {
            borrowed.push(ticket);
            Admission::Granted
        } else {
            waiting.push(ticket);
            Admission::Suspended
        };
        *self = PoolLedger { max_size, borrowed, waiting };
        told
    }

    /// The caller with `ticket` gives its connection back. The connection
    /// goes to the caller that waited longest, and to nobody else; it is free
    /// where nobody waits.
    pub fn release(&mut self, ticket: u64) -> (outcome: Release)
        ensures
            outcome == release_outcome(old(self)@, ticket),
            final(self)@ == after_release(old(self)@, ticket),
            ledger_sound(final(self)@),
    {
        let PoolLedger { max_size, mut borrowed, mut waiting } = self.take();
        let outcome = match position(&borrowed, ticket) {
            None => Release::NotHeld,
            Some(i) => {
                proof {
                    lemma_index_of_unique(borrowed@, i as int);
                }
                if waiting.len() > 0 {
                    let next = waiting.remove(0);
                    assert(waiting@ =~= old(self)@.waiting.drop_first());
                    borrowed.set(i, next);
                    Release::HandedTo(next)
                } else {
                    borrowed.remove(i);
                    Release::Idle
                }
            },
        };
        *self = PoolLedger { max_size, borrowed, waiting };
        outcome
    }

    /// The caller with `ticket` gives up waiting. Tells whether it waited.
    pub fn withdraw(&mut self, ticket: u64) -> (waited: bool)
        ensures
            waited == old(self)@.waiting.contains(ticket),
            final(self)@ == after_withdraw(old(self)@, ticket),
            ledger_sound(final(self)@),
    {
        let PoolLedger { max_size, borrowed, mut waiting } = self.take();
        assert(ledger_sound(
            LedgerModel { max_size: max_size as nat, borrowed: borrowed@, waiting: waiting@ },
        ));
        let waited = match position(&waiting, ticket) {
            None => false,
            Some(i) => {
                proof {
                    lemma_index_of_unique(waiting@, i as int);
                }
                waiting.remove(i);
                true
            },
        };
        *self = PoolLedger { max_size, borrowed, waiting };
        waited
    }

    pub fn max_size(&self) -> (size: usize)
        ensures
            size == self@.max_size,
    {
        self.max_size
    }

    /// How many connections are out.
    pub fn borrowed_count(&self) -> (count: usize)
        ensures
            count == self@.borrowed.len(),
            count <= self@.max_size,
    {
        proof {
            use_type_invariant(self);
        }
        self.borrowed.len()
    }

    /// How many callers wait.
    pub fn waiting_count(&self) -> (count: usize)
        ensures
            count == self@.waiting.len(),
    {
        self.waiting.len()
    }

    /// How many connections are free.
    pub fn available(&self) -> (count: usize)
        ensures
            count == available(self@),
    {
        proof {
            use_type_invariant(self);
        }
        self.max_size - self.borrowed.len()
    }

    /// Whether `ticket` holds a connection.
    pub fn holds(&self, ticket: u64) -> (yes: bool)
        ensures
            yes == self@.borrowed.contains(ticket),
    {
        position(&self.borrowed, ticket).is_some()
    }

    /// Whether `ticket` waits for a connection.
    pub fn is_waiting(&self, ticket: u64) -> (yes: bool)
        ensures
            yes == self@.waiting.contains(ticket),
    {
        position(&self.waiting, ticket).is_some()
    }
}

} // verus!
