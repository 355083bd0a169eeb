//! Locks by name that processes ask for over a connection.
//!
//! Readers overlap; a writer is alone. Once a writer waits, later readers wait
//! as well, so that a steady stream of readers cannot starve it.

use vstd::bytes::spec_u64_from_le_bytes;
use vstd::bytes::spec_u64_to_le_bytes;
use vstd::bytes::u64_from_le_bytes;
use vstd::bytes::u64_to_le_bytes;
use vstd::prelude::*;
use vstd::string::*;
use vstd::utf8::*;

use crate::bytes::push_bytes;
use crate::bytes::push_text;
use crate::bytes::utf8;
use crate::text::cut_first;
use crate::text::is_space;
use crate::text::lemma_first_at_unique;
use crate::text::split_once;
use crate::text::text_is;
use crate::text::trim_end;
use crate::text::trimmed_end;

verus! {

/// Whether a lock can be shared.
#[derive(Clone, Copy, Debug, PartialEq, Eq, Structural)]
pub enum LockMode {
    Shared,
    Exclusive,
}

/// The state of one lock.
#[derive(Clone, Copy, Debug, PartialEq, Eq, Structural)]
pub struct LockState {
    pub readers: usize,
    pub writer: bool,
    pub waiting_writers: usize,
    /// How often the lock was held exclusively.
    pub generation: u64,
}

/// A lock that nobody holds or waits for.
pub open spec fn free_lock() -> LockState {
    LockState { readers: 0, writer: false, waiting_writers: 0, generation: 0 }
}

impl Default for LockState {
    fn default() -> (state: Self)
        ensures
            state == free_lock(),
    {
        LockState { readers: 0, writer: false, waiting_writers: 0, generation: 0 }
    }
}

impl LockState {
    /// A writer and readers never hold the lock together.
    pub open spec fn well_formed(&self) -> bool {
        self.writer ==> self.readers == 0
    }

    /// Whether a client has to wait.
    pub open spec fn blocks(&self, mode: LockMode) -> bool {
        match mode {
            LockMode::Shared => self.writer || self.waiting_writers > 0,
            LockMode::Exclusive => self.writer || self.readers > 0,
        }
    }

    /// The state once a client has asked for the lock.
    pub open spec fn registered(&self, mode: LockMode) -> LockState {
        match mode {
            LockMode::Shared => *self,
            LockMode::Exclusive => LockState {
                waiting_writers: (self.waiting_writers + 1) as usize,
                ..*self
            },
        }
    }

    /// The state once a client holds the lock.
    pub open spec fn acquired(&self, mode: LockMode) -> LockState {
        match mode {
            LockMode::Shared => LockState { readers: (self.readers + 1) as usize, ..*self },
            LockMode::Exclusive => LockState {
                waiting_writers: (self.waiting_writers - 1) as usize,
                writer: true,
                generation: (self.generation + 1) as u64,
                ..*self
            },
        }
    }

    /// The state once a client has let go of the lock.
    pub open spec fn released(&self, mode: LockMode) -> LockState {
        match mode {
            LockMode::Shared => LockState { readers: (self.readers - 1) as usize, ..*self },
            LockMode::Exclusive => LockState { writer: false, ..*self },
        }
    }

    /// Notes that a client asks for the lock.
    pub fn register(&mut self, mode: LockMode)
        requires
            mode == LockMode::Exclusive ==> old(self).waiting_writers < usize::MAX,
        ensures
            *final(self) == old(self).registered(mode),
    {
        if let LockMode::Exclusive = mode {
            self.waiting_writers = self.waiting_writers + 1;
        }
    }

    /// Gives the lock to a client that has asked for it, and tells how often it
    /// was held exclusively before. `None` where the client has to wait.
    pub fn acquire(&mut self, mode: LockMode) -> (generation: Option<u64>)
        requires
            mode == LockMode::Exclusive ==> old(self).waiting_writers > 0 && old(self).generation
                < u64::MAX,
            mode == LockMode::Shared ==> old(self).readers < usize::MAX,
        ensures
            match generation {
                Some(generation) => !old(self).blocks(mode) && generation == old(self).generation
                    && *final(self) == old(self).acquired(mode),
                None => old(self).blocks(mode) && *final(self) == *old(self),
            },
    {
        match mode {
            LockMode::Shared => {
                if self.writer || 0 < self.waiting_writers {
                    return None;
                }
                self.readers = self.readers + 1;
                Some(self.generation)
            },
            LockMode::Exclusive => {
                if self.writer || 0 < self.readers {
                    return None;
                }
                self.waiting_writers = self.waiting_writers - 1;
                self.writer = true;
                let generation: u64 = self.generation;
                self.generation = self.generation + 1;
                Some(generation)
            },
        }
    }

    /// Takes the lock back from a client that holds it.
    pub fn release(&mut self, mode: LockMode)
        requires
            mode == LockMode::Shared ==> old(self).readers > 0,
        ensures
            *final(self) == old(self).released(mode),
    {
        match mode {
            LockMode::Shared => {
                self.readers = self.readers - 1;
            },
            LockMode::Exclusive => {
                self.writer = false;
            },
        }
    }
}

/// The word for a mode in a request.
pub open spec fn mode_word(mode: LockMode) -> Seq<char> {
    match mode {
        LockMode::Shared => "shared"@,
        LockMode::Exclusive => "exclusive"@,
    }
}

/// The mode that a word stands for.
pub open spec fn word_mode(word: Seq<char>) -> Option<LockMode> {
    if word == "shared"@ {
        Some(LockMode::Shared)
    } else if word == "exclusive"@ {
        Some(LockMode::Exclusive)
    } else {
        None
    }
}

/// The bytes with which a client asks for a lock.
pub fn lock_request(mode: LockMode, name: &[u8]) -> (request: Vec<u8>)
    ensures
        request@ == utf8(mode_word(mode)) + utf8(" "@) + name@ + utf8("\n"@),
{
    let mut request: Vec<u8> = Vec::new();
    match mode {
        LockMode::Shared => push_text(&mut request, "shared"),
        LockMode::Exclusive => push_text(&mut request, "exclusive"),
    }
    push_text(&mut request, " ");
    push_bytes(&mut request, name);
    push_text(&mut request, "\n");
    proof {
        assert(request@ =~= utf8(mode_word(mode)) + utf8(" "@) + name@ + utf8("\n"@));
    }
    request
}

/// What a line asks for: a mode and a name with a space between them.
pub open spec fn requested(line: Seq<char>) -> Option<(LockMode, Seq<char>)> {
    match cut_first(trimmed_end(line), ' ') {
        None => None,
        Some((word, name)) => match word_mode(word) {
            Some(mode) => Some((mode, name)),
            None => None,
        },
    }
}

/// What a line asks for.
pub fn parse_lock_request(line: &str) -> (request: Option<(LockMode, String)>)
    ensures
        match (request, requested(line@)) {
            (Some((mode, name)), Some((expected, expected_name))) => mode == expected && name@
                == expected_name,
            (None, None) => true,
            _ => false,
        },
{
    let line = trim_end(line);
    match split_once(line.as_str(), ' ') {
        None => None,
        Some((word, name)) => if text_is(word.as_str(), "shared") {
            Some((LockMode::Shared, name))
        } else if text_is(word.as_str(), "exclusive") {
            Some((LockMode::Exclusive, name))
        } else {
            None
        },
    }
}

/// A reply: the generation, its highest byte first.
pub fn encode_generation(generation: u64) -> (reply: Vec<u8>)
    ensures
        reply@ == spec_u64_to_le_bytes(generation).reverse(),
{
    let bytes = u64_to_le_bytes(generation);
    reversed(bytes.as_slice())
}

/// Bytes from the last to the first.
fn reversed(bytes: &[u8]) -> (result: Vec<u8>)
    ensures
        result@ == bytes@.reverse(),
{
    let mut result: Vec<u8> = Vec::new();
    let mut left: usize = bytes.len();
    while left > 0
        invariant
            left <= bytes@.len(),
            result@ == bytes@.reverse().take(bytes@.len() - left),
        decreases left,
    {
        let ghost before = result@;
        result.push(bytes[left - 1]);
        left = left - 1;
        proof {
            assert(result@ =~= bytes@.reverse().take(bytes@.len() - left));
        }
    }
    proof {
        assert(bytes@.reverse().take(bytes@.len() as int) =~= bytes@.reverse());
    }
    result
}

/// The generation that a reply holds. `None` where it is not eight bytes long.
pub fn decode_generation(reply: &[u8]) -> (generation: Option<u64>)
    ensures
        generation == if reply@.len() == 8 {
            Some(spec_u64_from_le_bytes(reply@.reverse()))
        } else {
            None
        },
{
    if reply.len() != 8 {
        return None;
    }
    let bytes = reversed(reply);
    Some(u64_from_le_bytes(bytes.as_slice()))
}

/// The locks of a server, by name.
pub struct LockTable {
    pub names: Vec<String>,
    pub locks: Vec<LockState>,
}

impl LockTable {
    /// Every name has one lock.
    pub open spec fn well_formed(&self) -> bool {
        &&& self.names@.len() == self.locks@.len()
        &&& forall|i: int, j: int|
            0 <= i < j < self.names@.len() ==> (#[trigger] self.names@[i])@ != (
            #[trigger] self.names@[j])@
    }

    /// The lock with a name. One that nobody has asked for is free.
    pub open spec fn lock(&self, name: Seq<char>) -> LockState {
        if exists|i: int| 0 <= i < self.names@.len() && (#[trigger] self.names@[i])@ == name {
            self.locks@[choose|i: int|
                0 <= i < self.names@.len() && (#[trigger] self.names@[i])@ == name]
        } else {
            free_lock()
        }
    }

    /// A table in which all locks are free.
    pub fn new() -> (table: Self)
        ensures
            table.well_formed(),
            forall|name: Seq<char>| #[trigger] table.lock(name) == free_lock(),
    {
        LockTable { names: Vec::new(), locks: Vec::new() }
    }

    /// The position of the lock with a name, which is added where it is new.
    pub fn entry(&mut self, name: &str) -> (at: usize)
        requires
            old(self).well_formed(),
        ensures
            final(self).well_formed(),
            at < final(self).locks@.len(),
            final(self).names@[at as int]@ == name@,
            final(self).locks@[at as int] == old(self).lock(name@),
            forall|other: Seq<char>| #[trigger] final(self).lock(other) == old(self).lock(other),
    {
        let mut at: usize = 0;
        while at < self.names.len()
            invariant
                at <= self.names@.len(),
                *self == *old(self),
                self.well_formed(),
                forall|i: int| 0 <= i < at ==> (#[trigger] self.names@[i])@ != name@,
            decreases self.names@.len() - at,
        {
            if text_is(self.names[at].as_str(), name) {
                proof {
                    let k = choose|i: int|
                        0 <= i < self.names@.len() && (#[trigger] self.names@[i])@ == name@;
                    assert(self.names@[at as int]@ == name@);
                    assert(k == at);
                }
                return at;
            }
            at = at + 1;
        }
        let ghost before = *self;
        self.names.push(name.to_owned());
        self.locks.push(LockState::default());
        proof {
            assert(self.names@[at as int]@ == name@);
            assert forall|i: int| 0 <= i < at implies (#[trigger] self.names@[i])@
                == before.names@[i]@ by {}
            assert forall|other: Seq<char>| #[trigger] self.lock(other) == before.lock(other) by {
                if other == name@ {
                    let k = choose|i: int|
                        0 <= i < self.names@.len() && (#[trigger] self.names@[i])@ == other;
                    assert(self.names@[at as int]@ == other);
                    assert(k == at);
                    assert(!exists|i: int|
                        0 <= i < before.names@.len() && (#[trigger] before.names@[i])@ == other);
                } else if exists|i: int|
                    0 <= i < before.names@.len() && (#[trigger] before.names@[i])@ == other {
                    let b = choose|i: int|
                        0 <= i < before.names@.len() && (#[trigger] before.names@[i])@ == other;
                    assert(self.names@[b]@ == other);
                    let k = choose|i: int|
                        0 <= i < self.names@.len() && (#[trigger] self.names@[i])@ == other;
                    assert(k < at);
                    assert(before.names@[k]@ == other);
                    assert(k == b);
                } else {
                    assert forall|i: int| 0 <= i < self.names@.len() implies (
                    #[trigger] self.names@[i])@ != other by {
                        if i < at {
                            assert(before.names@[i]@ != other);
                        }
                    }
                }
            }
        }
        at
    }
}

/// What happens to a lock.
#[derive(Clone, Copy, Debug, PartialEq, Eq, Structural)]
pub enum LockEvent {
    Registered(LockMode),
    Acquired(LockMode),
    Released(LockMode),
}

/// Whether an event can happen: a lock is given only to a client that has asked
/// for it and does not have to wait, and taken only from one that holds it.
pub open spec fn can_happen(state: LockState, event: LockEvent) -> bool {
    match event {
        LockEvent::Registered(LockMode::Shared) => true,
        LockEvent::Registered(LockMode::Exclusive) => state.waiting_writers < usize::MAX,
        LockEvent::Acquired(LockMode::Shared) => !state.blocks(LockMode::Shared) && state.readers
            < usize::MAX,
        LockEvent::Acquired(LockMode::Exclusive) => !state.blocks(LockMode::Exclusive)
            && state.waiting_writers > 0 && state.generation < u64::MAX,
        LockEvent::Released(LockMode::Shared) => state.readers > 0,
        LockEvent::Released(LockMode::Exclusive) => state.writer,
    }
}

/// The state of a lock after an event.
pub open spec fn after_event(state: LockState, event: LockEvent) -> LockState {
    match event {
        LockEvent::Registered(mode) => state.registered(mode),
        LockEvent::Acquired(mode) => state.acquired(mode),
        LockEvent::Released(mode) => state.released(mode),
    }
}

/// The state of a lock after events that can happen one after the other.
pub open spec fn after_events(events: Seq<LockEvent>) -> Option<LockState>
    decreases events.len(),
{
    if events.len() == 0 {
        Some(free_lock())
    } else {
        match after_events(events.drop_last()) {
            Some(state) => if can_happen(state, events.last()) {
                Some(after_event(state, events.last()))
            } else {
                None
            },
            None => None,
        }
    }
}

/// How often an event is among events.
pub open spec fn count_of(events: Seq<LockEvent>, event: LockEvent) -> int
    decreases events.len(),
{
    if events.len() == 0 {
        0
    } else {
        count_of(events.drop_last(), event) + if events.last() == event {
            1int
        } else {
            0
        }
    }
}

/// Whatever happens to a lock, a writer never holds it together with another
/// client, the readers and the writer are those that acquired it and did not
/// let go, and the generation is the number of exclusive holders so far.
pub proof fn law_writers_are_alone(events: Seq<LockEvent>)
    requires
        after_events(events) is Some,
    ensures
        ({
            let state = after_events(events)->Some_0;
            &&& state.well_formed()
            &&& state.readers == count_of(events, LockEvent::Acquired(LockMode::Shared)) - count_of(
                events,
                LockEvent::Released(LockMode::Shared),
            )
            &&& (if state.writer {
                1int
            } else {
                0
            }) == count_of(events, LockEvent::Acquired(LockMode::Exclusive)) - count_of(
                events,
                LockEvent::Released(LockMode::Exclusive),
            )
            &&& state.waiting_writers == count_of(
                events,
                LockEvent::Registered(LockMode::Exclusive),
            ) - count_of(events, LockEvent::Acquired(LockMode::Exclusive))
            &&& state.generation == count_of(events, LockEvent::Acquired(LockMode::Exclusive))
        }),
    decreases events.len(),
{
    if events.len() > 0 {
        law_writers_are_alone(events.drop_last());
    }
}

/// While a writer waits, no reader is given the lock.
pub proof fn law_waiting_writers_block_readers(state: LockState)
    requires
        state.waiting_writers > 0,
    ensures
        !can_happen(state, LockEvent::Acquired(LockMode::Shared)),
{
}

/// A lock that nobody holds is given to a writer that waits for it.
pub proof fn law_free_locks_go_to_waiting_writers(state: LockState)
    requires
        state.waiting_writers > 0,
        state.readers == 0,
        !state.writer,
        state.generation < u64::MAX,
    ensures
        can_happen(state, LockEvent::Acquired(LockMode::Exclusive)),
{
}

/// Readers share a lock that no writer holds or waits for.
pub proof fn law_readers_overlap(state: LockState)
    requires
        !state.writer,
        state.waiting_writers == 0,
        state.readers < usize::MAX,
    ensures
        can_happen(state, LockEvent::Acquired(LockMode::Shared)),
{
}

/// A request is understood as it was meant, where the name ends in something
/// else than white space.
pub proof fn law_requests_are_understood(mode: LockMode, name: Seq<char>)
    requires
        name.len() > 0,
        !is_space(name.last()),
    ensures
        requested(mode_word(mode) + " "@ + name + "\n"@) == Some((mode, name)),
{
    reveal_strlit("shared");
    reveal_strlit("exclusive");
    reveal_strlit(" ");
    reveal_strlit("\n");
    let word = mode_word(mode);
    let line = word + " "@ + name + "\n"@;
    let kept = word + " "@ + name;
    assert(line.last() == '\n');
    assert(is_space('\n'));
    assert(line.drop_last() =~= kept);
    assert(kept.last() == name.last());
    assert(trimmed_end(kept) == kept);
    assert(trimmed_end(line) == trimmed_end(line.drop_last()));
    assert forall|k: int| 0 <= k < word.len() implies kept[k] != ' ' by {
        assert(kept[k] == word[k]);
    }
    lemma_first_at_unique(kept, ' ', word.len() as int);
    assert(kept.take(word.len() as int) =~= word);
    assert(kept.skip(word.len() as int + 1) =~= name);
    assert("shared"@ != "exclusive"@) by {
        assert("shared"@.len() != "exclusive"@.len());
    }
}

/// A generation is read back from its reply.
pub proof fn law_generations_round_trip(generation: u64)
    ensures
        spec_u64_to_le_bytes(generation).reverse().len() == 8,
        spec_u64_from_le_bytes(spec_u64_to_le_bytes(generation).reverse().reverse()) == generation,
{
    vstd::bytes::lemma_auto_spec_u64_to_from_le_bytes();
    let bytes = spec_u64_to_le_bytes(generation);
    assert(bytes.reverse().reverse() =~= bytes);
}

} // verus!
