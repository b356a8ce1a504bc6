use vstd::prelude::*;

verus! {

/// The two directions in which a relay copies bytes.
#[derive(Clone, Copy, Debug, PartialEq, Eq, Structural)]
pub enum Direction {
    ClientToRemote,
    RemoteToClient,
}

/// What a read on the source side of one direction gave.
#[derive(Clone, Copy, Debug, PartialEq, Eq, Structural)]
pub enum ReadOutcome {
    /// This many bytes were read; zero means end of stream.
    Data(u64),
    /// The read failed.
    Failed,
}

/// What the copy loop is to do after a read.
#[derive(Clone, Copy, Debug, PartialEq, Eq, Structural)]
pub enum RelayAction {
    /// Write the bytes just read to the other side and read again.
    Forward,
    /// Stop, and shut down both streams.
    Shutdown,
}

/// Byte counts of a relay, one per direction.
#[derive(Clone, Copy, Debug, PartialEq, Eq, Structural)]
pub struct RelayResult {
    pub bytes_client_to_remote: u64,
    pub bytes_remote_to_client: u64,
}

/// The bookkeeping of one relay: the byte counts so far, and whether both
/// directions are still open. The first direction to end closes the relay
/// as a whole.
#[derive(Clone, Copy, Debug, PartialEq, Eq, Structural)]
pub struct Relay {
    pub result: RelayResult,
    pub open: bool,
}

/// `a + n`, held at the largest `u64`.
pub open spec fn sat_add(a: u64, n: u64) -> u64 {
    if a + n > u64::MAX {
        u64::MAX
    } else {
        (a + n) as u64
    }
}

/// Whether a read ends its direction.
pub open spec fn ends_direction(o: ReadOutcome) -> bool {
    match o {
        ReadOutcome::Data(n) => n == 0,
        ReadOutcome::Failed => true,
    }
}

/// What one read does to a relay.
pub open spec fn relay_step(r: Relay, d: Direction, o: ReadOutcome) -> Relay {
    if !r.open {
        r
    } else {
        match o {
            ReadOutcome::Data(n) => if n == 0 {
                Relay { open: false, ..r }
            } else {
                match d {
                    Direction::ClientToRemote => Relay {
                        result: RelayResult {
                            bytes_client_to_remote: sat_add(r.result.bytes_client_to_remote, n),
                            ..r.result
                        },
                        ..r
                    },
                    Direction::RemoteToClient => Relay {
                        result: RelayResult {
                            bytes_remote_to_client: sat_add(r.result.bytes_remote_to_client, n),
                            ..r.result
                        },
                        ..r
                    },
                }
            },
            ReadOutcome::Failed => Relay { open: false, ..r },
        }
    }
}

/// A relay after a sequence of reads, in the order they completed.
pub open spec fn relay_run(r: Relay, events: Seq<(Direction, ReadOutcome)>) -> Relay
    decreases events.len(),
{
    if events.len() == 0 {
        r
    } else {
        relay_run(relay_step(r, events[0].0, events[0].1), events.drop_first())
    }
}

/// Whether some read in `events` ends its direction.
pub open spec fn has_end(events: Seq<(Direction, ReadOutcome)>) -> bool {
    exists|i: int| 0 <= i < events.len() && ends_direction(#[trigger] events[i].1)
}

/// The bytes read in direction `d` before the first read that ends a
/// direction.
pub open spec fn bytes_before_end(events: Seq<(Direction, ReadOutcome)>, d: Direction) -> nat
    decreases events.len(),
{
    if events.len() == 0 || ends_direction(events[0].1) {
        0
    } else {
        (if events[0].0 == d {
            match events[0].1 {
                ReadOutcome::Data(n) => n as nat,
                ReadOutcome::Failed => 0,
            }
        } else {
            0
        }) + bytes_before_end(events.drop_first(), d)
    }
}

/// A relay that has copied nothing yet.
pub open spec fn relay_initial() -> Relay {
    Relay {
        result: RelayResult { bytes_client_to_remote: 0, bytes_remote_to_client: 0 },
        open: true,
    }
}

impl Relay {
    /// A relay with both directions open and nothing copied.
    pub fn new() -> (r: Relay)
        ensures
            r == relay_initial(),
    {
        Relay {
            result: RelayResult { bytes_client_to_remote: 0, bytes_remote_to_client: 0 },
            open: true,
        }
    }

    /// Records a read in direction `d` and says whether to forward the
    /// bytes or to shut the relay down.
    pub fn on_read(&mut self, d: Direction, o: ReadOutcome) -> (action: RelayAction)
        ensures
            *final(self) == relay_step(*old(self), d, o),
            action == (if final(self).open {
                RelayAction::Forward
            } else {
                RelayAction::Shutdown
            }),
    {
        if !self.open {
            return RelayAction::Shutdown;
        }
        match o {
            ReadOutcome::Data(n) => {
                if n == 0 {
                    self.open = false;
                    RelayAction::Shutdown
                } else {
                    match d {
                        Direction::ClientToRemote => {
                            self.result.bytes_client_to_remote = self.result.bytes_client_to_remote.saturating_add(n);
                        },
                        Direction::RemoteToClient => {
                            self.result.bytes_remote_to_client = self.result.bytes_remote_to_client.saturating_add(n);
                        },
                    }
                    RelayAction::Forward
                }
            },
            ReadOutcome::Failed => {
                self.open = false;
                RelayAction::Shutdown
            },
        }
    }

    /// The byte counts so far.
    pub fn result(&self) -> (r: RelayResult)
        ensures
            r == self.result,
    {
        self.result
    }
}

/// Relaying counts, in each direction, exactly the bytes read in that
/// direction before the first end of stream or failure on either side,
/// however the reads of the two directions interleave; the relay stays
/// open until such an end.
pub proof fn lemma_relay_counts(r: Relay, events: Seq<(Direction, ReadOutcome)>)
    requires
        r.open,
        r.result.bytes_client_to_remote + bytes_before_end(events, Direction::ClientToRemote) <= u64::MAX,
        r.result.bytes_remote_to_client + bytes_before_end(events, Direction::RemoteToClient) <= u64::MAX,
    ensures
        relay_run(r, events).result.bytes_client_to_remote == r.result.bytes_client_to_remote
            + bytes_before_end(events, Direction::ClientToRemote),
        relay_run(r, events).result.bytes_remote_to_client == r.result.bytes_remote_to_client
            + bytes_before_end(events, Direction::RemoteToClient),
        relay_run(r, events).open == !has_end(events),
    decreases events.len(),
{
    if events.len() > 0 {
        let t = events.drop_first();
        let s = relay_step(r, events[0].0, events[0].1);
        if ends_direction(events[0].1) {
            lemma_closed_relay_stays(s, t);
            assert(has_end(events)) by {
                assert(ends_direction(events[0].1));
            }
        } else {
            lemma_relay_counts(s, t);
            assert(has_end(events) == has_end(t)) by {
                if has_end(events) {
                    let i = choose|i: int| 0 <= i < events.len() && ends_direction(#[trigger] events[i].1);
                    assert(t[i - 1] == events[i]);
                }
                if has_end(t) {
                    let i = choose|i: int| 0 <= i < t.len() && ends_direction(#[trigger] t[i].1);
                    assert(t[i] == events[i + 1]);
                }
            }
        }
    } else {
        assert(!has_end(events));
    }
}

/// Once a relay is closed, no further read changes it: the first end on
/// either side ends the whole relay.
pub proof fn lemma_closed_relay_stays(r: Relay, events: Seq<(Direction, ReadOutcome)>)
    requires
        !r.open,
    ensures
        relay_run(r, events) == r,
    decreases events.len(),
{
    if events.len() > 0 {
        lemma_closed_relay_stays(r, events.drop_first());
    }
}

} // verus!
