//! Session engine: connection state machine, per-direction sequence
//! numbers, the sliding replay window, timestamp skew, key rotation and
//! heartbeat decisions, and crypto-suite negotiation.

use vstd::prelude::*;

use crate::crypto::CryptoSuite;
use crate::error::Error;

verus! {

/// Number of recent sequence numbers a receiver remembers.
pub const REPLAY_WINDOW_SIZE: usize = 1024;

/// Replay or reordering events a session tolerates before it turns to the
/// error state.
pub const REPLAY_ERROR_THRESHOLD: u64 = 16;

/// Largest tolerated difference between a frame's timestamp and the local
/// clock, in seconds.
pub const MAX_TIMESTAMP_SKEW_SECS: u64 = 300;

/// Bytes a key generation may carry before rotation (2^34).
pub const MAX_BYTES_PER_KEY: u64 = 17179869184;

/// Idle seconds after which a ready session sends a heartbeat.
pub const KEEP_ALIVE_INTERVAL_SECS: u64 = 60;

/// Seconds during which a receiver accepts the previous key generation
/// after a rotation.
pub const REKEY_OVERLAP_SECS: u64 = 5;

/// Consecutive missed heartbeats that close a session.
pub const MISSED_HEARTBEAT_LIMIT: u32 = 3;

/// The states a session moves through.
#[derive(Debug, Clone, Copy, PartialEq, Eq, Structural)]
pub enum SessionState {
    /// Initial state
    Initial,
    /// Handshake in progress
    Handshaking,
    /// Authenticated and ready
    Ready,
    /// Transfer in progress
    Transferring,
    /// Error state
    Error,
    /// Closed
    Closed,
}

/// Per-session traffic counters.
#[derive(Debug, Clone, Copy, PartialEq, Eq, Structural)]
pub struct SessionStatistics {
    /// Bytes sent
    pub bytes_sent: u64,
    /// Bytes received
    pub bytes_received: u64,
    /// Messages sent
    pub messages_sent: u64,
    /// Messages received
    pub messages_received: u64,
    /// Errors encountered
    pub errors: u64,
}

impl Default for SessionStatistics {
    /// All counters start at zero.
    fn default() -> (r: Self)
        ensures
            r == (SessionStatistics {
                bytes_sent: 0u64,
                bytes_received: 0u64,
                messages_sent: 0u64,
                messages_received: 0u64,
                errors: 0u64,
            }),
    {
        SessionStatistics {
            bytes_sent: 0,
            bytes_received: 0,
            messages_sent: 0,
            messages_received: 0,
            errors: 0,
        }
    }
}

/// What the state machine does with a message: the next state, given the
/// current state and the type of the message just received. An emergency
/// stop is always processed and closes the session; a message a state does
/// not permit turns the session to the error state; an error state can only
/// close.
pub open spec fn spec_transition(
    state: SessionState,
    mt: crate::protocol::MessageType,
) -> SessionState {
    if mt == crate::protocol::MessageType::EmergencyStop {
        SessionState::Closed
    } else {
        match state {
            SessionState::Initial => if mt == crate::protocol::MessageType::Handshake {
                SessionState::Handshaking
            } else {
                SessionState::Error
            },
            SessionState::Handshaking => if mt == crate::protocol::MessageType::Handshake {
                SessionState::Ready
            } else {
                SessionState::Error
            },
            SessionState::Ready => match mt {
                crate::protocol::MessageType::FileOpen => SessionState::Transferring,
                crate::protocol::MessageType::Heartbeat => SessionState::Ready,
                crate::protocol::MessageType::PolicyUpdate => SessionState::Ready,
                _ => SessionState::Error,
            },
            SessionState::Transferring => match mt {
                crate::protocol::MessageType::FileOpen => SessionState::Transferring,
                crate::protocol::MessageType::FileData => SessionState::Transferring,
                crate::protocol::MessageType::FileClose => SessionState::Ready,
                crate::protocol::MessageType::Heartbeat => SessionState::Transferring,
                crate::protocol::MessageType::PolicyUpdate => SessionState::Transferring,
                _ => SessionState::Error,
            },
            SessionState::Error => SessionState::Error,
            SessionState::Closed => SessionState::Closed,
        }
    }
}

/// Verdict of the replay window on one received sequence number.
#[derive(Debug, Clone, Copy, PartialEq, Eq, Structural)]
pub enum ReplayCheck {
    /// New in-window sequence: accept the frame.
    Accept,
    /// The sequence was already seen: drop the frame.
    Replay,
    /// The sequence fell out of the window: drop the frame.
    TooOld,
}

/// Sliding window over the most recent sequence numbers of one direction.
/// Slot `i` records whether sequence `highest - i` has been seen; slots at
/// or beyond the window size are forgotten.
pub struct ReplayWindow {
    /// Seen-bits, indexed by distance below `highest`.
    pub bits: Vec<bool>,
    /// Highest sequence number seen so far.
    pub highest: u64,
}

impl ReplayWindow {
    /// The window never loses its size.
    pub open spec fn wf(self) -> bool {
        self.bits@.len() >= 1
    }

    /// How many recent sequence numbers the window remembers.
    pub open spec fn size(self) -> int {
        self.bits@.len() as int
    }

    /// A sequence too far below the highest seen to be judged.
    pub open spec fn spec_too_old(self, s: u64) -> bool {
        s < self.highest && self.highest - s >= self.size()
    }

    /// A sequence recorded as seen within the window.
    pub open spec fn spec_recorded(self, s: u64) -> bool {
        s <= self.highest && self.highest - s < self.size() && self.bits@[self.highest - s]
    }

    /// A fresh window of the given size with nothing recorded.
    pub fn new(size: usize) -> (r: Self)
        requires
            size >= 1,
        ensures
            r.wf(),
            r.size() == size,
            r.highest == 0,
            forall|s: u64| !r.spec_recorded(s),
    {
        let mut bits: Vec<bool> = Vec::new();
        let mut i: usize = 0;
        while i < size
            invariant
                i <= size,
                bits@.len() == i,
                forall|k: int| 0 <= k < i ==> !bits@[k],
            decreases size - i,
        {
            bits.push(false);
            i = i + 1;
        }
        ReplayWindow { bits, highest: 0 }
    }

    /// Judge one received sequence number and record it if it is new.
    ///
    /// A sequence below the window is too old; one already recorded is a
    /// replay; in both cases the window is unchanged. Otherwise the frame
    /// is accepted: the sequence is recorded, the window slides up to it if
    /// it is a new highest, everything recorded that is still in reach of
    /// the window stays recorded, and nothing else becomes recorded.
    pub fn record(&mut self, s: u64) -> (r: ReplayCheck)
        requires
            old(self).wf(),
        ensures
            final(self).wf(),
            final(self).size() == old(self).size(),
            (r == ReplayCheck::TooOld) == old(self).spec_too_old(s),
            (r == ReplayCheck::Replay) == (!old(self).spec_too_old(s) && old(self).spec_recorded(
                s,
            )),
            (r == ReplayCheck::Accept) == (!old(self).spec_too_old(s) && !old(self).spec_recorded(
                s,
            )),
            r != ReplayCheck::Accept ==> final(self).highest == old(self).highest
                && final(self).bits@ == old(self).bits@,
            r == ReplayCheck::Accept ==> {
                &&& final(self).highest == (if s > old(self).highest {
                    s
                } else {
                    old(self).highest
                })
                &&& final(self).spec_recorded(s)
                &&& forall|t: u64|
                    final(self).spec_recorded(t) && t != s ==> old(self).spec_recorded(t)
                &&& forall|t: u64|
                    old(self).spec_recorded(t) && !final(self).spec_too_old(t) && t
                        <= final(self).highest ==> final(self).spec_recorded(t)
            },
    {
        let size = self.bits.len();
        if s < self.highest && self.highest - s >= size as u64 {
            return ReplayCheck::TooOld;
        }
        if s <= self.highest {
            let off = (self.highest - s) as usize;
            if self.bits[off] {
                return ReplayCheck::Replay;
            }
            self.bits.set(off, true);
            return ReplayCheck::Accept;
        }
        // s > highest: slide the window up to s.
        let delta = s - self.highest;
        let ghost old_bits = self.bits@;
        let ghost old_highest = self.highest;
        let mut nb: Vec<bool> = Vec::new();
        nb.push(true);
        let mut j: usize = 1;
        while j < size
            invariant
                1 <= j <= size,
                size == old_bits.len(),
                self.bits@ == old_bits,
                delta >= 1,
                nb@.len() == j,
                nb@[0] == true,
                forall|k: int|
                    1 <= k < j ==> nb@[k] == (if k < delta {
                        false
                    } else {
                        old_bits[k - delta]
                    }),
            decreases size - j,
        {
            let slot: bool = if (j as u64) < delta {
                false
            } else {
                // j >= delta and j < size, so delta fits in usize.
                let d = #[verifier::truncate] (delta as usize);
                proof {
                    assert(delta <= j);
                    assert(d == delta) by {
                        assert(j as u64 >= delta);
                    };
                }
                self.bits[j - d]
            };
            nb.push(slot);
            j = j + 1;
        }
        self.bits = nb;
        self.highest = s;
        proof {
            let newself = *self;
            assert forall|t: u64| newself.spec_recorded(t) && t != s implies old(self).spec_recorded(t) by {
                let k = newself.highest - t;
                assert(newself.bits@[k]);
                assert(k != 0);
                assert(k >= delta);
                assert(old_bits[k - delta]);
                assert(old_highest - t == k - delta);
            }
            assert forall|t: u64|
                old(self).spec_recorded(t) && !newself.spec_too_old(t) && t
                    <= newself.highest implies newself.spec_recorded(t) by {
                let k0 = old_highest - t;
                let k = newself.highest - t;
                assert(k == k0 + delta);
                assert(k < newself.size());
                assert(newself.bits@[k] == old_bits[k0]);
            }
        }
        ReplayCheck::Accept
    }
}

/// Whether a frame timestamp lies within the tolerated skew of the local
/// clock, in either direction.
pub fn timestamp_within_skew(timestamp: u64, now: u64, max_skew: u64) -> (r: bool)
    ensures
        r == (timestamp <= now && now - timestamp <= max_skew || timestamp > now && timestamp - now
            <= max_skew),
{
    if timestamp <= now {
        now - timestamp <= max_skew
    } else {
        timestamp - now <= max_skew
    }
}

/// One endpoint's view of a session: identity, state, per-direction
/// sequence numbers, the replay window, key-rotation bookkeeping and
/// traffic statistics. Time enters every method as an argument; the engine
/// never reads a clock.
pub struct Session {
    /// Session identity.
    pub session_id: u128,
    /// Current state.
    pub state: SessionState,
    /// Sequence number of the last frame sent; the next frame carries this
    /// plus one.
    pub tx_sequence: u64,
    /// Replay window over received sequence numbers.
    pub rx_window: ReplayWindow,
    /// Replay and reordering events seen so far.
    pub replay_errors: u64,
    /// Key generation in use; starts at zero and rises by one per rotation.
    pub key_generation: u64,
    /// Bytes carried under the current key generation.
    pub bytes_since_rekey: u64,
    /// Time of the last key rotation (or session start), seconds since the
    /// epoch.
    pub last_rekey_time: u64,
    /// Time of session creation.
    pub start_time: u64,
    /// Time of the last traffic in either direction.
    pub last_activity: u64,
    /// Heartbeats missed in a row.
    pub missed_heartbeats: u32,
    /// Traffic counters.
    pub statistics: SessionStatistics,
}

impl Session {
    /// The session's replay window keeps its shape.
    pub open spec fn wf(self) -> bool {
        self.rx_window.wf()
    }

    /// A fresh session in the initial state.
    pub fn new(session_id: u128, now: u64) -> (r: Self)
        ensures
            r.wf(),
            r.session_id == session_id,
            r.state == SessionState::Initial,
            r.tx_sequence == 0,
            r.replay_errors == 0,
            r.key_generation == 0,
            r.bytes_since_rekey == 0,
            r.last_rekey_time == now,
            r.start_time == now,
            r.last_activity == now,
            r.missed_heartbeats == 0,
            r.statistics == (SessionStatistics {
                bytes_sent: 0u64,
                bytes_received: 0u64,
                messages_sent: 0u64,
                messages_received: 0u64,
                errors: 0u64,
            }),
            forall|s: u64| !r.rx_window.spec_recorded(s),
    {
        Session {
            session_id,
            state: SessionState::Initial,
            tx_sequence: 0,
            rx_window: ReplayWindow::new(REPLAY_WINDOW_SIZE),
            replay_errors: 0,
            key_generation: 0,
            bytes_since_rekey: 0,
            last_rekey_time: now,
            start_time: now,
            last_activity: now,
            missed_heartbeats: 0,
            statistics: SessionStatistics::default(),
        }
    }

    /// Allocate the sequence number for the next frame to send: always the
    /// previous sequence plus one.
    pub fn next_sequence(&mut self) -> (r: u64)
        requires
            old(self).tx_sequence < u64::MAX,
        ensures
            r == old(self).tx_sequence + 1,
            *final(self) == (Session { tx_sequence: r, ..*old(self) }),
    {
        self.tx_sequence = self.tx_sequence + 1;
        self.tx_sequence
    }

    /// Judge a received frame's sequence number. A fresh in-window sequence
    /// is accepted and recorded. A replayed or out-of-window sequence is
    /// dropped and counted; when the count reaches the threshold the
    /// session turns to the error state.
    pub fn accept_sequence(&mut self, s: u64) -> (r: ReplayCheck)
        requires
            old(self).wf(),
            old(self).replay_errors < u64::MAX,
        ensures
            final(self).wf(),
            (r == ReplayCheck::Accept) == (!old(self).rx_window.spec_too_old(s)
                && !old(self).rx_window.spec_recorded(s)),
            r == ReplayCheck::Accept ==> final(self).replay_errors == old(self).replay_errors
                && final(self).state == old(self).state && final(self).rx_window.spec_recorded(s),
            r != ReplayCheck::Accept ==> {
                &&& final(self).replay_errors == old(self).replay_errors + 1
                &&& final(self).rx_window.highest == old(self).rx_window.highest
                &&& (final(self).state == if final(self).replay_errors
                    >= REPLAY_ERROR_THRESHOLD {
                    SessionState::Error
                } else {
                    old(self).state
                })
            },
            final(self).tx_sequence == old(self).tx_sequence,
            final(self).key_generation == old(self).key_generation,
    {
        let r = self.rx_window.record(s);
        if r == ReplayCheck::Replay || r == ReplayCheck::TooOld {
            self.replay_errors = self.replay_errors + 1;
            if self.replay_errors >= REPLAY_ERROR_THRESHOLD {
                self.state = SessionState::Error;
            }
        }
        r
    }

    /// Move the state machine on one received message type.
    pub fn handle_message_type(&mut self, mt: crate::protocol::MessageType)
        ensures
            final(self).state == spec_transition(old(self).state, mt),
            *final(self) == (Session { state: final(self).state, ..*old(self) }),
    {
        let next = if mt == crate::protocol::MessageType::EmergencyStop {
            SessionState::Closed
        } else {
            match self.state {
                SessionState::Initial => if mt == crate::protocol::MessageType::Handshake {
                    SessionState::Handshaking
                } else {
                    SessionState::Error
                },
                SessionState::Handshaking => if mt == crate::protocol::MessageType::Handshake {
                    SessionState::Ready
                } else {
                    SessionState::Error
                },
                SessionState::Ready => match mt {
                    crate::protocol::MessageType::FileOpen => SessionState::Transferring,
                    crate::protocol::MessageType::Heartbeat => SessionState::Ready,
                    crate::protocol::MessageType::PolicyUpdate => SessionState::Ready,
                    _ => SessionState::Error,
                },
                SessionState::Transferring => match mt {
                    crate::protocol::MessageType::FileOpen => SessionState::Transferring,
                    crate::protocol::MessageType::FileData => SessionState::Transferring,
                    crate::protocol::MessageType::FileClose => SessionState::Ready,
                    crate::protocol::MessageType::Heartbeat => SessionState::Transferring,
                    crate::protocol::MessageType::PolicyUpdate => SessionState::Transferring,
                    _ => SessionState::Error,
                },
                SessionState::Error => SessionState::Error,
                SessionState::Closed => SessionState::Closed,
            }
        };
        self.state = next;
    }

    /// Whether the sender must rotate keys before the next frame: the
    /// rotation interval has elapsed, or the current generation has carried
    /// its byte budget.
    pub fn needs_key_rotation(&self, now: u64) -> (r: bool)
        ensures
            r == (now >= self.last_rekey_time && now - self.last_rekey_time
                >= crate::KEY_ROTATION_INTERVAL_SECS || self.bytes_since_rekey
                >= MAX_BYTES_PER_KEY),
    {
        (now >= self.last_rekey_time && now - self.last_rekey_time
            >= crate::KEY_ROTATION_INTERVAL_SECS) || self.bytes_since_rekey >= MAX_BYTES_PER_KEY
    }

    /// Move to the next key generation.
    pub fn rotate_keys(&mut self, now: u64)
        requires
            old(self).key_generation < u64::MAX,
        ensures
            *final(self) == (Session {
                key_generation: (old(self).key_generation + 1) as u64,
                bytes_since_rekey: 0u64,
                last_rekey_time: now,
                ..*old(self)
            }),
    {
        self.key_generation = self.key_generation + 1;
        self.bytes_since_rekey = 0;
        self.last_rekey_time = now;
    }

    /// Account for bytes sent: traffic statistics, the rekey byte budget
    /// and the activity clock, saturating rather than wrapping.
    pub fn note_sent(&mut self, bytes: u64, now: u64)
        ensures
            final(self).bytes_since_rekey == (if old(self).bytes_since_rekey + bytes <= u64::MAX {
                (old(self).bytes_since_rekey + bytes) as u64
            } else {
                u64::MAX
            }),
            final(self).statistics.bytes_sent == (if old(self).statistics.bytes_sent + bytes
                <= u64::MAX {
                (old(self).statistics.bytes_sent + bytes) as u64
            } else {
                u64::MAX
            }),
            final(self).statistics.messages_sent == (if old(self).statistics.messages_sent + 1
                <= u64::MAX {
                (old(self).statistics.messages_sent + 1) as u64
            } else {
                u64::MAX
            }),
            final(self).last_activity == now,
            final(self).statistics.bytes_received == old(self).statistics.bytes_received,
            final(self).statistics.messages_received == old(self).statistics.messages_received,
            final(self).state == old(self).state,
            final(self).tx_sequence == old(self).tx_sequence,
            final(self).key_generation == old(self).key_generation,
    {
        self.bytes_since_rekey = saturating_add(self.bytes_since_rekey, bytes);
        self.statistics.bytes_sent = saturating_add(self.statistics.bytes_sent, bytes);
        self.statistics.messages_sent = saturating_add(self.statistics.messages_sent, 1);
        self.last_activity = now;
    }

    /// Account for bytes received, saturating rather than wrapping.
    pub fn note_received(&mut self, bytes: u64, now: u64)
        ensures
            final(self).statistics.bytes_received == (if old(self).statistics.bytes_received
                + bytes <= u64::MAX {
                (old(self).statistics.bytes_received + bytes) as u64
            } else {
                u64::MAX
            }),
            final(self).statistics.messages_received == (if old(self).statistics.messages_received
                + 1 <= u64::MAX {
                (old(self).statistics.messages_received + 1) as u64
            } else {
                u64::MAX
            }),
            final(self).last_activity == now,
            final(self).missed_heartbeats == 0,
            final(self).statistics.bytes_sent == old(self).statistics.bytes_sent,
            final(self).statistics.messages_sent == old(self).statistics.messages_sent,
            final(self).state == old(self).state,
            final(self).tx_sequence == old(self).tx_sequence,
            final(self).key_generation == old(self).key_generation,
    {
        self.statistics.bytes_received = saturating_add(self.statistics.bytes_received, bytes);
        self.statistics.messages_received = saturating_add(self.statistics.messages_received, 1);
        self.last_activity = now;
        self.missed_heartbeats = 0;
    }

    /// Whether a received frame's key generation is acceptable: the current
    /// generation always, and the one just rotated away for a short overlap
    /// after the rotation, so that frames sealed before the swap still
    /// open.
    pub fn accepts_key_generation(&self, frame_generation: u64, now: u64) -> (r: bool)
        ensures
            r == (frame_generation == self.key_generation || (frame_generation + 1
                == self.key_generation && now >= self.last_rekey_time && now
                - self.last_rekey_time <= REKEY_OVERLAP_SECS)),
    {
        frame_generation == self.key_generation || (self.key_generation >= 1 && frame_generation
            == self.key_generation - 1 && now >= self.last_rekey_time && now - self.last_rekey_time
            <= REKEY_OVERLAP_SECS)
    }

    /// Whether a ready session has been quiet long enough to owe a
    /// heartbeat.
    pub fn needs_heartbeat(&self, now: u64) -> (r: bool)
        ensures
            r == ((self.state == SessionState::Ready || self.state == SessionState::Transferring)
                && now >= self.last_activity && now - self.last_activity
                >= KEEP_ALIVE_INTERVAL_SECS),
    {
        (self.state == SessionState::Ready || self.state == SessionState::Transferring) && now
            >= self.last_activity && now - self.last_activity >= KEEP_ALIVE_INTERVAL_SECS
    }

    /// Count one missed heartbeat; at the limit the session closes.
    pub fn note_heartbeat_missed(&mut self)
        requires
            old(self).missed_heartbeats < u32::MAX,
        ensures
            final(self).missed_heartbeats == old(self).missed_heartbeats + 1,
            final(self).state == (if old(self).missed_heartbeats + 1 >= MISSED_HEARTBEAT_LIMIT {
                SessionState::Closed
            } else {
                old(self).state
            }),
    {
        self.missed_heartbeats = self.missed_heartbeats + 1;
        if self.missed_heartbeats >= MISSED_HEARTBEAT_LIMIT {
            self.state = SessionState::Closed;
        }
    }
}

/// Add, stopping at the top of the range instead of wrapping.
pub fn saturating_add(a: u64, b: u64) -> (r: u64)
    ensures
        r == (if a + b <= u64::MAX {
            (a + b) as u64
        } else {
            u64::MAX
        }),
{
    if a <= u64::MAX - b {
        a + b
    } else {
        u64::MAX
    }
}

/// The first suite of `offered` that also stands in `permitted`: the
/// client's preference order breaks ties, as the handshake prescribes.
pub open spec fn spec_first_common(
    offered: Seq<CryptoSuite>,
    permitted: Seq<CryptoSuite>,
) -> Option<CryptoSuite>
    decreases offered.len(),
{
    if offered.len() == 0 {
        None
    } else if permitted.contains(offered[0]) {
        Some(offered[0])
    } else {
        spec_first_common(offered.drop_first(), permitted)
    }
}

/// What the negotiation returns is a member of both lists; when it returns
/// nothing, the lists share no suite.
pub proof fn lemma_first_common_sound(offered: Seq<CryptoSuite>, permitted: Seq<CryptoSuite>)
    ensures
        spec_first_common(offered, permitted) matches Some(s) ==> offered.contains(s)
            && permitted.contains(s),
        spec_first_common(offered, permitted) is None ==> forall|s: CryptoSuite|
            offered.contains(s) ==> !permitted.contains(s),
    decreases offered.len(),
{
    if offered.len() == 0 {
    } else if permitted.contains(offered[0]) {
        assert(offered.contains(offered[0]));
    } else {
        lemma_first_common_sound(offered.drop_first(), permitted);
        let r = spec_first_common(offered, permitted);
        if r is Some {
            let s = r->Some_0;
            assert(offered.drop_first().contains(s));
            let i = choose|i: int|
                0 <= i < offered.drop_first().len() && offered.drop_first()[i] == s;
            assert(offered[i + 1] == s);
        } else {
            assert forall|s: CryptoSuite| offered.contains(s) implies !permitted.contains(s) by {
                let i = choose|i: int| 0 <= i < offered.len() && offered[i] == s;
                if i == 0 {
                } else {
                    assert(offered.drop_first()[i - 1] == s);
                    assert(offered.drop_first().contains(s));
                }
            }
        }
    }
}

/// Whether a list of suites holds the given suite.
pub fn contains_suite(suites: &Vec<CryptoSuite>, suite: &CryptoSuite) -> (r: bool)
    ensures
        r == suites@.contains(*suite),
{
    let mut i: usize = 0;
    while i < suites.len()
        invariant
            i <= suites@.len(),
            forall|k: int| 0 <= k < i ==> suites@[k] != *suite,
        decreases suites@.len() - i,
    {
        if suites[i] == *suite {
            return true;
        }
        i = i + 1;
    }
    false
}

/// Server-side suite selection: the first suite the client offered that the
/// server permits; nothing when the sets do not intersect.
pub fn select_suite(offered: &Vec<CryptoSuite>, permitted: &Vec<CryptoSuite>) -> (r: Option<
    CryptoSuite,
>)
    ensures
        r == spec_first_common(offered@, permitted@),
{
    let mut i: usize = 0;
    proof {
        assert(offered@.skip(0) =~= offered@);
    }
    while i < offered.len()
        invariant
            i <= offered@.len(),
            spec_first_common(offered@, permitted@) == spec_first_common(
                offered@.skip(i as int),
                permitted@,
            ),
        decreases offered@.len() - i,
    {
        if contains_suite(permitted, &offered[i]) {
            proof {
                assert(offered@.skip(i as int)[0] == offered@[i as int]);
            }
            return Some(offered[i]);
        }
        i = i + 1;
        proof {
            assert(offered@.skip(i - 1).drop_first() =~= offered@.skip(i as int));
            assert(offered@.skip(i - 1)[0] == offered@[i - 1]);
        }
    }
    proof {
        assert(offered@.skip(i as int).len() == 0);
    }
    None
}

/// The tag of a frame under a MAC key: the keyed BLAKE3 digest of the
/// header bytes followed by the payload.
pub open spec fn spec_frame_tag(m: crate::protocol::FrameModel, key: Seq<u8>) -> Seq<u8> {
    crate::crypto::blake3_keyed_of(key, crate::protocol::spec_header_bytes(m) + m.payload)
}

/// Compute a frame's tag over its header and payload under the session's
/// MAC key; the codec itself is key-agnostic, so the engine computes tags.
fn compute_frame_tag(frame: &crate::protocol::Frame, mac_key: &[u8]) -> (r: Vec<u8>)
    requires
        mac_key@.len() == 32,
    ensures
        r@ == spec_frame_tag(frame@, mac_key@),
        r@.len() == 32,
{
    let mut bytes: Vec<u8> = Vec::new();
    bytes.push(frame.version);
    bytes.push(frame.message_type.code());
    let fl: u16 = u16::from(frame.flags);
    crate::protocol::push_u16_be(&mut bytes, fl);
    crate::protocol::push_u32_be(&mut bytes, frame.length);
    crate::protocol::push_u64_be(&mut bytes, frame.sequence);
    crate::protocol::push_u64_be(&mut bytes, frame.timestamp);
    proof {
        assert(bytes@ =~= crate::protocol::spec_header_bytes(frame@));
    }
    crate::util::push_bytes(&mut bytes, frame.payload.as_slice());
    crate::crypto::blake3_keyed_hash(mac_key, bytes.as_slice())
}

/// Stamp a frame with its tag under the session's transmit MAC key: the
/// keyed digest of the header and payload; every other field keeps its
/// value.
pub fn seal_frame(frame: &mut crate::protocol::Frame, mac_key: &[u8])
    requires
        mac_key@.len() == 32,
    ensures
        final(frame).hmac@ == spec_frame_tag(old(frame)@, mac_key@),
        final(frame)@.payload == old(frame)@.payload,
        final(frame).version == old(frame).version,
        final(frame).message_type == old(frame).message_type,
        final(frame).flags == old(frame).flags,
        final(frame).length == old(frame).length,
        final(frame).sequence == old(frame).sequence,
        final(frame).timestamp == old(frame).timestamp,
{
    let tag = compute_frame_tag(frame, mac_key);
    let mut hmac: [u8; 32] = [0u8; 32];
    let mut i: usize = 0;
    while i < 32
        invariant
            i <= 32,
            tag@.len() == 32,
            hmac@.len() == 32,
            forall|k: int| 0 <= k < i ==> hmac@[k] == tag@[k],
        decreases 32 - i,
    {
        hmac[i] = tag[i];
        i = i + 1;
    }
    proof {
        assert(hmac@ =~= tag@);
    }
    frame.hmac = hmac;
}

/// Check a received frame's tag under the session's receive MAC key: true
/// exactly when the carried tag is the keyed digest of the header and
/// payload.
pub fn verify_frame_tag(frame: &crate::protocol::Frame, mac_key: &[u8]) -> (r: bool)
    requires
        mac_key@.len() == 32,
    ensures
        r == (frame.hmac@ == spec_frame_tag(frame@, mac_key@)),
{
    let tag = compute_frame_tag(frame, mac_key);
    crate::util::bytes_eq(frame.hmac.as_slice(), tag.as_slice())
}

/// Client-side handshake validation: the server's chosen suite must be one
/// the client offered; a choice outside the offer is a downgrade attempt
/// and an authentication error.
pub fn validate_chosen_suite(offered: &Vec<CryptoSuite>, chosen: &CryptoSuite) -> (r: Result<
    (),
    Error,
>)
    ensures
        r is Ok <==> offered@.contains(*chosen),
        r matches Err(e) ==> e is Auth,
{
    if contains_suite(offered, chosen) {
        Ok(())
    } else {
        Err(Error::Auth(String::from_str("suite_not_offered")))
    }
}

/// Server-side judgment of the client's opening flight: a suite is chosen
/// from the intersection, and when hardware authentication is required the
/// client's attestation must be present with evidence and must have
/// verified. Succeeds exactly when all of that holds; on failure the
/// session turns to the error state and the caller emits a handshake-
/// failure audit event with the error's code.
pub fn accept_client_hello(
    offered: &Vec<CryptoSuite>,
    permitted: &Vec<CryptoSuite>,
    require_hardware_auth: bool,
    attestation_present: bool,
    attestation_verified: bool,
) -> (r: Result<CryptoSuite, Error>)
    ensures
        r is Ok <==> spec_first_common(offered@, permitted@) is Some && (require_hardware_auth
            ==> attestation_present && attestation_verified),
        r matches Ok(s) ==> Some(s) == spec_first_common(offered@, permitted@),
        r matches Err(e) ==> (e is Auth || e is HardwareAuth),
        (r matches Err(e) && e is Auth) ==> spec_first_common(offered@, permitted@) is None,
{
    if require_hardware_auth && !attestation_present {
        return Err(Error::HardwareAuth(String::from_str("attestation_missing")));
    }
    if require_hardware_auth && !attestation_verified {
        return Err(Error::HardwareAuth(String::from_str("attestation_invalid")));
    }
    match select_suite(offered, permitted) {
        Some(suite) => Ok(suite),
        None => Err(Error::Auth(String::from_str("no_common_suite"))),
    }
}

/// Client-side judgment of the server's answering flight: the chosen suite
/// must be one the client offered, the server's certificate chain and its
/// transcript signature must have verified, and when the client demands
/// hardware authentication the server's attestation must have verified.
/// Succeeds exactly when all of that holds; each failure carries its own
/// code, a choice outside the offer being the downgrade refusal.
pub fn validate_server_hello(
    offered: &Vec<CryptoSuite>,
    chosen: &CryptoSuite,
    cert_chain_verified: bool,
    signature_verified: bool,
    require_hardware_auth: bool,
    attestation_verified: bool,
) -> (r: Result<(), Error>)
    ensures
        r is Ok <==> offered@.contains(*chosen) && cert_chain_verified && signature_verified && (
        require_hardware_auth ==> attestation_verified),
        r matches Err(e) ==> (e is Auth || e is HardwareAuth),
        !offered@.contains(*chosen) ==> (r matches Err(e) && e is Auth && e.spec_message()
            == "suite_not_offered"@),
{
    if !contains_suite(offered, chosen) {
        return Err(Error::Auth(String::from_str("suite_not_offered")));
    }
    if !cert_chain_verified {
        return Err(Error::Auth(String::from_str("certificate_invalid")));
    }
    if !signature_verified {
        return Err(Error::Auth(String::from_str("transcript_signature_invalid")));
    }
    if require_hardware_auth && !attestation_verified {
        return Err(Error::HardwareAuth(String::from_str("attestation_invalid")));
    }
    Ok(())
}

} // verus!
