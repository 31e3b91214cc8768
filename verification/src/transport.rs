use vstd::prelude::*;
use std::sync::atomic::{AtomicU8, Ordering};

verus! {

/// What the transport is doing.
#[derive(Debug, Clone, Copy, PartialEq, Eq, Structural)]
pub enum TransportState {
    Stopped,
    Playing,
    Recording,
    Paused,
}

impl TransportState {
    /// The byte the transport stores for each state.
    pub open spec fn code_spec(self) -> u8 {
        match self {
            TransportState::Stopped => 0,
            TransportState::Playing => 1,
            TransportState::Recording => 2,
            TransportState::Paused => 3,
        }
    }

    pub fn code(self) -> (c: u8)
        ensures
            c == self.code_spec(),
    {
        match self {
            TransportState::Stopped => 0,
            TransportState::Playing => 1,
            TransportState::Recording => 2,
            TransportState::Paused => 3,
        }
    }

    /// The state a stored byte stands for.
    pub fn from_code(c: u8) -> (s: Option<TransportState>)
        ensures
            match s {
                Some(st) => st.code_spec() == c,
                None => c > 3,
            },
    {
        match c {
            0 => Some(TransportState::Stopped),
            1 => Some(TransportState::Playing),
            2 => Some(TransportState::Recording),
            3 => Some(TransportState::Paused),
            _ => None,
        }
    }

    /// Whether a stored byte means playing.
    pub fn code_is_playing(c: u8) -> (b: bool)
        ensures
            b == (c == TransportState::Playing.code_spec()),
    {
        c == TransportState::Playing.code()
    }
}

/// Distinct states store distinct bytes, and each byte reads back as the
/// state that stored it.
pub proof fn law_code_round_trip(a: TransportState, b: TransportState)
    ensures
        a.code_spec() == b.code_spec() <==> a == b,
        a.code_spec() <= 3,
{
}

/// The transport, shared between the control side and the audio callback
/// through an atomic byte. What a load returns depends on the other threads,
/// so nothing is stated of it here; the byte's meaning is stated by
/// `TransportState::code` and `TransportState::code_is_playing`.
#[derive(Debug, Default)]
pub struct Transport(AtomicU8);

impl Transport {
    /// A stopped transport.
    pub fn new() -> (t: Transport) {
        Transport(AtomicU8::new(TransportState::Stopped.code()))
    }

    fn transport(&self, to: TransportState) {
        self.0.store(to.code(), Ordering::Relaxed);
    }

    pub fn play(&self) {
        self.transport(TransportState::Playing);
    }

    pub fn stop(&self) {
        self.transport(TransportState::Stopped);
    }

    pub fn is_playing(&self) -> bool {
        TransportState::code_is_playing(self.0.load(Ordering::Relaxed))
    }
}

} // verus!
