use vstd::prelude::*;

verus! {

/// The kind of signal that a socket carries.
#[derive(Debug, Clone, Copy, PartialEq, Eq, Structural)]
pub enum SignalKind {
    Audio,
    Midi,
    Cv,
}

impl SignalKind {
    /// Whether an output of kind `self` may feed an input of kind `dest`:
    /// a kind always feeds itself, and audio may also drive a control voltage.
    pub open spec fn connects_to(self, dest: SignalKind) -> bool {
        self == dest || (self == SignalKind::Audio && dest == SignalKind::Cv)
    }

    pub fn can_connect_to(self, dest: SignalKind) -> (b: bool)
        ensures
            b == self.connects_to(dest),
    {
        self == dest || (self == SignalKind::Audio && dest == SignalKind::Cv)
    }
}

/// A type-level signal kind.
pub trait DataKind: Sized {
    spec fn signal_spec(&self) -> SignalKind;

    /// The signal kind this marker stands for.
    fn signal(&self) -> (k: SignalKind)
        ensures
            k == self.signal_spec(),
    ;

    /// Whether a source of this kind may feed a destination of kind `dest`.
    fn can_connect_to(&self, dest: SignalKind) -> (b: bool)
        ensures
            b == self.signal_spec().connects_to(dest),
    {
        self.signal().can_connect_to(dest)
    }
}

#[derive(Debug, Clone, Copy, PartialEq, Eq, Structural)]
pub struct AudioKind;

#[derive(Debug, Clone, Copy, PartialEq, Eq, Structural)]
pub struct MidiKind;

#[derive(Debug, Clone, Copy, PartialEq, Eq, Structural)]
pub struct CvKind;

impl DataKind for AudioKind {
    open spec fn signal_spec(&self) -> SignalKind {
        SignalKind::Audio
    }

    fn signal(&self) -> (k: SignalKind) {
        SignalKind::Audio
    }
}

impl DataKind for MidiKind {
    open spec fn signal_spec(&self) -> SignalKind {
        SignalKind::Midi
    }

    fn signal(&self) -> (k: SignalKind) {
        SignalKind::Midi
    }
}

impl DataKind for CvKind {
    open spec fn signal_spec(&self) -> SignalKind {
        SignalKind::Cv
    }

    fn signal(&self) -> (k: SignalKind) {
        SignalKind::Cv
    }
}

/// Every kind may feed itself.
pub proof fn law_connects_reflexive(k: SignalKind)
    ensures
        k.connects_to(k),
{
}

/// The only cross-kind connection is audio into control voltage; the reverse
/// is refused.
pub proof fn law_connects_cross_kind(a: SignalKind, b: SignalKind)
    requires
        a != b,
    ensures
        a.connects_to(b) <==> (a == SignalKind::Audio && b == SignalKind::Cv),
        !SignalKind::Cv.connects_to(SignalKind::Audio),
{
}

} // verus!
