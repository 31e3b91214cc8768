use vstd::prelude::*;
use crate::graph::{input_label, input_label_spec, Node, NodePayload, Param, Socket, SocketIndex};
use crate::kind::SignalKind;
use crate::track::TrackID;

verus! {

/// The project's output node: one audio input, one audio output.
#[derive(Debug, Clone, Copy)]
pub struct Master;

impl Master {
    pub open spec fn inputs_spec() -> Seq<Socket> {
        seq![Socket { kind: SignalKind::Audio, name: "input", visible: true }]
    }

    pub open spec fn outputs_spec() -> Seq<Socket> {
        seq![Socket { kind: SignalKind::Audio, name: "output", visible: false }]
    }

    pub fn inputs(&self) -> (v: Vec<Socket>)
        ensures
            v@ == Self::inputs_spec(),
    {
        vec![Socket { kind: SignalKind::Audio, name: "input", visible: true }]
    }

    pub fn outputs(&self) -> (v: Vec<Socket>)
        ensures
            v@ == Self::outputs_spec(),
    {
        vec![Socket { kind: SignalKind::Audio, name: "output", visible: false }]
    }

    /// The graph node for the master output.
    pub fn node(&self) -> (n: Node)
        ensures
            n.inputs@ == Self::inputs_spec(),
            n.outputs@ == Self::outputs_spec(),
            n.payload == NodePayload::Master,
    {
        Node { inputs: self.inputs(), outputs: self.outputs(), payload: NodePayload::Master }
    }
}

/// Per-node state that a track reader keeps between blocks: none.
pub struct TrackReaderState {}

/// Renders the clips of one track onto its single audio output.
#[derive(Debug, Clone, Copy)]
pub struct TrackReader {
    pub id: TrackID,
    pub channels: u16,
}

impl TrackReader {
    pub open spec fn outputs_spec() -> Seq<Socket> {
        seq![Socket { kind: SignalKind::Audio, name: "audio out", visible: true }]
    }

    pub fn new(id: TrackID, channels: u16) -> (r: TrackReader)
        ensures
            r.id == id,
            r.channels == channels,
    {
        TrackReader { id, channels }
    }

    pub fn inputs(&self) -> (v: Vec<Socket>)
        ensures
            v@ == Seq::<Socket>::empty(),
    {
        Vec::new()
    }

    pub fn outputs(&self) -> (v: Vec<Socket>)
        ensures
            v@ == Self::outputs_spec(),
    {
        vec![Socket { kind: SignalKind::Audio, name: "audio out", visible: true }]
    }

    /// A reader has no inputs, and makes none on demand.
    pub fn input(&mut self, idx: SocketIndex) -> (r: Option<Socket>)
        ensures
            r is None,
            *final(self) == *old(self),
    {
        None
    }

    pub fn init_state(&self) -> TrackReaderState {
        TrackReaderState {}
    }

    /// The graph node that reads this track.
    pub fn node(&self) -> (n: Node)
        ensures
            n.inputs@ == Seq::<Socket>::empty(),
            n.outputs@ == Self::outputs_spec(),
            n.payload == (NodePayload::TrackReader { track: self.id, channels: self.channels }),
    {
        Node {
            inputs: self.inputs(),
            outputs: self.outputs(),
            payload: NodePayload::TrackReader { track: self.id, channels: self.channels },
        }
    }
}

/// Per-node state that a summing node keeps between blocks: none.
pub struct SumState {}

/// Adds all its audio inputs into one output. Its inputs are created on
/// demand, one past the last at a time.
#[derive(Debug, Clone)]
pub struct Sum {
    pub cached_inputs: Vec<Socket>,
}

impl Sum {
    pub open spec fn outputs_spec() -> Seq<Socket> {
        seq![Socket { kind: SignalKind::Audio, name: "audio out", visible: true }]
    }

    /// Every input is the audio input labelled with its own index that
    /// `input` makes.
    pub open spec fn inputs_labelled(&self) -> bool {
        forall|j: int| #![trigger self.cached_inputs@[j]] 0 <= j < self.cached_inputs@.len() ==> {
            &&& self.cached_inputs@[j].kind == SignalKind::Audio
            &&& self.cached_inputs@[j].name@ == input_label_spec(j as nat)
            &&& self.cached_inputs@[j].visible
        }
    }

    pub fn new() -> (s: Sum)
        ensures
            s.cached_inputs@ == Seq::<Socket>::empty(),
            s.inputs_labelled(),
    {
        Sum { cached_inputs: Vec::new() }
    }

    pub fn inputs(&self) -> (v: &Vec<Socket>)
        ensures
            v@ == self.cached_inputs@,
    {
        &self.cached_inputs
    }

    /// The input at `idx`: an existing one, or, for the index just past the
    /// last, a new audio input labelled with its index; none beyond that.
    pub fn input(&mut self, idx: SocketIndex) -> (r: Option<Socket>)
        ensures
            idx < old(self).cached_inputs@.len() ==> {
                &&& r == Some(old(self).cached_inputs@[idx as int])
                &&& final(self).cached_inputs@ == old(self).cached_inputs@
            },
            idx == old(self).cached_inputs@.len() ==> {
                &&& r is Some
                &&& r->0.kind == SignalKind::Audio
                &&& r->0.name@ == input_label_spec(idx as nat)
                &&& r->0.visible
                &&& final(self).cached_inputs@ == old(self).cached_inputs@.push(r->0)
            },
            idx > old(self).cached_inputs@.len() ==> {
                &&& r is None
                &&& final(self).cached_inputs@ == old(self).cached_inputs@
            },
            old(self).inputs_labelled() ==> final(self).inputs_labelled(),
    {
        if idx < self.cached_inputs.len() {
            Some(self.cached_inputs[idx])
        } else if idx == self.cached_inputs.len() {
            let s = Socket { kind: SignalKind::Audio, name: input_label(idx), visible: true };
            self.cached_inputs.push(s);
            Some(s)
        } else {
            None
        }
    }

    pub fn outputs(&self) -> (v: Vec<Socket>)
        ensures
            v@ == Self::outputs_spec(),
    {
        vec![Socket { kind: SignalKind::Audio, name: "audio out", visible: true }]
    }

    pub fn init_state(&self) -> SumState {
        SumState {}
    }

    /// The graph node for this summing node, with its current inputs.
    pub fn node(&self) -> (n: Node)
        ensures
            n.inputs@ == self.cached_inputs@,
            n.outputs@ == Self::outputs_spec(),
            n.payload == NodePayload::Sum,
    {
        let inputs = self.cached_inputs.clone();
        proof {
            assert(inputs@ =~= self.cached_inputs@);
        }
        Node { inputs, outputs: self.outputs(), payload: NodePayload::Sum }
    }
}

/// A one-pole low-pass filter on one audio input. Its cutoff frequency, in
/// hertz, can be changed from any thread while the audio side runs.
#[derive(Debug, Clone)]
pub struct LowpassFilter {
    pub cutoff_hz: Param,
}

impl LowpassFilter {
    /// The socket index of the filter's audio input.
    pub const AUDIO_IN: SocketIndex = 0;

    pub open spec fn inputs_spec() -> Seq<Socket> {
        seq![Socket { kind: SignalKind::Audio, name: "in", visible: true }]
    }

    pub open spec fn outputs_spec() -> Seq<Socket> {
        seq![Socket { kind: SignalKind::Audio, name: "out", visible: true }]
    }

    /// A filter whose cutoff holds `cutoff_hz_bits`, the bit pattern of a
    /// single-precision frequency in hertz.
    pub fn new(cutoff_hz_bits: u32) -> LowpassFilter {
        LowpassFilter { cutoff_hz: Param::new(cutoff_hz_bits) }
    }

    pub fn inputs(&self) -> (v: Vec<Socket>)
        ensures
            v@ == Self::inputs_spec(),
    {
        vec![Socket { kind: SignalKind::Audio, name: "in", visible: true }]
    }

    pub fn outputs(&self) -> (v: Vec<Socket>)
        ensures
            v@ == Self::outputs_spec(),
    {
        vec![Socket { kind: SignalKind::Audio, name: "out", visible: true }]
    }

    /// The graph node for this filter; it shares the filter's cutoff cell.
    pub fn node(&self) -> (n: Node)
        ensures
            n.inputs@ == Self::inputs_spec(),
            n.outputs@ == Self::outputs_spec(),
            n.payload == (NodePayload::Lowpass { cutoff_hz: self.cutoff_hz }),
    {
        Node { inputs: self.inputs(), outputs: self.outputs(), payload: NodePayload::Lowpass { cutoff_hz: self.cutoff_hz.share() } }
    }
}

} // verus!
