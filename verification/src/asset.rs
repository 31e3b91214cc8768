use vstd::prelude::*;

verus! {

/// Identifier of an asset in a project.
pub type AssetID = u64;

/// Loading state of an asset.
#[derive(Debug, Clone)]
pub enum AssetState<Data> {
    Pending,
    Ready(Data),
    Failed,
}

/// Something whose content is loaded from outside the project.
pub trait Asset {
    type Data;

    spec fn state_spec(&self) -> AssetState<Self::Data>;

    fn state(&self) -> (s: &AssetState<Self::Data>)
        ensures
            *s == self.state_spec(),
    ;

    /// The loaded content, once the asset is ready.
    fn data(&self) -> (d: Option<&Self::Data>)
        ensures
            d == (match self.state_spec() {
                AssetState::Ready(data) => Some(&data),
                _ => None,
            }),
    {
        match self.state() {
            AssetState::Ready(data) => Some(data),
            _ => None,
        }
    }
}

/// What the project knows of a decoded audio file. The interleaved samples
/// themselves stay with the audio side, under the asset's identifier.
#[derive(Debug, Clone, Copy, PartialEq, Eq, Structural)]
pub struct AudioAssetData {
    /// Number of sample frames.
    pub frames: u64,
    /// Interleaved channels per frame.
    pub channels: u16,
    pub sample_rate: u32,
}

#[derive(Debug, Clone)]
pub struct AudioAsset {
    pub state: AssetState<AudioAssetData>,
    pub path: String,
}

impl AudioAsset {
    /// An asset whose content has not been loaded yet.
    pub fn new(path: String) -> (a: AudioAsset)
        ensures
            a.state == AssetState::<AudioAssetData>::Pending,
            a.path == path,
    {
        AudioAsset { state: AssetState::Pending, path }
    }

    /// An asset whose content is loaded.
    pub fn ready(path: String, data: AudioAssetData) -> (a: AudioAsset)
        ensures
            a.state == AssetState::Ready(data),
            a.path == path,
    {
        AudioAsset { state: AssetState::Ready(data), path }
    }
}

impl Asset for AudioAsset {
    type Data = AudioAssetData;

    open spec fn state_spec(&self) -> AssetState<AudioAssetData> {
        self.state
    }

    fn state(&self) -> (s: &AssetState<AudioAssetData>) {
        &self.state
    }
}

} // verus!
