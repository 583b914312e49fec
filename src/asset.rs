//! Assets declared by a manifest and their kinds.
use vstd::prelude::*;
use vstd::string::StringExecFns;

verus! {

/// The three kinds of asset that the packer knows how to transcode.
#[derive(Debug, Clone, Copy, PartialEq, Eq, Structural)]
pub enum AssetType {
    Texture,
    Audio,
    Data,
}

/// The kind named by a type label: unknown labels fall back to `Data`.
pub open spec fn asset_type_of_label(label: Seq<char>) -> AssetType {
    if label == "Texture"@ {
        AssetType::Texture
    } else if label == "Audio"@ {
        AssetType::Audio
    } else {
        AssetType::Data
    }
}

/// The canonical label of a kind.
pub open spec fn label_of_asset_type(t: AssetType) -> Seq<char> {
    match t {
        AssetType::Texture => "Texture"@,
        AssetType::Audio => "Audio"@,
        AssetType::Data => "Data"@,
    }
}

impl AssetType {
    /// Reads a type label; anything but `Texture` or `Audio` is `Data`.
    pub fn from(name: &str) -> (r: AssetType)
        ensures
            r == asset_type_of_label(name@),
    {
        let label = name.to_owned();
        if label == String::from_str("Texture") {
            AssetType::Texture
        } else if label == String::from_str("Audio") {
            AssetType::Audio
        } else {
            AssetType::Data
        }
    }

    /// The label that `from` reads back as this kind.
    pub fn to_string(&self) -> (r: String)
        ensures
            r@ == label_of_asset_type(*self),
    {
        match self {
            AssetType::Texture => String::from_str("Texture"),
            AssetType::Audio => String::from_str("Audio"),
            AssetType::Data => String::from_str("Data"),
        }
    }
}

/// One convertible unit of a manifest.
#[derive(Debug)]
pub struct Asset {
    pub name: String,
    pub asset_type: AssetType,
    pub source: String,
}

impl Asset {
    pub fn new(name: &str, asset_type: &str, source: &str) -> (r: Asset)
        ensures
            r.name@ == name@,
            r.asset_type == asset_type_of_label(asset_type@),
            r.source@ == source@,
    {
        Asset {
            name: name.to_owned(),
            asset_type: AssetType::from(asset_type),
            source: source.to_owned(),
        }
    }
}

/// Reading a kind's own label gives the kind back.
pub proof fn lemma_label_round_trip(t: AssetType)
    ensures
        asset_type_of_label(label_of_asset_type(t)) == t,
{
    reveal_strlit("Texture");
    reveal_strlit("Audio");
    reveal_strlit("Data");
    assert("Audio"@.len() != "Texture"@.len());
    assert("Data"@.len() != "Texture"@.len());
    assert("Data"@.len() != "Audio"@.len());
}

} // verus!
