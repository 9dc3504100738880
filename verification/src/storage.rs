//! The keys under which rendered images are kept in the blob store.

use vstd::prelude::*;
use vstd::string::*;
use crate::dna::{bits_bytes, Dna};
use crate::encoding::{
    base64_encode, base64_text, decimal_text, sha256, sha256_digest, write_decimal_u32,
};

verus! {

/// The key of one blob.
#[derive(Debug)]
pub struct Path(String);

impl View for Path {
    type V = Seq<char>;

    closed spec fn view(&self) -> Seq<char> {
        self.0@
    }
}

/// The key of the image of the grid `bits`: `image/`, then the base64 text
/// of the SHA-256 digest of the grid's flat byte buffer.
pub open spec fn image_key(bits: Seq<bool>) -> Seq<char> {
    "image/"@ + base64_text(sha256_digest(bits_bytes(bits)))
}

/// The key of the image of the item with the index `index`: `image/`, then
/// the index in decimal.
pub open spec fn item_key(index: u32) -> Seq<char> {
    "image/"@ + decimal_text(index)
}

impl Path {
    /// The key of the image of `dna`, made from the grid's content: equal
    /// grids have equal keys.
    pub fn for_image(dna: &Dna) -> (path: Path)
        ensures
            path@ == image_key(dna@),
    {
        let digest = sha256(&dna.to_bytes());
        let base64 = base64_encode(&digest);
        Path("image/".to_owned().concat(base64.as_str()))
    }

    /// The key of the image of the item with the index `item_index`.
    pub fn for_item(item_index: u32) -> (path: Path)
        ensures
            path@ == item_key(item_index),
    {
        let index = write_decimal_u32(item_index);
        Path("image/".to_owned().concat(index.as_str()))
    }

    /// A copy of the key.
    pub fn duplicate(&self) -> (path: Path)
        ensures
            path@ == self@,
    {
        Path(self.0.clone())
    }

    /// The key as text.
    pub fn as_str(&self) -> (text: &str)
        ensures
            text@ == self@,
    {
        self.0.as_str()
    }
}

} // verus!
