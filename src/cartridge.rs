use vstd::prelude::*;

verus! {

/// A program image, byte for byte as it was read from storage.
#[derive(Clone, Debug)]
pub struct Cartridge {
    pub rom: Vec<u8>,
}

} // verus!
