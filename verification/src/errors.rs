use vstd::prelude::*;

verus! {

/// Failure of the setlist extractor: the document holds no element carrying
/// the setlist marker class, so there is nothing to walk. An empty song list
/// is never returned silently in this case.
#[derive(Clone, Copy, Debug, PartialEq, Eq, Structural)]
pub enum ExtractionError {
    NoContainer,
}

/// Failures of the token minter, one per fallible step that the signing
/// pipeline takes after the key text has been read: parsing the key
/// material, and producing the signature.
#[derive(Clone, Copy, Debug, PartialEq, Eq, Structural)]
pub enum MintError {
    KeyParse,
    Signing,
}

} // verus!
