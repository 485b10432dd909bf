use vstd::prelude::*;

verus! {

/// Whether a byte sequence is the binary encoding of a network address.
/// What counts as one is the address library's business, not this crate's:
/// the bytes are otherwise opaque to this protocol.
pub uninterp spec fn is_multiaddr(b: Seq<u8>) -> bool;

/// Relies on `multiaddr::Multiaddr::try_from(Vec<u8>)`: it walks the byte
/// sequence protocol by protocol and succeeds exactly when the whole
/// sequence is well formed, so whether it succeeds depends on the bytes
/// alone.
#[verifier::external_body]
fn multiaddr_check(b: &Vec<u8>) -> (r: bool)
    ensures
        r == is_multiaddr(b@),
{
    multiaddr::Multiaddr::try_from(b.clone()).is_ok()
}

/// A network address, held as its binary encoding. A well-formed `Addr`
/// holds bytes the address library accepts; `from_bytes` is the checking
/// constructor.
#[derive(Debug, Clone)]
pub struct Addr {
    pub bytes: Vec<u8>,
}

impl Addr {
    /// The bytes are a well-formed address encoding.
    pub open spec fn wf(&self) -> bool {
        is_multiaddr(self.bytes@)
    }

    /// Validates `bytes` against the address library and wraps them.
    pub fn from_bytes(bytes: Vec<u8>) -> (r: Option<Addr>)
        ensures
            r is Some <==> is_multiaddr(bytes@),
            r matches Some(a) ==> a.bytes@ == bytes@ && a.wf(),
    {
        if multiaddr_check(&bytes) {
            Some(Addr { bytes })
        } else {
            None
        }
    }

    /// Hands the binary encoding back.
    pub fn into_bytes(self) -> (r: Vec<u8>)
        ensures
            r@ == self@,
    {
        self.bytes
    }
}

impl View for Addr {
    type V = Seq<u8>;

    open spec fn view(&self) -> Seq<u8> {
        self.bytes@
    }
}

/// The byte encodings held by a sequence of addresses.
pub open spec fn addr_views(items: Seq<Addr>) -> Seq<Seq<u8>> {
    Seq::new(items.len(), |i: int| items[i]@)
}

} // verus!
