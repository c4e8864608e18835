use vstd::prelude::*;

verus! {

/// A peer identity: the opaque byte encoding of a peer's public identifier,
/// globally unique on the overlay. The bytes are produced by the transport
/// layer from the peer's keypair; this library treats them as an opaque key.
#[derive(Debug)]
pub struct PeerId {
    pub bytes: Vec<u8>,
}

impl View for PeerId {
    type V = Seq<u8>;

    open spec fn view(&self) -> Seq<u8> {
        self.bytes@
    }
}

impl DeepView for PeerId {
    type V = Seq<u8>;

    open spec fn deep_view(&self) -> Seq<u8> {
        self.bytes@
    }
}

impl PeerId {
    pub fn new(bytes: Vec<u8>) -> (r: PeerId)
        ensures
            r@ == bytes@,
    {
        PeerId { bytes }
    }

    /// An explicit copy; the copy denotes the same peer.
    pub fn dup(&self) -> (r: PeerId)
        ensures
            r@ == self@,
    {
        PeerId { bytes: clone_bytes(&self.bytes) }
    }
}

impl PartialEq for PeerId {
    fn eq(&self, other: &PeerId) -> (r: bool) {
        bytes_eq(&self.bytes, &other.bytes)
    }
}

impl vstd::std_specs::cmp::PartialEqSpecImpl for PeerId {
    open spec fn obeys_eq_spec() -> bool {
        true
    }

    open spec fn eq_spec(&self, other: &PeerId) -> bool {
        self.bytes@ == other.bytes@
    }
}

/// A share identifier: the opaque byte encoding of a share's hash, as the
/// chain collaborator hands it out.
#[derive(Debug)]
pub struct ShareId {
    pub bytes: Vec<u8>,
}

impl View for ShareId {
    type V = Seq<u8>;

    open spec fn view(&self) -> Seq<u8> {
        self.bytes@
    }
}

impl DeepView for ShareId {
    type V = Seq<u8>;

    open spec fn deep_view(&self) -> Seq<u8> {
        self.bytes@
    }
}

impl ShareId {
    pub fn new(bytes: Vec<u8>) -> (r: ShareId)
        ensures
            r@ == bytes@,
    {
        ShareId { bytes }
    }

    /// An explicit copy; the copy denotes the same share.
    pub fn dup(&self) -> (r: ShareId)
        ensures
            r@ == self@,
    {
        ShareId { bytes: clone_bytes(&self.bytes) }
    }
}

impl PartialEq for ShareId {
    fn eq(&self, other: &ShareId) -> (r: bool) {
        bytes_eq(&self.bytes, &other.bytes)
    }
}

impl vstd::std_specs::cmp::PartialEqSpecImpl for ShareId {
    open spec fn obeys_eq_spec() -> bool {
        true
    }

    open spec fn eq_spec(&self, other: &ShareId) -> bool {
        self.bytes@ == other.bytes@
    }
}

/// Byte-for-byte copy of a byte string.
pub fn clone_bytes(v: &Vec<u8>) -> (r: Vec<u8>)
    ensures
        r@ == v@,
{
    let mut r: Vec<u8> = Vec::new();
    let mut i: usize = 0;
    while i < v.len()
        invariant
            i <= v.len(),
            r@ == v@.subrange(0, i as int),
        decreases v.len() - i,
    {
        r.push(v[i]);
        proof {
            assert(v@.subrange(0, i + 1) =~= v@.subrange(0, i as int).push(v@[i as int]));
        }
        i += 1;
    }
    proof {
        assert(r@ =~= v@);
    }
    r
}

/// Byte-for-byte comparison of two byte strings.
pub fn bytes_eq(a: &Vec<u8>, b: &Vec<u8>) -> (r: bool)
    ensures
        r == (a@ == b@),
{
    if a.len() != b.len() {
        proof {
            assert(a@ != b@) by {
                if a@ == b@ {
                    assert(a@.len() == b@.len());
                }
            }
        }
        return false;
    }
    let mut i: usize = 0;
    while i < a.len()
        invariant
            i <= a.len(),
            a@.len() == b@.len(),
            forall|j: int| 0 <= j < i ==> a@[j] == b@[j],
        decreases a.len() - i,
    {
        if a[i] != b[i] {
            proof {
                assert(a@ != b@) by {
                    if a@ == b@ {
                        assert(a@[i as int] == b@[i as int]);
                    }
                }
            }
            return false;
        }
        i += 1;
    }
    proof {
        assert(a@ =~= b@);
    }
    true
}

} // verus!
