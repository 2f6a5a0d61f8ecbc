use vstd::prelude::*;

verus! {

/// The identity of an account, a holder or a program: 32 opaque bytes.
#[derive(Clone, Copy, Debug, PartialEq, Eq)]
pub struct Identity {
    pub bytes: [u8; 32],
}

impl View for Identity {
    type V = Seq<u8>;

    open spec fn view(&self) -> Seq<u8> {
        self.bytes@
    }
}

/// The view of an optional identity.
pub open spec fn option_view(id: Option<Identity>) -> Option<Seq<u8>> {
    match id {
        Some(k) => Some(k@),
        None => None,
    }
}

/// Every byte of `s` is zero.
pub open spec fn all_zero(s: Seq<u8>) -> bool {
    forall|i: int| 0 <= i < s.len() ==> s[i] == 0u8
}

impl Identity {
    pub fn new_from_array(bytes: [u8; 32]) -> (id: Identity)
        ensures
            id@ == bytes@,
    {
        Identity { bytes }
    }

    /// The identity whose bytes are `src[start..start + 32]`.
    pub fn from_bytes_at(src: &[u8], start: usize) -> (id: Identity)
        requires
            start + 32 <= src@.len(),
        ensures
            id@ == src@.subrange(start as int, start + 32),
    {
        let len: usize = src.len();
        let mut bytes = [0u8; 32];
        let mut i: usize = 0;
        while i < 32
            invariant
                i <= 32,
                start + 32 <= len == src@.len(),
                forall|j: int| 0 <= j < i ==> bytes@[j] == src@[start + j],
            decreases 32 - i,
        {
            bytes[i] = src[start + i];
            i += 1;
        }
        let id = Identity { bytes };
        assert(id@ =~= src@.subrange(start as int, start + 32));
        id
    }

    pub fn to_bytes(&self) -> (bytes: [u8; 32])
        ensures
            bytes@ == self@,
    {
        self.bytes
    }

    /// Whether `self` and `other` hold the same bytes.
    pub fn equals(&self, other: &Identity) -> (same: bool)
        ensures
            same == (self@ == other@),
    {
        let mut i: usize = 0;
        while i < 32
            invariant
                i <= 32,
                forall|j: int| 0 <= j < i ==> self.bytes@[j] == other.bytes@[j],
            decreases 32 - i,
        {
            if self.bytes[i] != other.bytes[i] {
                return false;
            }
            i += 1;
        }
        assert(self@ =~= other@);
        true
    }

    /// Whether every byte is zero.
    pub fn is_zero(&self) -> (zero: bool)
        ensures
            zero == all_zero(self@),
    {
        let mut i: usize = 0;
        while i < 32
            invariant
                i <= 32,
                forall|j: int| 0 <= j < i ==> self.bytes@[j] == 0u8,
            decreases 32 - i,
        {
            if self.bytes[i] != 0 {
                return false;
            }
            i += 1;
        }
        true
    }
}

} // verus!
