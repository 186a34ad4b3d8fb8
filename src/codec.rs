use vstd::prelude::*;

use crate::constants::{
    EMAIL_OFFSET, EMAIL_SIZE, ID_OFFSET, ID_SIZE, ROW_SIZE, USERNAME_OFFSET, USERNAME_SIZE,
};

verus! {

broadcast use vstd::array::group_array_axioms;

/// The four little-endian bytes of `v`.
pub open spec fn le_bytes(v: u32) -> Seq<u8> {
    seq![
        (v % 256) as u8,
        ((v / 256) % 256) as u8,
        ((v / 65536) % 256) as u8,
        (v / 16777216) as u8,
    ]
}

/// The number that four little-endian bytes stand for.
pub open spec fn le_value(b: Seq<u8>) -> int {
    b[0] as int + 256 * b[1] + 65536 * b[2] + 16777216 * b[3]
}

/// A record: a numeric id and two fixed-width, zero-padded byte fields.
#[derive(Debug)]
pub struct Row {
    pub id: u32,
    pub username: [u8; USERNAME_SIZE],
    pub email: [u8; EMAIL_SIZE],
}

impl Row {
    /// The serialized layout: id, then username, then email, with no gaps.
    pub open spec fn bytes(self) -> Seq<u8> {
        le_bytes(self.id) + self.username@ + self.email@
    }

    /// `r` is what the first `ROW_SIZE` bytes of `b` decode to.
    pub open spec fn decodes_to(b: Seq<u8>, r: Row) -> bool {
        &&& r.id as int == le_value(b.subrange(ID_OFFSET as int, ID_OFFSET + ID_SIZE))
        &&& r.username@ == b.subrange(USERNAME_OFFSET as int, USERNAME_OFFSET + USERNAME_SIZE)
        &&& r.email@ == b.subrange(EMAIL_OFFSET as int, EMAIL_OFFSET + EMAIL_SIZE)
    }

    /// Reads a row out of the first `ROW_SIZE` bytes of `bytes`.
    pub fn deserialize(bytes: &[u8]) -> (r: Row)
        requires
            bytes@.len() >= ROW_SIZE,
        ensures
            Row::decodes_to(bytes@, r),
    {
        let mut username = [0u8; USERNAME_SIZE];
        let mut email = [0u8; EMAIL_SIZE];
        let mut i: usize = 0;
        while i < USERNAME_SIZE
            invariant
                i <= USERNAME_SIZE,
                bytes@.len() >= ROW_SIZE,
                forall|k: int| 0 <= k < i ==> username@[k] == bytes@[USERNAME_OFFSET + k],
            decreases USERNAME_SIZE - i,
        {
            username[i] = bytes[USERNAME_OFFSET + i];
            i = i + 1;
        }
        let mut j: usize = 0;
        while j < EMAIL_SIZE
            invariant
                j <= EMAIL_SIZE,
                bytes@.len() >= ROW_SIZE,
                forall|k: int| 0 <= k < j ==> email@[k] == bytes@[EMAIL_OFFSET + k],
            decreases EMAIL_SIZE - j,
        {
            email[j] = bytes[EMAIL_OFFSET + j];
            j = j + 1;
        }
        let b0 = bytes[ID_OFFSET] as u32;
        let b1 = bytes[ID_OFFSET + 1] as u32;
        let b2 = bytes[ID_OFFSET + 2] as u32;
        let b3 = bytes[ID_OFFSET + 3] as u32;
        let id: u32 = b0 + 256 * b1 + 65536 * b2 + 16777216 * b3;
        let r = Row { id, username, email };
        assert(r.username@ =~= bytes@.subrange(USERNAME_OFFSET as int, USERNAME_OFFSET + USERNAME_SIZE));
        assert(r.email@ =~= bytes@.subrange(EMAIL_OFFSET as int, EMAIL_OFFSET + EMAIL_SIZE));
        r
    }

    /// Writes the row into its fixed `ROW_SIZE`-byte layout.
    pub fn serialize(&self) -> (out: [u8; ROW_SIZE])
        ensures
            out@ == self.bytes(),
    {
        let mut out = [0u8; ROW_SIZE];
        let id = self.id;
        out[ID_OFFSET] = (id % 256) as u8;
        out[ID_OFFSET + 1] = ((id / 256) % 256) as u8;
        out[ID_OFFSET + 2] = ((id / 65536) % 256) as u8;
        out[ID_OFFSET + 3] = (id / 16777216) as u8;
        let mut i: usize = 0;
        while i < USERNAME_SIZE
            invariant
                i <= USERNAME_SIZE,
                out@.subrange(0, 4) == le_bytes(id),
                forall|k: int| 0 <= k < i ==> out@[USERNAME_OFFSET + k] == self.username@[k],
            decreases USERNAME_SIZE - i,
        {
            out[USERNAME_OFFSET + i] = self.username[i];
            i = i + 1;
        }
        let mut j: usize = 0;
        while j < EMAIL_SIZE
            invariant
                j <= EMAIL_SIZE,
                out@.subrange(0, 4) == le_bytes(id),
                forall|k: int| 0 <= k < USERNAME_SIZE ==> out@[USERNAME_OFFSET + k] == self.username@[k],
                forall|k: int| 0 <= k < j ==> out@[EMAIL_OFFSET + k] == self.email@[k],
            decreases EMAIL_SIZE - j,
        {
            out[EMAIL_OFFSET + j] = self.email[j];
            j = j + 1;
        }
        assert(out@ =~= self.bytes());
        out
    }
}

} // verus!
