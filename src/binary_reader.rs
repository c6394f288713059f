//! A forward-only cursor over a byte slice.
use vstd::prelude::*;

verus! {

/// The big-endian 16-bit value of the two bytes at `i` and `i + 1`.
pub open spec fn u16_at(s: Seq<u8>, i: int) -> int {
    s[i] as int * 256 + s[i + 1] as int
}

pub struct PacketReader<'a> {
    data: &'a [u8],
    cursor: usize,
}

impl<'a> PacketReader<'a> {
    /// The bytes read over.
    pub closed spec fn data(&self) -> Seq<u8> {
        self.data@
    }

    /// How many bytes have been read.
    pub closed spec fn pos(&self) -> int {
        self.cursor as int
    }

    #[verifier::type_invariant]
    spec fn inv(self) -> bool {
        self.cursor <= self.data@.len()
    }

    /// A reader at the start of `data`.
    pub fn new(data: &'a [u8]) -> (r: Self)
        ensures
            r.data() == data@,
            r.pos() == 0,
    {
        PacketReader { data, cursor: 0 }
    }

    /// How many bytes are left to read.
    pub fn get_remaining_bytes(&self) -> (r: usize)
        ensures
            r == self.data().len() - self.pos(),
    {
        proof {
            use_type_invariant(self);
        }
        self.data.len() - self.cursor
    }

    /// The next byte, or `None` at the end of the data.
    pub fn read_u8(&mut self) -> (r: Option<u8>)
        ensures
            final(self).data() == old(self).data(),
            final(self).pos() <= final(self).data().len(),
            match r {
                Some(b) => old(self).pos() < old(self).data().len() && b == old(self).data()[old(
                    self,
                ).pos()] && final(self).pos() == old(self).pos() + 1,
                None => old(self).pos() >= old(self).data().len() && final(self).pos() == old(
                    self,
                ).pos(),
            },
    {
        proof {
            use_type_invariant(&*self);
        }
        if self.cursor < self.data.len() {
            let b = self.data[self.cursor];
            self.cursor = self.cursor + 1;
            Some(b)
        } else {
            None
        }
    }

    /// The next two bytes read as a big-endian value, or `None` when fewer than two are left.
    pub fn read_u16(&mut self) -> (r: Option<u16>)
        ensures
            final(self).data() == old(self).data(),
            final(self).pos() <= final(self).data().len(),
            match r {
                Some(v) => old(self).pos() + 2 <= old(self).data().len() && v == u16_at(
                    old(self).data(),
                    old(self).pos(),
                ) && final(self).pos() == old(self).pos() + 2,
                None => old(self).pos() + 2 > old(self).data().len() && final(self).pos() == old(
                    self,
                ).pos(),
            },
    {
        proof {
            use_type_invariant(&*self);
        }
        if self.data.len() - self.cursor >= 2 {
            let hi = self.data[self.cursor];
            let lo = self.data[self.cursor + 1];
            self.cursor = self.cursor + 2;
            Some((hi as u16) * 256 + (lo as u16))
        } else {
            None
        }
    }

    /// The next `n` bytes, or `None` when fewer than `n` are left.
    pub fn take_bytes(&mut self, n: usize) -> (r: Option<&'a [u8]>)
        ensures
            final(self).data() == old(self).data(),
            final(self).pos() <= final(self).data().len(),
            match r {
                Some(b) => old(self).pos() + n <= old(self).data().len() && b@ == old(
                    self,
                ).data().subrange(old(self).pos(), old(self).pos() + n) && final(self).pos()
                    == old(self).pos() + n,
                None => old(self).pos() + n > old(self).data().len() && final(self).pos() == old(
                    self,
                ).pos(),
            },
    {
        proof {
            use_type_invariant(&*self);
        }
        if self.data.len() - self.cursor >= n {
            let start = self.cursor;
            let b = &self.data[start..start + n];
            self.cursor = start + n;
            Some(b)
        } else {
            None
        }
    }
}

} // verus!
