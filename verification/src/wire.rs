//! Reading big-endian integers and blocks out of bytes.

use vstd::prelude::*;

verus! {

/// The number in two bytes, the high one first.
pub open spec fn be16(b: Seq<u8>, i: int) -> int {
    b[i] * 0x100 + b[i + 1]
}

/// The number in four bytes, the high ones first.
pub open spec fn be32(b: Seq<u8>, i: int) -> int {
    be16(b, i) * 0x1_0000 + be16(b, i + 2)
}

/// A two-byte number with a sign.
pub open spec fn signed16(n: int) -> int {
    if n >= 0x8000 {
        n - 0x1_0000
    } else {
        n
    }
}

/// A four-byte number with a sign.
pub open spec fn signed32(n: int) -> int {
    if n >= 0x8000_0000 {
        n - 0x1_0000_0000
    } else {
        n
    }
}

/// The two bytes of a number.
pub open spec fn bytes16(n: int) -> Seq<u8> {
    seq![((n / 0x100) % 0x100) as u8, (n % 0x100) as u8]
}

/// The four bytes of a number.
pub open spec fn bytes32(n: int) -> Seq<u8> {
    bytes16(n / 0x1_0000) + bytes16(n)
}

/// Whether a block stands in bytes at a place.
pub open spec fn stands_at(b: Seq<u8>, i: int, block: Seq<u8>) -> bool {
    0 <= i && i + block.len() <= b.len() && b.subrange(i, i + block.len()) == block
}

pub proof fn stands_in_parts(b: Seq<u8>, i: int, first: Seq<u8>, second: Seq<u8>)
    requires
        stands_at(b, i, first + second),
    ensures
        stands_at(b, i, first),
        stands_at(b, i + first.len(), second),
{
    let whole = first + second;
    assert(b.subrange(i, i + whole.len()) == whole);
    assert forall|k: int| 0 <= k < whole.len() implies b[i + k] == whole[k] by {
        assert(b.subrange(i, i + whole.len())[k] == b[i + k]);
    }
    assert(b.subrange(i, i + first.len()) =~= first) by {
        assert forall|k: int| 0 <= k < first.len() implies b.subrange(i, i + first.len())[k] == first[k] by {
            assert(whole[k] == first[k]);
        }
    }
    assert(b.subrange(i + first.len(), i + first.len() + second.len()) =~= second) by {
        assert forall|k: int| 0 <= k < second.len() implies
            b.subrange(i + first.len(), i + first.len() + second.len())[k] == second[k] by {
            assert(whole[first.len() + k] == second[k]);
            assert(b[i + (first.len() + k)] == whole[first.len() + k]);
        }
    }
}

pub proof fn bytes16_are_read_back(b: Seq<u8>, i: int, n: int)
    requires
        stands_at(b, i, bytes16(n)),
        0 <= n < 0x1_0000,
    ensures
        i + 2 <= b.len(),
        be16(b, i) == n,
{
    assert(b.subrange(i, i + 2)[0] == b[i]);
    assert(b.subrange(i, i + 2)[1] == b[i + 1]);
}

pub proof fn bytes32_are_read_back(b: Seq<u8>, i: int, n: int)
    requires
        stands_at(b, i, bytes32(n)),
        0 <= n < 0x1_0000_0000,
    ensures
        i + 4 <= b.len(),
        be32(b, i) == n,
{
    stands_in_parts(b, i, bytes16(n / 0x1_0000), bytes16(n));
    bytes16_are_read_back(b, i, n / 0x1_0000);
    assert(bytes16(n) =~= bytes16(n % 0x1_0000)) by {
        assert((n / 0x100) % 0x100 == ((n % 0x1_0000) / 0x100) % 0x100);
        assert(n % 0x100 == (n % 0x1_0000) % 0x100);
    }
    bytes16_are_read_back(b, i + 2, n % 0x1_0000);
}

/// A place in bytes, from which they are read on.
pub struct Reader<'a> {
    pub bytes: &'a [u8],
    pub pos: usize,
}

impl<'a> Reader<'a> {
    pub open spec fn wf(&self) -> bool {
        self.pos <= self.bytes@.len()
    }

    /// What is read when a block of a size is there: the bytes stay, and the place
    /// is behind it.
    pub open spec fn moved(&self, after: &Self, n: int) -> bool {
        &&& after.wf()
        &&& after.bytes == self.bytes
        &&& after.pos == self.pos + n
    }

    /// The next `n` bytes, where there are as many.
    pub fn take(&mut self, n: usize) -> (block: Option<&'a [u8]>)
        requires
            old(self).wf(),
        ensures
            final(self).wf(),
            match block {
                Some(s) => {
                    &&& old(self).moved(final(self), n as int)
                    &&& s@ == old(self).bytes@.subrange(old(self).pos as int, old(self).pos + n)
                },
                None => old(self).pos + n > old(self).bytes@.len() && *final(self) == *old(self),
            },
    {
        let left: usize = self.bytes.len() - self.pos;
        if n > left {
            return None;
        }
        let end: usize = self.pos + n;
        let block = vstd::slice::slice_subrange(self.bytes, self.pos, end);
        self.pos = end;
        Some(block)
    }

    pub fn u16(&mut self) -> (number: Option<u16>)
        requires
            old(self).wf(),
        ensures
            final(self).wf(),
            match number {
                Some(v) => old(self).moved(final(self), 2) && v == be16(old(self).bytes@, old(self).pos as int),
                None => old(self).pos + 2 > old(self).bytes@.len() && *final(self) == *old(self),
            },
    {
        match self.take(2) {
            Some(b) => {
                assert(b@[0] == old(self).bytes@[old(self).pos as int]);
                assert(b@[1] == old(self).bytes@[old(self).pos + 1]);
                Some(b[0] as u16 * 0x100 + b[1] as u16)
            },
            None => None,
        }
    }

    pub fn u32(&mut self) -> (number: Option<u32>)
        requires
            old(self).wf(),
        ensures
            final(self).wf(),
            match number {
                Some(v) => old(self).moved(final(self), 4) && v == be32(old(self).bytes@, old(self).pos as int),
                None => old(self).pos + 4 > old(self).bytes@.len() && *final(self) == *old(self),
            },
    {
        match self.take(4) {
            Some(b) => {
                assert(b@[0] == old(self).bytes@[old(self).pos as int]);
                assert(b@[1] == old(self).bytes@[old(self).pos + 1]);
                assert(b@[2] == old(self).bytes@[old(self).pos + 2]);
                assert(b@[3] == old(self).bytes@[old(self).pos + 3]);
                let high: u32 = b[0] as u32 * 0x100 + b[1] as u32;
                let low: u32 = b[2] as u32 * 0x100 + b[3] as u32;
                Some(high * 0x1_0000 + low)
            },
            None => None,
        }
    }

    pub fn i16(&mut self) -> (number: Option<i16>)
        requires
            old(self).wf(),
        ensures
            final(self).wf(),
            match number {
                Some(v) => old(self).moved(final(self), 2) && v == signed16(be16(old(self).bytes@, old(self).pos as int)),
                None => old(self).pos + 2 > old(self).bytes@.len() && *final(self) == *old(self),
            },
    {
        match self.u16() {
            Some(v) => {
                if v >= 0x8000 {
                    Some((v as i32 - 0x1_0000) as i16)
                } else {
                    Some(v as i16)
                }
            },
            None => None,
        }
    }

    pub fn i32(&mut self) -> (number: Option<i32>)
        requires
            old(self).wf(),
        ensures
            final(self).wf(),
            match number {
                Some(v) => old(self).moved(final(self), 4) && v == signed32(be32(old(self).bytes@, old(self).pos as int)),
                None => old(self).pos + 4 > old(self).bytes@.len() && *final(self) == *old(self),
            },
    {
        match self.u32() {
            Some(v) => {
                if v >= 0x8000_0000 {
                    Some((v as i64 - 0x1_0000_0000) as i32)
                } else {
                    Some(v as i32)
                }
            },
            None => None,
        }
    }
}

/// A number that was written is read again as it was, and the reader is then behind it; at the
/// end of the bytes there is none, and the reader stays.
pub proof fn a_written_number_is_read_from_the_wire(
    reader: &mut Reader,
    n: int,
    number: Option<u32>,
    other: &mut Reader,
    m: int,
    short: Option<u16>,
)
    requires
        old(reader).wf() && old(other).wf(),
        0 <= n < 0x1_0000_0000,
        0 <= m < 0x1_0000,
        stands_at(old(reader).bytes@, old(reader).pos as int, bytes32(n)),
        stands_at(old(other).bytes@, old(other).pos as int, bytes16(m)),
        call_ensures(Reader::u32, (reader,), number),
        call_ensures(Reader::u16, (other,), short),
    ensures
        number == Some(n as u32) && final(reader).pos == old(reader).pos + 4,
        short == Some(m as u16) && final(other).pos == old(other).pos + 2,
        final(reader).bytes == old(reader).bytes && final(other).bytes == old(other).bytes,
{
    bytes32_are_read_back(old(reader).bytes@, old(reader).pos as int, n);
    bytes16_are_read_back(old(other).bytes@, old(other).pos as int, m);
}

/// Bytes are taken as they stand, and the reader is then behind them.
pub proof fn bytes_are_taken_as_they_stand<'a>(reader: &mut Reader<'a>, n: usize, block: Option<&'a [u8]>)
    requires
        old(reader).wf(),
        call_ensures(Reader::<'a>::take, (reader, n), block),
    ensures
        block is Some <==> old(reader).pos + n <= old(reader).bytes@.len(),
        block matches Some(s) ==> s@.len() == n && final(reader).pos == old(reader).pos + n && forall|k: int|
            0 <= k < n ==> #[trigger] s@[k] == old(reader).bytes@[old(reader).pos + k],
        block is None ==> final(reader).pos == old(reader).pos,
{
}

} // verus!
