use vstd::prelude::*;

use crate::error::FsError;

verus! {

/// The byte buffer after writing `data` at offset `off`: the buffer grows
/// to cover the write when needed, any gap between the old end and `off`
/// is zero-filled, and bytes outside the written range keep their values.
/// A write never shortens the buffer.
pub open spec fn write_bytes(buf: Seq<u8>, off: nat, data: Seq<u8>) -> Seq<u8> {
    let end = off + data.len();
    let len = if end > buf.len() {
        end
    } else {
        buf.len()
    };
    Seq::new(
        len,
        |j: int|
            if off <= j < end {
                data[j - off]
            } else if j < buf.len() {
                buf[j]
            } else {
                0u8
            },
    )
}

/// The bytes a read of at most `count` bytes at offset `off` yields: the
/// part of the buffer inside range. Reading past the end yields fewer
/// bytes; an offset beyond the end yields none. Never an error.
pub open spec fn read_bytes(buf: Seq<u8>, off: nat, count: nat) -> Seq<u8> {
    let start = if off > buf.len() {
        buf.len()
    } else {
        off
    };
    let end = if off + count > buf.len() {
        buf.len()
    } else {
        off + count
    };
    buf.subrange(start as int, end as int)
}

/// The byte buffer after setting its size to `n`: truncated at `n`, or
/// zero-extended up to `n`.
pub open spec fn resize_bytes(buf: Seq<u8>, n: nat) -> Seq<u8> {
    Seq::new(
        n,
        |j: int|
            if j < buf.len() {
                buf[j]
            } else {
                0u8
            },
    )
}

/// Truncates or zero-extends `data` to exactly `n` bytes.
pub fn resize_zero(data: &mut Vec<u8>, n: usize)
    ensures
        final(data)@ == resize_bytes(old(data)@, n as nat),
{
    if n <= data.len() {
        data.truncate(n);
        proof {
            assert(data@ =~= resize_bytes(old(data)@, n as nat));
        }
    } else {
        while data.len() < n
            invariant
                old(data)@.len() <= data@.len() <= n,
                forall|j: int| 0 <= j < old(data)@.len() ==> data@[j] == old(data)@[j],
                forall|j: int| old(data)@.len() <= j < data@.len() ==> data@[j] == 0u8,
            decreases n - data@.len(),
        {
            data.push(0);
        }
        proof {
            assert(data@ =~= resize_bytes(old(data)@, n as nat));
        }
    }
}

/// Round trip: writing `data` at any offset and reading `data.len()` bytes
/// back at the same offset yields exactly `data`, whatever the buffer held.
pub proof fn lemma_write_read_round_trip(buf: Seq<u8>, off: nat, data: Seq<u8>)
    ensures
        read_bytes(write_bytes(buf, off, data), off, data.len()) == data,
{
    assert(read_bytes(write_bytes(buf, off, data), off, data.len()) =~= data);
}

/// Copies out of `data` the bytes a read of at most `count` at `off`
/// yields.
pub fn read_slice(data: &[u8], off: u64, count: usize) -> (r: Vec<u8>)
    ensures
        r@ == read_bytes(data@, off as nat, count as nat),
{
    let len = data.len();
    if off >= len as u64 {
        proof {
            assert(read_bytes(data@, off as nat, count as nat) =~= Seq::<u8>::empty());
        }
        return Vec::new();
    }
    let start = off as usize;
    let end = if count > len - start {
        len
    } else {
        start + count
    };
    let mut out: Vec<u8> = Vec::new();
    let mut i: usize = start;
    while i < end
        invariant
            start <= i <= end <= data@.len(),
            out@ == data@.subrange(start as int, i as int),
        decreases end - i,
    {
        out.push(data[i]);
        proof {
            assert(out@ =~= data@.subrange(start as int, i + 1));
        }
        i += 1;
    }
    proof {
        assert(out@ =~= read_bytes(data@, off as nat, count as nat));
    }
    out
}

/// Writes `buf` into `data` at offset `off`, zero-filling any gap and
/// growing the buffer as needed. Returns the full count written, or
/// OutOfMemory, changing nothing, when the growth cannot be reserved.
pub fn write_into(data: &mut Vec<u8>, off: u64, buf: &[u8]) -> (r: Result<usize, FsError>)
    requires
        off as int + buf@.len() <= usize::MAX as int,
    ensures
        r matches Ok(n) ==> n == buf@.len() && final(data)@ == write_bytes(
            old(data)@,
            off as nat,
            buf@,
        ),
        r matches Err(e) ==> e == FsError::OutOfMemory && final(data)@ == old(data)@,
        off as int + buf@.len() <= old(data)@.len() ==> r is Ok,
{
    let off_u = off as usize;
    let end = off_u + buf.len();
    if end > data.len() {
        let additional = end - data.len();
        match data.try_reserve(additional) {
            Ok(_) => (),
            Err(_) => {
                return Err(FsError::OutOfMemory);
            },
        }
        while data.len() < end
            invariant
                old(data)@.len() <= data@.len() <= end,
                forall|j: int| 0 <= j < old(data)@.len() ==> data@[j] == old(data)@[j],
                forall|j: int| old(data)@.len() <= j < data@.len() ==> data@[j] == 0u8,
            decreases end - data@.len(),
        {
            data.push(0);
        }
    }
    let ghost extended = data@;
    let mut i: usize = 0;
    while i < buf.len()
        invariant
            0 <= i <= buf@.len(),
            off_u as int + buf@.len() <= usize::MAX as int,
            data@.len() == extended.len(),
            off_u + buf@.len() <= data@.len(),
            extended.len() == write_bytes(old(data)@, off as nat, buf@).len(),
            forall|j: int| 0 <= j < old(data)@.len() ==> extended[j] == old(data)@[j],
            forall|j: int| old(data)@.len() <= j < extended.len() ==> extended[j] == 0u8,
            forall|j: int| 0 <= j < i ==> data@[off_u + j] == buf@[j],
            forall|j: int| 0 <= j < data@.len() && !(off_u <= j < off_u + i) ==> data@[j]
                == extended[j],
        decreases buf@.len() - i,
    {
        let idx = off_u + i;
        *vstd::std_specs::vec::vec_index_mut(data, idx) = buf[i];
        i += 1;
    }
    proof {
        assert(off_u as int == off as int);
        let wb = write_bytes(old(data)@, off as nat, buf@);
        assert(data@.len() == wb.len());
        assert forall|j: int| 0 <= j < data@.len() implies data@[j] == wb[j] by {
            if off_u <= j < off_u + buf@.len() {
                assert(data@[off_u + (j - off_u)] == buf@[j - off_u]);
            } else {
                assert(data@[j] == extended[j]);
            }
        }
        assert(data@ =~= wb);
    }
    Ok(buf.len())
}

/// A cursor writer over an owned byte buffer: the bridge between the
/// protocol layer's scatter/gather transfers and a file record's buffer.
pub struct FileWriter {
    pub pos: usize,
    pub data: Vec<u8>,
}

impl FileWriter {
    /// A writer over `data`, positioned at its start.
    pub fn new(data: Vec<u8>) -> (r: FileWriter)
        ensures
            r.pos == 0,
            r.data == data,
    {
        FileWriter { pos: 0, data }
    }

    /// Writes at an absolute offset; the cursor does not move.
    pub fn write_at(&mut self, off: u64, buf: &[u8]) -> (r: Result<usize, FsError>)
        requires
            off as int + buf@.len() <= usize::MAX as int,
        ensures
            r matches Ok(n) ==> n == buf@.len() && final(self).data@ == write_bytes(
                old(self).data@,
                off as nat,
                buf@,
            ) && final(self).pos == old(self).pos,
            r matches Err(e) ==> e == FsError::OutOfMemory && final(self).data@ == old(
                self,
            ).data@ && final(self).pos == old(self).pos,
            off as int + buf@.len() <= old(self).data@.len() ==> r is Ok,
    {
        write_into(&mut self.data, off, buf)
    }

    /// Writes at the cursor and advances it by the count written.
    pub fn write_next(&mut self, buf: &[u8]) -> (r: Result<usize, FsError>)
        requires
            old(self).pos as int + buf@.len() <= usize::MAX as int,
        ensures
            r matches Ok(n) ==> n == buf@.len() && final(self).data@ == write_bytes(
                old(self).data@,
                old(self).pos as nat,
                buf@,
            ) && final(self).pos == old(self).pos + buf@.len(),
            r matches Err(e) ==> e == FsError::OutOfMemory && final(self).data@ == old(
                self,
            ).data@ && final(self).pos == old(self).pos,
            old(self).pos as int + buf@.len() <= old(self).data@.len() ==> r is Ok,
    {
        let pos = self.pos;
        let r = write_into(&mut self.data, pos as u64, buf);
        match r {
            Ok(n) => {
                self.pos = self.pos + n;
                Ok(n)
            },
            Err(e) => Err(e),
        }
    }

    /// Hands the buffer back to the caller.
    pub fn into_data(self) -> (r: Vec<u8>)
        ensures
            r == self.data,
    {
        self.data
    }
}

/// A cursor reader over an owned byte buffer: the bridge between a file
/// record's buffer and the protocol layer's reply transfers.
pub struct FileReader {
    pub pos: usize,
    pub data: Vec<u8>,
}

impl FileReader {
    /// A reader over `data`, positioned at its start.
    pub fn new(data: Vec<u8>) -> (r: FileReader)
        ensures
            r.pos == 0,
            r.data == data,
    {
        FileReader { pos: 0, data }
    }

    /// Reads at an absolute offset; the cursor does not move.
    pub fn read_at(&self, off: u64, count: usize) -> (r: Vec<u8>)
        ensures
            r@ == read_bytes(self.data@, off as nat, count as nat),
    {
        read_slice(self.data.as_slice(), off, count)
    }

    /// Reads at the cursor and advances it by the count read.
    pub fn read_next(&mut self, count: usize) -> (r: Vec<u8>)
        ensures
            r@ == read_bytes(old(self).data@, old(self).pos as nat, count as nat),
            final(self).data == old(self).data,
            final(self).pos == old(self).pos + r@.len(),
    {
        let pos = self.pos;
        let dlen = self.data.len();
        let r = read_slice(self.data.as_slice(), pos as u64, count);
        proof {
            if pos as nat > self.data@.len() {
                assert(r@.len() == 0);
            } else {
                assert(r@.len() <= dlen - pos);
            }
        }
        self.pos = self.pos + r.len();
        r
    }

    /// Hands the buffer back to the caller.
    pub fn into_data(self) -> (r: Vec<u8>)
        ensures
            r == self.data,
    {
        self.data
    }
}

} // verus!
