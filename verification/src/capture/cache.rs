//! Which cache lines to write back so that a device reading memory directly sees a frame.
use vstd::prelude::*;

verus! {

/// Bytes in a cache line.
pub const CACHE_LINE: usize = 64;

/// The cache lines that cover a range of addresses, in order.
#[derive(Debug, Clone, Copy, PartialEq, Eq, Structural)]
pub struct CacheLines {
    pub next: usize,
    pub end: usize,
}

/// The start of the line that an address lies in.
pub open spec fn line_of(addr: int) -> int {
    addr - addr % 64
}

impl CacheLines {
    /// The lines that are still to come: every one from `next` on that starts before the end.
    pub open spec fn remaining(self) -> Seq<int>
    {
        if self.next < self.end {
            seq![self.next as int] + Seq::new(
                ((self.end - self.next - 1) / 64) as nat,
                |i: int| self.next + 64 * (i + 1),
            )
        } else {
            Seq::empty()
        }
    }

    /// The next line to write back.
    pub fn next_line(&mut self) -> (r: Option<usize>)
        requires
            old(self).end <= usize::MAX - 64,
        ensures
            match r {
                Some(line) => {
                    &&& old(self).remaining().len() > 0
                    &&& line == old(self).remaining()[0]
                    &&& final(self).remaining() == old(self).remaining().drop_first()
                },
                None => old(self).remaining().len() == 0 && *final(self) == *old(self),
            },
            final(self).end == old(self).end,
    {
        if self.next < self.end {
            let line: usize = self.next;
            self.next = line + 64;
            proof {
                assert(self.remaining() =~= old(self).remaining().drop_first());
            }
            Some(line)
        } else {
            None
        }
    }
}

/// The lines to write back for the `len` bytes at `addr`: from the line of the first byte up to
/// the end, none for no bytes.
pub fn flush_cpu_cache(addr: usize, len: usize) -> (r: CacheLines)
    requires
        addr + len <= usize::MAX,
    ensures
        len == 0 ==> r.remaining() == Seq::<int>::empty(),
        len > 0 ==> r.next == line_of(addr as int) && r.end == addr + len,
{
    if len == 0 {
        return CacheLines { next: addr, end: addr };
    }
    CacheLines { next: addr - addr % CACHE_LINE, end: addr + len }
}

/// Every byte of the range lies in one of the lines.
pub proof fn every_byte_is_covered(lines: CacheLines, addr: int)
    requires
        lines.next % 64 == 0,
        lines.next <= addr < lines.end,
    ensures
        lines.remaining().contains(line_of(addr)),
{
    let k = (line_of(addr) - lines.next) / 64;
    assert(line_of(addr) == lines.next + 64 * k);
    assert(0 <= k < lines.remaining().len());
    assert(lines.remaining()[k] == line_of(addr));
}

/// Every line holds a byte of the range, and no line comes twice.
pub proof fn no_line_is_wasted(lines: CacheLines, i: int)
    requires
        lines.next % 64 == 0,
        0 <= i < lines.remaining().len(),
    ensures
        lines.remaining()[i] % 64 == 0,
        lines.next <= lines.remaining()[i] < lines.end,
        forall|j: int| 0 <= j < i ==> lines.remaining()[j] < lines.remaining()[i],
{
}

/// Every byte of a range is written back: it lies in one of the lines, which are sixty-four bytes
/// each. And each of the lines holds a byte of the range.
pub proof fn the_whole_range_is_written_back(
    lines: CacheLines,
    addr: usize,
    len: usize,
    at: int,
    i: int,
)
    requires
        len > 0,
        lines.next == line_of(addr as int),
        lines.end == addr + len,
    ensures
        addr <= at < addr + len ==> exists|k: int|
            0 <= k < lines.remaining().len() && (#[trigger] lines.remaining()[k]) <= at
                < lines.remaining()[k] + 64,
        0 <= i < lines.remaining().len() ==> {
            &&& lines.remaining()[i] % 64 == 0
            &&& lines.remaining()[i] < addr + len
            &&& addr < lines.remaining()[i] + 64
        },
        0 <= i < lines.remaining().len() - 1 ==> lines.remaining()[i + 1] == lines.remaining()[i]
            + 64,
{
    if addr <= at < addr + len {
        every_byte_is_covered(lines, at);
        let k = choose|k: int|
            0 <= k < lines.remaining().len() && lines.remaining()[k] == line_of(at);
        assert(lines.remaining()[k] <= at < lines.remaining()[k] + 64);
    }
}

} // verus!
