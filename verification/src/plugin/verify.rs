//! Diagnostic: the GPU-side copy of a frame against the CPU view of the same kernel buffer. Any
//! mismatch means that the GPU read stale or torn data.
use vstd::arithmetic::{div_mod, mul};
use vstd::prelude::*;

verus! {

/// `COPY_BYTES_PER_ROW_ALIGNMENT` of wgpu.
pub const ROW_ALIGNMENT: u32 = 256;

/// The bytes of a cache line.
pub const LINE: usize = 64;

/// How many rows a report names at most.
pub const ROWS_NAMED: usize = 8;

/// What a comparison found.
#[derive(Debug, Clone)]
pub struct Comparison {
    /// How many lines differ.
    pub bad_lines: u64,
    /// The rows that these lines begin in, each once, in order.
    pub bad_rows: Vec<u64>,
    pub total_lines: u64,
}

/// The bytes to read back to compare a whole frame. A copy whose rows are not aligned cannot be
/// read back.
pub fn readback_size(stride: u32, height: u32) -> (r: Option<u64>)
    requires
        stride * height <= u32::MAX,
    ensures
        r == if stride % ROW_ALIGNMENT == 0 {
            Some((stride * height) as u64)
        } else {
            None::<u64>
        },
        r is Some <==> stride % 256 == 0,
{
    if stride % ROW_ALIGNMENT != 0 {
        return None;
    }
    proof {
        mul::lemma_mul_nonnegative(stride as int, height as int);
    }
    Some((stride * height) as u64)
}

/// The byte at `k` belongs to line `i`.
pub open spec fn in_line(k: int, i: int, len: int) -> bool {
    &&& i * 64 <= k < i * 64 + 64
    &&& 0 <= k < len
}

/// Line `i` is not the same in both.
pub open spec fn stale(gpu: Seq<u8>, cpu: Seq<u8>, i: int) -> bool {
    exists|k: int| #[trigger] in_line(k, i, gpu.len() as int) && gpu[k] != cpu[k]
}

/// How many of the first `n` lines are not the same in both.
pub open spec fn stale_lines(gpu: Seq<u8>, cpu: Seq<u8>, n: int) -> nat
    decreases n,
{
    if n <= 0 {
        0
    } else {
        stale_lines(gpu, cpu, n - 1) + if stale(gpu, cpu, n - 1) {
            1nat
        } else {
            0
        }
    }
}

/// A line that begins in `row` is not the same in both.
pub open spec fn stale_row(gpu: Seq<u8>, cpu: Seq<u8>, stride: int, n: int, row: int) -> bool {
    exists|i: int| 0 <= i < n && #[trigger] stale(gpu, cpu, i) && i * 64 / stride == row
}

/// How many lines `len` bytes take up; the last may be short.
pub open spec fn line_count(len: nat) -> nat {
    (len + 63) / 64
}

fn differs(gpu: &[u8], cpu: &[u8], i: usize) -> (r: bool)
    requires
        gpu@.len() == cpu@.len(),
        i < line_count(gpu@.len()),
    ensures
        r == stale(gpu@, cpu@, i as int),
{
    let total: usize = gpu.len();
    proof {
        assert(i * 64 < total);
    }
    let start: usize = i * LINE;
    let mut k: usize = start;
    while k < gpu.len() && k - start < LINE
        invariant
            start == i * 64,
            start <= k <= gpu.len(),
            k - start <= LINE,
            gpu@.len() == cpu@.len(),
            forall|j: int| start <= j < k ==> gpu@[j] == cpu@[j],
        decreases gpu.len() - k,
    {
        if gpu[k] != cpu[k] {
            proof {
                assert(in_line(k as int, i as int, gpu@.len() as int));
            }
            return true;
        }
        k = k + 1;
    }
    false
}

/// Compares the copy that the GPU made with the buffer, line by line.
pub fn compare(gpu: &[u8], cpu: &[u8], stride: u32) -> (r: Comparison)
    requires
        gpu@.len() == cpu@.len(),
        gpu@.len() > 0 ==> stride > 0,
    ensures
        r.bad_lines == stale_lines(gpu@, cpu@, line_count(gpu@.len()) as int),
        r.total_lines == gpu@.len() / 64,
        forall|a: int, b: int|
            0 <= a < b < r.bad_rows@.len() ==> r.bad_rows@[a] < r.bad_rows@[b],
        forall|row: u64| #[trigger]
            r.bad_rows@.contains(row) <==> stale_row(
                gpu@,
                cpu@,
                stride as int,
                line_count(gpu@.len()) as int,
                row as int,
            ),
{
    let total: usize = gpu.len();
    let lines: usize = total / LINE + if total % LINE > 0 {
        1
    } else {
        0
    };
    let mut bad_lines: u64 = 0;
    let mut bad_rows: Vec<u64> = Vec::new();
    let mut i: usize = 0;
    while i < lines
        invariant
            i <= lines,
            lines == line_count(gpu@.len()),
            gpu@.len() == total,
            gpu@.len() == cpu@.len(),
            gpu@.len() > 0 ==> stride > 0,
            bad_lines <= i,
            bad_lines == stale_lines(gpu@, cpu@, i as int),
            forall|a: int, b: int|
                0 <= a < b < bad_rows@.len() ==> bad_rows@[a] < bad_rows@[b],
            forall|a: int|
                #![trigger bad_rows@[a]]
                0 <= a < bad_rows@.len() ==> bad_rows@[a] * stride <= i * 64,
            forall|row: u64| #[trigger]
                bad_rows@.contains(row) <==> stale_row(
                    gpu@,
                    cpu@,
                    stride as int,
                    i as int,
                    row as int,
                ),
        decreases lines - i,
    {
        let ghost rows = bad_rows@;
        if differs(gpu, cpu, i) {
            bad_lines = bad_lines + 1;
            proof {
                assert(i * 64 < total);
            }
            let row: u64 = ((i * LINE) as u64) / (stride as u64);
            let known = bad_rows.len() > 0 && bad_rows[bad_rows.len() - 1] == row;
            proof {
                lemma_row(i as int, stride as int, row as int);
                assert forall|a: int| #![trigger rows[a]] 0 <= a < rows.len() implies rows[a]
                    <= row by {
                    lemma_rows_rise(rows[a] as int, i as int, stride as int, row as int);
                }
            }
            if !known {
                bad_rows.push(row);
            }
            proof {
                assert forall|w: u64| #[trigger] bad_rows@.contains(w) <==> stale_row(
                    gpu@,
                    cpu@,
                    stride as int,
                    i + 1,
                    w as int,
                ) by {
                    lemma_rows_step(gpu@, cpu@, stride as int, i as int, w as int);
                    assert(rows.contains(w) <==> stale_row(
                        gpu@,
                        cpu@,
                        stride as int,
                        i as int,
                        w as int,
                    ));
                    if rows.contains(w) {
                        let a = choose|a: int| 0 <= a < rows.len() && rows[a] == w;
                        assert(bad_rows@[a] == w);
                    }
                    assert(w == row ==> bad_rows@[bad_rows@.len() - 1] == w);
                    if bad_rows@.contains(w) && w != row {
                        let a = choose|a: int| 0 <= a < bad_rows@.len() && bad_rows@[a] == w;
                        assert(rows[a] == w);
                    }
                }
            }
        } else {
            proof {
                assert forall|w: u64| #[trigger] bad_rows@.contains(w) <==> stale_row(
                    gpu@,
                    cpu@,
                    stride as int,
                    i + 1,
                    w as int,
                ) by {
                    lemma_rows_step(gpu@, cpu@, stride as int, i as int, w as int);
                    assert(rows.contains(w) <==> stale_row(
                        gpu@,
                        cpu@,
                        stride as int,
                        i as int,
                        w as int,
                    ));
                }
            }
        }
        i = i + 1;
    }
    Comparison { bad_lines, bad_rows, total_lines: (total / LINE) as u64 }
}

proof fn lemma_row(i: int, stride: int, row: int)
    requires
        i >= 0,
        stride > 0,
        row == i * 64 / stride,
    ensures
        row * stride <= i * 64,
        i * 64 < (row + 1) * stride,
{
    div_mod::lemma_fundamental_div_mod(i * 64, stride);
    mul::lemma_mul_is_commutative(row, stride);
    mul::lemma_mul_is_distributive_add_other_way(stride, row, 1);
    mul::lemma_mul_basics(stride);
}

proof fn lemma_rows_rise(before: int, i: int, stride: int, row: int)
    requires
        stride > 0,
        before * stride <= i * 64,
        i * 64 < (row + 1) * stride,
    ensures
        before <= row,
{
    assert(before < row + 1) by (nonlinear_arith)
        requires
            before * stride < (row + 1) * stride,
            stride > 0,
    ;
}

proof fn lemma_rows_step(gpu: Seq<u8>, cpu: Seq<u8>, stride: int, i: int, row: int)
    requires
        i >= 0,
    ensures
        stale_row(gpu, cpu, stride, i + 1, row) <==> stale_row(gpu, cpu, stride, i, row) || (stale(
            gpu,
            cpu,
            i,
        ) && i * 64 / stride == row),
{
    if stale_row(gpu, cpu, stride, i, row) {
        let j = choose|j: int| 0 <= j < i && #[trigger] stale(gpu, cpu, j) && j * 64 / stride == row;
        assert(0 <= j < i + 1 && stale(gpu, cpu, j));
    }
}

impl Comparison {
    /// The copy is the same as the buffer.
    pub fn matches(&self) -> (r: bool)
        ensures
            r == (self.bad_lines == 0),
    {
        self.bad_lines == 0
    }

    /// The first rows to name in a report.
    pub fn first_rows(&self) -> (r: Vec<u64>)
        ensures
            r@ == if self.bad_rows@.len() <= ROWS_NAMED {
                self.bad_rows@
            } else {
                self.bad_rows@.take(ROWS_NAMED as int)
            },
            r@.len() == if self.bad_rows@.len() <= 8 {
                self.bad_rows@.len()
            } else {
                8
            },
    {
        let mut out: Vec<u64> = Vec::new();
        let mut i: usize = 0;
        while i < self.bad_rows.len() && i < ROWS_NAMED
            invariant
                i <= self.bad_rows@.len(),
                i <= ROWS_NAMED,
                out@ == self.bad_rows@.take(i as int),
            decreases self.bad_rows.len() - i,
        {
            out.push(self.bad_rows[i]);
            i = i + 1;
            proof {
                assert(out@ =~= self.bad_rows@.take(i as int));
            }
        }
        proof {
            if self.bad_rows@.len() <= ROWS_NAMED {
                assert(self.bad_rows@.take(i as int) =~= self.bad_rows@);
            }
        }
        out
    }
}

/// Nothing is overlooked: no line is stale exactly where the copy is the same as the buffer, byte
/// for byte.
pub proof fn no_stale_line_means_equal(gpu: Seq<u8>, cpu: Seq<u8>)
    requires
        gpu.len() == cpu.len(),
    ensures
        stale_lines(gpu, cpu, line_count(gpu.len()) as int) == 0 <==> gpu == cpu,
{
    let n = line_count(gpu.len()) as int;
    if gpu == cpu {
        lemma_none_stale(gpu, cpu, n);
    } else if stale_lines(gpu, cpu, n) == 0 {
        assert forall|k: int| 0 <= k < gpu.len() implies gpu[k] == cpu[k] by {
            let i = k / 64;
            assert(in_line(k, i, gpu.len() as int));
            lemma_not_stale(gpu, cpu, n, i);
        }
        assert(gpu =~= cpu);
    }
}

proof fn lemma_none_stale(gpu: Seq<u8>, cpu: Seq<u8>, n: int)
    requires
        gpu == cpu,
    ensures
        stale_lines(gpu, cpu, n) == 0,
    decreases n,
{
    if n > 0 {
        lemma_none_stale(gpu, cpu, n - 1);
    }
}

proof fn lemma_not_stale(gpu: Seq<u8>, cpu: Seq<u8>, n: int, i: int)
    requires
        stale_lines(gpu, cpu, n) == 0,
        0 <= i < n,
    ensures
        !stale(gpu, cpu, i),
    decreases n,
{
    if i < n - 1 {
        lemma_not_stale(gpu, cpu, n - 1, i);
    }
}

proof fn lemma_lines_alike(a: Seq<u8>, b: Seq<u8>, cpu: Seq<u8>, n: int, line: int)
    requires
        a.len() == b.len() == cpu.len(),
        forall|k: int| 0 <= k < a.len() && k / 64 != line ==> a[k] == b[k],
    ensures
        stale_lines(b, cpu, n) - stale_lines(a, cpu, n) == if 0 <= line < n {
            (if stale(b, cpu, line) {
                1int
            } else {
                0
            }) - (if stale(a, cpu, line) {
                1int
            } else {
                0
            })
        } else {
            0
        },
    decreases n,
{
    if n > 0 {
        lemma_lines_alike(a, b, cpu, n - 1, line);
        let i = n - 1;
        if i != line {
            if stale(a, cpu, i) {
                let k = choose|k: int| #[trigger] in_line(k, i, a.len() as int) && a[k] != cpu[k];
                assert(in_line(k, i, b.len() as int) && b[k] != cpu[k]);
            }
            if stale(b, cpu, i) {
                let k = choose|k: int| #[trigger] in_line(k, i, b.len() as int) && b[k] != cpu[k];
                assert(in_line(k, i, a.len() as int) && a[k] != cpu[k]);
            }
        }
    }
}

/// A line has 64 bytes, and counts once however many of them differ: one more line is stale where a
/// byte is the first of its line to differ, and no more where another one does already.
pub proof fn a_line_counts_once(gpu: Seq<u8>, cpu: Seq<u8>, k: int, byte: u8)
    requires
        gpu.len() == cpu.len(),
        0 <= k < gpu.len(),
        byte != cpu[k],
    ensures
        ({
            let n = line_count(gpu.len()) as int;
            let worse = gpu.update(k, byte);
            let known = exists|j: int|
                0 <= j < gpu.len() && j / 64 == k / 64 && #[trigger] gpu[j] != cpu[j];
            stale_lines(worse, cpu, n) == stale_lines(gpu, cpu, n) + if known {
                0int
            } else {
                1
            }
        }),
{
    let n = line_count(gpu.len()) as int;
    let worse = gpu.update(k, byte);
    let line = k / 64;
    lemma_lines_alike(gpu, worse, cpu, n, line);
    assert(in_line(k, line, worse.len() as int) && worse[k] != cpu[k]);
    assert(stale(worse, cpu, line));
    if exists|j: int| 0 <= j < gpu.len() && j / 64 == k / 64 && #[trigger] gpu[j] != cpu[j] {
        let j = choose|j: int| 0 <= j < gpu.len() && j / 64 == k / 64 && #[trigger] gpu[j] != cpu[j];
        assert(in_line(j, line, gpu.len() as int) && gpu[j] != cpu[j]);
    } else if stale(gpu, cpu, line) {
        let j = choose|j: int| #[trigger] in_line(j, line, gpu.len() as int) && gpu[j] != cpu[j];
        assert(gpu[j] != cpu[j]);
    }
}

/// A byte that differs marks the row that its line begins in; and where a row is marked, a byte of a
/// line that begins there differs.
pub proof fn a_differing_byte_marks_its_row(
    gpu: Seq<u8>,
    cpu: Seq<u8>,
    stride: int,
    k: int,
    row: int,
)
    requires
        gpu.len() == cpu.len(),
        0 <= k < gpu.len(),
        gpu[k] != cpu[k],
        stride > 0,
    ensures
        stale_row(gpu, cpu, stride, line_count(gpu.len()) as int, (k - k % 64) / stride),
        stale_row(gpu, cpu, stride, line_count(gpu.len()) as int, row) ==> exists|j: int|
            0 <= j < gpu.len() && #[trigger] gpu[j] != cpu[j] && (j - j % 64) / stride == row,
{
    let n = line_count(gpu.len()) as int;
    let line = k / 64;
    assert(in_line(k, line, gpu.len() as int));
    assert(stale(gpu, cpu, line));
    assert(line * 64 == k - k % 64);
    if stale_row(gpu, cpu, stride, n, row) {
        let i = choose|i: int| 0 <= i < n && #[trigger] stale(gpu, cpu, i) && i * 64 / stride == row;
        let j = choose|j: int| #[trigger] in_line(j, i, gpu.len() as int) && gpu[j] != cpu[j];
        assert(j - j % 64 == i * 64);
        assert(gpu[j] != cpu[j]);
    }
}

} // verus!
