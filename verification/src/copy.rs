//! How the parallel file copier splits a file among its threads.
//!
//! Thread `i` of `n` copies the blocks that start at `i * BLOCK_SIZE`,
//! `(i + n) * BLOCK_SIZE`, `(i + 2n) * BLOCK_SIZE`, ... up to and including
//! the file's size.

use vstd::prelude::*;
use vstd::arithmetic::div_mod::{lemma_fundamental_div_mod, lemma_fundamental_div_mod_converse};
use crate::stride::{Stride, stride, stride_len, stride_u64, ints_u64};

verus! {

/// The size of one block that a thread reads and writes at a time.
pub const BLOCK_SIZE: u64 = 1024;

/// The offsets that thread `thread_index` of `thread_num` copies in a file of
/// `file_size` bytes.
pub open spec fn block_offsets(thread_index: int, thread_num: int, file_size: int) -> Seq<int> {
    stride(thread_index * BLOCK_SIZE, thread_num * BLOCK_SIZE, file_size)
}

/// The offsets each thread copies, or `None` when the file is empty and
/// there is nothing to copy.
///
/// Thread `i` gets the offsets `block_offsets(i, thread_num, file_size)`;
/// `overflows` tells whether advancing past its last offset leaves the `u64`
/// range.
pub fn copy_schedule(file_size: u64, thread_num: u64) -> (plan: Option<Vec<Stride>>)
    requires
        thread_num * BLOCK_SIZE <= u64::MAX,
    ensures
        plan is None <==> file_size == 0,
        plan matches Some(threads) ==> {
            &&& threads@.len() == thread_num
            &&& forall|i: int|
                0 <= i < thread_num ==> ints_u64(#[trigger] threads@[i].points@) == block_offsets(
                    i,
                    thread_num as int,
                    file_size as int,
                )
            &&& forall|i: int|
                0 <= i < thread_num ==> #[trigger] threads@[i].overflows == (
                threads@[i].points@.len() > 0 && threads@[i].points@.last() + thread_num
                    * BLOCK_SIZE > u64::MAX)
        },
{
    if file_size == 0 {
        return None;
    }
    let step: u64 = thread_num * BLOCK_SIZE;
    let mut threads: Vec<Stride> = Vec::new();
    let mut i: u64 = 0;
    while i < thread_num
        invariant
            i <= thread_num,
            step == thread_num * BLOCK_SIZE,
            thread_num * BLOCK_SIZE <= u64::MAX,
            threads@.len() == i,
            forall|j: int|
                0 <= j < i ==> ints_u64(#[trigger] threads@[j].points@) == block_offsets(
                    j,
                    thread_num as int,
                    file_size as int,
                ),
            forall|j: int|
                0 <= j < i ==> #[trigger] threads@[j].overflows == (threads@[j].points@.len() > 0
                    && threads@[j].points@.last() + thread_num * BLOCK_SIZE > u64::MAX),
        decreases thread_num - i,
    {
        assert(i * BLOCK_SIZE <= thread_num * BLOCK_SIZE) by (nonlinear_arith)
            requires
                i <= thread_num,
        ;
        let start: u64 = i * BLOCK_SIZE;
        threads.push(stride_u64(start, step, file_size, u64::MAX));
        i = i + 1;
    }
    Some(threads)
}

/// An offset in the progression of thread `i` is `(i + k * n)` blocks in.
proof fn lemma_offset_as_block(i: int, n: int, k: int)
    ensures
        i * BLOCK_SIZE + k * (n * BLOCK_SIZE) == (k * n + i) * BLOCK_SIZE,
{
    assert(i * BLOCK_SIZE + k * (n * BLOCK_SIZE) == (k * n + i) * BLOCK_SIZE) by (nonlinear_arith);
}

/// Together the threads copy every block of the file exactly once: each
/// block start that does not exceed the file's size is among the offsets of
/// exactly one thread, namely thread `(offset / BLOCK_SIZE) % thread_num`,
/// and every offset a thread copies is a block start within the file.
pub proof fn lemma_blocks_partitioned(thread_num: int, file_size: int, offset: int)
    requires
        thread_num > 0,
        0 <= offset <= file_size,
        offset % (BLOCK_SIZE as int) == 0,
    ensures
        block_offsets(
            (offset / BLOCK_SIZE as int) % thread_num,
            thread_num,
            file_size,
        ).contains(offset),
        forall|i: int|
            0 <= i < thread_num && #[trigger] block_offsets(i, thread_num, file_size).contains(
                offset,
            ) ==> i == (offset / BLOCK_SIZE as int) % thread_num,
{
    let bs = BLOCK_SIZE as int;
    let n = thread_num;
    let b = offset / bs;
    lemma_fundamental_div_mod(offset, bs);
    assert(offset == b * bs) by (nonlinear_arith)
        requires
            offset == bs * b + offset % bs,
            offset % bs == 0,
    ;
    let i = b % n;
    let k = b / n;
    lemma_fundamental_div_mod(b, n);
    assert(0 <= i < n);
    assert(b >= 0) by (nonlinear_arith)
        requires
            offset == b * bs,
            offset >= 0,
            bs > 0,
    ;
    assert(k >= 0) by (nonlinear_arith)
        requires
            b == n * k + i,
            b >= 0,
            0 <= i < n,
    ;
    lemma_offset_as_block(i, n, k);
    assert(b == k * n + i) by (nonlinear_arith)
        requires
            b == n * k + i,
    ;
    let start = i * bs;
    let step = n * bs;
    assert(start + k * step == offset);
    assert(start <= file_size) by (nonlinear_arith)
        requires
            start + k * step == offset,
            offset <= file_size,
            k >= 0,
            step > 0,
    ;
    assert(step > 0) by (nonlinear_arith)
        requires
            n > 0,
            bs > 0,
            step == n * bs,
    ;
    // k lies within the progression: k * step <= file_size - start < (q + 1) * step
    let q = (file_size - start) / step;
    lemma_fundamental_div_mod(file_size - start, step);
    assert(k <= q) by (nonlinear_arith)
        requires
            k * step <= file_size - start,
            file_size - start == step * q + (file_size - start) % step,
            0 <= (file_size - start) % step < step,
            step > 0,
    ;
    assert(stride_len(start, step, file_size) == q + 1);
    let offs = block_offsets(i, n, file_size);
    assert(offs[k] == offset);
    assert(offs.contains(offset));
    assert forall|j: int|
        0 <= j < n && #[trigger] block_offsets(j, n, file_size).contains(offset) implies j == i by {
        let offs_j = block_offsets(j, n, file_size);
        let m = choose|m: int| 0 <= m < offs_j.len() && offs_j[m] == offset;
        assert(offs_j[m] == j * bs + m * (n * bs));
        lemma_offset_as_block(j, n, m);
        assert(b == m * n + j) by (nonlinear_arith)
            requires
                offset == (m * n + j) * bs,
                offset == b * bs,
                bs > 0,
        ;
        lemma_fundamental_div_mod_converse(b, n, m, j);
    }
}

/// Every offset a thread copies is a block start within the file.
pub proof fn lemma_offsets_are_blocks(thread_index: int, thread_num: int, file_size: int, k: int)
    requires
        0 <= thread_index < thread_num,
        0 <= k < block_offsets(thread_index, thread_num, file_size).len(),
    ensures
        0 <= block_offsets(thread_index, thread_num, file_size)[k] <= file_size,
        block_offsets(thread_index, thread_num, file_size)[k] % (BLOCK_SIZE as int) == 0,
{
    let bs = BLOCK_SIZE as int;
    let start = thread_index * bs;
    let step = thread_num * bs;
    let len = stride_len(start, step, file_size);
    let q = (file_size - start) / step;
    assert(step > 0) by (nonlinear_arith)
        requires
            thread_num > 0,
            bs > 0,
            step == thread_num * bs,
    ;
    assert(start >= 0) by (nonlinear_arith)
        requires
            thread_index >= 0,
            start == thread_index * bs,
            bs > 0,
    ;
    assert(len == q + 1);
    lemma_fundamental_div_mod(file_size - start, step);
    assert(k * step <= file_size - start) by (nonlinear_arith)
        requires
            0 <= k <= q,
            file_size - start == step * q + (file_size - start) % step,
            0 <= (file_size - start) % step,
            step > 0,
    ;
    assert(k * step >= 0) by (nonlinear_arith)
        requires
            k >= 0,
            step > 0,
    ;
    lemma_offset_as_block(thread_index, thread_num, k);
    let c = k * thread_num + thread_index;
    lemma_fundamental_div_mod_converse(c * bs, bs, c, 0);
}

} // verus!
