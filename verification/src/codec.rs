//! Bytes as blocks: how an input is cut into blocks of two little-endian
//! words, and what it means to transform an input block by block.

use vstd::prelude::*;
use vstd::arithmetic::div_mod::{lemma_fundamental_div_mod, lemma_fundamental_div_mod_converse};
use crate::word::Word;

verus! {

/// The number of bytes in a block: two words.
pub open spec fn block_len<W: Word>() -> nat {
    2 * W::spec_byte_len()
}

/// Word number `k` of `bytes`.
pub open spec fn word_at<W: Word>(bytes: Seq<u8>, k: int) -> W {
    let u = W::spec_byte_len() as int;
    W::spec_from_le_bytes(bytes.subrange(k * u, (k + 1) * u))
}

/// Block number `i` of `bytes`, as a pair of words.
pub open spec fn block_at<W: Word>(bytes: Seq<u8>, i: int) -> (W, W) {
    (word_at::<W>(bytes, 2 * i), word_at::<W>(bytes, 2 * i + 1))
}

/// The bytes of a block: those of its first word, then those of its second.
pub open spec fn block_bytes<W: Word>(p: (W, W)) -> Seq<u8> {
    p.0.spec_to_le_bytes() + p.1.spec_to_le_bytes()
}

/// `input` with every block replaced by its image under `f`. Byte `x` of the
/// result belongs to block `x / block_len` and depends on nothing but that
/// block of the input.
pub open spec fn transform_bytes<W: Word>(input: Seq<u8>, f: spec_fn((W, W)) -> (W, W)) -> Seq<
    u8,
> {
    let n = block_len::<W>() as int;
    Seq::new(input.len(), |x: int| block_bytes(f(block_at::<W>(input, x / n)))[x % n])
}

/// Where byte `m` of block `i` lies in the input.
pub proof fn lemma_byte_of_block(n: int, i: int, m: int)
    requires
        n > 0,
        0 <= m < n,
    ensures
        (i * n + m) / n == i,
        (i * n + m) % n == m,
{
    lemma_fundamental_div_mod_converse(i * n + m, n, i, m);
}

/// In an input of whole blocks, every byte lies in a block that the input
/// holds in full.
pub proof fn lemma_block_of_byte(len: int, n: int, x: int)
    requires
        n > 0,
        len % n == 0,
        0 <= x < len,
    ensures
        0 <= x / n,
        0 <= x % n < n,
        x == (x / n) * n + x % n,
        (x / n) * n + n <= len,
{
    lemma_fundamental_div_mod(x, n);
    lemma_fundamental_div_mod(len, n);
    let q = x / n;
    let total = len / n;
    assert(q * n == n * q) by (nonlinear_arith);
    if q < 0 {
        assert(n * q <= -n) by (nonlinear_arith)
            requires
                q <= -1,
                n > 0,
        ;
    }
    if q >= total {
        assert(n * q >= n * total) by (nonlinear_arith)
            requires
                q >= total,
                n > 0,
        ;
    }
    assert(n * (q + 1) <= n * total) by (nonlinear_arith)
        requires
            q + 1 <= total,
            n > 0,
    ;
    assert(n * (q + 1) == n * q + n) by (nonlinear_arith);
}

/// The two words of block `i` cover bytes `i * n` to `i * n + n` of the
/// input, `n` being the length of a block.
pub proof fn lemma_block_range<W: Word>(i: int)
    ensures
        (2 * i) * W::spec_byte_len() == i * block_len::<W>(),
        (2 * i + 1) * W::spec_byte_len() == i * block_len::<W>() + W::spec_byte_len(),
        (2 * i + 1 + 1) * W::spec_byte_len() == i * block_len::<W>() + block_len::<W>(),
{
    let u = W::spec_byte_len() as int;
    assert((2 * i) * u == i * (2 * u)) by (nonlinear_arith);
    assert((2 * i + 1) * u == i * (2 * u) + u) by (nonlinear_arith);
    assert((2 * i + 1 + 1) * u == i * (2 * u) + 2 * u) by (nonlinear_arith);
}

/// Reading a block of the input as words and writing the words as bytes
/// gives the bytes of the block back.
pub proof fn lemma_block_bytes_of_block_at<W: Word>(input: Seq<u8>, i: int)
    requires
        0 <= i,
        i * block_len::<W>() + block_len::<W>() <= input.len(),
    ensures
        block_bytes(block_at::<W>(input, i)) == input.subrange(
            i * block_len::<W>(),
            i * block_len::<W>() + block_len::<W>(),
        ),
{
    W::lemma_width();
    lemma_block_range::<W>(i);
    let u = W::spec_byte_len() as int;
    let n = block_len::<W>() as int;
    let first = input.subrange(i * n, i * n + u);
    let second = input.subrange(i * n + u, i * n + n);
    assert(word_at::<W>(input, 2 * i) == W::spec_from_le_bytes(first));
    assert(word_at::<W>(input, 2 * i + 1) == W::spec_from_le_bytes(second));
    W::lemma_from_then_to_le_bytes(first);
    W::lemma_from_then_to_le_bytes(second);
    assert(first + second =~= input.subrange(i * n, i * n + n));
}

/// Writing a pair of words as bytes and reading block `i` of any input that
/// holds these bytes there gives the pair back.
pub proof fn lemma_block_at_of_block_bytes<W: Word>(input: Seq<u8>, i: int, p: (W, W))
    requires
        0 <= i,
        i * block_len::<W>() + block_len::<W>() <= input.len(),
        input.subrange(i * block_len::<W>(), i * block_len::<W>() + block_len::<W>())
            == block_bytes(p),
    ensures
        block_at::<W>(input, i) == p,
{
    W::lemma_width();
    lemma_block_range::<W>(i);
    W::lemma_to_then_from_le_bytes(p.0);
    W::lemma_to_then_from_le_bytes(p.1);
    let u = W::spec_byte_len() as int;
    let n = block_len::<W>() as int;
    let whole = input.subrange(i * n, i * n + n);
    assert(input.subrange(i * n, i * n + u) =~= whole.subrange(0, u));
    assert(input.subrange(i * n + u, i * n + n) =~= whole.subrange(u, n));
    assert(whole.subrange(0, u) =~= p.0.spec_to_le_bytes());
    assert(whole.subrange(u, n) =~= p.1.spec_to_le_bytes());
}

/// A transformed input is as long as the input, and its block `i` is the
/// image of the input's block `i`.
pub proof fn lemma_block_of_transform<W: Word>(
    input: Seq<u8>,
    f: spec_fn((W, W)) -> (W, W),
    i: int,
)
    requires
        0 <= i,
        i * block_len::<W>() + block_len::<W>() <= input.len(),
    ensures
        transform_bytes::<W>(input, f).len() == input.len(),
        block_at::<W>(transform_bytes::<W>(input, f), i) == f(block_at::<W>(input, i)),
{
    W::lemma_width();
    let n = block_len::<W>() as int;
    let out = transform_bytes::<W>(input, f);
    let p = f(block_at::<W>(input, i));
    W::lemma_to_then_from_le_bytes(p.0);
    W::lemma_to_then_from_le_bytes(p.1);
    assert(out.subrange(i * n, i * n + n) =~= block_bytes(p)) by {
        assert forall|m: int| 0 <= m < n implies out[i * n + m] == block_bytes(p)[m] by {
            lemma_byte_of_block(n, i, m);
        }
    }
    lemma_block_at_of_block_bytes::<W>(out, i, p);
}

/// Transforming by `f` and then by `g` is transforming by `g` after `f`, on
/// an input of whole blocks.
pub proof fn lemma_transform_twice<W: Word>(
    input: Seq<u8>,
    f: spec_fn((W, W)) -> (W, W),
    g: spec_fn((W, W)) -> (W, W),
)
    requires
        input.len() % block_len::<W>() == 0,
    ensures
        transform_bytes::<W>(transform_bytes::<W>(input, f), g) == transform_bytes::<W>(
            input,
            |p: (W, W)| g(f(p)),
        ),
{
    W::lemma_width();
    let n = block_len::<W>() as int;
    let mid = transform_bytes::<W>(input, f);
    let left = transform_bytes::<W>(mid, g);
    let right = transform_bytes::<W>(input, |p: (W, W)| g(f(p)));
    assert forall|x: int| 0 <= x < input.len() implies left[x] == right[x] by {
        lemma_block_of_byte(input.len() as int, n, x);
        lemma_block_of_transform::<W>(input, f, x / n);
    }
    assert(left =~= right);
}

/// Transforming every block into itself leaves an input of whole blocks as
/// it is.
pub proof fn lemma_transform_by_identity<W: Word>(input: Seq<u8>, f: spec_fn((W, W)) -> (W, W))
    requires
        input.len() % block_len::<W>() == 0,
        forall|i: int|
            0 <= i && i * block_len::<W>() + block_len::<W>() <= input.len() ==> f(
                #[trigger] block_at::<W>(input, i),
            ) == block_at::<W>(input, i),
    ensures
        transform_bytes::<W>(input, f) == input,
{
    W::lemma_width();
    let n = block_len::<W>() as int;
    let out = transform_bytes::<W>(input, f);
    assert forall|x: int| 0 <= x < input.len() implies out[x] == input[x] by {
        lemma_block_of_byte(input.len() as int, n, x);
        let i = x / n;
        lemma_block_bytes_of_block_at::<W>(input, i);
        assert(f(block_at::<W>(input, i)) == block_at::<W>(input, i));
        assert(input.subrange(i * n, i * n + n)[x % n] == input[x]);
    }
    assert(out =~= input);
}

/// Transforming two inputs of whole blocks one after the other is
/// transforming the one followed by the other.
pub proof fn lemma_transform_concat<W: Word>(
    first: Seq<u8>,
    second: Seq<u8>,
    f: spec_fn((W, W)) -> (W, W),
)
    requires
        first.len() % block_len::<W>() == 0,
        second.len() % block_len::<W>() == 0,
    ensures
        transform_bytes::<W>(first + second, f) == transform_bytes::<W>(first, f)
            + transform_bytes::<W>(second, f),
{
    W::lemma_width();
    let n = block_len::<W>() as int;
    let u = W::spec_byte_len() as int;
    let whole = first + second;
    let left = transform_bytes::<W>(whole, f);
    let right = transform_bytes::<W>(first, f) + transform_bytes::<W>(second, f);
    let shift = first.len() as int / n;
    lemma_fundamental_div_mod(first.len() as int, n);
    assert(first.len() == shift * n) by (nonlinear_arith)
        requires
            first.len() == n * shift,
    ;
    assert forall|x: int| 0 <= x < whole.len() implies left[x] == right[x] by {
        if x < first.len() {
            lemma_block_of_byte(first.len() as int, n, x);
            let i = x / n;
            lemma_block_range::<W>(i);
            assert(whole.subrange(i * n, i * n + u) =~= first.subrange(i * n, i * n + u));
            assert(whole.subrange(i * n + u, i * n + n) =~= first.subrange(i * n + u, i * n + n));
            assert(block_at::<W>(whole, i) == block_at::<W>(first, i));
        } else {
            let y = x - first.len();
            lemma_block_of_byte(second.len() as int, n, y);
            let j = y / n;
            let i = shift + j;
            assert(i * n == shift * n + j * n) by (nonlinear_arith)
                requires
                    i == shift + j,
            ;
            lemma_fundamental_div_mod_converse(x, n, i, y % n);
            lemma_block_range::<W>(i);
            lemma_block_range::<W>(j);
            assert(whole.subrange(i * n, i * n + u) =~= second.subrange(j * n, j * n + u));
            assert(whole.subrange(i * n + u, i * n + n) =~= second.subrange(
                j * n + u,
                j * n + n,
            ));
            assert(block_at::<W>(whole, i) == block_at::<W>(second, j));
        }
    }
    assert(left =~= right);
}

/// In an input of whole blocks, a block that starts before the end also ends
/// there.
pub proof fn lemma_whole_block(len: int, pos: int, n: int, index: int)
    requires
        n > 0,
        len % n == 0,
        0 <= pos < len,
        pos == index * n,
    ensures
        pos + n <= len,
{
    let total = len / n;
    assert(len == n * total) by {
        lemma_fundamental_div_mod(len, n);
    }
    assert(index < total) by (nonlinear_arith)
        requires
            index * n < n * total,
            n > 0,
    ;
    assert((index + 1) * n <= n * total) by (nonlinear_arith)
        requires
            index + 1 <= total,
            n > 0,
    ;
    assert((index + 1) * n == index * n + n) by (nonlinear_arith);
}

/// A byte before the start of block `index` lies in an earlier block.
pub proof fn lemma_earlier_block(x: int, pos: int, n: int, index: int)
    requires
        n > 0,
        0 <= x < pos,
        pos == index * n,
    ensures
        0 <= x / n < index,
        0 <= x % n < n,
{
    lemma_fundamental_div_mod(x, n);
    let q = x / n;
    assert(0 <= x % n < n);
    if q >= index {
        assert(n * q >= index * n) by (nonlinear_arith)
            requires
                q >= index,
                n > 0,
        ;
    }
    if q < 0 {
        assert(n * q <= -n) by (nonlinear_arith)
            requires
                q <= -1,
                n > 0,
        ;
    }
}

} // verus!
