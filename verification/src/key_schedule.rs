//! The key schedule: a key of up to 255 bytes is expanded into a table of
//! `2 * rounds + 2` words.
//!
//! The key bytes are packed little-endian into words, the table is seeded
//! from the two magic constants, and then both arrays are stirred into each
//! other for three passes over the longer of the two.

use vstd::prelude::*;
use vstd::arithmetic::div_mod::{lemma_add_mod_noop, lemma_fundamental_div_mod, lemma_small_mod};
use crate::error::CipherError;
use crate::num_ops::{ceil_div, div_ceil_usize};
use crate::word::Word;

verus! {

/// The longest key that is accepted, in bytes.
pub const MAX_KEY_LEN: usize = 255;

/// The number of words in the key table for `rounds` rounds.
pub open spec fn table_len(rounds: u8) -> nat {
    (2 * rounds + 2) as nat
}

/// The number of words that hold a key of `key_len` bytes: enough for all of
/// its bits, and one word for the empty key.
pub open spec fn key_word_count<W: Word>(key_len: nat) -> nat {
    let c = ceil_div(8 * key_len, W::spec_bits());
    if c == 0 {
        1
    } else {
        c
    }
}

/// The bytes of word number `k` of the key: the key's bytes from `k * u` up
/// to `(k + 1) * u`, `u` being the bytes in a word, with zero where the key
/// has ended.
pub open spec fn key_word_bytes<W: Word>(key: Seq<u8>, k: int) -> Seq<u8> {
    let u = W::spec_byte_len() as int;
    Seq::new(
        u as nat,
        |m: int|
            if k * u + m < key.len() {
                key[k * u + m]
            } else {
                0u8
            },
    )
}

/// The key as words: the key bytes, followed by as many zero bytes as fill
/// the last word, read as little-endian words.
pub open spec fn key_words<W: Word>(key: Seq<u8>) -> Seq<W> {
    Seq::new(
        key_word_count::<W>(key.len()),
        |k: int| W::spec_from_le_bytes(key_word_bytes::<W>(key, k)),
    )
}

/// The bytes that word number `k` stands for while the key is being taken
/// in from its end, once every byte at position `from` or later is in: the
/// bytes of the key from the later of `from` and the start of word `k`, up to
/// the end of word `k` or of the key, followed by zeros.
spec fn key_word_bytes_from<W: Word>(key: Seq<u8>, k: int, from: int) -> Seq<u8> {
    let u = W::spec_byte_len() as int;
    let start = if from > k * u {
        from
    } else {
        k * u
    };
    Seq::new(
        u as nat,
        |m: int|
            if start + m < (k + 1) * u && start + m < key.len() {
                key[start + m]
            } else {
                0u8
            },
    )
}

/// Once the whole key is in, every word stands for its bytes of the key.
proof fn lemma_key_taken_in<W: Word>(key: Seq<u8>, k: int)
    requires
        0 <= k,
    ensures
        key_word_bytes_from::<W>(key, k, 0) == key_word_bytes::<W>(key, k),
{
    W::lemma_width();
    let u = W::spec_byte_len() as int;
    assert(0 <= k * u && (k + 1) * u == k * u + u) by (nonlinear_arith)
        requires
            0 <= k,
            0 < u,
    ;
    assert(key_word_bytes_from::<W>(key, k, 0) =~= key_word_bytes::<W>(key, k));
}

/// Word number `i` of the table before it is mixed with the key: `P` for the
/// first, and `Q` more than its predecessor for each of the others.
pub open spec fn seed_word<W: Word>(i: nat) -> W
    decreases i,
{
    if i == 0 {
        W::spec_p()
    } else {
        seed_word::<W>((i - 1) as nat).spec_add(W::spec_q())
    }
}

/// The table of `t` words before it is mixed with the key.
pub open spec fn seed_table<W: Word>(t: nat) -> Seq<W> {
    Seq::new(t, |i: int| seed_word::<W>(i as nat))
}

/// What the mixing works on: the table `s`, the key words `l`, and the two
/// words `a` and `b` that carry each step's results into the next.
pub struct Mixer<W> {
    pub s: Seq<W>,
    pub l: Seq<W>,
    pub a: W,
    pub b: W,
}

/// Where the mixing starts.
pub open spec fn initial_mixer<W: Word>(key: Seq<u8>, rounds: u8) -> Mixer<W> {
    Mixer {
        s: seed_table::<W>(table_len(rounds)),
        l: key_words::<W>(key),
        a: W::spec_zero(),
        b: W::spec_zero(),
    }
}

/// Step number `n` of the mixing, counted from zero. It renews one word of
/// the table, rotating it by three bits, and then one key word, rotating it
/// by an amount read from the words just computed. The table is walked
/// modulo its own length and the key words modulo theirs.
pub open spec fn mix_step<W: Word>(m: Mixer<W>, n: nat) -> Mixer<W> {
    let i = (n % m.s.len()) as int;
    let j = (n % m.l.len()) as int;
    let a = m.s[i].spec_add(m.a).spec_add(m.b).spec_rotl(3);
    let b = m.l[j].spec_add(a).spec_add(m.b).spec_rotl(a.spec_add(m.b).spec_rot_amount());
    Mixer { s: m.s.update(i, a), l: m.l.update(j, b), a: a, b: b }
}

/// The state after the first `n` steps of the mixing.
pub open spec fn mix<W: Word>(m: Mixer<W>, n: nat) -> Mixer<W>
    decreases n,
{
    if n == 0 {
        m
    } else {
        mix_step(mix(m, (n - 1) as nat), (n - 1) as nat)
    }
}

/// How many steps the mixing takes: three passes over the longer of the
/// table and the key words.
pub open spec fn mix_steps<W: Word>(key_len: nat, rounds: u8) -> nat {
    let t = table_len(rounds);
    let c = key_word_count::<W>(key_len);
    if t >= c {
        3 * t
    } else {
        3 * c
    }
}

/// The key table that `key` expands to for `rounds` rounds.
pub open spec fn key_table<W: Word>(key: Seq<u8>, rounds: u8) -> Seq<W> {
    mix(initial_mixer::<W>(key, rounds), mix_steps::<W>(key.len(), rounds)).s
}

/// The mixing changes neither the length of the table nor that of the key
/// words.
pub proof fn lemma_mix_lengths<W: Word>(m: Mixer<W>, n: nat)
    requires
        m.s.len() > 0,
        m.l.len() > 0,
    ensures
        mix(m, n).s.len() == m.s.len(),
        mix(m, n).l.len() == m.l.len(),
    decreases n,
{
    if n > 0 {
        lemma_mix_lengths(m, (n - 1) as nat);
        let prev = mix(m, (n - 1) as nat);
        assert(0 <= ((n - 1) as nat) % prev.s.len() < prev.s.len());
        assert(0 <= ((n - 1) as nat) % prev.l.len() < prev.l.len());
    }
}

/// The key table has two words for the opening and two for every round.
pub proof fn lemma_key_table_len<W: Word>(key: Seq<u8>, rounds: u8)
    ensures
        key_table::<W>(key, rounds).len() == table_len(rounds),
        key_table::<W>(key, rounds).len() >= 2,
{
    let m = initial_mixer::<W>(key, rounds);
    lemma_mix_lengths(m, mix_steps::<W>(key.len(), rounds));
}

/// The key words have room for every byte of the key.
proof fn lemma_key_words_hold_key<W: Word>(key_len: nat)
    ensures
        key_word_count::<W>(key_len) >= 1,
        key_word_count::<W>(key_len) * W::spec_byte_len() >= key_len,
        key_word_count::<W>(key_len) <= key_len + 1,
{
    W::lemma_width();
    let u = W::spec_byte_len();
    let c = key_word_count::<W>(key_len);
    if u == 2 {
        assert(c * 2 >= key_len);
        assert(c * u == c * 2) by (nonlinear_arith)
            requires
                u == 2,
        ;
    } else if u == 4 {
        assert(c * 4 >= key_len);
        assert(c * u == c * 4) by (nonlinear_arith)
            requires
                u == 4,
        ;
    } else {
        assert(u == 8);
        assert(c * 8 >= key_len);
        assert(c * u == c * 8) by (nonlinear_arith)
            requires
                u == 8,
        ;
    }
}

/// Position `i` of the key lies in word `i / u`, which is one of the key
/// words.
pub proof fn lemma_key_position<W: Word>(key_len: nat, i: nat)
    requires
        i < key_len,
    ensures
        (i / W::spec_byte_len()) < key_word_count::<W>(key_len),
        (i / W::spec_byte_len()) * W::spec_byte_len() <= i,
        i < (i / W::spec_byte_len() + 1) * W::spec_byte_len(),
{
    W::lemma_width();
    lemma_key_words_hold_key::<W>(key_len);
    let u = W::spec_byte_len();
    let c = key_word_count::<W>(key_len);
    let k = i / u;
    lemma_fundamental_div_mod(i as int, u as int);
    assert(0 <= i % u < u);
    assert(k * u == u * k) by (nonlinear_arith);
    assert((k + 1) * u == u * k + u) by (nonlinear_arith);
    if k >= c {
        assert(k * u >= c * u) by (nonlinear_arith)
            requires
                k >= c,
        ;
    }
}

/// Taking in the key byte at position `q` changes word `q / u` as
/// `lemma_shift_in_byte` says, and leaves the bytes of every other word as
/// they were.
proof fn lemma_take_in_byte<W: Word>(key: Seq<u8>, q: int, k: int)
    requires
        0 <= q < key.len(),
        0 <= k,
    ensures
        k == q / (W::spec_byte_len() as int) ==> key_word_bytes_from::<W>(key, k, q) == seq![key[q]]
            + key_word_bytes_from::<W>(key, k, q + 1).drop_last(),
        k != q / (W::spec_byte_len() as int) ==> key_word_bytes_from::<W>(key, k, q)
            == key_word_bytes_from::<W>(key, k, q + 1),
{
    W::lemma_width();
    let u = W::spec_byte_len() as int;
    let slot = q / u;
    lemma_key_position::<W>(key.len(), q as nat);
    assert(slot * u <= q < (slot + 1) * u);
    if k == slot {
        assert(key_word_bytes_from::<W>(key, k, q) =~= seq![key[q]] + key_word_bytes_from::<W>(
            key,
            k,
            q + 1,
        ).drop_last());
    } else {
        if k < slot {
            assert((k + 1) * u <= slot * u) by (nonlinear_arith)
                requires
                    k + 1 <= slot,
                    u > 0,
            ;
        } else {
            assert(k * u >= (slot + 1) * u) by (nonlinear_arith)
                requires
                    k >= slot + 1,
                    u > 0,
            ;
        }
        assert(key_word_bytes_from::<W>(key, k, q) =~= key_word_bytes_from::<W>(key, k, q + 1));
    }
}

/// Expands `key` into the key table for `rounds` rounds. A key of more than
/// 255 bytes is refused; every other key, the empty one included, has a
/// table, and the table depends on nothing but the key, the number of rounds
/// and the width of the word.
pub fn gen_key_table<W: Word>(key: Vec<u8>, rounds: u8) -> (r: Result<Vec<W>, CipherError>)
    ensures
        key@.len() > MAX_KEY_LEN ==> r == Err::<Vec<W>, CipherError>(
            CipherError::InvalidKeyLength,
        ),
        key@.len() <= MAX_KEY_LEN ==> (r matches Ok(table) && table@ == key_table::<W>(
            key@,
            rounds,
        ) && table@.len() == 2 * rounds + 2),
{
    if key.len() > MAX_KEY_LEN {
        return Err(CipherError::InvalidKeyLength);
    }
    proof {
        W::lemma_width();
        lemma_key_table_len::<W>(key@, rounds);
        lemma_key_words_hold_key::<W>(key@.len());
    }
    let t: usize = 2 * (rounds as usize) + 2;
    let w: usize = W::bits() as usize;
    let u: usize = w / 8;
    let packed: usize = div_ceil_usize(key.len() * 8, w);
    let c: usize = if packed < 1 {
        1
    } else {
        packed
    };
    assert(c == key_word_count::<W>(key@.len()));
    assert(u == W::spec_byte_len());

    let mut l: Vec<W> = Vec::new();
    let mut k: usize = 0;
    while k < c
        invariant
            k <= c,
            l@.len() == k,
            forall|x: int| 0 <= x < k ==> l@[x] == W::spec_zero(),
        decreases c - k,
    {
        l.push(W::zero());
        k = k + 1;
    }
    proof {
        assert forall|x: int| 0 <= x < c implies l@[x] == W::spec_from_le_bytes(
            key_word_bytes_from::<W>(key@, x, key@.len() as int),
        ) by {
            W::lemma_zero_bytes(key_word_bytes_from::<W>(key@, x, key@.len() as int));
        }
    }
    let mut i: usize = key.len();
    while i > 0
        invariant
            i <= key@.len() <= MAX_KEY_LEN,
            u == W::spec_byte_len(),
            u > 0,
            c == key_word_count::<W>(key@.len()),
            l@.len() == c,
            forall|x: int|
                0 <= x < c ==> l@[x] == W::spec_from_le_bytes(
                    key_word_bytes_from::<W>(key@, x, i as int),
                ),
        decreases i,
    {
        i = i - 1;
        let slot: usize = i / u;
        proof {
            lemma_key_position::<W>(key@.len(), i as nat);
        }
        let taken = l[slot].shl8().add_wrapping(W::from_u8(key[i]));
        proof {
            let later = key_word_bytes_from::<W>(key@, slot as int, i + 1);
            W::lemma_shift_in_byte(key@[i as int], later);
            assert forall|x: int| 0 <= x < c implies l@.update(slot as int, taken)[x]
                == W::spec_from_le_bytes(key_word_bytes_from::<W>(key@, x, i as int)) by {
                lemma_take_in_byte::<W>(key@, i as int, x);
            }
        }
        l.set(slot, taken);
    }
    assert(l@ =~= key_words::<W>(key@)) by {
        assert forall|x: int| 0 <= x < c implies l@[x] == key_words::<W>(key@)[x] by {
            lemma_key_taken_in::<W>(key@, x);
        }
    }

    let mut s: Vec<W> = Vec::new();
    s.push(W::p());
    let mut k: usize = 1;
    while k < t
        invariant
            1 <= k <= t,
            s@.len() == k,
            forall|x: int| 0 <= x < k ==> s@[x] == seed_word::<W>(x as nat),
        decreases t - k,
    {
        let next = s[k - 1].add_wrapping(W::q());
        s.push(next);
        k = k + 1;
    }
    assert(s@ =~= seed_table::<W>(table_len(rounds)));

    let steps: usize = 3 * (if t >= c {
        t
    } else {
        c
    });
    let three: u32 = 3 % W::bits();
    assert(three == 3) by {
        if W::spec_bits() == 16 {
        } else if W::spec_bits() == 32 {
        }
    }
    let ghost start = initial_mixer::<W>(key@, rounds);
    let mut a: W = W::zero();
    let mut b: W = W::zero();
    let mut i: usize = 0;
    let mut j: usize = 0;
    let mut n: usize = 0;
    while n < steps
        invariant
            n <= steps,
            steps == mix_steps::<W>(key@.len(), rounds),
            t == table_len(rounds),
            c == key_word_count::<W>(key@.len()),
            2 <= t <= 512,
            1 <= c <= 256,
            three == 3,
            start == initial_mixer::<W>(key@, rounds),
            s@.len() == t,
            l@.len() == c,
            i == n % t,
            j == n % c,
            s@ == mix(start, n as nat).s,
            l@ == mix(start, n as nat).l,
            a == mix(start, n as nat).a,
            b == mix(start, n as nat).b,
        decreases steps - n,
    {
        a = s[i].add_wrapping(a).add_wrapping(b).rotl(three);
        s.set(i, a);
        let turn = a.add_wrapping(b).rot_amount();
        b = l[j].add_wrapping(a).add_wrapping(b).rotl(turn);
        l.set(j, b);
        proof {
            lemma_add_mod_noop(n as int, 1, t as int);
            lemma_add_mod_noop(n as int, 1, c as int);
            lemma_small_mod(1, t as nat);
            if c > 1 {
                lemma_small_mod(1, c as nat);
            }
        }
        i = (i + 1) % t;
        j = (j + 1) % c;
        n = n + 1;
    }
    Ok(s)
}

} // verus!
