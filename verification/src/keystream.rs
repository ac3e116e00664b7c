//! The keystream: a pseudorandom byte sequence fixed by a 64-bit seed, and the
//! byte-wise XOR that encrypts and decrypts with it.

use rand::{Rng, SeedableRng};
use rand_chacha::ChaCha20Rng;
use vstd::arithmetic::div_mod::{lemma_add_mod_noop, lemma_mod_twice};
use vstd::prelude::*;

verus! {

/// The byte found at word `position` of the output of a ChaCha20 generator
/// that was seeded with `seed`.
pub uninterp spec fn keystream_byte(seed: u64, position: u128) -> u8;

/// Seeds a fresh `rand_chacha::ChaCha20Rng` with `SeedableRng::seed_from_u64`,
/// moves it to `position` with `ChaCha20Rng::set_word_pos` and draws one byte
/// with `Rng::gen::<u8>`, which keeps the low byte of the 32-bit word there.
///
/// Trusted: the result depends on `seed` and `position` alone. The generator
/// cycles after 2^68 words, and `set_word_pos` ignores the bits above them.
#[verifier::external_body]
fn chacha_byte(seed: u64, position: u128) -> (b: u8)
    ensures
        b == keystream_byte(seed, position),
{
    let mut rng = ChaCha20Rng::seed_from_u64(seed);
    rng.set_word_pos(position);
    rng.gen::<u8>()
}

/// The cursor reached from `cursor` after `n` more bytes. The count wraps at
/// 2^128, a multiple of the generator's period.
pub open spec fn spec_advance(cursor: u128, n: nat) -> u128 {
    ((cursor + n) % 0x1_0000_0000_0000_0000_0000_0000_0000_0000int) as u128
}

/// The `n` keystream bytes that follow `cursor` under `seed`.
pub open spec fn spec_pad(seed: u64, cursor: u128, n: nat) -> Seq<u8> {
    Seq::new(n, |i: int| keystream_byte(seed, spec_advance(cursor, i as nat)))
}

/// `data` with each byte XOR-ed with the pad byte at the same index.
pub open spec fn spec_xor(data: Seq<u8>, pad: Seq<u8>) -> Seq<u8>
    recommends
        data.len() == pad.len(),
{
    Seq::new(data.len(), |i: int| data[i] ^ pad[i])
}

/// `data` encrypted, or decrypted, with the keystream that follows `cursor`.
pub open spec fn spec_apply(seed: u64, cursor: u128, data: Seq<u8>) -> Seq<u8> {
    spec_xor(data, spec_pad(seed, cursor, data.len()))
}

/// XORs `data` with a pad of the same length, byte by byte.
///
/// Returns `None` exactly when the lengths differ.
pub fn xor_bytes(data: &[u8], pad: &[u8]) -> (out: Option<Vec<u8>>)
    ensures
        out is Some <==> data@.len() == pad@.len(),
        out matches Some(v) ==> v@ == spec_xor(data@, pad@),
{
    if data.len() != pad.len() {
        return None;
    }
    let mut v: Vec<u8> = Vec::with_capacity(data.len());
    let mut i: usize = 0;
    while i < data.len()
        invariant
            data@.len() == pad@.len(),
            i <= data@.len(),
            v@.len() == i,
            forall|j: int| 0 <= j < i ==> v@[j] == data@[j] ^ pad@[j],
        decreases data@.len() - i,
    {
        v.push(data[i] ^ pad[i]);
        i += 1;
    }
    assert(v@ =~= spec_xor(data@, pad@));
    Some(v)
}

/// A keystream generator: the seed it was made from and how many bytes it
/// has handed out. It only moves forward.
#[derive(Debug)]
pub struct Keystream {
    seed: u64,
    cursor: u128,
}

impl Keystream {
    /// The seed this generator was made from.
    pub closed spec fn seed(&self) -> u64 {
        self.seed
    }

    /// The position of the next byte in the generator's output.
    pub closed spec fn cursor(&self) -> u128 {
        self.cursor
    }

    /// A generator at the start of the keystream of `seed`.
    pub fn new(seed: u64) -> (k: Keystream)
        ensures
            k.seed() == seed,
            k.cursor() == 0,
    {
        Keystream { seed, cursor: 0 }
    }

    /// The number of bytes handed out so far, modulo 2^128.
    pub fn position(&self) -> (p: u128)
        ensures
            p == self.cursor(),
    {
        self.cursor
    }

    /// Hands out the next keystream byte and moves one position on.
    pub fn next_byte(&mut self) -> (b: u8)
        ensures
            b == keystream_byte(old(self).seed(), old(self).cursor()),
            final(self).seed() == old(self).seed(),
            final(self).cursor() == spec_advance(old(self).cursor(), 1),
    {
        let b = chacha_byte(self.seed, self.cursor);
        self.cursor = self.cursor.wrapping_add(1);
        b
    }

    /// Hands out the next `n` keystream bytes, in order.
    pub fn take(&mut self, n: usize) -> (pad: Vec<u8>)
        ensures
            pad@ == spec_pad(old(self).seed(), old(self).cursor(), n as nat),
            final(self).seed() == old(self).seed(),
            final(self).cursor() == spec_advance(old(self).cursor(), n as nat),
    {
        let mut pad: Vec<u8> = Vec::with_capacity(n);
        let mut i: usize = 0;
        while i < n
            invariant
                i <= n,
                self.seed() == old(self).seed(),
                self.cursor() == spec_advance(old(self).cursor(), i as nat),
                pad@.len() == i,
                forall|j: int|
                    0 <= j < i ==> pad@[j] == keystream_byte(
                        old(self).seed(),
                        spec_advance(old(self).cursor(), j as nat),
                    ),
            decreases n - i,
        {
            let b = self.next_byte();
            pad.push(b);
            i += 1;
        }
        assert(pad@ =~= spec_pad(old(self).seed(), old(self).cursor(), n as nat));
        pad
    }

    /// XORs `data` with the next `data.len()` keystream bytes, in order, and
    /// moves that many positions on. Encryption and decryption are this one
    /// operation.
    pub fn apply(&mut self, data: &[u8]) -> (out: Vec<u8>)
        ensures
            out@ == spec_apply(old(self).seed(), old(self).cursor(), data@),
            final(self).seed() == old(self).seed(),
            final(self).cursor() == spec_advance(old(self).cursor(), data@.len()),
    {
        let pad = self.take(data.len());
        match xor_bytes(data, pad.as_slice()) {
            Some(out) => out,
            None => Vec::new(),
        }
    }
}

/// Advancing in two steps is advancing once by the sum.
pub proof fn lemma_advance_adds(cursor: u128, n: nat, m: nat)
    ensures
        spec_advance(spec_advance(cursor, n), m) == spec_advance(cursor, n + m),
        spec_advance(cursor, 0) == cursor,
{
    lemma_add_mod_noop(
        cursor + n,
        m as int,
        0x1_0000_0000_0000_0000_0000_0000_0000_0000int,
    );
    lemma_add_mod_noop(
        (cursor + n) % 0x1_0000_0000_0000_0000_0000_0000_0000_0000int,
        m as int,
        0x1_0000_0000_0000_0000_0000_0000_0000_0000int,
    );
    lemma_mod_twice(cursor + n, 0x1_0000_0000_0000_0000_0000_0000_0000_0000int);
}

/// Two generators made from one seed and at one position hand out the same
/// bytes, however many are asked for.
pub proof fn lemma_same_seed_same_stream(a: Keystream, b: Keystream, n: nat)
    requires
        a.seed() == b.seed(),
        a.cursor() == b.cursor(),
    ensures
        spec_pad(a.seed(), a.cursor(), n) == spec_pad(b.seed(), b.cursor(), n),
{
}

/// The keystream is consumed in order: `n + m` bytes are the first `n`
/// followed by the `m` found `n` positions further on.
pub proof fn lemma_pad_splits(seed: u64, cursor: u128, n: nat, m: nat)
    ensures
        spec_pad(seed, cursor, n + m) == spec_pad(seed, cursor, n) + spec_pad(
            seed,
            spec_advance(cursor, n),
            m,
        ),
{
    let whole = spec_pad(seed, cursor, n + m);
    let parts = spec_pad(seed, cursor, n) + spec_pad(seed, spec_advance(cursor, n), m);
    assert forall|i: int| 0 <= i < n + m implies whole[i] == parts[i] by {
        if i >= n {
            lemma_advance_adds(cursor, n, (i - n) as nat);
        }
    }
    assert(whole =~= parts);
}

/// Chunk boundaries do not matter: applying the keystream to `a` and then,
/// from where that ended, to `b` gives what applying it to `a + b` gives.
pub proof fn lemma_apply_splits(seed: u64, cursor: u128, a: Seq<u8>, b: Seq<u8>)
    ensures
        spec_apply(seed, cursor, a + b) == spec_apply(seed, cursor, a) + spec_apply(
            seed,
            spec_advance(cursor, a.len()),
            b,
        ),
{
    lemma_pad_splits(seed, cursor, a.len(), b.len());
    let whole = spec_apply(seed, cursor, a + b);
    let parts = spec_apply(seed, cursor, a) + spec_apply(seed, spec_advance(cursor, a.len()), b);
    assert(whole =~= parts);
}

/// XOR-ing with `first` and then with `second` gives the data back exactly
/// when the two pads are equal.
pub proof fn lemma_xor_twice(data: Seq<u8>, first: Seq<u8>, second: Seq<u8>)
    requires
        data.len() == first.len(),
        data.len() == second.len(),
    ensures
        spec_xor(spec_xor(data, first), second) == data <==> first == second,
{
    let back = spec_xor(spec_xor(data, first), second);
    assert forall|i: int| 0 <= i < data.len() implies (back[i] == data[i] <==> first[i]
        == second[i]) by {
        let d = data[i];
        let p = first[i];
        let q = second[i];
        assert(((d ^ p) ^ q == d) <==> p == q) by (bit_vector);
    }
    if first == second {
        assert(back =~= data);
    }
    if back == data {
        assert(first =~= second);
    }
}

/// Keystream bytes used out of order garble the message: where the pad used
/// to decrypt differs from the pad used to encrypt, the byte recovered is
/// not the byte that was sent, so the message recovered is not the message.
pub proof fn lemma_wrong_pad_garbles(data: Seq<u8>, used: Seq<u8>, other: Seq<u8>, at: int)
    requires
        data.len() == used.len(),
        data.len() == other.len(),
        0 <= at < data.len(),
        used[at] != other[at],
    ensures
        spec_xor(spec_xor(data, used), other)[at] != data[at],
        spec_xor(spec_xor(data, used), other) != data,
{
    let d = data[at];
    let p = used[at];
    let q = other[at];
    assert(p != q ==> (d ^ p) ^ q != d) by (bit_vector);
}

/// Round trip: decrypting from the position at which encryption began, under
/// the same seed, gives the plaintext back.
pub proof fn lemma_round_trip(seed: u64, cursor: u128, data: Seq<u8>)
    ensures
        spec_apply(seed, cursor, spec_apply(seed, cursor, data)) == data,
{
    let pad = spec_pad(seed, cursor, data.len());
    lemma_xor_twice(data, pad, pad);
}

/// No resynchronisation: a reader whose cursor is `theirs` while the writer's
/// was `ours` recovers the plaintext only if the keystream happens to agree
/// at every position of the message.
pub proof fn lemma_out_of_step(seed: u64, ours: u128, theirs: u128, data: Seq<u8>)
    ensures
        spec_apply(seed, theirs, spec_apply(seed, ours, data)) == data <==> spec_pad(
            seed,
            ours,
            data.len(),
        ) == spec_pad(seed, theirs, data.len()),
{
    lemma_xor_twice(
        data,
        spec_pad(seed, ours, data.len()),
        spec_pad(seed, theirs, data.len()),
    );
}

} // verus!
