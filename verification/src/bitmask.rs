//! Bitmasks of any width.
//!
//! A mask is read as the set of the positions of its set bits, position 0
//! being the lowest bit.

use vstd::prelude::*;
use vstd::std_specs::cmp::PartialEqSpecImpl;

verus! {

/// Bit `j` of a 64-bit word is set.
pub open spec fn word_bit(x: u64, j: nat) -> bool {
    j < 64 && (x >> (j as u64)) & 1 == 1
}

/// The positions of the set bits of a 64-bit word.
pub open spec fn word_bits(x: u64) -> Set<nat> {
    Set::new(|k: nat| word_bit(x, k))
}

proof fn lemma_low_word_has_bit(z: u64, n: nat)
    requires
        z != 0,
        1 <= n <= 64,
        n < 64 ==> z >> (n as u64) == 0,
    ensures
        exists|j: nat| word_bit(z, j),
    decreases n,
{
    let m = (n - 1) as u64;
    if (z >> m) & 1 == 1 {
        assert(word_bit(z, m as nat));
    } else {
        assert(m <= 63 && (z >> m) & 1 != 1 && (m < 63 ==> z >> ((m + 1) as u64) == 0) ==> z >> m
            == 0) by (bit_vector);
        assert(z >> 0u64 == z) by (bit_vector);
        lemma_low_word_has_bit(z, (n - 1) as nat);
    }
}

/// A word that is not zero has a set bit.
pub proof fn lemma_nonzero_word_has_bit(z: u64)
    requires
        z != 0,
    ensures
        exists|j: nat| word_bit(z, j),
{
    lemma_low_word_has_bit(z, 64);
}

/// Two different words differ in some bit.
pub proof fn lemma_words_differ_in_a_bit(x: u64, y: u64)
    requires
        x != y,
    ensures
        exists|j: nat| word_bit(x, j) != word_bit(y, j),
{
    let z = x ^ y;
    assert(x != y ==> (x ^ y) != 0) by (bit_vector);
    lemma_nonzero_word_has_bit(z);
    let j = choose|j: nat| word_bit(z, j);
    let s = j as u64;
    assert(s < 64 && ((x ^ y) >> s) & 1 == 1 ==> (((x >> s) & 1 == 1) != ((y >> s) & 1 == 1)))
        by (bit_vector);
    assert(word_bit(x, j) != word_bit(y, j));
}

/// The bits of `x | y` are those of `x` together with those of `y`.
pub proof fn lemma_word_or(x: u64, y: u64, j: nat)
    ensures
        word_bit(x | y, j) == (word_bit(x, j) || word_bit(y, j)),
{
    if j < 64 {
        let s = j as u64;
        assert(s < 64 ==> ((((x | y) >> s) & 1 == 1) == (((x >> s) & 1 == 1) || ((y >> s) & 1
            == 1)))) by (bit_vector);
    }
}

/// The bits of `x & y` are those that `x` and `y` share.
pub proof fn lemma_word_and(x: u64, y: u64, j: nat)
    ensures
        word_bit(x & y, j) == (word_bit(x, j) && word_bit(y, j)),
{
    if j < 64 {
        let s = j as u64;
        assert(s < 64 ==> ((((x & y) >> s) & 1 == 1) == (((x >> s) & 1 == 1) && ((y >> s) & 1
            == 1)))) by (bit_vector);
    }
}

/// The zero word has no bit.
pub proof fn lemma_word_zero(j: nat)
    ensures
        !word_bit(0, j),
{
    if j < 64 {
        let s = j as u64;
        assert(s < 64 ==> (0u64 >> s) & 1 != 1) by (bit_vector);
    }
}

/// The word `1 << s` has the bit `s` and no other.
pub proof fn lemma_word_single(s: u64, j: nat)
    requires
        s < 64,
    ensures
        word_bit(1u64 << s, j) == (j == s),
{
    if j < 64 {
        let t = j as u64;
        assert(s < 64 && t < 64 ==> ((((1u64 << s) >> t) & 1 == 1) == (t == s))) by (bit_vector);
    }
}

/// The word that holds the byte `b` moved up by `s` bits has the bits of
/// `b`, each `s` places higher, and no other.
pub proof fn lemma_word_of_byte(b: u8, s: u64, j: nat)
    requires
        s <= 56,
    ensures
        word_bit((b as u64) << s, j) == (s <= j < s + 8 && word_bit(b as u64, (j - s) as nat)),
{
    let x = b as u64;
    if j < 64 {
        let t = j as u64;
        assert(x < 256 && s <= 56 && t < 64 ==> ((((x << s) >> t) & 1 == 1) == (t >= s && t < s
            + 8 && ((x >> ((t - s) as u64)) & 1 == 1)))) by (bit_vector);
    }
}

/// Byte `i` of a word, byte 0 being the lowest.
pub open spec fn word_byte(x: u64, i: nat) -> u64 {
    (x >> ((8 * i) as u64)) & 0xff
}

/// Byte `i` of a word has the bits of the word from `8 * i` on, each
/// `8 * i` places lower.
pub proof fn lemma_byte_of_word(x: u64, i: nat, j: nat)
    requires
        i < 8,
    ensures
        word_byte(x, i) < 256,
        word_bit(word_byte(x, i), j) == (j < 8 && word_bit(x, 8 * i + j)),
{
    let s = (8 * i) as u64;
    assert((x >> s) & 0xff < 256) by (bit_vector);
    if j < 64 {
        let t = j as u64;
        assert(s <= 56 && t < 64 ==> (((((x >> s) & 0xff) >> t) & 1 == 1) == (t < 8 && ((x >> ((t
            + s) as u64)) & 1 == 1)))) by (bit_vector);
    }
}

/// Bit `k` of a number written in bytes, the highest byte first.
pub open spec fn bytes_bit(bytes: Seq<u8>, k: nat) -> bool {
    k / 8 < bytes.len() && word_bit(bytes[bytes.len() - 1 - k / 8] as u64, k % 8)
}

/// The positions of the set bits of a number written in bytes, the highest
/// byte first.
pub open spec fn bytes_bits(bytes: Seq<u8>) -> Set<nat> {
    Set::new(|k: nat| bytes_bit(bytes, k))
}

/// The bytes, read as a number in two's complement with the highest byte
/// first, stand for a number below zero.
pub open spec fn negative_bytes(bytes: Seq<u8>) -> bool {
    bytes.len() > 0 && bytes[0] >= 0x80
}

/// The bytes are the shortest that stand for their number in two's
/// complement: one byte at least, and no zero byte in front that the sign
/// does not need.
pub open spec fn shortest_bytes(bytes: Seq<u8>) -> bool {
    bytes.len() >= 1 && (bytes.len() > 1 && bytes[0] == 0 ==> bytes[1] >= 0x80)
}

/// Bit `k` of a mask made of 64-bit words, the lowest word first.
pub open spec fn limbs_bit(limbs: Seq<u64>, k: nat) -> bool {
    k / 64 < limbs.len() && word_bit(limbs[(k / 64) as int], k % 64)
}

/// Byte `i` of a mask made of 64-bit words, byte 0 being the lowest, as a
/// byte.
pub open spec fn limbs_byte(limbs: Seq<u64>, i: nat) -> u8 {
    word_byte(limbs[(i / 8) as int], i % 8) as u8
}

/// Byte `i` of a mask has the bits of the mask from `8 * i` on.
pub proof fn lemma_limbs_byte(limbs: Seq<u64>, i: nat, j: nat)
    requires
        i / 8 < limbs.len(),
        j < 8,
    ensures
        word_bit(limbs_byte(limbs, i) as u64, j) == limbs_bit(limbs, 8 * i + j),
{
    let x = limbs[(i / 8) as int];
    lemma_byte_of_word(x, i % 8, j);
    let p = 8 * i + j;
    assert(p / 64 == i / 8 && p % 64 == 8 * (i % 8) + j);
}

/// The positions of the set bits of a mask made of 64-bit words, the lowest
/// word first.
pub open spec fn limbs_bits(limbs: Seq<u64>) -> Set<nat> {
    Set::new(|k: nat| limbs_bit(limbs, k))
}

/// A bitmask of any width.
#[derive(Debug)]
pub struct Bitmask {
    limbs: Vec<u64>,
}

impl View for Bitmask {
    type V = Set<nat>;

    /// The positions of the set bits.
    closed spec fn view(&self) -> Set<nat> {
        limbs_bits(self.limbs@)
    }
}

impl Bitmask {
    /// The words of the mask, the lowest first.
    pub closed spec fn words(&self) -> Seq<u64> {
        self.limbs@
    }

    /// The mask with no bit set.
    pub fn zero() -> (mask: Bitmask)
        ensures
            mask@ == Set::<nat>::empty(),
            mask.words().len() == 0,
    {
        let mask = Bitmask { limbs: Vec::new() };
        assert(mask@ =~= Set::<nat>::empty());
        mask
    }

    /// The mask with the bits of `x`.
    pub fn from_u64(x: u64) -> (mask: Bitmask)
        ensures
            mask@ == word_bits(x),
    {
        let mut limbs: Vec<u64> = Vec::new();
        limbs.push(x);
        let mask = Bitmask { limbs };
        assert(mask@ =~= word_bits(x)) by {
            assert forall|k: nat| mask@.contains(k) == word_bits(x).contains(k) by {
                if k >= 64 {
                    assert(k / 64 >= 1);
                }
            }
        }
        mask
    }

    /// The mask made of the given words, the lowest first.
    pub fn from_limbs(limbs: Vec<u64>) -> (mask: Bitmask)
        ensures
            mask@ == limbs_bits(limbs@),
            mask.words() == limbs@,
    {
        Bitmask { limbs }
    }

    /// The words of the mask, the lowest first.
    pub fn limbs(&self) -> (limbs: &Vec<u64>)
        ensures
            limbs@ == self.words(),
            limbs_bits(limbs@) == self@,
    {
        &self.limbs
    }

    /// The mask of a number written in two's complement, the highest byte
    /// first, as a storage column of whole numbers of any size holds it. A
    /// number below zero is no mask.
    pub fn from_signed_bytes_be(bytes: &Vec<u8>) -> (mask: Option<Bitmask>)
        ensures
            match mask {
                Some(m) => !negative_bytes(bytes@) && m@ == bytes_bits(bytes@),
                None => negative_bytes(bytes@),
            },
    {
        let n: usize = bytes.len();
        if n > 0 && bytes[0] >= 0x80 {
            return None;
        }
        let mut limbs: Vec<u64> = Vec::new();
        let mut cur: u64 = 0;
        let mut k: usize = 0;
        proof {
            assert forall|t: nat| !word_bit(0, t) by {
                lemma_word_zero(t);
            }
        }
        while k < n
            invariant
                n == bytes.len(),
                k <= n,
                limbs.len() == k / 8,
                forall|p: nat| p / 64 < limbs.len() ==> limbs_bit(limbs@, p) == bytes_bit(bytes@, p),
                forall|t: nat|
                    word_bit(cur, t) == (t < 8 * (k % 8) && bytes_bit(
                        bytes@,
                        (64 * (k / 8) + t) as nat,
                    )),
            decreases n - k,
        {
            let b: u8 = bytes[n - 1 - k];
            let s: u64 = (8 * (k % 8)) as u64;
            let ghost before = cur;
            let ghost full = limbs@;
            cur = cur | ((b as u64) << s);
            proof {
                assert forall|t: nat|
                    word_bit(cur, t) == (t < s + 8 && bytes_bit(
                        bytes@,
                        (64 * (k / 8) + t) as nat,
                    )) by {
                    lemma_word_or(before, (b as u64) << s, t);
                    lemma_word_of_byte(b, s, t);
                    let p = (64 * (k / 8) + t) as nat;
                    if t < 64 {
                        assert(p / 8 == 8 * (k / 8) + t / 8 && p % 8 == t % 8);
                        if s <= t < s + 8 {
                            assert(p / 8 == k && (t - s) as nat == t % 8);
                        }
                    }
                }
            }
            if k % 8 == 7 {
                limbs.push(cur);
                proof {
                    assert forall|p: nat| p / 64 < limbs.len() implies limbs_bit(limbs@, p)
                        == bytes_bit(bytes@, p) by {
                        if p / 64 < full.len() {
                            assert(limbs_bit(full, p) == bytes_bit(bytes@, p));
                        } else {
                            assert(p == (64 * (k / 8) + p % 64) as nat);
                        }
                    }
                    assert forall|t: nat| !word_bit(0, t) by {
                        lemma_word_zero(t);
                    }
                }
                cur = 0;
            }
            k += 1;
        }
        if k % 8 != 0 {
            let ghost full = limbs@;
            limbs.push(cur);
            proof {
                assert forall|p: nat| p / 64 < limbs.len() implies limbs_bit(limbs@, p)
                    == bytes_bit(bytes@, p) by {
                    if p / 64 < full.len() {
                        assert(limbs_bit(full, p) == bytes_bit(bytes@, p));
                    } else {
                        assert(p == (64 * (k / 8) + p % 64) as nat);
                        if p % 64 >= 8 * (k % 8) {
                            assert(p / 8 >= n);
                        }
                    }
                }
            }
        }
        let mask = Bitmask { limbs };
        proof {
            assert forall|p: nat| mask@.contains(p) == bytes_bits(bytes@).contains(p) by {
                if p / 64 >= mask.limbs.len() {
                    assert(p / 8 >= n);
                }
            }
            assert(mask@ =~= bytes_bits(bytes@));
        }
        Some(mask)
    }

    /// The mask as a number written in two's complement, the highest byte
    /// first, in the fewest bytes: what a storage column of whole numbers of
    /// any size holds.
    pub fn to_signed_bytes_be(&self) -> (bytes: Vec<u8>)
        ensures
            bytes_bits(bytes@) == self@,
            !negative_bytes(bytes@),
            shortest_bytes(bytes@),
    {
        let mut bytes: Vec<u8> = Vec::new();
        let top = self.top_byte();
        if top.0 == 0 {
            bytes.push(0);
            proof {
                assert forall|p: nat| !bytes_bit(bytes@, p) by {
                    lemma_word_zero(p % 8);
                }
                assert(bytes_bits(bytes@) =~= self@);
            }
            return bytes;
        }
        let ghost count: nat = (8 * (top.0 - 1) + top.1 + 1) as nat;
        let first: u8 = self.byte_at(top.0 - 1, top.1);
        let ghost lead: nat = if first >= 0x80 {
            1
        } else {
            0
        };
        if first >= 0x80 {
            bytes.push(0);
        }
        let mut limb: usize = top.0;
        let mut byte: usize = top.1 + 1;
        let ghost mut pos: nat = count;
        while limb > 0
            invariant
                limb <= top.0 <= self.limbs.len(),
                0 < byte <= 8 || limb == 0,
                pos == if limb == 0 {
                    0
                } else {
                    8 * (limb - 1) + byte
                },
                pos <= count,
                bytes.len() == lead + count - pos,
                lead <= 1,
                lead == 1 ==> bytes[0] == 0,
                forall|e: nat|
                    pos <= e < count ==> #[trigger] bytes[lead + count - 1 - e] == limbs_byte(
                        self.limbs@,
                        e,
                    ),
            decreases pos,
        {
            let ghost so_far = bytes@;
            let ghost e0 = (pos - 1) as nat;
            proof {
                assert(e0 / 8 == limb - 1 && e0 % 8 == byte - 1);
            }
            bytes.push(self.byte_at(limb - 1, byte - 1));
            proof {
                assert forall|e: nat| e0 <= e < count implies #[trigger] bytes[lead + count - 1
                    - e] == limbs_byte(self.limbs@, e) by {
                    if e > e0 {
                        assert(bytes[lead + count - 1 - e] == so_far[lead + count - 1 - e]);
                    }
                }
                pos = e0;
            }
            byte -= 1;
            if byte == 0 {
                limb -= 1;
                byte = 8;
            }
        }
        proof {
            let last = (count - 1) as nat;
            assert(last / 8 == top.0 - 1 && last % 8 == top.1);
            assert(bytes[lead as int] == bytes[lead + count - 1 - last]);
            assert forall|p: nat| bytes_bit(bytes@, p) == limbs_bit(self.limbs@, p) by {
                lemma_word_zero(p % 8);
                let e = (p / 8) as nat;
                if e < count {
                    assert(bytes[bytes.len() - 1 - e] == bytes[lead + count - 1 - e]);
                    assert(e / 8 < self.limbs.len());
                    lemma_limbs_byte(self.limbs@, e, p % 8);
                    assert((8 * e + p % 8) as nat == p);
                } else if e < bytes.len() {
                    assert(lead == 1 && e == count);
                }
            }
            assert(bytes_bits(bytes@) =~= self@);
        }
        bytes
    }

    /// Byte `byte` of word `limb` of the mask.
    fn byte_at(&self, limb: usize, byte: usize) -> (b: u8)
        requires
            limb < self.words().len(),
            byte < 8,
        ensures
            b == limbs_byte(self.words(), (8 * limb + byte) as nat),
    {
        let x: u64 = self.limbs[limb];
        let wide: u64 = (x >> ((8 * byte) as u64)) & 0xff;
        proof {
            lemma_byte_of_word(x, byte as nat, 0);
            assert((8 * limb + byte) / 8 == limb && (8 * limb + byte) % 8 == byte);
        }
        wide as u8
    }

    /// Where the highest byte that is not zero stands: the number of words
    /// up to the one that holds it, and its place in that word; or zero
    /// words where every byte is zero.
    fn top_byte(&self) -> (top: (usize, usize))
        ensures
            top.0 <= self.words().len(),
            top.1 < 8,
            top.0 > 0 ==> limbs_byte(self.words(), (8 * (top.0 - 1) + top.1) as nat) != 0,
            top.0 > 0 ==> forall|p: nat|
                p / 8 > 8 * (top.0 - 1) + top.1 ==> !limbs_bit(self.words(), p),
            top.0 == 0 ==> forall|p: nat| !limbs_bit(self.words(), p),
    {
        let mut limb: usize = self.limbs.len();
        while limb > 0
            invariant
                limb <= self.limbs.len(),
                forall|p: nat| p / 64 >= limb ==> !limbs_bit(self.limbs@, p),
            decreases limb,
        {
            if self.limbs[limb - 1] != 0 {
                let x: u64 = self.limbs[limb - 1];
                let mut byte: usize = 8;
                while byte > 0
                    invariant
                        0 < limb <= self.limbs.len(),
                        x == self.limbs[limb - 1],
                        x != 0,
                        byte <= 8,
                        forall|p: nat| p / 64 >= limb ==> !limbs_bit(self.limbs@, p),
                        forall|i: nat| byte <= i < 8 ==> #[trigger] word_byte(x, i) == 0,
                    decreases byte,
                {
                    if self.byte_at(limb - 1, byte - 1) != 0 {
                        proof {
                            let at = (8 * (limb - 1) + (byte - 1)) as nat;
                            assert forall|p: nat| p / 8 > at implies !limbs_bit(self.limbs@, p) by {
                                if p / 64 == limb - 1 {
                                    let i = ((p % 64) / 8) as nat;
                                    assert(p / 8 == 8 * (limb - 1) + i);
                                    assert(word_byte(x, i) == 0);
                                    lemma_byte_of_word(x, i, p % 8);
                                    lemma_word_zero(p % 8);
                                    assert((8 * i + p % 8) as nat == p % 64);
                                }
                            }
                        }
                        return (limb, byte - 1);
                    }
                    proof {
                        lemma_byte_of_word(x, (byte - 1) as nat, 0);
                        assert((8 * (limb - 1) + (byte - 1)) / 8 == limb - 1 && (8 * (limb - 1) + (
                        byte - 1)) % 8 == byte - 1);
                    }
                    byte -= 1;
                }
                proof {
                    lemma_nonzero_word_has_bit(x);
                    let t = choose|t: nat| word_bit(x, t);
                    let i = (t / 8) as nat;
                    assert(word_byte(x, i) == 0);
                    lemma_byte_of_word(x, i, t % 8);
                    lemma_word_zero(t % 8);
                    assert((8 * i + t % 8) as nat == t);
                }
                return (0, 0);
            }
            proof {
                assert forall|p: nat| p / 64 >= limb - 1 implies !limbs_bit(self.limbs@, p) by {
                    lemma_word_zero(p % 64);
                }
            }
            limb -= 1;
        }
        (0, 0)
    }

    /// The mask with the one bit `k`.
    pub fn single_bit(k: usize) -> (mask: Bitmask)
        ensures
            mask@ == set![k as nat],
    {
        let mut limbs: Vec<u64> = Vec::new();
        let n: usize = k / 64;
        let s: u64 = (k % 64) as u64;
        let mut i: usize = 0;
        while i < n
            invariant
                i <= n,
                limbs.len() == i,
                forall|t: int| 0 <= t < i ==> limbs[t] == 0,
            decreases n - i,
        {
            limbs.push(0);
            i += 1;
        }
        limbs.push(1u64 << s);
        let mask = Bitmask { limbs };
        assert(mask@ =~= set![k as nat]) by {
            assert forall|b: nat| mask@.contains(b) == (b == k) by {
                if b / 64 < n {
                    lemma_word_zero(b % 64);
                } else if b / 64 == n {
                    lemma_word_single(s, b % 64);
                }
            }
        }
        mask
    }

    /// Whether no bit is set.
    pub fn is_zero(&self) -> (zero: bool)
        ensures
            zero == (self@ == Set::<nat>::empty()),
    {
        let mut i: usize = 0;
        while i < self.limbs.len()
            invariant
                i <= self.limbs.len(),
                forall|t: int| 0 <= t < i ==> self.limbs[t] == 0,
            decreases self.limbs.len() - i,
        {
            if self.limbs[i] != 0 {
                proof {
                    lemma_nonzero_word_has_bit(self.limbs[i as int]);
                    let j = choose|j: nat| word_bit(self.limbs[i as int], j);
                    let k = (64 * i + j) as nat;
                    assert(k / 64 == i && k % 64 == j);
                    assert(self@.contains(k));
                }
                return false;
            }
            i += 1;
        }
        assert(self@ =~= Set::<nat>::empty()) by {
            assert forall|k: nat| !self@.contains(k) by {
                lemma_word_zero(k % 64);
            }
        }
        true
    }

    /// Whether the two masks share a set bit.
    pub fn intersects(&self, other: &Bitmask) -> (shared: bool)
        ensures
            shared == !self@.disjoint(other@),
            shared == (self@.intersect(other@) != Set::<nat>::empty()),
    {
        let mut i: usize = 0;
        while i < self.limbs.len() && i < other.limbs.len()
            invariant
                i <= self.limbs.len(),
                i <= other.limbs.len(),
                forall|t: int| 0 <= t < i ==> self.limbs[t] & other.limbs[t] == 0,
            decreases self.limbs.len() - i,
        {
            let both: u64 = self.limbs[i] & other.limbs[i];
            if both != 0 {
                proof {
                    lemma_nonzero_word_has_bit(both);
                    let j = choose|j: nat| word_bit(both, j);
                    lemma_word_and(self.limbs[i as int], other.limbs[i as int], j);
                    let k = (64 * i + j) as nat;
                    assert(k / 64 == i && k % 64 == j);
                    assert(self@.contains(k) && other@.contains(k));
                    assert(self@.intersect(other@).contains(k));
                }
                return true;
            }
            i += 1;
        }
        proof {
            assert forall|k: nat| !(self@.contains(k) && other@.contains(k)) by {
                if k / 64 < i {
                    let t = (k / 64) as int;
                    lemma_word_and(self.limbs[t], other.limbs[t], k % 64);
                    lemma_word_zero(k % 64);
                }
            }
            assert(self@.intersect(other@) =~= Set::<nat>::empty());
        }
        false
    }

    /// The mask with the bits of both.
    pub fn union(&self, other: &Bitmask) -> (mask: Bitmask)
        ensures
            mask@ == self@.union(other@),
    {
        let mut limbs: Vec<u64> = Vec::new();
        let mut i: usize = 0;
        while i < self.limbs.len() || i < other.limbs.len()
            invariant
                limbs.len() == i,
                forall|t: int|
                    0 <= t < i ==> limbs[t] == (if t < self.limbs.len() {
                        self.limbs[t]
                    } else {
                        0u64
                    }) | (if t < other.limbs.len() {
                        other.limbs[t]
                    } else {
                        0u64
                    }),
            decreases self.limbs.len() + other.limbs.len() - i,
        {
            let x: u64 = if i < self.limbs.len() {
                self.limbs[i]
            } else {
                0
            };
            let y: u64 = if i < other.limbs.len() {
                other.limbs[i]
            } else {
                0
            };
            limbs.push(x | y);
            i += 1;
        }
        let mask = Bitmask { limbs };
        proof {
            assert forall|k: nat| mask@.contains(k) == (self@.contains(k) || other@.contains(
                k,
            )) by {
                let t = (k / 64) as int;
                lemma_word_zero(k % 64);
                if t < i {
                    let x: u64 = if t < self.limbs.len() {
                        self.limbs[t]
                    } else {
                        0u64
                    };
                    let y: u64 = if t < other.limbs.len() {
                        other.limbs[t]
                    } else {
                        0u64
                    };
                    lemma_word_or(x, y, k % 64);
                }
            }
            assert(mask@ =~= self@.union(other@));
        }
        mask
    }

    /// Whether the two masks have the same bits set.
    pub fn same(&self, other: &Bitmask) -> (equal: bool)
        ensures
            equal == (self@ == other@),
    {
        let mut i: usize = 0;
        while i < self.limbs.len() || i < other.limbs.len()
            invariant
                forall|t: int|
                    0 <= t < i ==> (if t < self.limbs.len() {
                        self.limbs[t]
                    } else {
                        0u64
                    }) == (if t < other.limbs.len() {
                        other.limbs[t]
                    } else {
                        0u64
                    }),
            decreases self.limbs.len() + other.limbs.len() - i,
        {
            let x: u64 = if i < self.limbs.len() {
                self.limbs[i]
            } else {
                0
            };
            let y: u64 = if i < other.limbs.len() {
                other.limbs[i]
            } else {
                0
            };
            if x != y {
                proof {
                    lemma_words_differ_in_a_bit(x, y);
                    let j = choose|j: nat| word_bit(x, j) != word_bit(y, j);
                    let k = (64 * i + j) as nat;
                    assert(k / 64 == i && k % 64 == j);
                    lemma_word_zero(j);
                    assert(self@.contains(k) != other@.contains(k));
                }
                return false;
            }
            i += 1;
        }
        proof {
            assert forall|k: nat| self@.contains(k) == other@.contains(k) by {
                lemma_word_zero(k % 64);
            }
            assert(self@ =~= other@);
        }
        true
    }

    /// The mask as a 64-bit word, where no bit from 64 on is set.
    pub fn to_u64(&self) -> (word: Option<u64>)
        ensures
            match word {
                Some(x) => self@ == word_bits(x),
                None => exists|k: nat| k >= 64 && self@.contains(k),
            },
    {
        if self.limbs.len() == 0 {
            proof {
                assert forall|k: nat| !word_bits(0).contains(k) by {
                    lemma_word_zero(k);
                }
                assert(self@ =~= word_bits(0));
            }
            return Some(0);
        }
        let mut i: usize = 1;
        while i < self.limbs.len()
            invariant
                1 <= i <= self.limbs.len(),
                forall|t: int| 1 <= t < i ==> self.limbs[t] == 0,
            decreases self.limbs.len() - i,
        {
            if self.limbs[i] != 0 {
                proof {
                    lemma_nonzero_word_has_bit(self.limbs[i as int]);
                    let j = choose|j: nat| word_bit(self.limbs[i as int], j);
                    let k = (64 * i + j) as nat;
                    assert(k / 64 == i && k % 64 == j);
                    assert(self@.contains(k));
                }
                return None;
            }
            i += 1;
        }
        proof {
            assert forall|k: nat| self@.contains(k) == word_bits(self.limbs[0]).contains(k) by {
                lemma_word_zero(k % 64);
                if k >= 64 {
                    assert(k / 64 >= 1);
                }
            }
            assert(self@ =~= word_bits(self.limbs[0]));
        }
        Some(self.limbs[0])
    }
}

impl Clone for Bitmask {
    /// A copy of the mask.
    fn clone(&self) -> (mask: Bitmask)
        ensures
            mask@ == self@,
            mask.words() == self.words(),
    {
        let mut limbs: Vec<u64> = Vec::new();
        let mut i: usize = 0;
        while i < self.limbs.len()
            invariant
                i <= self.limbs.len(),
                limbs@ == self.limbs@.subrange(0, i as int),
            decreases self.limbs.len() - i,
        {
            limbs.push(self.limbs[i]);
            assert(limbs@ =~= self.limbs@.subrange(0, i + 1));
            i += 1;
        }
        assert(limbs@ =~= self.limbs@);
        Bitmask { limbs }
    }
}

impl PartialEq for Bitmask {
    /// Two masks are equal when they have the same bits set, however many
    /// zero words either holds.
    fn eq(&self, other: &Bitmask) -> (equal: bool) {
        self.same(other)
    }
}

impl Eq for Bitmask {

}

impl PartialEqSpecImpl for Bitmask {
    open spec fn obeys_eq_spec() -> bool {
        true
    }

    open spec fn eq_spec(&self, other: &Bitmask) -> bool {
        self@ == other@
    }
}

} // verus!
