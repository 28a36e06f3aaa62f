//! The consensus encoding: integers as minimal variable-length big-endian
//! numbers, arrays as their bytes, byte strings behind their length, records as
//! their fields in order.

use fedimint_core::encoding::{Decodable, Encodable};
use vstd::prelude::*;
use vstd::string::*;
use vstd::utf8::{encode_utf8, encode_utf8_decode_utf8, encode_utf8_valid_utf8, valid_utf8};

use crate::bytes::{append_bytes, lemma_lex_common_start, lex_lt};

verus! {

/// The last `n` base-256 digits of `v`, the most significant first.
pub open spec fn big_endian(v: int, n: nat) -> Seq<u8>
    decreases n,
{
    if n == 0 {
        Seq::empty()
    } else {
        big_endian(v / 256, (n - 1) as nat).push((v % 256) as u8)
    }
}

/// The encoding of an integer: one byte up to 252, else a marker byte and the
/// number in two, four or eight bytes, whichever is the shortest that holds it.
pub open spec fn bigsize(v: u64) -> Seq<u8> {
    if v < 0xfd {
        seq![v as u8]
    } else if v <= 0xffff {
        seq![0xfdu8] + big_endian(v as int, 2)
    } else if v <= 0xffff_ffff {
        seq![0xfeu8] + big_endian(v as int, 4)
    } else {
        seq![0xffu8] + big_endian(v as int, 8)
    }
}

/// The encoding of a byte string: its length, then its bytes.
pub open spec fn byte_string(bytes: Seq<u8>) -> Seq<u8> {
    bigsize(bytes.len() as u64) + bytes
}

/// `fedimint_core::encoding::Encodable::consensus_encode_to_vec` of a `u64`:
/// the integer's encoding.
#[verifier::external_body]
pub(crate) fn encode_u64(v: u64) -> (r: Vec<u8>)
    ensures
        r@ == bigsize(v),
{
    v.consensus_encode_to_vec()
}

/// `fedimint_core::encoding::Decodable::consensus_decode_partial` of a `u64`:
/// reads one integer off the front of `bytes` and tells how many bytes are
/// left. It fails exactly where the bytes do not start with the encoding of an
/// integer: where they end too early, or where a shorter encoding of the same
/// number exists.
#[verifier::external_body]
pub(crate) fn decode_u64(bytes: &[u8]) -> (r: Option<(u64, usize)>)
    ensures
        match r {
            Some((v, left)) => left <= bytes@.len() && bytes@ == bigsize(v) + bytes@.skip(
                bytes@.len() - left,
            ),
            None => forall|v: u64, rest: Seq<u8>| bytes@ != #[trigger] (bigsize(v) + rest),
        },
{
    let mut reader = bytes;
    match u64::consensus_decode_partial(&mut reader, &Default::default()) {
        Ok(v) => Some((v, reader.len())),
        Err(_) => None,
    }
}

/// `big_endian` has `n` bytes.
pub proof fn lemma_big_endian_len(v: int, n: nat)
    ensures
        big_endian(v, n).len() == n,
    decreases n,
{
    if n > 0 {
        lemma_big_endian_len(v / 256, (n - 1) as nat);
    }
}

/// Two numbers with the same digits agree below the first digit left out.
proof fn lemma_big_endian_injective(a: int, b: int, n: nat, limit: int)
    requires
        big_endian(a, n) == big_endian(b, n),
        n == 0 ==> limit == 1,
        n == 2 ==> limit == 0x1_0000,
        n == 4 ==> limit == 0x1_0000_0000,
        n == 8 ==> limit == 0x1_0000_0000_0000_0000,
        n == 0 || n == 2 || n == 4 || n == 8,
        0 <= a < limit,
        0 <= b < limit,
    ensures
        a == b,
{
    lemma_digits_equal(a, b, n);
    reveal_with_fuel(pow256, 9);
    assert(a % limit == a && b % limit == b) by (nonlinear_arith)
        requires
            0 <= a < limit,
            0 <= b < limit,
    ;
}

/// The digits of a number determine it modulo the power of 256 that they span.
proof fn lemma_digits_equal(a: int, b: int, n: nat)
    requires
        big_endian(a, n) == big_endian(b, n),
        0 <= a,
        0 <= b,
    ensures
        a % pow256(n) == b % pow256(n),
        0 < pow256(n),
    decreases n,
{
    if n > 0 {
        let x = big_endian(a / 256, (n - 1) as nat);
        let y = big_endian(b / 256, (n - 1) as nat);
        lemma_push_equal(x, (a % 256) as u8, y, (b % 256) as u8, n);
        lemma_digits_equal(a / 256, b / 256, (n - 1) as nat);
        lemma_mod_split(a, pow256((n - 1) as nat));
        lemma_mod_split(b, pow256((n - 1) as nat));
    }
}

proof fn lemma_push_equal(x: Seq<u8>, a: u8, y: Seq<u8>, b: u8, n: nat)
    ensures
        x.push(a) == y.push(b) ==> x == y && a == b,
{
    if x.push(a) == y.push(b) {
        assert(x.push(a).len() == y.push(b).len());
        assert(x.push(a)[x.len() as int] == a);
        assert(y.push(b)[y.len() as int] == b);
        assert(x =~= x.push(a).drop_last());
        assert(y =~= y.push(b).drop_last());
    }
}

/// `256^n`.
spec fn pow256(n: nat) -> int
    decreases n,
{
    if n == 0 {
        1
    } else {
        256 * pow256((n - 1) as nat)
    }
}

proof fn lemma_mod_split(a: int, p: int)
    requires
        0 <= a,
        0 < p,
    ensures
        a % (256 * p) == 256 * ((a / 256) % p) + a % 256,
{
    let q = a / 256;
    let r = a % 256;
    let s = q / p;
    let t = q % p;
    assert(a == 256 * q + r);
    assert(q == p * s + t && 0 <= t < p) by (nonlinear_arith)
        requires
            0 < p,
            s == q / p,
            t == q % p,
    ;
    assert(256 * q + r == (256 * p) * s + (256 * t + r)) by (nonlinear_arith)
        requires
            q == p * s + t,
    ;
    assert((256 * q + r) % (256 * p) == 256 * t + r) by (nonlinear_arith)
        requires
            256 * q + r == (256 * p) * s + (256 * t + r),
            0 <= t < p,
            0 <= r < 256,
            0 < p,
    ;
}

/// An integer's encoding is never empty.
pub proof fn lemma_bigsize_len(v: u64)
    ensures
        1 <= bigsize(v).len() <= 9,
        bigsize(v).len() == (if v < 0xfd {
            1int
        } else if v <= 0xffff {
            3
        } else if v <= 0xffff_ffff {
            5
        } else {
            9
        }),
        bigsize(v)[0] == (if v < 0xfd {
            v as u8
        } else if v <= 0xffff {
            0xfdu8
        } else if v <= 0xffff_ffff {
            0xfeu8
        } else {
            0xffu8
        }),
{
    lemma_big_endian_len(v as int, 2);
    lemma_big_endian_len(v as int, 4);
    lemma_big_endian_len(v as int, 8);
}

/// Integers can be read off the front of a byte string in only one way: no
/// encoding is the start of another.
pub proof fn lemma_bigsize_prefix(a: u64, x: Seq<u8>, b: u64, y: Seq<u8>)
    requires
        bigsize(a) + x == bigsize(b) + y,
    ensures
        a == b,
        x == y,
{
    lemma_bigsize_len(a);
    lemma_bigsize_len(b);
    let whole = bigsize(a) + x;
    assert(whole[0] == bigsize(a)[0]);
    assert(whole[0] == bigsize(b)[0]);
    let n = bigsize(a).len() as int;
    assert(n == bigsize(b).len());
    assert(bigsize(a) =~= whole.take(n));
    assert(bigsize(b) =~= whole.take(n));
    assert(x =~= whole.skip(n));
    assert(y =~= whole.skip(n));
    if n > 1 {
        assert(bigsize(a).skip(1) =~= big_endian(a as int, (n - 1) as nat));
        assert(bigsize(b).skip(1) =~= big_endian(b as int, (n - 1) as nat));
        lemma_big_endian_injective(
            a as int,
            b as int,
            (n - 1) as nat,
            if n == 3 {
                0x1_0000
            } else if n == 5 {
                0x1_0000_0000
            } else {
                0x1_0000_0000_0000_0000
            },
        );
    }
}

/// Big-endian numbers of one width sort as the numbers do.
proof fn lemma_big_endian_order(a: int, x: Seq<u8>, b: int, y: Seq<u8>, n: nat)
    requires
        0 <= a < b < pow256(n),
    ensures
        lex_lt(big_endian(a, n) + x, big_endian(b, n) + y),
    decreases n,
{
    if n > 0 {
        let m = (n - 1) as nat;
        let u = seq![(a % 256) as u8] + x;
        let v = seq![(b % 256) as u8] + y;
        assert(big_endian(a, n) + x =~= big_endian(a / 256, m) + u);
        assert(big_endian(b, n) + y =~= big_endian(b / 256, m) + v);
        if a / 256 < b / 256 {
            lemma_big_endian_order(a / 256, u, b / 256, v, m);
        } else {
            lemma_lex_common_start(big_endian(a / 256, m), u, v);
            assert(u[0] < v[0]);
        }
    }
}

/// Encoded integers sort as the integers do, whatever stands behind them.
pub proof fn law_bigsize_keeps_order(a: u64, x: Seq<u8>, b: u64, y: Seq<u8>)
    requires
        a < b,
    ensures
        lex_lt(bigsize(a) + x, bigsize(b) + y),
{
    lemma_bigsize_len(a);
    lemma_bigsize_len(b);
    let p = bigsize(a) + x;
    let q = bigsize(b) + y;
    assert(p[0] == bigsize(a)[0]);
    assert(q[0] == bigsize(b)[0]);
    if p[0] == q[0] {
        let n = (bigsize(a).len() - 1) as nat;
        let marker = seq![p[0]];
        assert(p =~= marker + (big_endian(a as int, n) + x));
        assert(q =~= marker + (big_endian(b as int, n) + y));
        lemma_lex_common_start(marker, big_endian(a as int, n) + x, big_endian(b as int, n) + y);
        reveal_with_fuel(pow256, 9);
        lemma_big_endian_order(a as int, x, b as int, y, n);
    }
}

/// The encodings of several integers, one after the other.
pub open spec fn bigsizes(vs: Seq<u64>) -> Seq<u8>
    decreases vs.len(),
{
    if vs.len() == 0 {
        Seq::empty()
    } else {
        bigsize(vs[0]) + bigsizes(vs.skip(1))
    }
}

/// Rows of equally many integers can be read in only one way.
pub proof fn lemma_bigsizes_prefix(a: Seq<u64>, x: Seq<u8>, b: Seq<u64>, y: Seq<u8>)
    requires
        a.len() == b.len(),
        bigsizes(a) + x == bigsizes(b) + y,
    ensures
        a == b,
        x == y,
    decreases a.len(),
{
    if a.len() == 0 {
        assert(a =~= b);
        assert(bigsizes(a) + x =~= x);
        assert(bigsizes(b) + y =~= y);
    } else {
        assert(bigsizes(a) + x =~= bigsize(a[0]) + (bigsizes(a.skip(1)) + x));
        assert(bigsizes(b) + y =~= bigsize(b[0]) + (bigsizes(b.skip(1)) + y));
        lemma_bigsize_prefix(a[0], bigsizes(a.skip(1)) + x, b[0], bigsizes(b.skip(1)) + y);
        lemma_bigsizes_prefix(a.skip(1), x, b.skip(1), y);
        assert(a =~= seq![a[0]] + a.skip(1));
        assert(b =~= seq![b[0]] + b.skip(1));
    }
}

/// One more integer at the end is one more encoding at the end.
pub proof fn lemma_bigsizes_push(vs: Seq<u64>, v: u64)
    ensures
        bigsizes(vs.push(v)) == bigsizes(vs) + bigsize(v),
    decreases vs.len(),
{
    if vs.len() == 0 {
        assert(vs.push(v)[0] == v);
        assert(bigsizes(vs.push(v).skip(1)) =~= Seq::<u8>::empty());
        assert(bigsizes(vs.push(v)) =~= bigsizes(vs) + bigsize(v));
    } else {
        assert(vs.push(v).skip(1) =~= vs.skip(1).push(v));
        lemma_bigsizes_push(vs.skip(1), v);
        assert(bigsizes(vs.push(v)) =~= bigsizes(vs) + bigsize(v));
    }
}

/// Blocks of equal length at the front can be told apart from what follows in
/// only one way.
pub proof fn lemma_block_prefix(a: Seq<u8>, x: Seq<u8>, b: Seq<u8>, y: Seq<u8>)
    requires
        a.len() == b.len(),
        a + x == b + y,
    ensures
        a == b,
        x == y,
{
    let n = a.len() as int;
    let whole = a + x;
    assert(a =~= whole.take(n));
    assert(b =~= whole.take(n));
    assert(x =~= whole.skip(n));
    assert(y =~= whole.skip(n));
}

/// Byte strings behind their lengths can be read in only one way.
pub proof fn lemma_byte_string_prefix(a: Seq<u8>, x: Seq<u8>, b: Seq<u8>, y: Seq<u8>)
    requires
        a.len() <= u64::MAX,
        b.len() <= u64::MAX,
        byte_string(a) + x == byte_string(b) + y,
    ensures
        a == b,
        x == y,
{
    assert(byte_string(a) + x =~= bigsize(a.len() as u64) + (a + x));
    assert(byte_string(b) + y =~= bigsize(b.len() as u64) + (b + y));
    lemma_bigsize_prefix(a.len() as u64, a + x, b.len() as u64, b + y);
    lemma_block_prefix(a, x, b, y);
}

/// The encoding of a text: its UTF-8 form as a byte string.
pub open spec fn text_bytes(s: Seq<char>) -> Seq<u8> {
    byte_string(encode_utf8(s))
}

/// Texts behind their lengths can be read in only one way.
pub proof fn lemma_text_prefix(a: Seq<char>, x: Seq<u8>, b: Seq<char>, y: Seq<u8>)
    requires
        encode_utf8(a).len() <= u64::MAX,
        encode_utf8(b).len() <= u64::MAX,
        text_bytes(a) + x == text_bytes(b) + y,
    ensures
        a == b,
        x == y,
{
    lemma_byte_string_prefix(encode_utf8(a), x, encode_utf8(b), y);
    encode_utf8_decode_utf8(a);
    encode_utf8_decode_utf8(b);
}

/// `String::from_utf8`: the text whose UTF-8 form the bytes are; nothing where
/// they are not UTF-8.
#[verifier::external_body]
fn string_from_utf8(bytes: Vec<u8>) -> (r: Option<String>)
    ensures
        match r {
            Some(s) => encode_utf8(s@) == bytes@,
            None => !valid_utf8(bytes@),
        },
{
    String::from_utf8(bytes).ok()
}

/// Appends a text behind the length of its UTF-8 form.
pub fn append_text(out: &mut Vec<u8>, s: &str)
    ensures
        final(out)@ == old(out)@ + text_bytes(s@),
{
    append_byte_string(out, s.as_bytes());
}

/// Appends the encodings of several integers.
pub fn append_u64s(out: &mut Vec<u8>, vs: &[u64])
    ensures
        final(out)@ == old(out)@ + bigsizes(vs@),
{
    let mut i: usize = 0;
    assert(out@ =~= old(out)@ + bigsizes(vs@.take(0)));
    while i < vs.len()
        invariant
            i <= vs.len(),
            out@ == old(out)@ + bigsizes(vs@.take(i as int)),
        decreases vs.len() - i,
    {
        append_bytes(out, encode_u64(vs[i]).as_slice());
        proof {
            lemma_bigsizes_push(vs@.take(i as int), vs@[i as int]);
            assert(vs@.take(i as int).push(vs@[i as int]) =~= vs@.take(i as int + 1));
            assert(out@ =~= old(out)@ + bigsizes(vs@.take(i as int + 1)));
        }
        i = i + 1;
    }
    assert(vs@.take(vs.len() as int) =~= vs@);
}

/// Appends a byte string behind its length.
pub fn append_byte_string(out: &mut Vec<u8>, bytes: &[u8])
    ensures
        final(out)@ == old(out)@ + byte_string(bytes@),
{
    append_bytes(out, encode_u64(bytes.len() as u64).as_slice());
    append_bytes(out, bytes);
    assert(out@ =~= old(out)@ + byte_string(bytes@));
}

/// The bytes as an array.
pub fn to_array<const N: usize>(bytes: &[u8]) -> (r: [u8; N])
    requires
        bytes@.len() == N,
    ensures
        r@ == bytes@,
{
    let mut a: [u8; N] = [0; N];
    let mut i: usize = 0;
    while i < N
        invariant
            i <= N,
            bytes@.len() == N,
            a@.len() == N,
            forall|j: int| 0 <= j < i ==> a@[j] == bytes@[j],
        decreases N - i,
    {
        a[i] = bytes[i];
        i = i + 1;
    }
    assert(a@ =~= bytes@);
    a
}

/// Reads values off the front of a byte string.
pub struct Reader<'a> {
    bytes: &'a [u8],
    pos: usize,
}

impl<'a> Reader<'a> {
    /// The position lies within the bytes.
    pub closed spec fn wf(self) -> bool {
        self.pos <= self.bytes@.len()
    }

    /// What has not been read yet.
    pub closed spec fn rest(self) -> Seq<u8> {
        self.bytes@.skip(self.pos as int)
    }

    /// A reader at the start of `bytes`.
    pub fn new(bytes: &'a [u8]) -> (r: Reader<'a>)
        ensures
            r.wf(),
            r.rest() == bytes@,
    {
        assert(bytes@.skip(0) =~= bytes@);
        Reader { bytes, pos: 0 }
    }

    /// Whether everything has been read.
    pub fn is_done(&self) -> (r: bool)
        requires
            self.wf(),
        ensures
            r == (self.rest() == Seq::<u8>::empty()),
    {
        let r = self.pos == self.bytes.len();
        proof {
            if r {
                assert(self.rest() =~= Seq::<u8>::empty());
            } else {
                assert(self.rest().len() > 0);
            }
        }
        r
    }

    /// Reads one integer.
    pub fn read_u64(&mut self) -> (r: Option<u64>)
        requires
            old(self).wf(),
        ensures
            final(self).wf(),
            match r {
                Some(v) => old(self).rest() == bigsize(v) + final(self).rest(),
                None => forall|v: u64, rest: Seq<u8>|
                    old(self).rest() != #[trigger] (bigsize(v) + rest),
            },
    {
        let len: usize = self.bytes.len();
        let tail: &[u8] = vstd::slice::slice_subrange(self.bytes, self.pos, len);
        assert(tail@ =~= self.rest());
        match decode_u64(tail) {
            Some((v, left)) => {
                self.pos = len - left;
                assert(self.rest() =~= tail@.skip(tail@.len() - left));
                Some(v)
            },
            None => None,
        }
    }

    /// Reads `n` bytes.
    pub fn read_bytes(&mut self, n: usize) -> (r: Option<Vec<u8>>)
        requires
            old(self).wf(),
        ensures
            final(self).wf(),
            match r {
                Some(v) => v@.len() == n && old(self).rest() == v@ + final(self).rest(),
                None => old(self).rest().len() < n,
            },
    {
        let len: usize = self.bytes.len();
        if len - self.pos < n {
            return None;
        }
        let next: usize = self.pos + n;
        let mut v: Vec<u8> = Vec::new();
        append_bytes(&mut v, vstd::slice::slice_subrange(self.bytes, self.pos, next));
        self.pos = next;
        assert(old(self).rest() =~= v@ + self.rest());
        Some(v)
    }

    /// Reads a byte string behind its length.
    pub fn read_byte_string(&mut self) -> (r: Option<Vec<u8>>)
        requires
            old(self).wf(),
        ensures
            final(self).wf(),
            match r {
                Some(v) => v@.len() <= u64::MAX && old(self).rest() == byte_string(v@)
                    + final(self).rest(),
                None => forall|v: Seq<u8>, rest: Seq<u8>|
                    v.len() <= u64::MAX ==> old(self).rest() != #[trigger] (byte_string(v) + rest),
            },
    {
        let len: Option<u64> = self.read_u64();
        let ghost behind = self.rest();
        let total: usize = self.bytes.len();
        assert(behind.len() <= total);
        let bytes: Option<Vec<u8>> = match len {
            Some(n) => if n <= usize::MAX as u64 {
                self.read_bytes(n as usize)
            } else {
                None
            },
            None => None,
        };
        match bytes {
            Some(v) => {
                assert(byte_string(v@) + self.rest() =~= bigsize(len->0) + (v@ + self.rest()));
                Some(v)
            },
            None => {
                proof {
                    assert forall|v: Seq<u8>, rest: Seq<u8>| v.len() <= u64::MAX implies old(
                        self,
                    ).rest() != #[trigger] (byte_string(v) + rest) by {
                        if old(self).rest() == byte_string(v) + rest {
                            assert(byte_string(v) + rest =~= bigsize(v.len() as u64) + (v + rest));
                            lemma_bigsize_prefix(len->0, behind, v.len() as u64, v + rest);
                            assert(behind.len() >= v.len());
                        }
                    }
                }
                None
            },
        }
    }

    /// Reads a text behind the length of its UTF-8 form.
    pub fn read_text(&mut self) -> (r: Option<String>)
        requires
            old(self).wf(),
        ensures
            final(self).wf(),
            match r {
                Some(s) => encode_utf8(s@).len() <= u64::MAX && old(self).rest() == text_bytes(s@)
                    + final(self).rest(),
                None => forall|s: Seq<char>, rest: Seq<u8>|
                    encode_utf8(s).len() <= u64::MAX ==> old(self).rest() != #[trigger] (text_bytes(
                        s,
                    ) + rest),
            },
    {
        let bytes: Option<Vec<u8>> = self.read_byte_string();
        let ghost tail = self.rest();
        let ghost read = bytes;
        let text: Option<String> = match bytes {
            Some(bytes) => string_from_utf8(bytes),
            None => None,
        };
        proof {
            if text is None {
                assert forall|s: Seq<char>, rest: Seq<u8>|
                    encode_utf8(s).len() <= u64::MAX implies old(self).rest() != #[trigger] (
                text_bytes(s) + rest) by {
                    if old(self).rest() == text_bytes(s) + rest {
                        encode_utf8_valid_utf8(s);
                        if read is Some {
                            lemma_byte_string_prefix((read->0)@, tail, encode_utf8(s), rest);
                        }
                    }
                }
            }
        }
        text
    }

    /// Reads one byte that has to be `marker`.
    pub fn read_marker(&mut self, marker: u8) -> (r: bool)
        requires
            old(self).wf(),
        ensures
            final(self).wf(),
            r ==> old(self).rest() == seq![marker] + final(self).rest(),
            !r ==> forall|rest: Seq<u8>| old(self).rest() != #[trigger] (seq![marker] + rest),
    {
        match self.read_bytes(1) {
            Some(v) => {
                if v[0] == marker {
                    assert(v@ =~= seq![marker]);
                    true
                } else {
                    proof {
                        assert forall|rest: Seq<u8>| old(self).rest() != #[trigger] (seq![marker]
                            + rest) by {
                            assert(old(self).rest()[0] == v@[0]);
                            assert((seq![marker] + rest)[0] == marker);
                        }
                    }
                    false
                }
            },
            None => {
                proof {
                    assert forall|rest: Seq<u8>| old(self).rest() != #[trigger] (seq![marker]
                        + rest) by {
                        assert((seq![marker] + rest).len() >= 1);
                    }
                }
                false
            },
        }
    }

    /// Reads `n` integers.
    pub fn read_u64s(&mut self, n: usize) -> (r: Option<Vec<u64>>)
        requires
            old(self).wf(),
        ensures
            final(self).wf(),
            match r {
                Some(vs) => vs@.len() == n && old(self).rest() == bigsizes(vs@)
                    + final(self).rest(),
                None => forall|vs: Seq<u64>, rest: Seq<u8>|
                    vs.len() == n ==> old(self).rest() != #[trigger] (bigsizes(vs) + rest),
            },
    {
        let mut vs: Vec<u64> = Vec::new();
        assert(self.rest() =~= bigsizes(vs@) + self.rest());
        while vs.len() < n
            invariant
                self.wf(),
                vs@.len() <= n,
                old(self).rest() == bigsizes(vs@) + self.rest(),
            decreases n - vs@.len(),
        {
            let ghost before = self.rest();
            match self.read_u64() {
                Some(v) => {
                    let ghost read = vs@;
                    vs.push(v);
                    proof {
                        lemma_bigsizes_push(read, v);
                        assert(old(self).rest() =~= bigsizes(vs@) + self.rest());
                    }
                },
                None => {
                    proof {
                        assert forall|ws: Seq<u64>, rest: Seq<u8>| ws.len() == n implies old(
                            self,
                        ).rest() != #[trigger] (bigsizes(ws) + rest) by {
                            if old(self).rest() == bigsizes(ws) + rest {
                                let k = vs@.len() as int;
                                lemma_bigsizes_split(ws, k);
                                let behind = bigsizes(ws.skip(k)) + rest;
                                assert(bigsizes(ws) + rest =~= bigsizes(ws.take(k)) + behind);
                                lemma_bigsizes_prefix(vs@, before, ws.take(k), behind);
                                assert(behind =~= bigsize(ws.skip(k)[0]) + (bigsizes(
                                    ws.skip(k).skip(1),
                                ) + rest));
                            }
                        }
                    }
                    return None;
                },
            }
        }
        Some(vs)
    }

    /// Reads `N` bytes as an array.
    pub fn read_array<const N: usize>(&mut self) -> (r: Option<[u8; N]>)
        requires
            old(self).wf(),
        ensures
            final(self).wf(),
            match r {
                Some(a) => old(self).rest() == a@ + final(self).rest(),
                None => old(self).rest().len() < N,
            },
    {
        match self.read_bytes(N) {
            Some(v) => Some(to_array::<N>(v.as_slice())),
            None => None,
        }
    }
}

/// A row of integers is its first few and the rest.
pub proof fn lemma_bigsizes_split(vs: Seq<u64>, k: int)
    requires
        0 <= k <= vs.len(),
    ensures
        bigsizes(vs) == bigsizes(vs.take(k)) + bigsizes(vs.skip(k)),
    decreases vs.len(),
{
    if k == 0 {
        assert(vs.skip(0) =~= vs);
        assert(bigsizes(vs) =~= bigsizes(vs.take(0)) + bigsizes(vs.skip(0)));
    } else {
        lemma_bigsizes_split(vs.skip(1), k - 1);
        assert(vs.take(k).skip(1) =~= vs.skip(1).take(k - 1));
        assert(vs.skip(1).skip(k - 1) =~= vs.skip(k));
        assert(bigsizes(vs) =~= bigsizes(vs.take(k)) + bigsizes(vs.skip(k)));
    }
}

} // verus!
