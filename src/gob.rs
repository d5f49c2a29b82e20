//! The primitive wire encodings of gob: unsigned and signed integers,
//! booleans, floats (as bit patterns) and length-prefixed byte strings,
//! read from and written to a byte buffer with a cursor.

use vstd::prelude::*;

verus! {

/// Failures of the byte codec.
#[derive(Debug, Clone, Copy, PartialEq, Eq, Structural)]
pub enum Error {
    /// Fewer bytes remain than the read needs.
    IncompleteMessage,
    /// A value does not fit what was asked for (a boolean other than 0 or 1,
    /// an unsigned integer longer than eight bytes).
    IntegerOverflow,
}

/// `256` to the power `k`.
pub open spec fn pow256(k: nat) -> nat
    decreases k,
{
    if k == 0 {
        1
    } else {
        256 * pow256((k - 1) as nat)
    }
}

/// The number that a byte sequence denotes, read most significant byte first.
pub open spec fn be_value(s: Seq<u8>) -> nat
    decreases s.len(),
{
    if s.len() == 0 {
        0
    } else {
        (be_value(s.drop_last()) * 256 + s.last()) as nat
    }
}

/// The `k` low bytes of `n`, most significant first.
pub open spec fn be_bytes(n: nat, k: nat) -> Seq<u8>
    decreases k,
{
    if k == 0 {
        seq![]
    } else {
        be_bytes(n / 256, (k - 1) as nat).push((n % 256) as u8)
    }
}

/// The `k` low bytes of `n`, least significant first.
pub open spec fn le_bytes(n: nat, k: nat) -> Seq<u8>
    decreases k,
{
    if k == 0 {
        seq![]
    } else {
        seq![(n % 256) as u8] + le_bytes(n / 256, (k - 1) as nat)
    }
}

/// The fewest bytes (at least one) that hold `n`.
pub open spec fn byte_len(n: nat) -> nat
    decreases n,
{
    if n < 256 {
        1
    } else {
        1 + byte_len(n / 256)
    }
}

/// The wire form of an unsigned integer: one byte below 128, else a marker
/// byte `256 - k` followed by the `k` significant bytes, big-endian.
pub open spec fn uint_encoding(n: u64) -> Seq<u8> {
    if n < 128 {
        seq![n as u8]
    } else {
        seq![(256 - byte_len(n as nat)) as u8] + be_bytes(n as nat, byte_len(n as nat))
    }
}

/// Folds the sign of `n` into the low bit.
pub open spec fn zigzag(n: i64) -> u64 {
    if n < 0 {
        (2 * (-(n as int) - 1) + 1) as u64
    } else {
        (2 * n) as u64
    }
}

/// Undoes `zigzag`: the low bit picks the sign.
pub open spec fn unzigzag(u: u64) -> i64 {
    if u % 2 == 0 {
        (u / 2) as i64
    } else {
        (-((u / 2) as int) - 1) as i64
    }
}

/// `x` with its eight bytes in reverse order.
pub open spec fn swap64(x: u64) -> u64 {
    be_value(le_bytes(x as nat, 8)) as u64
}

/// Reads an unsigned integer at `pos`: the value and the position after it.
pub open spec fn uint_at(s: Seq<u8>, pos: nat) -> Result<(u64, nat), Error> {
    if pos >= s.len() {
        Err(Error::IncompleteMessage)
    } else {
        let b = s[pos as int];
        if b < 128 {
            Ok((b as u64, pos + 1))
        } else {
            let len = (256 - b) as nat;
            let start = pos + 1;
            if start + len > s.len() {
                Err(Error::IncompleteMessage)
            } else if len > 8 {
                Err(Error::IntegerOverflow)
            } else {
                Ok((be_value(s.subrange(start as int, (start + len) as int)) as u64, start + len))
            }
        }
    }
}

/// Reads a signed integer at `pos`.
pub open spec fn int_at(s: Seq<u8>, pos: nat) -> Result<(i64, nat), Error> {
    match uint_at(s, pos) {
        Ok((u, p)) => Ok((unzigzag(u), p)),
        Err(e) => Err(e),
    }
}

/// Reads a boolean at `pos`: 0 or 1, anything else overflows.
pub open spec fn bool_at(s: Seq<u8>, pos: nat) -> Result<(bool, nat), Error> {
    match uint_at(s, pos) {
        Ok((u, p)) => if u == 0 {
            Ok((false, p))
        } else if u == 1 {
            Ok((true, p))
        } else {
            Err(Error::IntegerOverflow)
        },
        Err(e) => Err(e),
    }
}

/// Reads a float's bit pattern at `pos`: the integer read, bytes reversed.
pub open spec fn float_bits_at(s: Seq<u8>, pos: nat) -> Result<(u64, nat), Error> {
    match uint_at(s, pos) {
        Ok((u, p)) => Ok((swap64(u), p)),
        Err(e) => Err(e),
    }
}

/// Reads a byte-string length at `pos` and checks that that many bytes follow.
pub open spec fn bytes_len_at(s: Seq<u8>, pos: nat) -> Result<(nat, nat), Error> {
    match uint_at(s, pos) {
        Ok((u, p)) => if p + u > s.len() {
            Err(Error::IncompleteMessage)
        } else {
            Ok((u as nat, p))
        },
        Err(e) => Err(e),
    }
}

proof fn lemma_pow256_mono(i: nat, j: nat)
    requires
        i <= j,
    ensures
        pow256(i) <= pow256(j),
    decreases j,
{
    if i < j {
        lemma_pow256_mono(i, (j - 1) as nat);
    }
}

proof fn lemma_pow256_le8(i: nat)
    requires
        i <= 8,
    ensures
        pow256(i) <= 0x1_0000_0000_0000_0000,
{
    lemma_pow256_mono(i, 8);
    reveal_with_fuel(pow256, 9);
}

proof fn lemma_be_value_bound(s: Seq<u8>)
    ensures
        be_value(s) < pow256(s.len()),
    decreases s.len(),
{
    if s.len() > 0 {
        let v = be_value(s.drop_last());
        let p = pow256((s.len() - 1) as nat);
        lemma_be_value_bound(s.drop_last());
        let b = s.last() as int;
        assert(v * 256 + b < p * 256) by (nonlinear_arith)
            requires
                v < p,
                0 <= b < 256,
        ;
    }
}

proof fn lemma_be_bytes_len(n: nat, k: nat)
    ensures
        be_bytes(n, k).len() == k,
    decreases k,
{
    if k > 0 {
        lemma_be_bytes_len(n / 256, (k - 1) as nat);
    }
}

proof fn lemma_be_round(n: nat, k: nat)
    requires
        n < pow256(k),
    ensures
        be_value(be_bytes(n, k)) == n,
    decreases k,
{
    if k > 0 {
        let p = pow256((k - 1) as nat);
        assert(n / 256 < p) by (nonlinear_arith)
            requires
                n < 256 * p,
        ;
        lemma_be_round(n / 256, (k - 1) as nat);
        let s = be_bytes(n, k);
        assert(s.drop_last() =~= be_bytes(n / 256, (k - 1) as nat));
        assert((n / 256) * 256 + n % 256 == n) by (nonlinear_arith);
    } else {
        assert(n == 0);
    }
}

proof fn lemma_byte_len_fits(n: nat)
    ensures
        n < pow256(byte_len(n)),
        byte_len(n) >= 1,
        byte_len(n) == 1 || n >= pow256((byte_len(n) - 1) as nat),
    decreases n,
{
    assert(pow256(1) == 256) by {
        reveal_with_fuel(pow256, 2);
    }
    if n >= 256 {
        lemma_byte_len_fits(n / 256);
        let k = byte_len(n / 256);
        let p = pow256(k);
        assert(n < 256 * p) by (nonlinear_arith)
            requires
                n / 256 < p,
        ;
        if k > 1 {
            let q = pow256((k - 1) as nat);
            assert(n >= 256 * q) by (nonlinear_arith)
                requires
                    n / 256 >= q,
            ;
        }
    }
}

proof fn lemma_byte_len_bound(n: nat, j: nat)
    requires
        n < pow256(j),
        j >= 1,
    ensures
        byte_len(n) <= j,
    decreases n,
{
    if n >= 256 {
        let p = pow256((j - 1) as nat);
        assert(n / 256 < p) by (nonlinear_arith)
            requires
                n < 256 * p,
        ;
        if j == 1 {
            assert(false);
        }
        lemma_byte_len_bound(n / 256, (j - 1) as nat);
    }
}

/// The length of an unsigned integer's wire form, and that no shorter form
/// holds it.
pub proof fn lemma_uint_encoding_minimal(n: u64)
    ensures
        n < 128 ==> uint_encoding(n).len() == 1,
        n >= 128 ==> uint_encoding(n).len() == 1 + byte_len(n as nat),
        n >= 128 ==> 1 <= byte_len(n as nat) <= 8,
        n >= 128 ==> n as nat >= pow256((byte_len(n as nat) - 1) as nat) || byte_len(n as nat) == 1,
{
    lemma_byte_len_fits(n as nat);
    lemma_pow256_le8(8);
    reveal_with_fuel(pow256, 9);
    lemma_byte_len_bound(n as nat, 8);
    lemma_be_bytes_len(n as nat, byte_len(n as nat));
}

/// Every unsigned integer reads back from its wire form, wherever the form
/// stands in a buffer, and the read ends right after it.
pub proof fn lemma_uint_round_trip(prefix: Seq<u8>, n: u64, suffix: Seq<u8>)
    ensures
        uint_at(prefix + uint_encoding(n) + suffix, prefix.len()) == Ok::<(u64, nat), Error>(
            (n, prefix.len() + uint_encoding(n).len()),
        ),
{
    let s = prefix + uint_encoding(n) + suffix;
    let e = uint_encoding(n);
    lemma_uint_encoding_minimal(n);
    assert(s[prefix.len() as int] == e[0]);
    if n >= 128 {
        let k = byte_len(n as nat);
        lemma_byte_len_fits(n as nat);
        lemma_be_bytes_len(n as nat, k);
        let start = prefix.len() + 1;
        assert(s.subrange(start as int, (start + k) as int) =~= be_bytes(n as nat, k));
        lemma_be_round(n as nat, k);
    }
}

/// Every signed integer survives the sign folding.
pub proof fn lemma_zigzag_round_trip(n: i64)
    ensures
        unzigzag(zigzag(n)) == n,
{
}

/// Every signed integer reads back from the wire form of its folding.
pub proof fn lemma_int_round_trip(prefix: Seq<u8>, n: i64, suffix: Seq<u8>)
    ensures
        int_at(prefix + uint_encoding(zigzag(n)) + suffix, prefix.len()) == Ok::<(i64, nat), Error>(
            (n, prefix.len() + uint_encoding(zigzag(n)).len()),
        ),
{
    lemma_uint_round_trip(prefix, zigzag(n), suffix);
}

/// Every boolean reads back from the wire form of 0 or 1.
pub proof fn lemma_bool_round_trip(prefix: Seq<u8>, b: bool, suffix: Seq<u8>)
    ensures
        bool_at(prefix + uint_encoding(if b { 1u64 } else { 0u64 }) + suffix, prefix.len())
            == Ok::<(bool, nat), Error>((b, prefix.len() + 1)),
{
    lemma_uint_round_trip(prefix, if b { 1u64 } else { 0u64 }, suffix);
}

/// Every proper prefix of an unsigned integer's wire form is too short to
/// read.
pub proof fn lemma_uint_truncated(n: u64, k: nat)
    requires
        k < uint_encoding(n).len(),
    ensures
        uint_at(uint_encoding(n).subrange(0, k as int), 0) == Err::<(u64, nat), Error>(
            Error::IncompleteMessage,
        ),
{
    lemma_uint_encoding_minimal(n);
    let e = uint_encoding(n);
    if k > 0 {
        assert(e.subrange(0, k as int)[0] == e[0]);
    }
}

/// A byte string reads back from its length and bytes: the length is
/// given and the bytes start right after it.
pub proof fn lemma_bytes_round_trip(prefix: Seq<u8>, b: Seq<u8>, suffix: Seq<u8>)
    requires
        b.len() <= u64::MAX,
    ensures
        bytes_len_at(prefix + uint_encoding(b.len() as u64) + b + suffix, prefix.len())
            == Ok::<(nat, nat), Error>(
            (b.len(), prefix.len() + uint_encoding(b.len() as u64).len()),
        ),
        (prefix + uint_encoding(b.len() as u64) + b + suffix).subrange(
            (prefix.len() + uint_encoding(b.len() as u64).len()) as int,
            (prefix.len() + uint_encoding(b.len() as u64).len() + b.len()) as int,
        ) == b,
{
    let e = uint_encoding(b.len() as u64);
    let s = prefix + e + b + suffix;
    assert(s == prefix + e + (b + suffix));
    lemma_uint_round_trip(prefix, b.len() as u64, b + suffix);
    assert(s.subrange((prefix.len() + e.len()) as int, (prefix.len() + e.len() + b.len()) as int) =~= b);
}

proof fn lemma_le_of_be(s: Seq<u8>)
    ensures
        le_bytes(be_value(s), s.len()) == s.reverse(),
    decreases s.len(),
{
    if s.len() > 0 {
        let t = s.drop_last();
        let b = s.last();
        lemma_le_of_be(t);
        let v = be_value(s);
        assert(v % 256 == b && v / 256 == be_value(t)) by (nonlinear_arith)
            requires
                v == be_value(t) * 256 + b,
                0 <= b < 256,
        ;
        assert(s.reverse() =~= seq![b] + t.reverse());
    }
}

proof fn lemma_be_of_le_rev(x: nat, k: nat)
    requires
        x < pow256(k),
    ensures
        be_value(le_bytes(x, k).reverse()) == x,
        le_bytes(x, k).len() == k,
    decreases k,
{
    if k > 0 {
        let p = pow256((k - 1) as nat);
        assert(x / 256 < p) by (nonlinear_arith)
            requires
                x < 256 * p,
        ;
        lemma_be_of_le_rev(x / 256, (k - 1) as nat);
        let r = le_bytes(x, k).reverse();
        assert(r.drop_last() =~= le_bytes(x / 256, (k - 1) as nat).reverse());
        assert(r.last() == (x % 256) as u8);
        assert((x / 256) * 256 + x % 256 == x) by (nonlinear_arith);
    } else {
        assert(x == 0);
    }
}

/// Reversing the bytes twice gives the number back, so a float's bit
/// pattern survives a write and a read.
pub proof fn lemma_swap64_involution(x: u64)
    ensures
        swap64(swap64(x)) == x,
{
    lemma_pow256_le8(8);
    reveal_with_fuel(pow256, 9);
    lemma_be_of_le_rev(x as nat, 8);
    let l = le_bytes(x as nat, 8);
    lemma_be_value_bound(l);
    lemma_le_of_be(l);
    assert(l.reverse().reverse() =~= l);
    lemma_be_value_bound(l.reverse());
}

/// A cursor over a byte buffer: reads consume from the position on, writes
/// append at the end.
pub struct Message {
    buf: Vec<u8>,
    pos: usize,
}

impl Message {
    /// The bytes held.
    pub closed spec fn bytes(&self) -> Seq<u8> {
        self.buf@
    }

    /// The read position.
    pub closed spec fn position(&self) -> nat {
        self.pos as nat
    }

    /// A cursor at the start of `buf`.
    pub fn new(buf: Vec<u8>) -> (r: Message)
        ensures
            r.bytes() == buf@,
            r.position() == 0,
    {
        Message { buf, pos: 0 }
    }

    /// The buffer.
    pub fn get_ref(&self) -> (r: &Vec<u8>)
        ensures
            r@ == self.bytes(),
    {
        &self.buf
    }

    /// The buffer, for changing; the position stays.
    pub fn get_mut(&mut self) -> (r: &mut Vec<u8>)
        ensures
            r@ == old(self).bytes(),
            final(self).bytes() == final(r)@,
            final(self).position() == old(self).position(),
    {
        &mut self.buf
    }

    /// The read position, as a number.
    pub fn pos(&self) -> (r: usize)
        ensures
            r == self.position(),
    {
        self.pos
    }

    /// Reads an unsigned integer.
    pub fn read_uint(&mut self) -> (r: Result<u64, Error>)
        ensures
            final(self).bytes() == old(self).bytes(),
            match uint_at(old(self).bytes(), old(self).position()) {
                Ok((v, p)) => r == Ok::<u64, Error>(v) && final(self).position() == p,
                Err(e) => r == Err::<u64, Error>(e),
            },
    {
        let ghost s = self.buf@;
        if self.pos >= self.buf.len() {
            return Err(Error::IncompleteMessage);
        }
        let b = self.buf[self.pos];
        self.pos = self.pos + 1;
        if b < 128 {
            return Ok(b as u64);
        }
        let len: usize = (256 - b as u16) as usize;
        if self.buf.len() - self.pos < len {
            return Err(Error::IncompleteMessage);
        }
        if len > 8 {
            return Err(Error::IntegerOverflow);
        }
        let start = self.pos;
        let mut v: u64 = 0;
        let mut i: usize = 0;
        while i < len
            invariant
                s == self.buf@,
                start + len <= s.len(),
                s.len() <= usize::MAX,
                len <= 8,
                i <= len,
                v == be_value(s.subrange(start as int, (start + i) as int)),
            decreases len - i,
        {
            let ghost sub = s.subrange(start as int, (start + i + 1) as int);
            assert(sub.drop_last() =~= s.subrange(start as int, (start + i) as int));
            proof {
                lemma_be_value_bound(sub);
                lemma_pow256_le8((i + 1) as nat);
            }
            v = v * 256 + self.buf[start + i] as u64;
            i = i + 1;
        }
        self.pos = start + len;
        Ok(v)
    }

    /// Reads a signed integer.
    pub fn read_int(&mut self) -> (r: Result<i64, Error>)
        ensures
            final(self).bytes() == old(self).bytes(),
            match int_at(old(self).bytes(), old(self).position()) {
                Ok((v, p)) => r == Ok::<i64, Error>(v) && final(self).position() == p,
                Err(e) => r == Err::<i64, Error>(e),
            },
    {
        let bits = self.read_uint()?;
        let half = bits / 2;
        if bits % 2 == 0 {
            Ok(half as i64)
        } else {
            Ok(-(half as i64) - 1)
        }
    }

    /// Reads a float's bit pattern: the integer read, with its bytes reversed.
    pub fn read_float(&mut self) -> (r: Result<u64, Error>)
        ensures
            final(self).bytes() == old(self).bytes(),
            match float_bits_at(old(self).bytes(), old(self).position()) {
                Ok((v, p)) => r == Ok::<u64, Error>(v) && final(self).position() == p,
                Err(e) => r == Err::<u64, Error>(e),
            },
    {
        let bits = self.read_uint()?;
        Ok(swap_bytes(bits))
    }

    /// Reads a boolean.
    pub fn read_bool(&mut self) -> (r: Result<bool, Error>)
        ensures
            final(self).bytes() == old(self).bytes(),
            match bool_at(old(self).bytes(), old(self).position()) {
                Ok((v, p)) => r == Ok::<bool, Error>(v) && final(self).position() == p,
                Err(e) => r == Err::<bool, Error>(e),
            },
    {
        let u = self.read_uint()?;
        if u == 0 {
            Ok(false)
        } else if u == 1 {
            Ok(true)
        } else {
            Err(Error::IntegerOverflow)
        }
    }

    /// Reads a byte-string length and checks that that many bytes remain.
    pub fn read_bytes_len(&mut self) -> (r: Result<usize, Error>)
        ensures
            final(self).bytes() == old(self).bytes(),
            match bytes_len_at(old(self).bytes(), old(self).position()) {
                Ok((v, p)) => r == Ok::<usize, Error>(v as usize) && final(self).position() == p,
                Err(e) => r == Err::<usize, Error>(e),
            },
    {
        let len = self.read_uint()?;
        if ((self.buf.len() - self.pos) as u64) < len {
            return Err(Error::IncompleteMessage);
        }
        Ok(len as usize)
    }

    /// Moves the read position `n` bytes on.
    pub fn advance(&mut self, n: usize)
        requires
            old(self).position() + n <= old(self).bytes().len(),
        ensures
            final(self).bytes() == old(self).bytes(),
            final(self).position() == old(self).position() + n,
    {
        // the buffer's length bounds the new position
        let _len = self.buf.len();
        self.pos = self.pos + n;
    }

    /// Appends an unsigned integer.
    pub fn write_uint(&mut self, n: u64) -> (r: Result<(), Error>)
        ensures
            r is Ok,
            final(self).bytes() == old(self).bytes() + uint_encoding(n),
            final(self).position() == old(self).position(),
    {
        if n < 128 {
            self.buf.push(n as u8);
            return Ok(());
        }
        let mut k: usize = 1;
        let mut m: u64 = n;
        proof {
            reveal_with_fuel(pow256, 9);
        }
        while m >= 256
            invariant
                1 <= k <= 8,
                k + byte_len(m as nat) == 1 + byte_len(n as nat),
                m < pow256((9 - k) as nat),
            decreases m,
        {
            let ghost p = pow256((8 - k) as nat);
            assert(k <= 7) by {
                if k == 8 {
                    assert(pow256(1) == 256) by {
                        reveal_with_fuel(pow256, 2);
                    }
                }
            }
            assert(m / 256 < p) by (nonlinear_arith)
                requires
                    m < 256 * p,
            ;
            m = m / 256;
            k = k + 1;
        }
        let mut out: Vec<u8> = Vec::new();
        let mut i: usize = 0;
        while i < k
            invariant
                out@.len() == i,
                i <= k,
            decreases k - i,
        {
            out.push(0);
            i = i + 1;
        }
        let mut m: u64 = n;
        let mut j: usize = k;
        assert(out@.subrange(k as int, k as int) =~= seq![]);
        assert(be_bytes(n as nat, k as nat) =~= be_bytes(m as nat, j as nat) + out@.subrange(j as int, k as int));
        while j > 0
            invariant
                out@.len() == k,
                j <= k,
                be_bytes(n as nat, k as nat) == be_bytes(m as nat, j as nat) + out@.subrange(j as int, k as int),
            decreases j,
        {
            let ghost old_out = out@;
            let ghost old_m = m;
            j = j - 1;
            out.set(j, (m % 256) as u8);
            m = m / 256;
            assert(out@.subrange(j as int, k as int) =~= seq![(old_m % 256) as u8] + old_out.subrange(j + 1, k as int));
            assert(be_bytes(old_m as nat, (j + 1) as nat) + old_out.subrange(j + 1, k as int) =~= be_bytes(m as nat, j as nat) + out@.subrange(j as int, k as int));
        }
        assert(out@ =~= be_bytes(n as nat, k as nat));
        self.buf.push((256 - k) as u8);
        self.buf.append(&mut out);
        Ok(())
    }

    /// Appends a boolean as 0 or 1.
    pub fn write_bool(&mut self, b: bool) -> (r: Result<(), Error>)
        ensures
            r is Ok,
            final(self).bytes() == old(self).bytes() + uint_encoding(if b { 1u64 } else { 0u64 }),
            final(self).position() == old(self).position(),
    {
        if b {
            self.write_uint(1)
        } else {
            self.write_uint(0)
        }
    }

    /// Appends a signed integer, its sign folded into the low bit.
    pub fn write_int(&mut self, n: i64) -> (r: Result<(), Error>)
        ensures
            r is Ok,
            final(self).bytes() == old(self).bytes() + uint_encoding(zigzag(n)),
            final(self).position() == old(self).position(),
    {
        let u: u64;
        if n < 0 {
            let m = (-(n + 1)) as u64;
            u = m * 2 + 1;
        } else {
            u = (n as u64) * 2;
        }
        self.write_uint(u)
    }

    /// Appends a float given by its bit pattern, bytes reversed.
    pub fn write_float(&mut self, bits: u64) -> (r: Result<(), Error>)
        ensures
            r is Ok,
            final(self).bytes() == old(self).bytes() + uint_encoding(swap64(bits)),
            final(self).position() == old(self).position(),
    {
        self.write_uint(swap_bytes(bits))
    }

    /// Appends a byte string with its length before it.
    pub fn write_bytes(&mut self, bytes: &[u8]) -> (r: Result<(), Error>)
        ensures
            r is Ok,
            final(self).bytes() == old(self).bytes() + uint_encoding(bytes@.len() as u64) + bytes@,
            final(self).position() == old(self).position(),
    {
        self.write_uint(bytes.len() as u64)?;
        let ghost mid = self.buf@;
        let mut i: usize = 0;
        while i < bytes.len()
            invariant
                i <= bytes@.len(),
                self.buf@ == mid + bytes@.subrange(0, i as int),
                self.pos == old(self).pos,
            decreases bytes@.len() - i,
        {
            self.buf.push(bytes[i]);
            i = i + 1;
            assert(self.buf@ =~= mid + bytes@.subrange(0, i as int));
        }
        assert(bytes@.subrange(0, bytes@.len() as int) =~= bytes@);
        Ok(())
    }
}

/// `x` with its eight bytes in reverse order.
pub fn swap_bytes(x: u64) -> (r: u64)
    ensures
        r == swap64(x),
{
    let mut m: u64 = x;
    let mut r: u64 = 0;
    let mut i: usize = 0;
    let ghost taken: Seq<u8> = seq![];
    while i < 8
        invariant
            i <= 8,
            taken.len() == i,
            le_bytes(x as nat, 8) == taken + le_bytes(m as nat, (8 - i) as nat),
            r == be_value(taken),
        decreases 8 - i,
    {
        let ghost old_m = m;
        let ghost next = taken.push((m % 256) as u8);
        assert(next.drop_last() =~= taken);
        proof {
            lemma_be_value_bound(next);
            lemma_pow256_le8((i + 1) as nat);
        }
        r = r * 256 + m % 256;
        m = m / 256;
        proof {
            assert(le_bytes(old_m as nat, (8 - i) as nat) =~= seq![(old_m % 256) as u8] + le_bytes(m as nat, (8 - i - 1) as nat));
            assert(taken + le_bytes(old_m as nat, (8 - i) as nat) =~= next + le_bytes(m as nat, (8 - i - 1) as nat));
            taken = next;
        }
        i = i + 1;
    }
    r
}

} // verus!
