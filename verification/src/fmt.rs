//! Writing text into fixed byte buffers, cut off at the buffer's end.
use vstd::prelude::*;

verus! {

/// The bytes of ASCII text.
pub open spec fn ascii_bytes(s: Seq<char>) -> Seq<u8> {
    s.map_values(|c: char| c as u8)
}

/// `n` zero bytes.
pub open spec fn zeros(n: nat) -> Seq<u8> {
    Seq::new(n, |i: int| 0u8)
}

/// The bytes of the ASCII text `s`.
pub fn ascii_text(s: &str) -> (v: Vec<u8>)
    requires
        vstd::string::is_ascii(s),
    ensures
        v@ == ascii_bytes(s@),
{
    proof {
        vstd::string::is_ascii_spec_bytes(s);
    }
    let b = s.as_bytes();
    assert(b@ =~= ascii_bytes(s@));
    let mut v: Vec<u8> = Vec::new();
    v.extend_from_slice(b);
    v
}

/// Where a write of `n` bytes at `idx` into a buffer of length `len` stops:
/// nothing is written from an index at or past the end, and the write is cut
/// off at the end.
pub open spec fn write_end(len: int, idx: int, n: int) -> int {
    if idx >= len {
        idx
    } else if n <= len - idx {
        idx + n
    } else {
        len
    }
}

/// The buffer `buf` after `bytes` is written into it at `idx`, cut off at its end.
pub open spec fn written(buf: Seq<u8>, idx: int, bytes: Seq<u8>) -> Seq<u8> {
    if idx >= buf.len() {
        buf
    } else {
        let e = write_end(buf.len() as int, idx, bytes.len() as int);
        buf.take(idx) + bytes.take(e - idx) + buf.skip(e)
    }
}

/// The decimal digits of `v`, most significant first, without leading zeros.
pub open spec fn dec_digits(v: nat) -> Seq<u8>
    decreases v,
{
    if v < 10 {
        seq![(48 + v) as u8]
    } else {
        dec_digits(v / 10).push((48 + v % 10) as u8)
    }
}

/// `10^k`.
pub open spec fn pow10(k: nat) -> nat
    decreases k,
{
    if k == 0 {
        1
    } else {
        10 * pow10((k - 1) as nat)
    }
}

/// A number below `10^k` has at most `k` digits.
pub proof fn lemma_dec_digits_len_bound(v: nat, k: nat)
    requires
        k >= 1,
        v < pow10(k),
    ensures
        1 <= dec_digits(v).len() <= k,
    decreases v,
{
    if v >= 10 {
        assert(k >= 2) by {
            if k == 1 {
                assert(pow10(1) == 10 * pow10(0));
            }
        }
        assert(pow10(k) == 10 * pow10((k - 1) as nat));
        lemma_dec_digits_len_bound(v / 10, (k - 1) as nat);
    }
}

/// A `u32` has at most ten decimal digits.
pub proof fn lemma_dec_digits_len(v: nat)
    ensures
        dec_digits(v).len() >= 1,
        v <= 0xffff_ffff ==> dec_digits(v).len() <= 10,
{
    assert(pow10(10) == 10_000_000_000) by {
        reveal_with_fuel(pow10, 11);
    }
    if v <= 0xffff_ffff {
        lemma_dec_digits_len_bound(v, 10);
    } else {
        lemma_pow10_grows(v + 1);
        lemma_dec_digits_len_bound(v, v + 1);
    }
}

/// `10^k` exceeds `k`.
pub proof fn lemma_pow10_grows(k: nat)
    ensures
        pow10(k) > k,
    decreases k,
{
    if k > 0 {
        lemma_pow10_grows((k - 1) as nat);
    }
}

/// Every byte of `dec_digits(v)` is an ASCII digit.
pub proof fn lemma_dec_digits_are_digits(v: nat)
    ensures
        forall|i: int| 0 <= i < dec_digits(v).len() ==> 48 <= #[trigger] dec_digits(v)[i] <= 57,
    decreases v,
{
    if v >= 10 {
        lemma_dec_digits_are_digits(v / 10);
        assert forall|i: int| 0 <= i < dec_digits(v).len() implies 48 <= #[trigger] dec_digits(
            v,
        )[i] <= 57 by {
            if i < dec_digits(v).len() - 1 {
                assert(dec_digits(v)[i] == dec_digits(v / 10)[i]);
            }
        }
    }
}

/// Text written just after the text already in a zeroed buffer, where it fits,
/// extends that text.
pub proof fn lemma_append_write(msg: Seq<u8>, bytes: Seq<u8>, n: nat)
    requires
        msg.len() + bytes.len() <= n,
    ensures
        write_end(n as int, msg.len() as int, bytes.len() as int) == msg.len() + bytes.len(),
        written(msg + zeros((n - msg.len()) as nat), msg.len() as int, bytes) == (msg + bytes)
            + zeros((n - msg.len() - bytes.len()) as nat),
{
    let buf = msg + zeros((n - msg.len()) as nat);
    if msg.len() < n {
        assert(written(buf, msg.len() as int, bytes) =~= (msg + bytes) + zeros(
            (n - msg.len() - bytes.len()) as nat,
        ));
    } else {
        assert(bytes.len() == 0);
        assert(msg + bytes =~= msg);
    }
}

/// Writes `bytes` into `buf` at `idx`, cut off at the end of `buf`, and returns
/// the index after the last byte written (`idx` itself when `idx` is at or past
/// the end).
pub fn write_bytes(buf: &mut [u8], idx: usize, bytes: &[u8]) -> (next: usize)
    ensures
        next == write_end(old(buf)@.len() as int, idx as int, bytes@.len() as int),
        final(buf)@ == written(old(buf)@, idx as int, bytes@),
{
    let ghost b0 = buf@;
    if idx >= buf.len() {
        return idx;
    }
    let mut i: usize = idx;
    let mut k: usize = 0;
    while k < bytes.len()
        invariant
            buf@.len() == b0.len(),
            idx < b0.len(),
            i == idx + k,
            k <= bytes@.len(),
            i <= b0.len(),
            buf@ == b0.take(idx as int) + bytes@.take(k as int) + b0.skip(i as int),
        ensures
            buf@.len() == b0.len(),
            i == idx + k,
            k <= bytes@.len(),
            i <= b0.len(),
            buf@ == b0.take(idx as int) + bytes@.take(k as int) + b0.skip(i as int),
            i == b0.len() || k == bytes@.len(),
        decreases bytes@.len() - k,
    {
        if i >= buf.len() {
            break;
        }
        buf[i] = bytes[k];
        assert(buf@ =~= b0.take(idx as int) + bytes@.take(k + 1) + b0.skip(i + 1));
        i = i + 1;
        k = k + 1;
    }
    i
}

/// Writes the byte `ch` into `buf` at `idx` if `idx` is inside `buf`, and
/// returns the index after it (`idx` itself otherwise).
pub fn write_char(buf: &mut [u8], idx: usize, ch: u8) -> (next: usize)
    ensures
        next == write_end(old(buf)@.len() as int, idx as int, 1),
        final(buf)@ == written(old(buf)@, idx as int, seq![ch]),
{
    if idx >= buf.len() {
        return idx;
    }
    let ghost b0 = buf@;
    buf[idx] = ch;
    assert(buf@ =~= written(b0, idx as int, seq![ch]));
    idx + 1
}

/// Writes `value` in decimal into `buf` at `idx`, cut off at the end of `buf`,
/// and returns the index after the last digit written.
pub fn write_u32(buf: &mut [u8], idx: usize, value: u32) -> (next: usize)
    ensures
        next == write_end(
            old(buf)@.len() as int,
            idx as int,
            dec_digits(value as nat).len() as int,
        ),
        final(buf)@ == written(old(buf)@, idx as int, dec_digits(value as nat)),
{
    if idx >= buf.len() {
        return idx;
    }
    if value == 0 {
        return write_char(buf, idx, 48u8);
    }
    let digits = decimal_digits(value);
    write_bytes(buf, idx, digits.as_slice())
}

/// The decimal digits of `value`.
pub fn decimal_digits(value: u32) -> (digits: Vec<u8>)
    ensures
        digits@ == dec_digits(value as nat),
{
    if value < 10 {
        let mut one: Vec<u8> = Vec::new();
        one.push(48u8 + value as u8);
        return one;
    }
    let mut digits: Vec<u8> = Vec::new();
    let mut v: u32 = value;
    while v > 0
        invariant
            v > 0 ==> dec_digits(value as nat) == dec_digits(v as nat) + digits@,
            v == 0 ==> dec_digits(value as nat) == digits@,
        decreases v,
    {
        let d: u8 = 48u8 + (v % 10) as u8;
        let ghost old_digits = digits@;
        digits.insert(0, d);
        assert(digits@ =~= seq![d] + old_digits);
        if v >= 10 {
            assert(dec_digits(v as nat) == dec_digits((v / 10) as nat).push(d));
            assert(dec_digits(v as nat) + old_digits =~= dec_digits((v / 10) as nat) + digits@);
        } else {
            assert(dec_digits(v as nat) =~= seq![d]);
            assert(dec_digits(v as nat) + old_digits =~= digits@);
        }
        v = v / 10;
    }
    digits
}

/// What a write does to a buffer: the buffer keeps its length; from `idx`
/// on, as many bytes of `bytes` as fit before the end are placed in order;
/// every other byte is unchanged; and the returned index is just after the last
/// byte placed (or `idx` itself when it is at or past the end).
pub proof fn law_write_places_bytes(buf: Seq<u8>, idx: int, bytes: Seq<u8>)
    requires
        idx >= 0,
    ensures
        written(buf, idx, bytes).len() == buf.len(),
        ({
            let n = if idx >= buf.len() {
                0
            } else if bytes.len() <= buf.len() - idx {
                bytes.len() as int
            } else {
                buf.len() - idx
            };
            &&& write_end(buf.len() as int, idx, bytes.len() as int) == idx + n
            &&& forall|i: int| 0 <= i < n ==> #[trigger] written(buf, idx, bytes)[idx + i] == bytes[i]
            &&& forall|j: int|
                0 <= j < buf.len() && !(idx <= j < idx + n) ==> #[trigger] written(
                    buf,
                    idx,
                    bytes,
                )[j] == buf[j]
        }),
{
}

} // verus!
