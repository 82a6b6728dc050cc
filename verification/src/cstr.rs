//! C strings held in byte slices.
//!
//! A C string is read from a slice as the C code reads it from memory: byte by
//! byte up to the first zero.  A slice that holds no zero ends the string at its
//! own end, as though the terminator followed it.  A null pointer is `None`.
use vstd::prelude::*;

verus! {

/// Byte `i` of the C string stored in `s`; past the end of `s` it reads as the terminator.
pub open spec fn byte_at(s: Seq<u8>, i: int) -> u8 {
    if 0 <= i < s.len() {
        s[i]
    } else {
        0
    }
}

/// Index of the first zero byte of `s`, or its length if it holds none.
pub open spec fn first_zero(s: Seq<u8>) -> nat
    decreases s.len(),
{
    if s.len() == 0 {
        0
    } else if s[0] == 0 {
        0
    } else {
        1 + first_zero(s.drop_first())
    }
}

/// The bytes of the C string stored in `s`, without its terminator.
pub open spec fn cstr_content(s: Seq<u8>) -> Seq<u8> {
    s.take(first_zero(s) as int)
}

/// The C string stored in `s` is exactly `bytes` followed by its terminator.
pub open spec fn cstr_matches(s: Seq<u8>, bytes: Seq<u8>) -> bool {
    &&& forall|i: int| 0 <= i < bytes.len() ==> byte_at(s, i) == bytes[i]
    &&& byte_at(s, bytes.len() as int) == 0
}

/// `first_zero` is the index of the first zero, or the length.
pub proof fn lemma_first_zero(s: Seq<u8>)
    ensures
        first_zero(s) <= s.len(),
        forall|i: int| 0 <= i < first_zero(s) ==> s[i] != 0,
        first_zero(s) < s.len() ==> s[first_zero(s) as int] == 0,
    decreases s.len(),
{
    if s.len() > 0 && s[0] != 0 {
        lemma_first_zero(s.drop_first());
        assert forall|i: int| 0 <= i < first_zero(s) implies s[i] != 0 by {
            if i > 0 {
                assert(s[i] == s.drop_first()[i - 1]);
            }
        }
    }
}

/// A number that has the properties of `first_zero` is `first_zero`.
pub proof fn lemma_first_zero_unique(s: Seq<u8>, n: int)
    requires
        0 <= n <= s.len(),
        forall|i: int| 0 <= i < n ==> s[i] != 0,
        n < s.len() ==> s[n] == 0,
    ensures
        first_zero(s) == n,
{
    lemma_first_zero(s);
    if first_zero(s) < n {
        assert(s[first_zero(s) as int] != 0);
    }
    if n < first_zero(s) {
        assert(s[n] != 0);
    }
}

/// Length of the C string stored in `buf`: the index of its first zero, or its
/// length when it holds none.
pub fn c_buf_len(buf: &[u8]) -> (n: usize)
    ensures
        n == first_zero(buf@),
{
    let mut i: usize = 0;
    while i < buf.len()
        invariant
            i <= buf.len(),
            forall|j: int| 0 <= j < i ==> buf@[j] != 0,
        decreases buf.len() - i,
    {
        if buf[i] == 0 {
            proof {
                lemma_first_zero_unique(buf@, i as int);
            }
            return i;
        }
        i = i + 1;
    }
    proof {
        lemma_first_zero_unique(buf@, i as int);
    }
    i
}

/// Length of a C string; a null string has length `0`.
pub fn cstr_len(s: Option<&[u8]>) -> (n: usize)
    ensures
        n == match s {
            Some(b) => first_zero(b@),
            None => 0,
        },
{
    match s {
        Some(b) => c_buf_len(b),
        None => 0,
    }
}

/// Whether the C string `s` equals `bytes`: every byte of `bytes` matches and
/// the terminator follows.  A null string equals nothing.
pub fn cstr_eq(s: Option<&[u8]>, bytes: &[u8]) -> (eq: bool)
    ensures
        eq == match s {
            Some(b) => cstr_matches(b@, bytes@),
            None => false,
        },
{
    match s {
        Some(b) => buf_cstr_eq(b, bytes),
        None => false,
    }
}

fn buf_cstr_eq(b: &[u8], bytes: &[u8]) -> (eq: bool)
    ensures
        eq == cstr_matches(b@, bytes@),
{
    let mut idx: usize = 0;
    while idx < bytes.len()
        invariant
            idx <= bytes.len(),
            forall|i: int| 0 <= i < idx ==> byte_at(b@, i) == bytes@[i],
        decreases bytes.len() - idx,
    {
        let ch: u8 = if idx < b.len() {
            b[idx]
        } else {
            0
        };
        assert(ch == byte_at(b@, idx as int));
        if ch != bytes[idx] {
            return false;
        }
        idx = idx + 1;
    }
    let last: u8 = if idx < b.len() {
        b[idx]
    } else {
        0
    };
    assert(last == byte_at(b@, idx as int));
    last == 0
}

/// Where `bytes` holds no zero, the C string `s` equals `bytes` exactly when its
/// content is `bytes`.
pub proof fn law_cstr_eq_compares_content(s: Seq<u8>, bytes: Seq<u8>)
    requires
        forall|i: int| 0 <= i < bytes.len() ==> bytes[i] != 0,
    ensures
        cstr_matches(s, bytes) <==> cstr_content(s) == bytes,
{
    lemma_first_zero(s);
    let n = first_zero(s) as int;
    if cstr_matches(s, bytes) {
        if bytes.len() > s.len() {
            assert(byte_at(s, s.len() as int) == bytes[s.len() as int]);
        }
        assert forall|i: int| 0 <= i < bytes.len() implies s[i] != 0 && i < s.len() by {
            assert(byte_at(s, i) == bytes[i]);
        }
        lemma_first_zero_unique(s, bytes.len() as int);
        assert(cstr_content(s) =~= bytes);
    }
    if cstr_content(s) == bytes {
        assert forall|i: int| 0 <= i < bytes.len() implies byte_at(s, i) == bytes[i] by {
            assert(cstr_content(s)[i] == s[i]);
        }
    }
}

/// Copies the C string `src` into `dst`, as much of it as fits before a
/// terminator that is always written; the bytes after it are left alone.
/// Nothing is written into an empty `dst`.
pub fn copy_cstr(dst: &mut [u8], src: &[u8])
    ensures
        old(dst)@.len() == 0 ==> final(dst)@ == old(dst)@,
        old(dst)@.len() > 0 ==> final(dst)@ == ({
            let k = if first_zero(src@) < old(dst)@.len() - 1 {
                first_zero(src@) as int
            } else {
                old(dst)@.len() - 1
            };
            src@.take(k) + seq![0u8] + old(dst)@.skip(k + 1)
        }),
{
    if dst.len() == 0 {
        return ;
    }
    let ghost d0 = dst@;
    proof {
        lemma_first_zero(src@);
    }
    let mut i: usize = 0;
    while i + 1 < dst.len()
        invariant
            dst@.len() == d0.len(),
            d0.len() > 0,
            i < d0.len(),
            i <= first_zero(src@),
            first_zero(src@) <= src@.len(),
            forall|j: int| 0 <= j < first_zero(src@) ==> src@[j] != 0,
            first_zero(src@) < src@.len() ==> src@[first_zero(src@) as int] == 0,
            dst@ == src@.take(i as int) + d0.skip(i as int),
        ensures
            dst@.len() == d0.len(),
            i < d0.len(),
            i <= first_zero(src@),
            dst@ == src@.take(i as int) + d0.skip(i as int),
            i + 1 >= d0.len() || i == first_zero(src@),
        decreases d0.len() - i,
    {
        let ch: u8 = if i < src.len() {
            src[i]
        } else {
            0
        };
        if ch == 0 {
            break;
        }
        dst[i] = ch;
        assert(dst@ =~= src@.take(i + 1) + d0.skip(i + 1));
        i = i + 1;
    }
    dst[i] = 0;
    assert(dst@ =~= src@.take(i as int) + seq![0u8] + d0.skip(i + 1));
}

} // verus!
