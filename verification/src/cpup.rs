//! The `cpup` shell command: reading its arguments, choosing what it reports,
//! and the lines it prints.
use vstd::prelude::*;
use crate::cstr::{
    c_buf_len, cstr_eq, cstr_matches, first_zero, cstr_content, lemma_first_zero,
    lemma_first_zero_unique, law_cstr_eq_compares_content,
};
use crate::fmt::{
    ascii_bytes, ascii_text, dec_digits, lemma_append_write, lemma_dec_digits_len,
    lemma_dec_digits_are_digits, write_bytes, write_char, write_u32, zeros,
};

verus! {

/// The value of the digit `c` in bases up to 16; a byte that is no digit has
/// the value 16, which no base admits.
pub open spec fn char_digit(c: u8) -> nat {
    if 48 <= c <= 57 {
        (c - 48) as nat
    } else if 97 <= c <= 102 {
        (c - 87) as nat
    } else if 65 <= c <= 70 {
        (c - 55) as nat
    } else {
        16
    }
}

/// Every byte of `ds` is a digit of `base`.
pub open spec fn digits_valid(ds: Seq<u8>, base: nat) -> bool {
    forall|i: int| 0 <= i < ds.len() ==> #[trigger] char_digit(ds[i]) < base
}

/// The number that the digits `ds` denote in `base`, most significant first.
pub open spec fn digits_value(ds: Seq<u8>, base: nat) -> nat
    decreases ds.len(),
{
    if ds.len() == 0 {
        0
    } else {
        digits_value(ds.drop_last(), base) * base + char_digit(ds.last())
    }
}

/// The base a number is written in, as C's `strtoul` with base 0 reads it:
/// `0x` or `0X` before it means 16, a leading `0` means 8, anything else 10.
pub open spec fn number_base(c: Seq<u8>) -> nat {
    if c.len() >= 2 && c[0] == 48 && (c[1] == 120 || c[1] == 88) {
        16
    } else if c.len() >= 2 && c[0] == 48 {
        8
    } else {
        10
    }
}

/// Where the digits begin: after the `0x` prefix of a hexadecimal number.
pub open spec fn number_start(c: Seq<u8>) -> int {
    if number_base(c) == 16 {
        2
    } else {
        0
    }
}

/// The `u32` that the text `c` denotes, or `None`: the text must be non-empty,
/// hold at least one digit after its prefix, only digits of its base, and a
/// value that fits in 32 bits.
pub open spec fn parse_base0(c: Seq<u8>) -> Option<u32> {
    let base = number_base(c);
    let ds = c.skip(number_start(c));
    if c.len() > 0 && ds.len() > 0 && digits_valid(ds, base) && digits_value(ds, base)
        <= 0xffff_ffff {
        Some(digits_value(ds, base) as u32)
    } else {
        None
    }
}

/// A prefix of a digit string never denotes more than the whole string.
pub proof fn lemma_digits_value_prefix(ds: Seq<u8>, k: int, base: nat)
    requires
        base >= 1,
        0 <= k <= ds.len(),
    ensures
        digits_value(ds.take(k), base) <= digits_value(ds, base),
    decreases ds.len(),
{
    if k < ds.len() {
        let init = ds.drop_last();
        assert(init.take(k) =~= ds.take(k));
        lemma_digits_value_prefix(init, k, base);
        let x = digits_value(init, base);
        assert(x * base >= x) by (nonlinear_arith)
            requires
                base >= 1,
        ;
    } else {
        assert(ds.take(k) =~= ds);
    }
}

/// Reads an unsigned number from the C string `s` as C's `strtoul` does with
/// base 0 (`0x..` hexadecimal, `0..` octal, otherwise decimal), but accepts only
/// the whole string and only values that fit in 32 bits.  A null string is an
/// error.
pub fn parse_u32_base0(s: Option<&[u8]>) -> (r: Result<u32, ()>)
    ensures
        r == match s {
            Some(b) => match parse_base0(cstr_content(b@)) {
                Some(v) => Ok::<u32, ()>(v),
                None => Err::<u32, ()>(()),
            },
            None => Err::<u32, ()>(()),
        },
{
    match s {
        Some(b) => parse_buf_u32_base0(b),
        None => Err(()),
    }
}

/// The value of a digit of bases up to 16, or 16 for any other byte.
fn digit_of(ch: u8) -> (d: u32)
    ensures
        d == char_digit(ch),
{
    if 48 <= ch && ch <= 57 {
        (ch - 48) as u32
    } else if 97 <= ch && ch <= 102 {
        (ch - 87) as u32
    } else if 65 <= ch && ch <= 70 {
        (ch - 55) as u32
    } else {
        16
    }
}

fn parse_buf_u32_base0(b: &[u8]) -> (r: Result<u32, ()>)
    ensures
        r == match parse_base0(cstr_content(b@)) {
            Some(v) => Ok::<u32, ()>(v),
            None => Err::<u32, ()>(()),
        },
{
    let len = c_buf_len(b);
    proof {
        lemma_first_zero(b@);
    }
    let ghost c = cstr_content(b@);
    assert(c.len() == len);
    assert(forall|i: int| 0 <= i < len ==> c[i] == b@[i]);
    if len == 0 {
        return Err(());
    }
    let mut base: u32 = 10;
    let mut start: usize = 0;
    let first = b[0];
    if first == 48 {
        if len >= 2 {
            let second = b[1];
            if second == 120 || second == 88 {
                base = 16;
                start = 2;
                if start >= len {
                    assert(c.skip(2).len() == 0);
                    return Err(());
                }
            } else {
                base = 8;
            }
        } else {
            assert(c.skip(0) =~= seq![48u8]);
            assert(c.skip(0).drop_last() =~= Seq::<u8>::empty());
            let ghost ds0 = c.skip(0);
            assert(ds0.last() == 48);
            assert(digits_value(ds0.drop_last(), 10) == 0);
            assert(digits_value(ds0, 10) == 0);
            return Ok(0);
        }
    }
    assert(base == number_base(c));
    assert(start == number_start(c));
    let ghost ds = c.skip(start as int);
    let mut value: u64 = 0;
    let mut idx: usize = start;
    assert(c.subrange(start as int, start as int) =~= Seq::<u8>::empty());
    while idx < len
        invariant
            start <= idx <= len,
            len == c.len(),
            c == cstr_content(b@),
            start < len,
            ds == c.skip(start as int),
            forall|i: int| 0 <= i < len ==> c[i] == b@[i],
            len <= b@.len(),
            base == number_base(c),
            start == number_start(c),
            2 <= base <= 16,
            value == digits_value(c.subrange(start as int, idx as int), base as nat),
            value <= 0xffff_ffff,
            digits_valid(c.subrange(start as int, idx as int), base as nat),
        decreases len - idx,
    {
        let ch = b[idx];
        let digit = digit_of(ch);
        let ghost pre = c.subrange(start as int, idx as int);
        let ghost next = c.subrange(start as int, idx + 1);
        assert(next.drop_last() =~= pre);
        assert(next.last() == ch);
        assert(ds.take(idx + 1 - start) =~= next);
        if digit >= base {
            assert(ds[idx - start] == ch);
            assert(char_digit(ds[idx - start]) >= base);
            assert(!digits_valid(ds, base as nat));
            assert(parse_base0(c) is None);
            return Err(());
        }
        assert(value * (base as u64) <= 0xffff_ffff * 16) by (nonlinear_arith)
            requires
                value <= 0xffff_ffff,
                base <= 16,
        ;
        value = value * (base as u64) + (digit as u64);
        assert(value == digits_value(next, base as nat));
        if value > 0xffff_ffff {
            proof {
                if digits_valid(ds, base as nat) {
                    lemma_digits_value_prefix(ds, idx + 1 - start, base as nat);
                    assert(digits_value(ds, base as nat) > 0xffff_ffff);
                }
                assert(parse_base0(c) is None);
            }
            return Err(());
        }
        assert(digits_valid(next, base as nat)) by {
            assert forall|i: int| 0 <= i < next.len() implies #[trigger] char_digit(next[i])
                < base by {
                if i < pre.len() {
                    assert(next[i] == pre[i]);
                }
            }
        }
        idx = idx + 1;
    }
    assert(c.subrange(start as int, len as int) =~= ds);
    Ok(value as u32)
}

proof fn lemma_dec_digits_value(v: nat)
    ensures
        digits_valid(dec_digits(v), 10),
        digits_value(dec_digits(v), 10) == v,
        v >= 1 ==> dec_digits(v)[0] != 48,
    decreases v,
{
    if v >= 10 {
        lemma_dec_digits_value(v / 10);
        let d = dec_digits(v);
        assert(d.drop_last() =~= dec_digits(v / 10));
        assert(d.last() == (48 + v % 10) as u8);
        assert(char_digit((48 + v % 10) as u8) == v % 10);
        assert(digits_value(d, 10) == digits_value(dec_digits(v / 10), 10) * 10 + v % 10);
        assert(d[0] == dec_digits(v / 10)[0]) by {
            lemma_dec_digits_len(v / 10);
        }
        assert forall|i: int| 0 <= i < d.len() implies #[trigger] char_digit(d[i]) < 10 by {
            if i < d.len() - 1 {
                assert(d[i] == dec_digits(v / 10)[i]);
            }
        }
    } else {
        let d = dec_digits(v);
        assert(d.drop_last() =~= Seq::<u8>::empty());
        assert(d.last() == (48 + v) as u8);
        assert(char_digit((48 + v) as u8) == v);
        assert(digits_value(d, 10) == digits_value(d.drop_last(), 10) * 10 + v);
    }
}

/// Reading back a number: the decimal text that `write_u32` writes for `v`
/// reads, as `parse_u32_base0` reads it, as `v`.
pub proof fn law_parse_reads_back_decimal(v: u32)
    ensures
        parse_base0(dec_digits(v as nat)) == Some(v),
{
    lemma_dec_digits_value(v as nat);
    lemma_dec_digits_len(v as nat);
    let d = dec_digits(v as nat);
    assert(number_base(d) == 10);
    assert(d.skip(0) =~= d);
}

/// The text before the system usage for `mode`.
pub open spec fn sys_usage_prefix(mode: u16) -> Seq<u8> {
    if mode == 0 {
        ascii_bytes("\nSysCpuUsage in 10s: "@)
    } else if mode == 1 {
        ascii_bytes("\nSysCpuUsage in 1s: "@)
    } else {
        ascii_bytes("\nSysCpuUsage in all time: "@)
    }
}

/// The text between the pid and its usage for `mode`.
pub open spec fn pid_usage_infix(mode: u16) -> Seq<u8> {
    if mode == 0 {
        ascii_bytes(" CpuUsage in 10s: "@)
    } else if mode == 1 {
        ascii_bytes(" CpuUsage in 1s: "@)
    } else {
        ascii_bytes(" CpuUsage in all time: "@)
    }
}

/// A usage figure scaled by `precision`: the whole part, a point and the
/// remainder, each in decimal.
pub open spec fn usage_text(usage: u32, precision: u32) -> Seq<u8> {
    dec_digits((usage / precision) as nat) + seq![46u8] + dec_digits((usage % precision) as nat)
}

/// The line that reports the system's usage over `mode`.
pub open spec fn sys_usage_line(mode: u16, usage: u32, precision: u32) -> Seq<u8> {
    sys_usage_prefix(mode) + usage_text(usage, precision) + seq![10u8]
}

/// The line that reports the usage of process `pid` over `mode`.
pub open spec fn pid_usage_line(mode: u16, pid: u32, usage: u32, precision: u32) -> Seq<u8> {
    ascii_bytes("\npid "@) + dec_digits(pid as nat) + pid_usage_infix(mode) + usage_text(
        usage,
        precision,
    ) + seq![10u8]
}

/// The line that reports a pid the kernel does not know.
pub open spec fn unknown_pid_line(pid: u32) -> Seq<u8> {
    ascii_bytes("\nUnknown pid: "@) + dec_digits(pid as nat) + seq![10u8]
}

/// No byte of `s` is zero.
pub open spec fn no_zero(s: Seq<u8>) -> bool {
    forall|i: int| 0 <= i < s.len() ==> #[trigger] s[i] != 0
}

proof fn lemma_no_zero_concat(a: Seq<u8>, b: Seq<u8>)
    requires
        no_zero(a),
        no_zero(b),
    ensures
        no_zero(a + b),
{
    assert forall|i: int| 0 <= i < (a + b).len() implies #[trigger] (a + b)[i] != 0 by {
        if i < a.len() {
            assert((a + b)[i] == a[i]);
        } else {
            assert((a + b)[i] == b[i - a.len()]);
        }
    }
}

proof fn lemma_dec_no_zero(v: nat)
    ensures
        no_zero(dec_digits(v)),
        1 <= dec_digits(v).len(),
        v <= 0xffff_ffff ==> dec_digits(v).len() <= 10,
{
    lemma_dec_digits_are_digits(v);
    lemma_dec_digits_len(v);
}

proof fn lemma_usage_text(usage: u32, precision: u32)
    requires
        precision != 0,
    ensures
        no_zero(usage_text(usage, precision)),
        usage_text(usage, precision).len() <= 21,
{
    lemma_dec_no_zero((usage / precision) as nat);
    lemma_dec_no_zero((usage % precision) as nat);
    assert(no_zero(seq![46u8]));
    lemma_no_zero_concat(dec_digits((usage / precision) as nat), seq![46u8]);
    lemma_no_zero_concat(
        dec_digits((usage / precision) as nat) + seq![46u8],
        dec_digits((usage % precision) as nat),
    );
}

proof fn lemma_prefix_texts(mode: u16)
    ensures
        no_zero(sys_usage_prefix(mode)),
        sys_usage_prefix(mode).len() <= 26,
        no_zero(pid_usage_infix(mode)),
        pid_usage_infix(mode).len() <= 23,
        no_zero(ascii_bytes("\npid "@)),
        ascii_bytes("\npid "@).len() == 5,
        no_zero(ascii_bytes("\nUnknown pid: "@)),
        ascii_bytes("\nUnknown pid: "@).len() == 14,
        no_zero(seq![10u8]),
{
    reveal_strlit("\nSysCpuUsage in 10s: ");
    reveal_strlit("\nSysCpuUsage in 1s: ");
    reveal_strlit("\nSysCpuUsage in all time: ");
    reveal_strlit(" CpuUsage in 10s: ");
    reveal_strlit(" CpuUsage in 1s: ");
    reveal_strlit(" CpuUsage in all time: ");
    reveal_strlit("\npid ");
    reveal_strlit("\nUnknown pid: ");
}

/// A zeroed buffer that holds `line` and then at least one zero reads, as a C
/// string, as `line`.
proof fn lemma_line_cstr(line: Seq<u8>, n: nat)
    requires
        line.len() < n,
        no_zero(line),
    ensures
        cstr_content(line + zeros((n - line.len()) as nat)) == line,
{
    let b = line + zeros((n - line.len()) as nat);
    assert forall|i: int| 0 <= i < line.len() implies b[i] != 0 by {
        assert(b[i] == line[i]);
    }
    lemma_first_zero_unique(b, line.len() as int);
    assert(cstr_content(b) =~= line);
}

/// The text before the system usage for `mode`.
pub fn sys_usage_prefix_text(mode: u16) -> (t: Vec<u8>)
    ensures
        t@ == sys_usage_prefix(mode),
{
    if mode == 0 {
        proof {
            reveal_strlit("\nSysCpuUsage in 10s: ");
        }
        ascii_text("\nSysCpuUsage in 10s: ")
    } else if mode == 1 {
        proof {
            reveal_strlit("\nSysCpuUsage in 1s: ");
        }
        ascii_text("\nSysCpuUsage in 1s: ")
    } else {
        proof {
            reveal_strlit("\nSysCpuUsage in all time: ");
        }
        ascii_text("\nSysCpuUsage in all time: ")
    }
}

/// The text between the pid and its usage for `mode`.
pub fn pid_usage_infix_text(mode: u16) -> (t: Vec<u8>)
    ensures
        t@ == pid_usage_infix(mode),
{
    if mode == 0 {
        proof {
            reveal_strlit(" CpuUsage in 10s: ");
        }
        ascii_text(" CpuUsage in 10s: ")
    } else if mode == 1 {
        proof {
            reveal_strlit(" CpuUsage in 1s: ");
        }
        ascii_text(" CpuUsage in 1s: ")
    } else {
        proof {
            reveal_strlit(" CpuUsage in all time: ");
        }
        ascii_text(" CpuUsage in all time: ")
    }
}

/// Builds, in a zeroed buffer of 96 bytes, the line that reports the system's
/// usage over `mode`: its text, the usage divided by `precision`, a point, the
/// remainder, and a line feed.  The line always fits and is followed by its
/// terminator, so the buffer read as a C string is the line.
proof fn lemma_sys_usage_line(mode: u16, usage: u32, precision: u32)
    requires
        precision != 0,
    ensures
        no_zero(sys_usage_line(mode, usage, precision)),
        sys_usage_line(mode, usage, precision).len() <= 48,
{
    lemma_prefix_texts(mode);
    lemma_usage_text(usage, precision);
    lemma_no_zero_concat(sys_usage_prefix(mode), usage_text(usage, precision));
    lemma_no_zero_concat(sys_usage_prefix(mode) + usage_text(usage, precision), seq![10u8]);
}

#[verifier::spinoff_prover]
pub fn format_sys_usage(mode: u16, usage: u32, precision: u32) -> (buf: [u8; 96])
    requires
        precision != 0,
    ensures
        sys_usage_line(mode, usage, precision).len() < 96,
        buf@ == sys_usage_line(mode, usage, precision) + zeros(
            (96 - sys_usage_line(mode, usage, precision).len()) as nat,
        ),
        cstr_content(buf@) == sys_usage_line(mode, usage, precision),
{
    let mut buf = [0u8; 96];
    assert(buf@ =~= Seq::<u8>::empty() + zeros(96));
    let prefix = sys_usage_prefix_text(mode);
    let ghost whole = dec_digits((usage / precision) as nat);
    let ghost frac = dec_digits((usage % precision) as nat);
    proof {
        lemma_prefix_texts(mode);
        lemma_usage_text(usage, precision);
        lemma_dec_no_zero((usage / precision) as nat);
        lemma_dec_no_zero((usage % precision) as nat);
    }
    let ghost m0 = Seq::<u8>::empty();
    proof {
        lemma_append_write(m0, prefix@, 96);
    }
    assert(m0 + prefix@ =~= prefix@);
    let mut idx = write_bytes(&mut buf, 0, prefix.as_slice());
    let ghost m1 = prefix@;
    proof {
        lemma_append_write(m1, whole, 96);
    }
    idx = write_u32(&mut buf, idx, usage / precision);
    let ghost m2 = m1 + whole;
    proof {
        lemma_append_write(m2, seq![46u8], 96);
    }
    idx = write_char(&mut buf, idx, 46u8);
    let ghost m3 = m2 + seq![46u8];
    proof {
        lemma_append_write(m3, frac, 96);
    }
    idx = write_u32(&mut buf, idx, usage % precision);
    let ghost m4 = m3 + frac;
    proof {
        lemma_append_write(m4, seq![10u8], 96);
    }
    idx = write_char(&mut buf, idx, 10u8);
    let ghost m5 = m4 + seq![10u8];
    assert(m5 =~= sys_usage_line(mode, usage, precision));
    if idx < buf.len() {
        let ghost before = buf@;
        buf[idx] = 0;
        assert(buf@ =~= before);
    }
    proof {
        lemma_sys_usage_line(mode, usage, precision);
        lemma_line_cstr(m5, 96);
    }
    buf
}

/// Builds, in a zeroed buffer of 64 bytes, the line that reports a pid the
/// kernel does not know.  The line always fits and is followed by its
/// terminator.
pub fn format_unknown_pid(pid: u32) -> (buf: [u8; 64])
    ensures
        unknown_pid_line(pid).len() < 64,
        buf@ == unknown_pid_line(pid) + zeros((64 - unknown_pid_line(pid).len()) as nat),
        cstr_content(buf@) == unknown_pid_line(pid),
{
    let mut buf = [0u8; 64];
    assert(buf@ =~= Seq::<u8>::empty() + zeros(64));
    proof {
        reveal_strlit("\nUnknown pid: ");
    }
    let head = ascii_text("\nUnknown pid: ");
    let ghost digits = dec_digits(pid as nat);
    proof {
        lemma_prefix_texts(0);
        lemma_dec_no_zero(pid as nat);
        lemma_append_write(Seq::<u8>::empty(), head@, 64);
    }
    assert(Seq::<u8>::empty() + head@ =~= head@);
    let mut idx = write_bytes(&mut buf, 0, head.as_slice());
    let ghost m1 = head@;
    proof {
        lemma_append_write(m1, digits, 64);
    }
    idx = write_u32(&mut buf, idx, pid);
    let ghost m2 = m1 + digits;
    proof {
        lemma_append_write(m2, seq![10u8], 64);
    }
    idx = write_char(&mut buf, idx, 10u8);
    let ghost m3 = m2 + seq![10u8];
    assert(m3 =~= unknown_pid_line(pid));
    if idx < buf.len() {
        let ghost before = buf@;
        buf[idx] = 0;
        assert(buf@ =~= before);
    }
    proof {
        lemma_no_zero_concat(m1, digits);
        lemma_no_zero_concat(m2, seq![10u8]);
        lemma_line_cstr(m3, 64);
    }
    buf
}

/// Builds, in a zeroed buffer of 128 bytes, the line that reports the usage of
/// process `pid` over `mode`.  The line always fits and is followed by its
/// terminator.
#[verifier::spinoff_prover]
pub fn format_pid_usage(mode: u16, pid: u32, usage: u32, precision: u32) -> (buf: [u8; 128])
    requires
        precision != 0,
    ensures
        pid_usage_line(mode, pid, usage, precision).len() < 128,
        buf@ == pid_usage_line(mode, pid, usage, precision) + zeros(
            (128 - pid_usage_line(mode, pid, usage, precision).len()) as nat,
        ),
        cstr_content(buf@) == pid_usage_line(mode, pid, usage, precision),
{
    let mut buf = [0u8; 128];
    assert(buf@ =~= Seq::<u8>::empty() + zeros(128));
    proof {
        reveal_strlit("\npid ");
    }
    let head = ascii_text("\npid ");
    let infix = pid_usage_infix_text(mode);
    let ghost pid_digits = dec_digits(pid as nat);
    let ghost whole = dec_digits((usage / precision) as nat);
    let ghost frac = dec_digits((usage % precision) as nat);
    proof {
        lemma_prefix_texts(mode);
        lemma_usage_text(usage, precision);
        lemma_dec_no_zero(pid as nat);
        lemma_dec_no_zero((usage / precision) as nat);
        lemma_dec_no_zero((usage % precision) as nat);
        lemma_append_write(Seq::<u8>::empty(), head@, 128);
    }
    assert(Seq::<u8>::empty() + head@ =~= head@);
    let mut idx = write_bytes(&mut buf, 0, head.as_slice());
    let ghost m1 = head@;
    proof {
        lemma_append_write(m1, pid_digits, 128);
    }
    idx = write_u32(&mut buf, idx, pid);
    let ghost m2 = m1 + pid_digits;
    proof {
        lemma_append_write(m2, infix@, 128);
    }
    idx = write_bytes(&mut buf, idx, infix.as_slice());
    let ghost m3 = m2 + infix@;
    proof {
        lemma_append_write(m3, whole, 128);
    }
    idx = write_u32(&mut buf, idx, usage / precision);
    let ghost m4 = m3 + whole;
    proof {
        lemma_append_write(m4, seq![46u8], 128);
    }
    idx = write_char(&mut buf, idx, 46u8);
    let ghost m5 = m4 + seq![46u8];
    proof {
        lemma_append_write(m5, frac, 128);
    }
    idx = write_u32(&mut buf, idx, usage % precision);
    let ghost m6 = m5 + frac;
    proof {
        lemma_append_write(m6, seq![10u8], 128);
    }
    idx = write_char(&mut buf, idx, 10u8);
    let ghost m7 = m6 + seq![10u8];
    assert(m7 =~= pid_usage_line(mode, pid, usage, precision));
    if idx < buf.len() {
        let ghost before = buf@;
        buf[idx] = 0;
        assert(buf@ =~= before);
    }
    proof {
        lemma_pid_usage_line(mode, pid, usage, precision);
        lemma_line_cstr(m7, 128);
    }
    buf
}

proof fn lemma_pid_usage_line(mode: u16, pid: u32, usage: u32, precision: u32)
    requires
        precision != 0,
    ensures
        no_zero(pid_usage_line(mode, pid, usage, precision)),
        pid_usage_line(mode, pid, usage, precision).len() <= 60,
{
    lemma_prefix_texts(mode);
    lemma_usage_text(usage, precision);
    lemma_dec_no_zero(pid as nat);
    let a = ascii_bytes("\npid "@);
    let b = dec_digits(pid as nat);
    let c = pid_usage_infix(mode);
    let d = usage_text(usage, precision);
    lemma_no_zero_concat(a, b);
    lemma_no_zero_concat(a + b, c);
    lemma_no_zero_concat(a + b + c, d);
    lemma_no_zero_concat(a + b + c + d, seq![10u8]);
}

/// What the `cpup` command does next.  Whatever it does, the command then
/// answers `LOS_OK`.
#[derive(Copy, Clone, Debug, PartialEq, Eq, Structural)]
pub enum CpupStep {
    /// Print the system's usage over `mode`.
    SysUsage { mode: u16 },
    /// Print the usage text of the command.
    Help,
    /// Report the first argument as an unknown mode, then print the usage text.
    UnknownMode,
    /// Report the second argument as an unknown pid.
    UnknownPid,
    /// Ask the kernel whether `pid` is a process, and go on with
    /// `cpup_after_pid_check`.
    CheckPid { mode: u16, pid: u32 },
    /// Report `pid` as a process the kernel does not know.
    InvalidPid { pid: u32 },
    /// Print the usage of process `pid` over `mode`.
    PidUsage { mode: u16, pid: u32 },
    /// Print nothing.
    Nothing,
}

/// The contents of an optional C string.
pub open spec fn arg_view(a: Option<&[u8]>) -> Option<Seq<u8>> {
    match a {
        Some(b) => Some(b@),
        None => None,
    }
}

/// The number an argument reads as, if any.
pub open spec fn arg_number(a: Option<Seq<u8>>) -> Option<u32> {
    match a {
        Some(s) => parse_base0(cstr_content(s)),
        None => None,
    }
}

/// The argument is the C string `t`.
pub open spec fn arg_is(a: Option<Seq<u8>>, t: Seq<u8>) -> bool {
    match a {
        Some(s) => cstr_matches(s, t),
        None => false,
    }
}

/// Modes above `0xffff` all mean "all time", which is `0xffff`.
pub open spec fn clamp_mode(m: u32) -> u16 {
    if m > 0xffff {
        0xffff
    } else {
        m as u16
    }
}

/// As the usage text says, mode `0` reports the last ten seconds, mode `1` the
/// last second, and every other mode all time.
pub proof fn law_modes_report_periods(m: u32)
    ensures
        m == 0 ==> sys_usage_prefix(clamp_mode(m)) == ascii_bytes("\nSysCpuUsage in 10s: "@)
            && pid_usage_infix(clamp_mode(m)) == ascii_bytes(" CpuUsage in 10s: "@),
        m == 1 ==> sys_usage_prefix(clamp_mode(m)) == ascii_bytes("\nSysCpuUsage in 1s: "@)
            && pid_usage_infix(clamp_mode(m)) == ascii_bytes(" CpuUsage in 1s: "@),
        m >= 2 ==> sys_usage_prefix(clamp_mode(m)) == ascii_bytes(
            "\nSysCpuUsage in all time: "@,
        ) && pid_usage_infix(clamp_mode(m)) == ascii_bytes(" CpuUsage in all time: "@),
{
}

/// What `cpup` does first, given its argument count, whether it has an
/// argument vector, and its first two arguments: with no arguments it reports
/// the last ten seconds; `-h` and `--help` ask for the usage text; otherwise the
/// first argument is a mode and the second, where given, a pid.
pub open spec fn cpup_first_step(
    argc: i32,
    argv_present: bool,
    arg0: Option<Seq<u8>>,
    arg1: Option<Seq<u8>>,
) -> CpupStep {
    if argc <= 0 {
        CpupStep::SysUsage { mode: 0 }
    } else if !argv_present {
        CpupStep::Nothing
    } else if arg_is(arg0, ascii_bytes("-h"@)) || arg_is(arg0, ascii_bytes("--help"@)) {
        CpupStep::Help
    } else {
        match arg_number(arg0) {
            None => CpupStep::UnknownMode,
            Some(m) => if argc == 1 {
                CpupStep::SysUsage { mode: clamp_mode(m) }
            } else {
                match arg_number(arg1) {
                    None => CpupStep::UnknownPid,
                    Some(pid) => CpupStep::CheckPid { mode: clamp_mode(m), pid },
                }
            },
        }
    }
}

/// What `cpup` does once the kernel has said whether `pid` is a process
/// (`valid` is zero when it is not): with exactly two arguments it reports the
/// process; with more it prints the usage text.
pub open spec fn cpup_pid_step(argc: i32, mode: u16, pid: u32, valid: i32) -> CpupStep {
    if valid == 0 {
        CpupStep::InvalidPid { pid }
    } else if argc == 2 {
        CpupStep::PidUsage { mode, pid }
    } else {
        CpupStep::Help
    }
}

/// Decides what the `cpup` shell command does first.  `arg1` is read only where
/// `argc` is at least 2.
pub fn cpup_command(
    argc: i32,
    argv_present: bool,
    arg0: Option<&[u8]>,
    arg1: Option<&[u8]>,
) -> (step: CpupStep)
    ensures
        step == cpup_first_step(argc, argv_present, arg_view(arg0), arg_view(arg1)),
{
    if argc <= 0 {
        return CpupStep::SysUsage { mode: 0 };
    }
    if !argv_present {
        return CpupStep::Nothing;
    }
    proof {
        reveal_strlit("-h");
        reveal_strlit("--help");
    }
    let short_help = ascii_text("-h");
    let long_help = ascii_text("--help");
    if cstr_eq(arg0, short_help.as_slice()) || cstr_eq(arg0, long_help.as_slice()) {
        return CpupStep::Help;
    }
    let mut mode = match parse_u32_base0(arg0) {
        Ok(v) => v,
        Err(_) => {
            return CpupStep::UnknownMode;
        },
    };
    if mode > 0xffff {
        mode = 0xffff;
    }
    let mode16 = mode as u16;
    if argc == 1 {
        return CpupStep::SysUsage { mode: mode16 };
    }
    let pid = match parse_u32_base0(arg1) {
        Ok(v) => v,
        Err(_) => {
            return CpupStep::UnknownPid;
        },
    };
    CpupStep::CheckPid { mode: mode16, pid }
}

/// Decides what the `cpup` shell command does once the kernel has said whether
/// `pid` is a process.
pub fn cpup_after_pid_check(argc: i32, mode: u16, pid: u32, valid: i32) -> (step: CpupStep)
    ensures
        step == cpup_pid_step(argc, mode, pid, valid),
{
    if valid == 0 {
        return CpupStep::InvalidPid { pid };
    }
    if argc == 2 {
        return CpupStep::PidUsage { mode, pid };
    }
    CpupStep::Help
}

/// An argument that reads as a number is neither `-h` nor `--help`.
proof fn lemma_numbers_are_not_help(a: Option<Seq<u8>>)
    requires
        arg_number(a) is Some,
    ensures
        !arg_is(a, ascii_bytes("-h"@)),
        !arg_is(a, ascii_bytes("--help"@)),
{
    reveal_strlit("-h");
    reveal_strlit("--help");
    let s = a.unwrap();
    let h = ascii_bytes("-h"@);
    let l = ascii_bytes("--help"@);
    assert(h =~= seq![45u8, 104u8]);
    assert(l =~= seq![45u8, 45u8, 104u8, 101u8, 108u8, 112u8]);
    law_cstr_eq_compares_content(s, h);
    law_cstr_eq_compares_content(s, l);
    let c = cstr_content(s);
    if arg_is(a, h) || arg_is(a, l) {
        assert(c[0] == 45u8);
        assert(number_base(c) == 10);
        assert(c.skip(0) =~= c);
        assert(char_digit(c.skip(0)[0]) == 16);
        assert(!digits_valid(c.skip(0), 10));
    }
}

/// `cpup` with no argument reports the system over the last ten seconds.
pub proof fn law_no_argument_reports_ten_seconds(
    argc: i32,
    argv_present: bool,
    a0: Option<Seq<u8>>,
    a1: Option<Seq<u8>>,
)
    requires
        argc <= 0,
    ensures
        cpup_first_step(argc, argv_present, a0, a1) == (CpupStep::SysUsage { mode: 0 }),
{
}

/// `cpup MODE`: a first argument that reads as the number `m` reports the
/// system over mode `m`, where modes above `0xffff` count as `0xffff`.
pub proof fn law_mode_argument_is_the_mode(a0: Option<Seq<u8>>, a1: Option<Seq<u8>>)
    requires
        arg_number(a0) is Some,
    ensures
        cpup_first_step(1, true, a0, a1) == (CpupStep::SysUsage {
            mode: if arg_number(a0).unwrap() > 0xffff {
                0xffffu16
            } else {
                arg_number(a0).unwrap() as u16
            },
        }),
{
    lemma_numbers_are_not_help(a0);
}

/// `cpup MODE PID`: where both arguments read as numbers `m` and `p`, the
/// command checks pid `p` and keeps mode `m` (modes above `0xffff` count as
/// `0xffff`) for the report.
pub proof fn law_pid_command_reads_both_arguments(
    argc: i32,
    a0: Option<Seq<u8>>,
    a1: Option<Seq<u8>>,
)
    requires
        argc >= 2,
        arg_number(a0) is Some,
        arg_number(a1) is Some,
    ensures
        cpup_first_step(argc, true, a0, a1) == (CpupStep::CheckPid {
            mode: if arg_number(a0).unwrap() > 0xffff {
                0xffffu16
            } else {
                arg_number(a0).unwrap() as u16
            },
            pid: arg_number(a1).unwrap(),
        }),
{
    lemma_numbers_are_not_help(a0);
}

/// A first argument that is no number and no help flag is an unknown mode; a
/// second argument that is no number after a good mode is an unknown pid.
pub proof fn law_bad_arguments_are_reported(argc: i32, a0: Option<Seq<u8>>, a1: Option<Seq<u8>>)
    requires
        argc >= 1,
    ensures
        (arg_number(a0) is None && !arg_is(a0, ascii_bytes("-h"@)) && !arg_is(
            a0,
            ascii_bytes("--help"@),
        )) ==> cpup_first_step(argc, true, a0, a1) == CpupStep::UnknownMode,
        (argc >= 2 && arg_number(a0) is Some && arg_number(a1) is None) ==> cpup_first_step(
            argc,
            true,
            a0,
            a1,
        ) == CpupStep::UnknownPid,
        (arg_is(a0, ascii_bytes("-h"@)) || arg_is(a0, ascii_bytes("--help"@))) ==> cpup_first_step(
            argc,
            true,
            a0,
            a1,
        ) == CpupStep::Help,
{
    if arg_number(a0) is Some {
        lemma_numbers_are_not_help(a0);
    }
}

/// Once the kernel has answered about the pid: an unknown process (`valid` is
/// zero) is reported with that same pid; a known one, with exactly two
/// arguments, is reported with the same mode and pid; with more arguments the
/// usage text is printed.
pub proof fn law_pid_check_keeps_mode_and_pid(argc: i32, mode: u16, pid: u32, valid: i32)
    ensures
        valid == 0 ==> cpup_pid_step(argc, mode, pid, valid) == (CpupStep::InvalidPid { pid }),
        valid != 0 && argc == 2 ==> cpup_pid_step(argc, mode, pid, valid) == (CpupStep::PidUsage {
            mode,
            pid,
        }),
        valid != 0 && argc != 2 ==> cpup_pid_step(argc, mode, pid, valid) == CpupStep::Help,
{
}

/// `cpup` with arguments but no argument vector prints nothing.
pub proof fn law_missing_argv_prints_nothing(argc: i32, a0: Option<Seq<u8>>, a1: Option<Seq<u8>>)
    requires
        argc >= 1,
    ensures
        cpup_first_step(argc, false, a0, a1) == CpupStep::Nothing,
{
}

/// The character of a digit below 16: `0`-`9`, then `a`-`f` or `A`-`F`.
pub open spec fn hex_char(d: nat, upper: bool) -> u8 {
    if d < 10 {
        (48 + d) as u8
    } else if upper {
        (55 + d) as u8
    } else {
        (87 + d) as u8
    }
}

/// `v` in hexadecimal, most significant digit first, without leading zeros.
pub open spec fn hex_text(v: nat, upper: bool) -> Seq<u8>
    decreases v,
{
    if v < 16 {
        seq![hex_char(v, upper)]
    } else {
        hex_text(v / 16, upper).push(hex_char(v % 16, upper))
    }
}

/// `v` in octal, most significant digit first, without leading zeros.
pub open spec fn oct_text(v: nat) -> Seq<u8>
    decreases v,
{
    if v < 8 {
        seq![(48 + v) as u8]
    } else {
        oct_text(v / 8).push((48 + v % 8) as u8)
    }
}

proof fn lemma_hex_text_value(v: nat, upper: bool)
    ensures
        digits_valid(hex_text(v, upper), 16),
        digits_value(hex_text(v, upper), 16) == v,
        hex_text(v, upper).len() >= 1,
    decreases v,
{
    let d = hex_text(v, upper);
    if v >= 16 {
        lemma_hex_text_value(v / 16, upper);
        assert(d.drop_last() =~= hex_text(v / 16, upper));
        assert(d.last() == hex_char(v % 16, upper));
        assert(char_digit(hex_char(v % 16, upper)) == v % 16);
        assert(digits_value(d, 16) == digits_value(hex_text(v / 16, upper), 16) * 16 + v % 16);
        assert forall|i: int| 0 <= i < d.len() implies #[trigger] char_digit(d[i]) < 16 by {
            if i < d.len() - 1 {
                assert(d[i] == hex_text(v / 16, upper)[i]);
            }
        }
    } else {
        assert(d.drop_last() =~= Seq::<u8>::empty());
        assert(d.last() == hex_char(v, upper));
        assert(char_digit(hex_char(v, upper)) == v);
        assert(digits_value(d, 16) == digits_value(d.drop_last(), 16) * 16 + v);
    }
}

proof fn lemma_oct_text_value(v: nat)
    ensures
        digits_valid(oct_text(v), 8),
        digits_value(oct_text(v), 8) == v,
        oct_text(v).len() >= 1,
    decreases v,
{
    let d = oct_text(v);
    if v >= 8 {
        lemma_oct_text_value(v / 8);
        assert(d.drop_last() =~= oct_text(v / 8));
        assert(d.last() == (48 + v % 8) as u8);
        assert(char_digit((48 + v % 8) as u8) == v % 8);
        assert(digits_value(d, 8) == digits_value(oct_text(v / 8), 8) * 8 + v % 8);
        assert forall|i: int| 0 <= i < d.len() implies #[trigger] char_digit(d[i]) < 8 by {
            if i < d.len() - 1 {
                assert(d[i] == oct_text(v / 8)[i]);
            }
        }
    } else {
        assert(d.drop_last() =~= Seq::<u8>::empty());
        assert(d.last() == (48 + v) as u8);
        assert(char_digit((48 + v) as u8) == v);
        assert(digits_value(d, 8) == digits_value(d.drop_last(), 8) * 8 + v);
    }
}

proof fn lemma_leading_zero(ds: Seq<u8>, base: nat)
    ensures
        digits_value(seq![48u8] + ds, base) == digits_value(ds, base),
    decreases ds.len(),
{
    let z = seq![48u8] + ds;
    if ds.len() == 0 {
        assert(z.drop_last() =~= Seq::<u8>::empty());
        assert(z.last() == 48u8);
        assert(char_digit(48u8) == 0);
        assert(digits_value(z, base) == digits_value(z.drop_last(), base) * base + 0);
        assert(digits_value(z.drop_last(), base) == 0);
        assert(0 * base == 0) by (nonlinear_arith);
    } else {
        assert(z.drop_last() =~= seq![48u8] + ds.drop_last());
        assert(z.last() == ds.last());
        lemma_leading_zero(ds.drop_last(), base);
        assert(digits_value(z, base) == digits_value(z.drop_last(), base) * base + char_digit(
            z.last(),
        ));
        assert(digits_value(ds, base) == digits_value(ds.drop_last(), base) * base + char_digit(
            ds.last(),
        ));
    }
}

/// Reading back hexadecimal: `0x` or `0X` and the hexadecimal digits of `v`
/// (lower or upper case) read as `v`.
pub proof fn law_parse_reads_back_hex(v: u32, upper: bool)
    ensures
        parse_base0(seq![48u8, 120u8] + hex_text(v as nat, upper)) == Some(v),
        parse_base0(seq![48u8, 88u8] + hex_text(v as nat, upper)) == Some(v),
{
    lemma_hex_text_value(v as nat, upper);
    let h = hex_text(v as nat, upper);
    let c1 = seq![48u8, 120u8] + h;
    let c2 = seq![48u8, 88u8] + h;
    assert(c1.skip(2) =~= h);
    assert(c2.skip(2) =~= h);
    assert(number_base(c1) == 16);
    assert(number_base(c2) == 16);
}

/// Reading back octal: `0` and the octal digits of `v` read as `v`.
pub proof fn law_parse_reads_back_octal(v: u32)
    ensures
        parse_base0(seq![48u8] + oct_text(v as nat)) == Some(v),
{
    lemma_oct_text_value(v as nat);
    lemma_leading_zero(oct_text(v as nat), 8);
    let o = oct_text(v as nat);
    let c = seq![48u8] + o;
    assert(c[1] == o[0]);
    assert(48 <= o[0] <= 55) by {
        assert(char_digit(o[0]) < 8);
    }
    assert(number_base(c) == 8);
    assert(c.skip(0) =~= c);
    assert forall|i: int| 0 <= i < c.len() implies #[trigger] char_digit(c[i]) < 8 by {
        if i > 0 {
            assert(c[i] == o[i - 1]);
        }
    }
}

/// Numbers that do not fit in 32 bits are refused.
pub proof fn law_parse_refuses_overflow(n: nat)
    requires
        n > 0xffff_ffff,
    ensures
        parse_base0(dec_digits(n)) is None,
{
    lemma_dec_digits_value(n);
    lemma_dec_digits_len(n);
    let d = dec_digits(n);
    assert(number_base(d) == 10);
    assert(d.skip(0) =~= d);
}

/// Only the whole string is read: a decimal number followed by any byte that
/// is no decimal digit is refused.
pub proof fn law_parse_refuses_trailing_bytes(v: u32, b: u8)
    requires
        b < 48 || b > 57,
    ensures
        parse_base0(dec_digits(v as nat).push(b)) is None,
{
    lemma_dec_digits_value(v as nat);
    lemma_dec_digits_len(v as nat);
    let d = dec_digits(v as nat);
    let c = d.push(b);
    let base = number_base(c);
    let ds = c.skip(number_start(c));
    if base == 16 {
        assert(v == 0);
        assert(ds.len() == 0);
    } else {
        assert(ds =~= c);
        if base == 8 {
            assert(v == 0);
            assert(d.len() == 1);
        }
        assert(c[c.len() - 1] == b);
        assert(char_digit(ds[ds.len() - 1]) >= base);
    }
}

} // verus!
