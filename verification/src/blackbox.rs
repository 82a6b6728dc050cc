//! The blackbox: the fault log kept in memory across a reset, the error record
//! written to the log partition, and the log directory it is written into.
use vstd::prelude::*;
use crate::cstr::{byte_at, c_buf_len, copy_cstr, cstr_content, first_zero, lemma_first_zero};
use crate::fmt::{ascii_bytes, ascii_text, zeros};

verus! {

/// Size in bytes of the header of the fault log kept in memory: the flag, the
/// length and the error record.
pub const FAULT_LOG_INFO_SIZE: usize = 588;

/// Longest path, terminator included, that the log directory may have.
pub const LOG_DIR_PATH_MAX: usize = 256;

/// What the kernel recorded about an error: three C strings in fixed fields.
#[derive(Copy, Clone, Debug)]
pub struct ErrorInfo {
    pub event: [u8; 32],
    pub module: [u8; 32],
    pub error_desc: [u8; 512],
}

/// The header of the fault log kept in memory: `GOODLOG` in `flag` marks a
/// log that was written, `len` is the length of the data after the header.
#[derive(Copy, Clone, Debug)]
pub struct FaultLogInfo {
    pub flag: [u8; 8],
    pub len: i32,
    pub info: ErrorInfo,
}

/// The C string `src` as it is stored in a zeroed field of `n` bytes: as much
/// of it as fits before a terminator, then zeros.
pub open spec fn stored_cstr(src: Seq<u8>, n: nat) -> Seq<u8> {
    let k = if first_zero(src) < n - 1 {
        first_zero(src) as int
    } else {
        n - 1
    };
    src.take(k) + zeros((n - k) as nat)
}

/// The error record that stores the three C strings.
pub open spec fn formatted_info(event: Seq<u8>, module: Seq<u8>, error_desc: Seq<u8>) -> (
    Seq<u8>,
    Seq<u8>,
    Seq<u8>,
) {
    (stored_cstr(event, 32), stored_cstr(module, 32), stored_cstr(error_desc, 512))
}

/// The three fields of a record.
pub open spec fn info_fields(info: ErrorInfo) -> (Seq<u8>, Seq<u8>, Seq<u8>) {
    (info.event@, info.module@, info.error_desc@)
}

/// A record with every byte zero.
pub fn empty_error_info() -> (info: ErrorInfo)
    ensures
        info_fields(info) == (zeros(32), zeros(32), zeros(512)),
{
    let info = ErrorInfo { event: [0u8; 32], module: [0u8; 32], error_desc: [0u8; 512] };
    assert(info.event@ =~= zeros(32));
    assert(info.module@ =~= zeros(32));
    assert(info.error_desc@ =~= zeros(512));
    info
}

fn store_cstr_field(dst: &mut [u8], src: &[u8])
    requires
        old(dst)@ == zeros(old(dst)@.len()),
        old(dst)@.len() > 0,
    ensures
        final(dst)@ == stored_cstr(src@, old(dst)@.len()),
{
    let ghost n = dst@.len();
    copy_cstr(dst, src);
    let ghost k = if first_zero(src@) < n - 1 {
        first_zero(src@) as int
    } else {
        n - 1
    };
    assert(seq![0u8] + zeros(n).skip(k + 1) =~= zeros((n - k) as nat));
    assert(src@.take(k) + seq![0u8] + zeros(n).skip(k + 1) =~= src@.take(k) + zeros(
        (n - k) as nat,
    ));
}

/// Fills the record with the three C strings, each cut to fit its field and
/// terminated, the rest of every field zero.  Where any of them is missing the
/// record is left as it was.
pub fn BlackboxFormatErrorInfoRust(
    info: &mut ErrorInfo,
    event: Option<&[u8]>,
    module: Option<&[u8]>,
    error_desc: Option<&[u8]>,
)
    ensures
        (event is None || module is None || error_desc is None) ==> *final(info) == *old(info),
        (event is Some && module is Some && error_desc is Some) ==> info_fields(*final(info))
            == formatted_info(
            event.unwrap()@,
            module.unwrap()@,
            error_desc.unwrap()@,
        ),
{
    let (e, m, d) = match (event, module, error_desc) {
        (Some(e), Some(m), Some(d)) => (e, m, d),
        _ => {
            return ;
        },
    };
    let mut fresh = empty_error_info();
    store_cstr_field(&mut fresh.event, e);
    store_cstr_field(&mut fresh.module, m);
    store_cstr_field(&mut fresh.error_desc, d);
    *info = fresh;
}

/// `1` when the log partition is ready, `0` when it is not.
pub fn BlackboxIsLogPartReadyRust(current_ready: i32) -> (r: i32)
    ensures
        r == (if current_ready != 0 {
            1i32
        } else {
            0i32
        }),
{
    if current_ready != 0 {
        1
    } else {
        0
    }
}

/// The mark of a fault log that was written.
pub open spec fn log_flag() -> Seq<u8> {
    ascii_bytes("GOODLOG"@)
}

/// The header carries the mark: its flag begins with `GOODLOG`.
pub open spec fn flag_ok(flag: Seq<u8>) -> bool {
    flag.take(7) == log_flag()
}

/// Whether the flag begins with `GOODLOG`.
pub fn log_flag_ok(flag: &[u8; 8]) -> (ok: bool)
    ensures
        ok == flag_ok(flag@),
{
    proof {
        reveal_strlit("GOODLOG");
    }
    let mark = ascii_text("GOODLOG");
    let mut i: usize = 0;
    while i < 7
        invariant
            i <= 7,
            mark@ == log_flag(),
            mark@.len() == 7,
            flag@.len() == 8,
            forall|j: int| 0 <= j < i ==> flag@[j] == mark@[j],
        decreases 7 - i,
    {
        if flag[i] != mark[i] {
            assert(flag@.take(7)[i as int] != log_flag()[i as int]);
            return false;
        }
        i = i + 1;
    }
    assert(flag@.take(7) =~= log_flag());
    true
}

/// The last fault log's error record, where there is a log buffer holding the
/// mark and a record to copy it into: `(0, Some(record))`; otherwise `(-1, None)`.
pub fn BlackboxGetLastLogInfoRust(log: Option<&FaultLogInfo>, info_present: bool) -> (r: (
    i32,
    Option<ErrorInfo>,
))
    ensures
        match log {
            Some(l) => if info_present && flag_ok(l.flag@) {
                r.0 == 0 && r.1 == Some(l.info)
            } else {
                r.0 == -1 && r.1 is None
            },
            None => r.0 == -1 && r.1 is None,
        },
{
    match log {
        None => (-1, None),
        Some(l) => {
            if !info_present {
                return (-1, None);
            }
            if !log_flag_ok(&l.flag) {
                return (-1, None);
            }
            (0, Some(l.info))
        },
    }
}

/// Whether the last fault log may be saved at all: every pointer is given and
/// the buffer holds at least a header.  Where this is false the save answers
/// `-1` and touches nothing.
pub fn last_log_accepted(
    log_present: bool,
    info_present: bool,
    path_present: bool,
    log_size: usize,
) -> (ok: bool)
    ensures
        ok == (log_present && info_present && path_present && log_size >= FAULT_LOG_INFO_SIZE),
{
    if !log_present || !info_present || !path_present {
        return false;
    }
    log_size >= FAULT_LOG_INFO_SIZE
}

/// How much of the data after the header is saved.
pub open spec fn payload_len(log_size: usize, len: i32) -> int {
    let payload = log_size - FAULT_LOG_INFO_SIZE;
    if len <= 0 {
        0
    } else if len < payload {
        len as int
    } else {
        payload
    }
}

/// For an accepted buffer of `log_size` bytes: `None` where its header lacks the
/// mark (nothing is saved), otherwise how many bytes of the data after the
/// header go into the fault log: the length the header gives, at most what the
/// buffer holds, and none for a length that is not positive.  Either way the
/// buffer is then cleared and the save answers `0`.
pub fn last_log_payload_len(log_size: usize, header: &FaultLogInfo) -> (n: Option<usize>)
    requires
        log_size >= FAULT_LOG_INFO_SIZE,
    ensures
        !flag_ok(header.flag@) ==> n is None,
        flag_ok(header.flag@) ==> n == Some(payload_len(log_size, header.len) as usize),
        n matches Some(k) ==> k <= log_size - FAULT_LOG_INFO_SIZE,
{
    if !log_flag_ok(&header.flag) {
        return None;
    }
    let payload = log_size - FAULT_LOG_INFO_SIZE;
    let len = header.len;
    let use_len = if len <= 0 {
        0
    } else if (len as usize) < payload {
        len as usize
    } else {
        payload
    };
    Some(use_len)
}

/// Whether the fault log may be saved (a path and a record are given; otherwise
/// the save answers `-1`), and then whether the data is appended after the
/// record: only data that is given and not empty.
pub fn fault_log_plan(
    path_present: bool,
    info_present: bool,
    data_present: bool,
    buf_size: usize,
) -> (plan: Option<bool>)
    ensures
        !(path_present && info_present) ==> plan is None,
        (path_present && info_present) ==> plan == Some(data_present && buf_size > 0),
{
    if !path_present || !info_present {
        return None;
    }
    Some(data_present && buf_size > 0)
}

/// A file write may go ahead: a path, a buffer and a size are given.  Otherwise,
/// and where the log partition is not ready or the file does not open, the
/// write answers `-1`.
pub fn full_write_accepted(path_present: bool, buf_present: bool, buf_size: usize) -> (ok: bool)
    ensures
        ok == (path_present && buf_present && buf_size > 0),
{
    path_present && buf_present && buf_size > 0
}

/// One answer of the write call while `remaining` bytes are left: the bytes
/// still left after it, or `None` where it wrote nothing or failed, which fails
/// the whole write.
pub fn write_all_step(remaining: usize, written: i32) -> (left: Option<usize>)
    requires
        remaining > 0,
        written <= remaining,
    ensures
        written <= 0 ==> left is None,
        written > 0 ==> left == Some((remaining - written) as usize),
{
    if written <= 0 {
        return None;
    }
    let step = written as usize;
    Some(remaining - step)
}

/// The byte strings held in a vector of byte vectors.
pub open spec fn byte_vecs(v: Seq<Vec<u8>>) -> Seq<Seq<u8>> {
    v.map_values(|x: Vec<u8>| x@)
}

/// The field of a record as the text it holds.
pub open spec fn field_text(field: Seq<u8>) -> Seq<u8> {
    cstr_content(field)
}

/// The pieces, in order, that make up the error record in a log file.
pub open spec fn error_info_pieces(info: ErrorInfo) -> Seq<Seq<u8>> {
    seq![
        ascii_bytes("#### error info ####\n"@),
        ascii_bytes("event: "@),
        field_text(info.event@),
        ascii_bytes("\nmodule: "@),
        field_text(info.module@),
        ascii_bytes("\nerrorDesc: "@),
        field_text(info.error_desc@),
        ascii_bytes("\n"@),
    ]
}

fn field_prefix(field: &[u8]) -> (v: Vec<u8>)
    ensures
        v@ == field_text(field@),
{
    let n = c_buf_len(field);
    proof {
        lemma_first_zero(field@);
    }
    let mut v: Vec<u8> = Vec::new();
    let mut i: usize = 0;
    while i < n
        invariant
            i <= n,
            n == first_zero(field@),
            n <= field@.len(),
            v@ == field@.take(i as int),
        decreases n - i,
    {
        v.push(field[i]);
        assert(v@ =~= field@.take(i + 1));
        i = i + 1;
    }
    v
}

/// The pieces that saving the error record writes to the file, in order: a
/// header line, then each field's text after its label, then a line feed.
pub fn error_info_record(info: &ErrorInfo) -> (pieces: Vec<Vec<u8>>)
    ensures
        byte_vecs(pieces@) == error_info_pieces(*info),
{
    proof {
        reveal_strlit("#### error info ####\n");
        reveal_strlit("event: ");
        reveal_strlit("\nmodule: ");
        reveal_strlit("\nerrorDesc: ");
        reveal_strlit("\n");
    }
    let mut pieces: Vec<Vec<u8>> = Vec::new();
    pieces.push(ascii_text("#### error info ####\n"));
    pieces.push(ascii_text("event: "));
    pieces.push(field_prefix(&info.event));
    pieces.push(ascii_text("\nmodule: "));
    pieces.push(field_prefix(&info.module));
    pieces.push(ascii_text("\nerrorDesc: "));
    pieces.push(field_prefix(&info.error_desc));
    pieces.push(ascii_text("\n"));
    assert(byte_vecs(pieces@) =~= error_info_pieces(*info));
    pieces
}

/// Whether saving the error record goes on to open the file: a path and a
/// record are given.  Otherwise it answers `-1`; from here on it answers `0`
/// whatever the file operations do.
pub fn basic_info_accepted(path_present: bool, info_present: bool) -> (ok: bool)
    ensures
        ok == (path_present && info_present),
{
    path_present && info_present
}

/// What making a directory does once `access` has answered: nothing more
/// (answer `0`) when the directory exists, which `access` shows by `0`;
/// otherwise it is made.
pub fn new_dir_needs_mkdir(access_ret: i32) -> (mk: bool)
    ensures
        mk == (access_ret != 0),
{
    access_ret != 0
}

/// The answer of making a directory once `mkdir` has answered.
pub fn new_dir_result(mkdir_ret: i32) -> (r: i32)
    ensures
        r == (if mkdir_ret != 0 {
            -1i32
        } else {
            0i32
        }),
{
    if mkdir_ret != 0 {
        -1
    } else {
        0
    }
}

/// The directories made on the way while the first `k` bytes of the path `c`
/// are read: the path up to each `/` after the first byte.
pub open spec fn slash_prefixes(c: Seq<u8>, k: int) -> Seq<Seq<u8>>
    decreases k,
{
    if k <= 1 {
        Seq::empty()
    } else if c[k - 1] == 47 {
        slash_prefixes(c, k - 1).push(c.take(k - 1))
    } else {
        slash_prefixes(c, k - 1)
    }
}

/// The plan for making a log directory and all its parents.
pub struct LogDirPlan {
    /// The directories to make, in order; the plan fails at the first that
    /// cannot be made.
    pub dirs: Vec<Vec<u8>>,
    /// Whether the path fits the buffer of `LOG_DIR_PATH_MAX` bytes; a path
    /// that does not fails the plan after its parents are made.
    pub fits: bool,
}

/// The directories made for the log directory path `c`: each parent that ends
/// before the `/` at an index below the buffer's size, then, where the whole
/// path fits, the path itself.
pub open spec fn log_dirs(c: Seq<u8>) -> Seq<Seq<u8>> {
    if c.len() < LOG_DIR_PATH_MAX {
        slash_prefixes(c, c.len() as int).push(c)
    } else {
        slash_prefixes(c, LOG_DIR_PATH_MAX as int)
    }
}

/// Plans making the log directory `path` and its parents.  `None` (answer
/// `-1`) where the path is missing or does not begin with `/`.
pub fn BlackboxCreateLogDirRust(path: Option<&[u8]>) -> (plan: Option<LogDirPlan>)
    ensures
        match path {
            None => plan is None,
            Some(p) => if byte_at(p@, 0) != 47 {
                plan is None
            } else {
                plan matches Some(pl) && byte_vecs(pl.dirs@) == log_dirs(cstr_content(p@))
                    && pl.fits == (cstr_content(p@).len() < LOG_DIR_PATH_MAX)
            },
        },
{
    match path {
        None => None,
        Some(p) => plan_log_dirs(p),
    }
}

fn plan_log_dirs(p: &[u8]) -> (plan: Option<LogDirPlan>)
    ensures
        if byte_at(p@, 0) != 47 {
            plan is None
        } else {
            plan matches Some(pl) && byte_vecs(pl.dirs@) == log_dirs(cstr_content(p@))
                && pl.fits == (cstr_content(p@).len() < LOG_DIR_PATH_MAX)
        },
{
    if p.len() == 0 || p[0] != 47 {
        return None;
    }
    let n = c_buf_len(p);
    proof {
        lemma_first_zero(p@);
    }
    let ghost c = cstr_content(p@);
    assert(c.len() == n);
    assert(n >= 1);
    let mut dirs: Vec<Vec<u8>> = Vec::new();
    let mut idx: usize = 1;
    assert(byte_vecs(dirs@) =~= slash_prefixes(c, 1));
    while idx < LOG_DIR_PATH_MAX && idx < n
        invariant
            1 <= idx <= n,
            idx <= LOG_DIR_PATH_MAX,
            n == c.len(),
            n <= p@.len(),
            c == cstr_content(p@),
            forall|i: int| 0 <= i < n ==> c[i] == p@[i],
            byte_vecs(dirs@) == slash_prefixes(c, idx as int),
        decreases n - idx,
    {
        if p[idx] == 47 {
            let d = copy_prefix(p, idx);
            let ghost before = byte_vecs(dirs@);
            assert(d@ =~= c.take(idx as int));
            dirs.push(d);
            assert(byte_vecs(dirs@) =~= before.push(d@));
        }
        idx = idx + 1;
    }
    let fits = n < LOG_DIR_PATH_MAX;
    if fits {
        let whole = copy_prefix(p, n);
        let ghost before = byte_vecs(dirs@);
        assert(whole@ =~= c);
        dirs.push(whole);
        assert(byte_vecs(dirs@) =~= before.push(whole@));
    }
    Some(LogDirPlan { dirs, fits })
}

fn copy_prefix(p: &[u8], k: usize) -> (v: Vec<u8>)
    requires
        k <= p@.len(),
    ensures
        v@ == p@.take(k as int),
{
    let mut v: Vec<u8> = Vec::new();
    let mut i: usize = 0;
    while i < k
        invariant
            i <= k,
            k <= p@.len(),
            v@ == p@.take(i as int),
        decreases k - i,
    {
        v.push(p[i]);
        assert(v@ =~= p@.take(i + 1));
        i = i + 1;
    }
    v
}

/// Whether saving the error record without a reset may go on to make the log
/// directory: every pointer is given (otherwise `-1`).  Where the directory
/// cannot be made it answers `-1`, else what saving the record answers.
pub fn save_without_reset_accepted(
    info_present: bool,
    dir_present: bool,
    path_present: bool,
) -> (ok: bool)
    ensures
        ok == (info_present && dir_present && path_present),
{
    info_present && dir_present && path_present
}

/// A C string that fits its field comes back whole: the text of the field that
/// stores it is the string's content.
pub proof fn law_stored_field_reads_back(src: Seq<u8>, n: nat)
    requires
        n >= 1,
        first_zero(src) < n,
    ensures
        field_text(stored_cstr(src, n)) == cstr_content(src),
{
    lemma_first_zero(src);
    let k = first_zero(src) as int;
    let f = stored_cstr(src, n);
    assert(f =~= src.take(k) + zeros((n - k) as nat));
    assert forall|i: int| 0 <= i < k implies f[i] != 0 by {
        assert(f[i] == src[i]);
    }
    crate::cstr::lemma_first_zero_unique(f, k);
    assert(field_text(f) =~= cstr_content(src));
}

/// A C string that is too long for its field keeps as much as fits before the
/// terminator.
pub proof fn law_stored_field_truncates(src: Seq<u8>, n: nat)
    requires
        n >= 1,
        first_zero(src) >= n,
    ensures
        field_text(stored_cstr(src, n)) == src.take(n - 1),
{
    lemma_first_zero(src);
    let k = n - 1;
    let f = stored_cstr(src, n);
    assert(f =~= src.take(k) + zeros((n - k) as nat));
    assert forall|i: int| 0 <= i < k implies f[i] != 0 by {
        assert(f[i] == src[i]);
    }
    crate::cstr::lemma_first_zero_unique(f, k);
    assert(field_text(f) =~= src.take(n - 1));
}

proof fn lemma_slash_prefixes(c: Seq<u8>, k: int)
    requires
        k <= c.len(),
    ensures
        forall|i: int|
            0 <= i < slash_prefixes(c, k).len() ==> {
                let d = #[trigger] slash_prefixes(c, k)[i];
                &&& 1 <= d.len() < k
                &&& d == c.take(d.len() as int)
                &&& c[d.len() as int] == 47
            },
        forall|i: int, j: int|
            0 <= i < j < slash_prefixes(c, k).len() ==> (#[trigger] slash_prefixes(c, k)[i]).len()
                < (#[trigger] slash_prefixes(c, k)[j]).len(),
    decreases k,
{
    if k > 1 {
        lemma_slash_prefixes(c, k - 1);
        let prev = slash_prefixes(c, k - 1);
        let cur = slash_prefixes(c, k);
        if c[k - 1] == 47 {
            let d = c.take(k - 1);
            assert(cur == prev.push(d));
            assert forall|i: int| 0 <= i < cur.len() implies {
                let d = #[trigger] cur[i];
                &&& 1 <= d.len() < k
                &&& d == c.take(d.len() as int)
                &&& c[d.len() as int] == 47
            } by {
                if i < prev.len() {
                    assert(cur[i] == prev[i]);
                }
            }
            assert forall|i: int, j: int| 0 <= i < j < cur.len() implies (#[trigger] cur[i]).len()
                < (#[trigger] cur[j]).len() by {
                assert(cur[i] == prev[i]);
                if j < prev.len() {
                    assert(cur[j] == prev[j]);
                }
            }
        } else {
            assert(cur == prev);
        }
    }
}

/// Parents first: every directory that making the log directory makes is the
/// path cut off before a `/`, or the whole path; each is longer than the one
/// before it, so a directory is made only after its parents.
pub proof fn law_log_dirs_parents_first(c: Seq<u8>)
    requires
        c.len() >= 1,
    ensures
        forall|i: int|
            0 <= i < log_dirs(c).len() ==> {
                let d = #[trigger] log_dirs(c)[i];
                &&& 1 <= d.len() <= c.len()
                &&& d == c.take(d.len() as int)
                &&& (d.len() < c.len() ==> c[d.len() as int] == 47)
            },
        forall|i: int, j: int|
            0 <= i < j < log_dirs(c).len() ==> (#[trigger] log_dirs(c)[i]).len() < (
            #[trigger] log_dirs(c)[j]).len(),
{
    if c.len() < LOG_DIR_PATH_MAX {
        lemma_slash_prefixes(c, c.len() as int);
        let s = slash_prefixes(c, c.len() as int);
        assert(c.take(c.len() as int) =~= c);
        assert forall|i: int| 0 <= i < log_dirs(c).len() implies {
            let d = #[trigger] log_dirs(c)[i];
            &&& 1 <= d.len() <= c.len()
            &&& d == c.take(d.len() as int)
            &&& (d.len() < c.len() ==> c[d.len() as int] == 47)
        } by {
            if i < s.len() {
                assert(log_dirs(c)[i] == s[i]);
            } else {
                assert(log_dirs(c)[i] == c);
            }
        }
        assert forall|i: int, j: int| 0 <= i < j < log_dirs(c).len() implies (
        #[trigger] log_dirs(c)[i]).len() < (#[trigger] log_dirs(c)[j]).len() by {
            assert(log_dirs(c)[i] == s[i]);
            if j < s.len() {
                assert(log_dirs(c)[j] == s[j]);
            }
        }
    } else {
        lemma_slash_prefixes(c, LOG_DIR_PATH_MAX as int);
    }
}

proof fn lemma_slash_prefixes_complete(c: Seq<u8>, k: int)
    requires
        k <= c.len(),
    ensures
        forall|i: int|
            1 <= i < k && c[i] == 47 ==> #[trigger] slash_prefixes(c, k).contains(c.take(i)),
    decreases k,
{
    if k > 1 {
        lemma_slash_prefixes_complete(c, k - 1);
        let prev = slash_prefixes(c, k - 1);
        let cur = slash_prefixes(c, k);
        assert forall|i: int| 1 <= i < k && c[i] == 47 implies #[trigger] cur.contains(
            c.take(i),
        ) by {
            if i == k - 1 {
                assert(cur == prev.push(c.take(k - 1)));
                assert(cur[prev.len() as int] == c.take(i));
            } else {
                assert(prev.contains(c.take(i)));
                let j = choose|j: int| 0 <= j < prev.len() && prev[j] == c.take(i);
                if c[k - 1] == 47 {
                    assert(cur == prev.push(c.take(k - 1)));
                    assert(cur[j] == prev[j]);
                }
            }
        }
    }
}

/// Every parent is made: for every `/` at an index `i` (after the first byte,
/// and inside the path buffer of `LOG_DIR_PATH_MAX` bytes) the path before it
/// is among the directories made; the whole path is made exactly when it fits
/// the buffer; and nothing else is made.
pub proof fn law_log_dirs_complete(c: Seq<u8>)
    requires
        c.len() >= 1,
    ensures
        forall|i: int|
            1 <= i < c.len() && i < 256 && c[i] == 47 ==> #[trigger] log_dirs(c).contains(
                c.take(i),
            ),
        c.len() < 256 <==> log_dirs(c).contains(c),
        forall|d: Seq<u8>|
            #[trigger] log_dirs(c).contains(d) ==> (d == c && c.len() < 256) || (1 <= d.len()
                < c.len() && d.len() < 256 && c[d.len() as int] == 47 && d == c.take(
                d.len() as int,
            )),
{
    let k = if c.len() < 256 {
        c.len() as int
    } else {
        256
    };
    lemma_slash_prefixes_complete(c, k);
    lemma_slash_prefixes(c, k);
    let sp = slash_prefixes(c, k);
    assert(log_dirs(c) == if c.len() < 256 {
        sp.push(c)
    } else {
        sp
    });
    assert forall|i: int| 1 <= i < c.len() && i < 256 && c[i] == 47 implies #[trigger] log_dirs(
        c,
    ).contains(c.take(i)) by {
        assert(sp.contains(c.take(i)));
        let j = choose|j: int| 0 <= j < sp.len() && sp[j] == c.take(i);
        assert(log_dirs(c)[j] == sp[j]);
    }
    assert forall|d: Seq<u8>| #[trigger] log_dirs(c).contains(d) implies (d == c && c.len() < 256)
        || (1 <= d.len() < c.len() && d.len() < 256 && c[d.len() as int] == 47 && d == c.take(
        d.len() as int,
    )) by {
        let j = choose|j: int| 0 <= j < log_dirs(c).len() && log_dirs(c)[j] == d;
        if j < sp.len() {
            assert(log_dirs(c)[j] == sp[j]);
        }
    }
    if c.len() < 256 {
        assert(log_dirs(c)[sp.len() as int] == c);
    } else {
        if log_dirs(c).contains(c) {
            let j = choose|j: int| 0 <= j < sp.len() && sp[j] == c;
            assert(sp[j].len() < k);
        }
    }
}

/// The mark is the seven bytes `G O O D L O G` at the start of the flag; the
/// eighth byte plays no part.
pub proof fn law_flag_is_goodlog(flag: Seq<u8>)
    requires
        flag.len() == 8,
    ensures
        flag_ok(flag) <==> (flag[0] == 71 && flag[1] == 79 && flag[2] == 79 && flag[3] == 68
            && flag[4] == 76 && flag[5] == 79 && flag[6] == 71),
{
    reveal_strlit("GOODLOG");
    assert(log_flag() =~= seq![71u8, 79u8, 79u8, 68u8, 76u8, 79u8, 71u8]);
    if flag[0] == 71 && flag[1] == 79 && flag[2] == 79 && flag[3] == 68 && flag[4] == 76
        && flag[5] == 79 && flag[6] == 71 {
        assert(flag.take(7) =~= log_flag());
    }
    if flag_ok(flag) {
        assert(flag.take(7)[0] == flag[0]);
        assert(flag.take(7)[1] == flag[1]);
        assert(flag.take(7)[2] == flag[2]);
        assert(flag.take(7)[3] == flag[3]);
        assert(flag.take(7)[4] == flag[4]);
        assert(flag.take(7)[5] == flag[5]);
        assert(flag.take(7)[6] == flag[6]);
    }
}

/// The data saved from the last log is the length the header gives, cut to
/// what the buffer holds after the header, and nothing for a length that is
/// not positive.
pub proof fn law_payload_len_is_clamped(log_size: usize, len: i32)
    requires
        log_size >= FAULT_LOG_INFO_SIZE,
    ensures
        0 <= payload_len(log_size, len) <= log_size - 588,
        len <= 0 ==> payload_len(log_size, len) == 0,
        0 < len <= log_size - 588 ==> payload_len(log_size, len) == len,
        len > log_size - 588 ==> payload_len(log_size, len) == log_size - 588,
{
}

} // verus!
