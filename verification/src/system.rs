use vstd::prelude::*;

use std::collections::HashMap;

use crate::platform::{duration_millis, since_unix_epoch, system_now};
use crate::models::{
    CpuTimes, DiskInfo, MemInfo, NetworkInterface, ProcessCpuTimes, ProcessInfo, ThrottleFlags,
};
use crate::text::{
    chars_eq, chars_of, contains_chars, radix_digits, lemma_radix_digits_chars, lemma_radix_digits_scan, lemma_trim_concat, lemma_index_of_at, lemma_digit_class, lead_ws, is_ws, digit_val, contains_seq, ascii_lower_seq, to_ascii_lower, lemma_split_ws_words, second_field, chars_second_field, strip_prefix, strip_suffix, chars_strip_prefix, chars_strip_suffix, index_of, trim, trim_chars, find_from, copy_range, string_from, int_error_message, int_error_text, lines, parse_uint, parse_uint_chars,
    split_lines, split_whitespace, string_views, split_ws, starts_with, has_prefix, views, IntErrorKind,
};

verus! {

broadcast use {vstd::string::group_string_axioms, vstd::std_specs::hash::group_hash_axioms};

/// A decimal `u64`, as `str::parse::<u64>` reads it.
pub open spec fn parse_u64(t: Seq<char>) -> Result<int, IntErrorKind> {
    parse_uint(t, u64::MAX as int, 10)
}

/// Every token read as a `u64`, or the error of the first that is none.
pub open spec fn parse_all_u64(ts: Seq<Seq<char>>) -> Result<Seq<u64>, IntErrorKind>
    decreases ts.len(),
{
    if ts.len() == 0 {
        Ok(seq![])
    } else {
        match parse_u64(ts[0]) {
            Err(k) => Err(k),
            Ok(v) => match parse_all_u64(ts.drop_first()) {
                Err(k) => Err(k),
                Ok(vs) => Ok(seq![v as u64] + vs),
            },
        }
    }
}

/// At most the first `n` elements of `s`, as `Iterator::take` gives them.
pub open spec fn first_n<A>(s: Seq<A>, n: int) -> Seq<A> {
    if s.len() <= n {
        s
    } else {
        s.take(n)
    }
}

/// The sum of `s`.
pub open spec fn seq_sum(s: Seq<u64>) -> int
    decreases s.len(),
{
    if s.len() == 0 {
        0
    } else {
        seq_sum(s.drop_last()) + s.last()
    }
}

/// The counters of a `/proc/stat` line that starts with `cpu`: `None` when
/// the line is passed over, else the first ten numbers after the label (or
/// the error of the first that is no `u64`).
pub open spec fn cpu_line_values(line: Seq<char>) -> Option<Result<Seq<u64>, IntErrorKind>> {
    let toks = split_ws(line);
    if toks.len() == 0 {
        None
    } else if toks[0] != "cpu"@ && !starts_with(toks[0], "cpu"@) {
        None
    } else {
        Some(parse_all_u64(first_n(toks.skip(1), 10)))
    }
}

/// Idle time of a `cpu` line: the idle plus the iowait field.
pub open spec fn cpu_idle(vs: Seq<u64>) -> int {
    vs[3] + if vs.len() > 4 {
        vs[4] as int
    } else {
        0
    }
}

/// Puts `c` in front of a successful scan.
pub open spec fn prepend_times(
    c: Seq<CpuTimes>,
    r: Option<Result<Seq<CpuTimes>, IntErrorKind>>,
) -> Option<Result<Seq<CpuTimes>, IntErrorKind>> {
    match r {
        Some(Ok(cs)) => Some(Ok(c + cs)),
        other => other,
    }
}

/// Reads the leading `cpu` lines of `/proc/stat`: `None` where a counter sum
/// does not fit in a `u64`, an error for the first counter that is no number,
/// else one entry per line with at least four counters.
pub open spec fn cpu_scan(ls: Seq<Seq<char>>) -> Option<Result<Seq<CpuTimes>, IntErrorKind>>
    decreases ls.len(),
{
    if ls.len() == 0 || !starts_with(ls[0], "cpu"@) {
        Some(Ok(seq![]))
    } else {
        match cpu_line_values(ls[0]) {
            None => cpu_scan(ls.drop_first()),
            Some(Err(k)) => Some(Err(k)),
            Some(Ok(vs)) => if vs.len() < 4 {
                cpu_scan(ls.drop_first())
            } else if cpu_idle(vs) > u64::MAX || seq_sum(vs) > u64::MAX {
                None
            } else {
                prepend_times(
                    seq![CpuTimes { idle: cpu_idle(vs) as u64, total: seq_sum(vs) as u64 }],
                    cpu_scan(ls.drop_first()),
                )
            },
        }
    }
}

/// What reading `/proc/stat` content gives: `None` where a counter sum
/// overflows, else the counters of the aggregate and of each core, or an
/// error message.
pub open spec fn cpu_snapshot_outcome(raw: Seq<char>) -> Option<Result<Seq<CpuTimes>, Seq<char>>> {
    match cpu_scan(lines(raw)) {
        None => None,
        Some(Err(k)) => Some(Err(int_error_message(k))),
        Some(Ok(cs)) => if cs.len() == 0 {
            Some(Err("missing cpu counters"@))
        } else {
            Some(Ok(cs))
        },
    }
}

/// Reads `ts[lo..hi]` as `u64` values, stopping at the first that is none.
fn parse_u64_tokens(ts: &Vec<Vec<char>>, lo: usize, hi: usize) -> (r: Result<Vec<u64>, IntErrorKind>)
    requires
        lo <= hi <= ts.len(),
    ensures
        r matches Ok(v) ==> v.len() == hi - lo,
        r matches Ok(v) ==> parse_all_u64(views(ts@).subrange(lo as int, hi as int)) == Ok::<
            Seq<u64>,
            IntErrorKind,
        >(v@),
        r matches Err(k) ==> parse_all_u64(views(ts@).subrange(lo as int, hi as int)) == Err::<
            Seq<u64>,
            IntErrorKind,
        >(k),
{
    let ghost all = views(ts@).subrange(lo as int, hi as int);
    let mut out: Vec<u64> = Vec::new();
    let mut i = lo;
    assert(views(ts@).subrange(lo as int, hi as int) =~= all);
    while i < hi
        invariant
            lo <= i <= hi <= ts.len(),
            out.len() == i - lo,
            all == views(ts@).subrange(lo as int, hi as int),
            parse_all_u64(all) == match parse_all_u64(views(ts@).subrange(i as int, hi as int)) {
                Ok(vs) => Ok(out@ + vs),
                Err(k) => Err(k),
            },
        decreases hi - i,
    {
        let ghost rest = views(ts@).subrange(i as int, hi as int);
        assert(rest[0] == ts@[i as int]@);
        assert(rest.drop_first() =~= views(ts@).subrange(i + 1, hi as int));
        match parse_uint_chars(&ts[i], u64::MAX, 10) {
            Err(k) => {
                return Err(k);
            },
            Ok(v) => {
                let ghost before = out@;
                out.push(v);
                proof {
                    match parse_all_u64(views(ts@).subrange(i + 1, hi as int)) {
                        Ok(vs) => {
                            assert(before + (seq![v] + vs) =~= out@ + vs);
                        },
                        Err(k) => {},
                    }
                }
            },
        }
        i = i + 1;
    }
    assert(views(ts@).subrange(i as int, hi as int) =~= seq![]);
    assert(out@ + seq![] =~= out@);
    Ok(out)
}

/// The sum of `vs`, exactly.
fn sum_u64(vs: &Vec<u64>) -> (r: u128)
    requires
        vs.len() <= 16,
    ensures
        r == seq_sum(vs@),
{
    let mut acc: u128 = 0;
    let mut i: usize = 0;
    while i < vs.len()
        invariant
            i <= vs.len() <= 16,
            acc == seq_sum(vs@.take(i as int)),
            acc <= i * (u64::MAX as int),
        decreases vs.len() - i,
    {
        assert(vs@.take(i + 1).drop_last() =~= vs@.take(i as int));
        acc = acc + vs[i] as u128;
        i = i + 1;
    }
    assert(vs@.take(i as int) =~= vs@);
    acc
}

/// Reads the CPU counters of `/proc/stat` content; `None` where a counter
/// sum does not fit in a `u64`.
pub fn parse_cpu_snapshot_checked(raw: &str) -> (r: Option<Result<Vec<CpuTimes>, String>>)
    ensures
        r is None <==> cpu_snapshot_outcome(raw@) is None,
        r matches Some(Ok(v)) ==> cpu_snapshot_outcome(raw@) == Some(
            Ok::<Seq<CpuTimes>, Seq<char>>(v@),
        ),
        r matches Some(Err(e)) ==> cpu_snapshot_outcome(raw@) == Some(
            Err::<Seq<CpuTimes>, Seq<char>>(e@),
        ),
{
    let cs = chars_of(raw);
    let ls = split_lines(&cs);
    let cpu = chars_of("cpu");
    let ghost all = views(ls@);
    let mut snaps: Vec<CpuTimes> = Vec::new();
    let mut i: usize = 0;
    assert(all.skip(0) =~= all);
    assert(seq![] + seq![] =~= Seq::<CpuTimes>::empty());
    while i < ls.len()
        invariant_except_break
            i <= ls.len(),
            all == views(ls@),
            all == lines(cs@),
            cs@ == raw@,
            cpu@ == "cpu"@,
            cpu_scan(all) == prepend_times(snaps@, cpu_scan(all.skip(i as int))),
        ensures
            i <= ls.len(),
            cpu_scan(all) == prepend_times(snaps@, cpu_scan(all.skip(i as int))),
            cpu_scan(all.skip(i as int)) == Some(Ok::<Seq<CpuTimes>, IntErrorKind>(seq![])),
        decreases ls.len() - i,
    {
        let ghost rest = all.skip(i as int);
        assert(rest[0] == ls@[i as int]@);
        assert(rest.drop_first() =~= all.skip(i + 1));
        let line = &ls[i];
        if !has_prefix(line, &cpu) {
            assert(!starts_with(rest[0], "cpu"@));
            break;
        }
        let toks = split_whitespace(line);
        if toks.len() == 0 {
            i = i + 1;
            continue;
        }
        let label = &toks[0];
        assert(views(toks@)[0] == label@);
        if !chars_eq(label, &cpu) && !has_prefix(label, &cpu) {
            i = i + 1;
            continue;
        }
        let end: usize = if toks.len() > 11 {
            11
        } else {
            toks.len()
        };
        assert(first_n(views(toks@).skip(1), 10) =~= views(toks@).subrange(1, end as int));
        match parse_u64_tokens(&toks, 1, end) {
            Err(k) => {
                return Some(Err(int_error_text(k)));
            },
            Ok(vs) => {
                if vs.len() < 4 {
                    i = i + 1;
                    continue;
                }
                let idle: u128 = vs[3] as u128 + if vs.len() > 4 {
                    vs[4] as u128
                } else {
                    0
                };
                let total = sum_u64(&vs);
                if idle > u64::MAX as u128 || total > u64::MAX as u128 {
                    return None;
                }
                let ghost before = snaps@;
                let t = CpuTimes { idle: idle as u64, total: total as u64 };
                snaps.push(t);
                proof {
                    match cpu_scan(all.skip(i + 1)) {
                        Some(Ok(x)) => {
                            assert(before + (seq![t] + x) =~= snaps@ + x);
                        },
                        _ => {},
                    }
                }
            },
        }
        i = i + 1;
    }
    assert(snaps@ + seq![] =~= snaps@);
    if snaps.len() == 0 {
        return Some(Err("missing cpu counters".to_owned()));
    }
    Some(Ok(snaps))
}


/// Reads `/proc/stat` content into the counters of the aggregate CPU and of
/// each core; the content must not hold counter sums that overflow a `u64`.
pub fn parse_cpu_snapshot(raw: &str) -> (r: Result<Vec<CpuTimes>, String>)
    requires
        cpu_snapshot_outcome(raw@) is Some,
    ensures
        r matches Ok(v) ==> cpu_snapshot_outcome(raw@) == Some(Ok::<Seq<CpuTimes>, Seq<char>>(v@)),
        r matches Err(e) ==> cpu_snapshot_outcome(raw@) == Some(Err::<Seq<CpuTimes>, Seq<char>>(e@)),
{
    match parse_cpu_snapshot_checked(raw) {
        Some(r) => r,
        None => {
            assert(false);
            Err(String::new())
        },
    }
}

/// `a - b`, or 0 where `b` is the larger.
pub open spec fn sat_sub(a: int, b: int) -> int {
    if a >= b {
        a - b
    } else {
        0
    }
}

/// The `/proc/meminfo` fields that memory usage is computed from, in kB.
#[derive(Clone, Copy, Debug, PartialEq, Eq, Structural)]
pub struct MemKb {
    pub total: Option<u64>,
    pub available: Option<u64>,
    pub buffers: u64,
    pub cached: u64,
    pub shmem: u64,
    pub swap_total: u64,
    pub swap_free: u64,
}

/// The fields before any line is read.
pub open spec fn mem_kb_start() -> MemKb {
    MemKb {
        total: None,
        available: None,
        buffers: 0,
        cached: 0,
        shmem: 0,
        swap_total: 0,
        swap_free: 0,
    }
}

/// The second token of a line as a `u64`, if there is one and it is a number.
pub open spec fn second_u64(toks: Seq<Seq<char>>) -> Option<u64> {
    if toks.len() >= 2 {
        match parse_u64(toks[1]) {
            Ok(v) => Some(v as u64),
            Err(_) => None,
        }
    } else {
        None
    }
}

/// `v`, or 0.
pub open spec fn or_zero(v: Option<u64>) -> u64 {
    match v {
        Some(x) => x,
        None => 0,
    }
}

/// The fields after one more `/proc/meminfo` line: a line whose label is one
/// of the seven sets that field from its value (a missing or malformed value
/// unsets the total and the available amount and zeroes the others).
pub open spec fn mem_kb_step(st: MemKb, line: Seq<char>) -> MemKb {
    let toks = split_ws(line);
    if toks.len() == 0 {
        st
    } else {
        let key = toks[0];
        let v = second_u64(toks);
        if key == "MemTotal:"@ {
            MemKb { total: v, ..st }
        } else if key == "MemAvailable:"@ {
            MemKb { available: v, ..st }
        } else if key == "Buffers:"@ {
            MemKb { buffers: or_zero(v), ..st }
        } else if key == "Cached:"@ {
            MemKb { cached: or_zero(v), ..st }
        } else if key == "Shmem:"@ {
            MemKb { shmem: or_zero(v), ..st }
        } else if key == "SwapTotal:"@ {
            MemKb { swap_total: or_zero(v), ..st }
        } else if key == "SwapFree:"@ {
            MemKb { swap_free: or_zero(v), ..st }
        } else {
            st
        }
    }
}

/// The fields after all of `ls`, read in order.
pub open spec fn mem_kb(ls: Seq<Seq<char>>) -> MemKb
    decreases ls.len(),
{
    if ls.len() == 0 {
        mem_kb_start()
    } else {
        mem_kb_step(mem_kb(ls.drop_last()), ls.last())
    }
}

/// What reading `/proc/meminfo` content gives: an error when the total or
/// the available amount is missing, `None` where a byte count does not fit
/// in a `u64`, else the usage in bytes (used = total - available, swap used
/// = swap total - swap free, each 0 at least).
pub open spec fn meminfo_outcome(raw: Seq<char>) -> Option<Result<MemInfo, Seq<char>>> {
    let kb = mem_kb(lines(raw));
    match kb.total {
        None => Some(Err("MemTotal missing"@)),
        Some(t) => match kb.available {
            None => Some(Err("MemAvailable missing"@)),
            Some(a) => {
                let used = sat_sub(t as int, a as int);
                let swap_used = sat_sub(kb.swap_total as int, kb.swap_free as int);
                if t * 1024 > u64::MAX || used * 1024 > u64::MAX || kb.buffers * 1024 > u64::MAX
                    || kb.cached * 1024 > u64::MAX || kb.shmem * 1024 > u64::MAX || kb.swap_total
                    * 1024 > u64::MAX || swap_used * 1024 > u64::MAX {
                    None
                } else {
                    Some(
                        Ok(
                            MemInfo {
                                total_bytes: (t * 1024) as u64,
                                used_bytes: (used * 1024) as u64,
                                buffers_bytes: (kb.buffers * 1024) as u64,
                                cached_bytes: (kb.cached * 1024) as u64,
                                shared_bytes: (kb.shmem * 1024) as u64,
                                swap_total_bytes: (kb.swap_total * 1024) as u64,
                                swap_used_bytes: (swap_used * 1024) as u64,
                            },
                        ),
                    )
                }
            },
        },
    }
}

/// The second token of `toks` as a `u64`.
fn second_u64_exec(toks: &Vec<Vec<char>>) -> (r: Option<u64>)
    ensures
        r == second_u64(views(toks@)),
{
    if toks.len() >= 2 {
        assert(views(toks@)[1] == toks@[1]@);
        match parse_uint_chars(&toks[1], u64::MAX, 10) {
            Ok(v) => Some(v),
            Err(_) => None,
        }
    } else {
        None
    }
}

/// Applies one `/proc/meminfo` line to the fields read so far.
fn mem_kb_step_exec(st: MemKb, line: &Vec<char>) -> (r: MemKb)
    ensures
        r == mem_kb_step(st, line@),
{
    let toks = split_whitespace(line);
    if toks.len() == 0 {
        return st;
    }
    let key = &toks[0];
    assert(views(toks@)[0] == key@);
    let v = second_u64_exec(&toks);
    let zero_or = match v {
        Some(x) => x,
        None => 0,
    };
    if chars_eq(key, &chars_of("MemTotal:")) {
        MemKb { total: v, ..st }
    } else if chars_eq(key, &chars_of("MemAvailable:")) {
        MemKb { available: v, ..st }
    } else if chars_eq(key, &chars_of("Buffers:")) {
        MemKb { buffers: zero_or, ..st }
    } else if chars_eq(key, &chars_of("Cached:")) {
        MemKb { cached: zero_or, ..st }
    } else if chars_eq(key, &chars_of("Shmem:")) {
        MemKb { shmem: zero_or, ..st }
    } else if chars_eq(key, &chars_of("SwapTotal:")) {
        MemKb { swap_total: zero_or, ..st }
    } else if chars_eq(key, &chars_of("SwapFree:")) {
        MemKb { swap_free: zero_or, ..st }
    } else {
        st
    }
}

/// Reads memory usage from `/proc/meminfo` content; `None` where a byte
/// count does not fit in a `u64`.
pub fn parse_meminfo_checked(raw: &str) -> (r: Option<Result<MemInfo, String>>)
    ensures
        r is None <==> meminfo_outcome(raw@) is None,
        r matches Some(Ok(m)) ==> meminfo_outcome(raw@) == Some(Ok::<MemInfo, Seq<char>>(m)),
        r matches Some(Err(e)) ==> meminfo_outcome(raw@) == Some(Err::<MemInfo, Seq<char>>(e@)),
{
    let cs = chars_of(raw);
    let ls = split_lines(&cs);
    let ghost all = views(ls@);
    let mut st = MemKb {
        total: None,
        available: None,
        buffers: 0,
        cached: 0,
        shmem: 0,
        swap_total: 0,
        swap_free: 0,
    };
    let mut i: usize = 0;
    assert(all.take(0) =~= Seq::<Seq<char>>::empty());
    while i < ls.len()
        invariant
            i <= ls.len(),
            all == views(ls@),
            st == mem_kb(all.take(i as int)),
        decreases ls.len() - i,
    {
        assert(all.take(i + 1).drop_last() =~= all.take(i as int));
        assert(all.take(i + 1).last() == ls@[i as int]@);
        st = mem_kb_step_exec(st, &ls[i]);
        i = i + 1;
    }
    assert(all.take(i as int) =~= all);
    let t = match st.total {
        None => {
            return Some(Err("MemTotal missing".to_owned()));
        },
        Some(t) => t,
    };
    let a = match st.available {
        None => {
            return Some(Err("MemAvailable missing".to_owned()));
        },
        Some(a) => a,
    };
    let used = t.saturating_sub(a);
    let swap_used = st.swap_total.saturating_sub(st.swap_free);
    let limit: u64 = u64::MAX / 1024;
    if t > limit || used > limit || st.buffers > limit || st.cached > limit || st.shmem > limit
        || st.swap_total > limit || swap_used > limit {
        return None;
    }
    Some(
        Ok(
            MemInfo {
                total_bytes: t * 1024,
                used_bytes: used * 1024,
                buffers_bytes: st.buffers * 1024,
                cached_bytes: st.cached * 1024,
                shared_bytes: st.shmem * 1024,
                swap_total_bytes: st.swap_total * 1024,
                swap_used_bytes: swap_used * 1024,
            },
        ),
    )
}

/// Reads memory usage from `/proc/meminfo` content, whose byte counts must
/// fit in a `u64`.
pub fn parse_meminfo(raw: &str) -> (r: Result<MemInfo, String>)
    requires
        meminfo_outcome(raw@) is Some,
    ensures
        r matches Ok(m) ==> meminfo_outcome(raw@) == Some(Ok::<MemInfo, Seq<char>>(m)),
        r matches Err(e) ==> meminfo_outcome(raw@) == Some(Err::<MemInfo, Seq<char>>(e@)),
{
    match parse_meminfo_checked(raw) {
        Some(r) => r,
        None => {
            assert(false);
            Err(String::new())
        },
    }
}

/// Memory usage never reports more in use than there is.
pub proof fn lemma_meminfo_used_within_total(raw: Seq<char>)
    requires
        meminfo_outcome(raw) matches Some(Ok(_)),
    ensures
        meminfo_outcome(raw) matches Some(Ok(m)) ==> m.used_bytes <= m.total_bytes
            && m.swap_used_bytes <= m.swap_total_bytes,
{
}


/// All but the first `n` elements of `s`, as `Iterator::skip` leaves them.
pub open spec fn skip_n<A>(s: Seq<A>, n: int) -> Seq<A> {
    if s.len() <= n {
        seq![]
    } else {
        s.skip(n)
    }
}

/// The message for a `/proc/net/dev` line with too few counters.
pub open spec fn too_few_fields_message() -> Seq<char> {
    "too few fields in network stats line"@
}

/// What one `/proc/net/dev` line gives. A line without `:`, or whose name
/// before the first `:` (trimmed) is empty or `lo`, describes no interface.
/// Otherwise it must hold at least sixteen counters, of which the first two
/// (received bytes and packets) and the ninth and tenth (sent bytes and
/// packets) must be decimal `u64` values; the error is that of the first of
/// these four, in that order, that is none.
pub open spec fn net_line(line: Seq<char>) -> Option<Result<(Seq<char>, u64, u64, u64, u64), Seq<char>>> {
    let i = index_of(line, ':');
    if i < 0 {
        None
    } else {
        let name = trim(line.take(i));
        if name.len() == 0 || name == "lo"@ {
            None
        } else {
            let parts = split_ws(line.skip(i + 1));
            if parts.len() < 16 {
                Some(Err(too_few_fields_message()))
            } else {
                match parse_u64(parts[0]) {
                    Err(k) => Some(Err(int_error_message(k))),
                    Ok(rx_bytes) => match parse_u64(parts[1]) {
                        Err(k) => Some(Err(int_error_message(k))),
                        Ok(rx_packets) => match parse_u64(parts[8]) {
                            Err(k) => Some(Err(int_error_message(k))),
                            Ok(tx_bytes) => match parse_u64(parts[9]) {
                                Err(k) => Some(Err(int_error_message(k))),
                                Ok(tx_packets) => Some(
                                    Ok(
                                        (
                                            name,
                                            rx_bytes as u64,
                                            tx_bytes as u64,
                                            rx_packets as u64,
                                            tx_packets as u64,
                                        ),
                                    ),
                                ),
                            },
                        },
                    },
                }
            }
        }
    }
}

/// The interfaces that the lines `ls` describe, in order, or the error of
/// the first malformed line.
pub open spec fn net_interfaces(ls: Seq<Seq<char>>) -> Result<Seq<(Seq<char>, u64, u64, u64, u64)>, Seq<char>>
    decreases ls.len(),
{
    if ls.len() == 0 {
        Ok(seq![])
    } else {
        match net_interfaces(ls.drop_last()) {
            Err(e) => Err(e),
            Ok(before) => match net_line(ls.last()) {
                Some(Ok(x)) => Ok(before.push(x)),
                Some(Err(e)) => Err(e),
                None => Ok(before),
            },
        }
    }
}

/// The interfaces of `/proc/net/dev` content: those of every line after the
/// two header lines, or the error of the first malformed one.
pub open spec fn net_stats(raw: Seq<char>) -> Result<Seq<(Seq<char>, u64, u64, u64, u64)>, Seq<char>> {
    net_interfaces(skip_n(lines(raw), 2))
}

/// An error in the first `k` lines is the error of all of them.
proof fn lemma_net_error_sticks(ls: Seq<Seq<char>>, k: int, e: Seq<char>)
    requires
        0 <= k <= ls.len(),
        net_interfaces(ls.take(k)) == Err::<Seq<(Seq<char>, u64, u64, u64, u64)>, Seq<char>>(e),
    ensures
        net_interfaces(ls) == Err::<Seq<(Seq<char>, u64, u64, u64, u64)>, Seq<char>>(e),
    decreases ls.len() - k,
{
    if k == ls.len() {
        assert(ls.take(k) =~= ls);
    } else {
        let t = ls.take(k + 1);
        assert(t.drop_last() =~= ls.take(k));
        lemma_net_error_sticks(ls, k + 1, e);
    }
}

/// No interface in the list is the loopback `lo` or has an empty name.
pub proof fn lemma_net_stats_names(raw: Seq<char>)
    ensures
        net_stats(raw) matches Ok(v) ==> forall|i: int|
            0 <= i < v.len() ==> #[trigger] v[i].0 != "lo"@ && v[i].0.len() > 0,
{
    lemma_net_interfaces_names(skip_n(lines(raw), 2));
}

proof fn lemma_net_interfaces_names(ls: Seq<Seq<char>>)
    ensures
        net_interfaces(ls) matches Ok(v) ==> forall|i: int|
            0 <= i < v.len() ==> #[trigger] v[i].0 != "lo"@ && v[i].0.len() > 0,
    decreases ls.len(),
{
    if ls.len() > 0 {
        lemma_net_interfaces_names(ls.drop_last());
        match net_interfaces(ls.drop_last()) {
            Ok(before) => match net_line(ls.last()) {
                Some(Ok(x)) => {
                    assert(x.0 != "lo"@ && x.0.len() > 0);
                    let v = before.push(x);
                    assert forall|i: int| 0 <= i < v.len() implies #[trigger] v[i].0 != "lo"@
                        && v[i].0.len() > 0 by {
                        if i < before.len() {
                            assert(v[i] == before[i]);
                        }
                    }
                },
                _ => {},
            },
            Err(_) => {},
        }
    }
}

/// Views of a sequence of interfaces.
pub open spec fn interface_views(v: Seq<NetworkInterface>) -> Seq<(Seq<char>, u64, u64, u64, u64)> {
    v.map_values(|x: NetworkInterface| x@)
}

/// A token of `parts` as a `u64`.
fn token_u64(parts: &Vec<Vec<char>>, k: usize) -> (r: Result<u64, IntErrorKind>)
    requires
        k < parts.len(),
    ensures
        r matches Ok(v) ==> parse_u64(views(parts@)[k as int]) == Ok::<int, IntErrorKind>(v as int),
        r matches Err(e) ==> parse_u64(views(parts@)[k as int]) == Err::<int, IntErrorKind>(e),
{
    assert(views(parts@)[k as int] == parts@[k as int]@);
    parse_uint_chars(&parts[k], u64::MAX, 10)
}

/// The interface that one line describes, if any, or its error.
fn net_line_exec(line: &Vec<char>) -> (r: Option<Result<NetworkInterface, String>>)
    ensures
        r matches Some(Ok(x)) ==> net_line(line@) == Some(
            Ok::<(Seq<char>, u64, u64, u64, u64), Seq<char>>(x@),
        ),
        r matches Some(Err(e)) ==> net_line(line@) == Some(
            Err::<(Seq<char>, u64, u64, u64, u64), Seq<char>>(e@),
        ),
        r is None ==> net_line(line@) is None,
{
    let i = match find_from(line, 0, ':') {
        None => {
            assert(line@.skip(0) =~= line@);
            return None;
        },
        Some(i) => i,
    };
    assert(line@.skip(0) =~= line@);
    let head = copy_range(line, 0, i);
    assert(head@ =~= line@.take(i as int));
    let name = trim_chars(&head);
    if name.len() == 0 || chars_eq(&name, &chars_of("lo")) {
        return None;
    }
    let tail = copy_range(line, i + 1, line.len());
    assert(tail@ =~= line@.skip(i + 1));
    let parts = split_whitespace(&tail);
    if parts.len() < 16 {
        return Some(Err("too few fields in network stats line".to_owned()));
    }
    let rx_bytes = match token_u64(&parts, 0) {
        Ok(v) => v,
        Err(k) => {
            return Some(Err(int_error_text(k)));
        },
    };
    let rx_packets = match token_u64(&parts, 1) {
        Ok(v) => v,
        Err(k) => {
            return Some(Err(int_error_text(k)));
        },
    };
    let tx_bytes = match token_u64(&parts, 8) {
        Ok(v) => v,
        Err(k) => {
            return Some(Err(int_error_text(k)));
        },
    };
    let tx_packets = match token_u64(&parts, 9) {
        Ok(v) => v,
        Err(k) => {
            return Some(Err(int_error_text(k)));
        },
    };
    Some(Ok(NetworkInterface { name: string_from(&name), rx_bytes, tx_bytes, rx_packets, tx_packets }))
}

/// Reads per-interface traffic counters from `/proc/net/dev` content: an
/// error for the first line after the two headers that names an interface
/// but has too few counters or a counter that is no number; lines that
/// describe no interface are passed over.
pub fn parse_network_stats(raw: &str) -> (r: Result<Vec<NetworkInterface>, String>)
    ensures
        r matches Ok(v) ==> net_stats(raw@) == Ok::<Seq<(Seq<char>, u64, u64, u64, u64)>, Seq<char>>(
            interface_views(v@),
        ),
        r matches Err(e) ==> net_stats(raw@) == Err::<Seq<(Seq<char>, u64, u64, u64, u64)>, Seq<char>>(
            e@,
        ),
{
    let cs = chars_of(raw);
    let ls = split_lines(&cs);
    let ghost all = views(ls@);
    let ghost body = skip_n(all, 2);
    let mut out: Vec<NetworkInterface> = Vec::new();
    let mut i: usize = 2;
    if ls.len() <= 2 {
        assert(body =~= Seq::<Seq<char>>::empty());
        assert(interface_views(out@) =~= seq![]);
        return Ok(out);
    }
    assert(body.take(0) =~= Seq::<Seq<char>>::empty());
    assert(interface_views(out@) =~= seq![]);
    while i < ls.len()
        invariant
            2 <= i <= ls.len(),
            all == views(ls@),
            all == lines(raw@),
            ls.len() > 2,
            body == all.skip(2),
            body == skip_n(all, 2),
            net_interfaces(body.take(i - 2)) == Ok::<
                Seq<(Seq<char>, u64, u64, u64, u64)>,
                Seq<char>,
            >(interface_views(out@)),
        decreases ls.len() - i,
    {
        assert(body.take(i - 1).drop_last() =~= body.take(i - 2));
        assert(body.take(i - 1).last() == ls@[i as int]@);
        let ghost before = out@;
        match net_line_exec(&ls[i]) {
            Some(Ok(x)) => {
                out.push(x);
                assert(interface_views(out@) =~= interface_views(before).push(x@));
            },
            Some(Err(e)) => {
                proof {
                    assert(net_interfaces(body.take(i - 1)) == Err::<
                        Seq<(Seq<char>, u64, u64, u64, u64)>,
                        Seq<char>,
                    >(e@));
                    lemma_net_error_sticks(body, i - 1, e@);
                }
                return Err(e);
            },
            None => {},
        }
        i = i + 1;
    }
    assert(body.take(i - 2) =~= body);
    Ok(out)
}


/// The value text of `vcgencmd measure_temp` output: the trimmed output
/// between `temp=` and `'C`.
pub open spec fn temp_value(raw: Seq<char>) -> Option<Seq<char>> {
    match strip_prefix(trim(raw), "temp="@) {
        None => None,
        Some(rest) => strip_suffix(rest, "'C"@),
    }
}

/// The value text of `vcgencmd measure_volts` output: the second `=`-separated
/// piece of the trimmed output, without its final `V`.
pub open spec fn volts_value(raw: Seq<char>) -> Option<Seq<char>> {
    match second_field(trim(raw), '=') {
        None => None,
        Some(v) => strip_suffix(v, "V"@),
    }
}

/// What `vcgencmd measure_clock` output reads as: the second `=`-separated
/// piece of the trimmed output, as a decimal `u64`.
pub open spec fn clock_value(raw: Seq<char>) -> Option<u64> {
    match second_field(trim(raw), '=') {
        None => None,
        Some(v) => match parse_u64(v) {
            Ok(n) => Some(n as u64),
            Err(_) => None,
        },
    }
}

/// What `vcgencmd get_throttled` output reads as: the second `=`-separated
/// piece of the trimmed output, without a leading `0x`, as a hexadecimal `u32`.
pub open spec fn throttled_value(raw: Seq<char>) -> Option<u32> {
    match second_field(trim(raw), '=') {
        None => None,
        Some(v) => {
            let hex = match strip_prefix(v, "0x"@) {
                Some(h) => h,
                None => v,
            };
            match parse_uint(hex, u32::MAX as int, 16) {
                Ok(n) => Some(n as u32),
                Err(_) => None,
            }
        },
    }
}

/// Reading back a clock frequency: a label without `=`, then `=`, then
/// `n` in decimal, then any whitespace (such as the final newline), reads as
/// `n`.
pub proof fn lemma_clock_round_trip(label: Seq<char>, n: u64, tail: Seq<char>)
    requires
        forall|i: int| 0 <= i < label.len() ==> #[trigger] label[i] != '=',
        forall|i: int| 0 <= i < tail.len() ==> is_ws(#[trigger] tail[i]),
    ensures
        clock_value(label + seq!['='] + radix_digits(n as nat, 10, false) + tail) == Some(n),
{
    let d = radix_digits(n as nat, 10, false);
    lemma_radix_digits_chars(n as nat, 10, false);
    lemma_radix_digits_scan(n as nat, 10, false, u64::MAX as int);
    lemma_value_after_label(label, seq![], d, tail, 10);
    assert(seq![] + d =~= d);
    assert(label + seq!['='] + d + tail =~= label + (seq!['='] + (seq![] + d)) + tail);
    lemma_digit_class(d[0], 10);
}

/// Reading back a throttling mask: a label without `=`, then `=`, then
/// `x` in hexadecimal (either case, with or without `0x`), then any
/// whitespace, reads as `x`.
pub proof fn lemma_throttled_round_trip(label: Seq<char>, x: u32, prefixed: bool, upper: bool, tail: Seq<char>)
    requires
        forall|i: int| 0 <= i < label.len() ==> #[trigger] label[i] != '=',
        forall|i: int| 0 <= i < tail.len() ==> is_ws(#[trigger] tail[i]),
    ensures
        throttled_value(
            label + seq!['='] + (if prefixed {
                "0x"@
            } else {
                seq![]
            }) + radix_digits(x as nat, 16, upper) + tail,
        ) == Some(x),
{
    reveal_strlit("0x");
    let h = radix_digits(x as nat, 16, upper);
    let p: Seq<char> = if prefixed {
        "0x"@
    } else {
        seq![]
    };
    lemma_radix_digits_chars(x as nat, 16, upper);
    lemma_radix_digits_scan(x as nat, 16, upper, u32::MAX as int);
    assert forall|i: int| 0 <= i < p.len() implies #[trigger] p[i] != '=' && !is_ws(p[i]) by {
        assert('0' as u32 == 48 && 'x' as u32 == 120);
    }
    lemma_value_after_label(label, p, h, tail, 16);
    assert(label + seq!['='] + p + h + tail =~= label + (seq!['='] + (p + h)) + tail);
    lemma_digit_class(h[0], 16);
    let v = p + h;
    if prefixed {
        assert(v.take(2) =~= "0x"@);
        assert(v.skip(2) =~= h);
    } else {
        assert(v =~= h);
        if h.len() >= 2 {
            lemma_digit_class(h[1], 16);
            assert(h.take(2)[1] != "0x"@[1]);
        }
    }
}

/// What a line `label=` + `p` + `d` + whitespace gives: trimmed, its second
/// `=`-separated piece is `p` + `d`, when neither the label, `p` nor the
/// numeral `d` holds `=`.
proof fn lemma_value_after_label(label: Seq<char>, p: Seq<char>, d: Seq<char>, tail: Seq<char>, radix: int)
    requires
        forall|i: int| 0 <= i < label.len() ==> #[trigger] label[i] != '=',
        forall|i: int| 0 <= i < tail.len() ==> is_ws(#[trigger] tail[i]),
        forall|i: int| 0 <= i < p.len() ==> #[trigger] p[i] != '=' && !is_ws(p[i]),
        d.len() > 0,
        forall|i: int| 0 <= i < d.len() ==> digit_val(#[trigger] d[i], radix) >= 0,
    ensures
        second_field(trim(label + (seq!['='] + (p + d)) + tail), '=') == Some(p + d),
{
    let b = seq!['='] + (p + d);
    assert(b[0] == '=');
    assert(b.last() == d.last());
    lemma_digit_class(d.last(), radix);
    assert(!is_ws('=')) by {
        assert('=' as u32 == 61);
    }
    lemma_trim_concat(label, b, tail);
    let l = label.skip(lead_ws(label) as int);
    let t = l + b;
    assert forall|k: int| 0 <= k < l.len() implies t[k] != '=' by {
        assert(t[k] == label[lead_ws(label) + k]);
    }
    assert(t[l.len() as int] == '=');
    lemma_index_of_at(t, '=', l.len() as int);
    let rest = t.skip(l.len() as int + 1);
    assert(rest =~= p + d);
    assert forall|k: int| 0 <= k < rest.len() implies rest[k] != '=' by {
        if k < p.len() {
            assert(rest[k] == p[k]);
        } else {
            assert(rest[k] == d[k - p.len()]);
            lemma_digit_class(d[k - p.len()], radix);
        }
    }
    lemma_index_of_at(rest, '=', -1);
}

/// Takes the number text out of `vcgencmd measure_temp` output, such as
/// `48.7` out of `temp=48.7'C`.
pub fn temp_output_value(raw: &str) -> (r: Option<String>)
    ensures
        r matches Some(v) ==> temp_value(raw@) == Some(v@),
        r is None ==> temp_value(raw@) is None,
{
    let t = trim_chars(&chars_of(raw));
    match chars_strip_prefix(&t, &chars_of("temp=")) {
        None => None,
        Some(rest) => match chars_strip_suffix(&rest, &chars_of("'C")) {
            None => None,
            Some(v) => Some(string_from(&v)),
        },
    }
}

/// Takes the number text out of `vcgencmd measure_volts` output, such as
/// `1.2000` out of `volt=1.2000V`.
pub fn volts_output_value(raw: &str) -> (r: Option<String>)
    ensures
        r matches Some(v) ==> volts_value(raw@) == Some(v@),
        r is None ==> volts_value(raw@) is None,
{
    let t = trim_chars(&chars_of(raw));
    match chars_second_field(&t, '=') {
        None => None,
        Some(v) => match chars_strip_suffix(&v, &chars_of("V")) {
            None => None,
            Some(n) => Some(string_from(&n)),
        },
    }
}

/// Reads a clock frequency in Hz from `vcgencmd measure_clock` output.
pub fn parse_clock_output(raw: &str) -> (r: Option<u64>)
    ensures
        r == clock_value(raw@),
{
    let t = trim_chars(&chars_of(raw));
    match chars_second_field(&t, '=') {
        None => None,
        Some(v) => match parse_uint_chars(&v, u64::MAX, 10) {
            Ok(n) => Some(n),
            Err(_) => None,
        },
    }
}

/// Reads the throttling bit mask from `vcgencmd get_throttled` output.
pub fn parse_throttled_output(raw: &str) -> (r: Option<u32>)
    ensures
        r == throttled_value(raw@),
{
    let t = trim_chars(&chars_of(raw));
    match chars_second_field(&t, '=') {
        None => None,
        Some(v) => {
            let hex = match chars_strip_prefix(&v, &chars_of("0x")) {
                Some(h) => h,
                None => v,
            };
            match parse_uint_chars(&hex, u32::MAX as u64, 16) {
                Ok(n) => Some(n as u32),
                Err(_) => None,
            }
        },
    }
}

/// The conditions that a `get_throttled` bit mask reports: bits 0 to 3 for
/// under-voltage, frequency capping, throttling and the soft temperature
/// limit now, bits 16 to 19 for the same since boot; no mask, no condition.
pub open spec fn throttle_flags(raw: Option<u32>) -> ThrottleFlags {
    match raw {
        None => ThrottleFlags::none(),
        Some(m) => ThrottleFlags {
            under_voltage_now: m & 0x1 != 0,
            freq_capped_now: m & 0x2 != 0,
            throttled_now: m & 0x4 != 0,
            soft_temp_limit_now: m & 0x8 != 0,
            under_voltage_past: m & 0x1_0000 != 0,
            freq_capped_past: m & 0x2_0000 != 0,
            throttled_past: m & 0x4_0000 != 0,
            soft_temp_limit_past: m & 0x8_0000 != 0,
        },
    }
}

/// Decodes a `get_throttled` bit mask.
pub fn decode_throttled(raw: Option<u32>) -> (r: ThrottleFlags)
    ensures
        r == throttle_flags(raw),
{
    match raw {
        None => ThrottleFlags {
            under_voltage_now: false,
            freq_capped_now: false,
            throttled_now: false,
            soft_temp_limit_now: false,
            under_voltage_past: false,
            freq_capped_past: false,
            throttled_past: false,
            soft_temp_limit_past: false,
        },
        Some(m) => ThrottleFlags {
            under_voltage_now: m & 0x1 != 0,
            freq_capped_now: m & 0x2 != 0,
            throttled_now: m & 0x4 != 0,
            soft_temp_limit_now: m & 0x8 != 0,
            under_voltage_past: m & 0x1_0000 != 0,
            freq_capped_past: m & 0x2_0000 != 0,
            throttled_past: m & 0x4_0000 != 0,
            soft_temp_limit_past: m & 0x8_0000 != 0,
        },
    }
}

/// Filesystem usage from `statvfs` counts: total = blocks times block size,
/// used = total minus the blocks available times block size, each product
/// and the difference saturating.
pub open spec fn disk_info(block_size: u64, total_blocks: u64, free_blocks: u64) -> DiskInfo {
    let total = if total_blocks * block_size > u64::MAX {
        u64::MAX as int
    } else {
        total_blocks * block_size
    };
    let free = if free_blocks * block_size > u64::MAX {
        u64::MAX as int
    } else {
        free_blocks * block_size
    };
    DiskInfo { total_bytes: total as u64, used_bytes: sat_sub(total, free) as u64 }
}

/// Computes filesystem usage from the fragment size, the block count and the
/// count of blocks available.
pub fn disk_usage(block_size: u64, total_blocks: u64, free_blocks: u64) -> (r: DiskInfo)
    ensures
        r == disk_info(block_size, total_blocks, free_blocks),
        r.used_bytes <= r.total_bytes,
{
    let total_bytes = match total_blocks.checked_mul(block_size) {
        Some(p) => p,
        None => u64::MAX,
    };
    let free_bytes = match free_blocks.checked_mul(block_size) {
        Some(p) => p,
        None => u64::MAX,
    };
    DiskInfo { total_bytes, used_bytes: total_bytes.saturating_sub(free_bytes) }
}

/// The host name in `/etc/hostname` content: the trimmed text, unless empty.
pub open spec fn hostname_value(raw: Seq<char>) -> Option<Seq<char>> {
    if trim(raw).len() == 0 {
        None
    } else {
        Some(trim(raw))
    }
}

/// Reads the host name from `/etc/hostname` content.
pub fn hostname_from(raw: &str) -> (r: Option<String>)
    ensures
        r matches Some(h) ==> hostname_value(raw@) == Some(h@),
        r is None ==> hostname_value(raw@) is None,
{
    let t = trim_chars(&chars_of(raw));
    if t.len() == 0 {
        None
    } else {
        Some(string_from(&t))
    }
}

/// The first `n` whitespace-separated fields of `raw`, or all of them when
/// there are fewer.
pub fn leading_fields(raw: &str, n: usize) -> (r: Vec<String>)
    ensures
        string_views(r@) == first_n(split_ws(raw@), n as int),
{
    let toks = split_whitespace(&chars_of(raw));
    let end = if toks.len() < n {
        toks.len()
    } else {
        n
    };
    let mut out: Vec<String> = Vec::new();
    let mut i: usize = 0;
    while i < end
        invariant
            i <= end <= toks.len(),
            end <= n,
            end == toks.len() || end == n,
            views(toks@) == split_ws(raw@),
            out.len() == i,
            string_views(out@) == views(toks@).take(i as int),
        decreases end - i,
    {
        let s = string_from(&toks[i]);
        let ghost sv = s@;
        let ghost before = out@;
        out.push(s);
        assert(views(toks@)[i as int] == toks@[i as int]@);
        assert(sv == toks@[i as int]@);
        assert(out@ == before.push(s));
        assert(string_views(out@)[i as int] == sv);
        assert forall|k: int| 0 <= k < i implies string_views(out@)[k] == string_views(before)[k] by {
            assert(out@[k] == before[k]);
        }
        assert(string_views(out@) =~= views(toks@).take(i + 1));
        i = i + 1;
    }
    assert(views(toks@).take(end as int) =~= first_n(split_ws(raw@), n as int));
    out
}


/// CPU time between two readings: `busy` of `total` jiffies were not idle.
/// The usage in percent is `100 * busy / total`.
#[derive(Clone, Copy, Debug, PartialEq, Eq, Structural)]
pub struct CpuShare {
    pub busy: u64,
    pub total: u64,
}

/// The share of busy time between two readings of one CPU: none without both
/// readings or when no time passed (usage 0), else the growth of the total
/// and of the non-idle time, each counter difference saturating at 0.
pub open spec fn share_of(previous: Option<CpuTimes>, current: Option<CpuTimes>) -> Option<CpuShare> {
    match (previous, current) {
        (Some(p), Some(c)) => {
            let total = sat_sub(c.total as int, p.total as int);
            if total == 0 {
                None
            } else {
                let idle = sat_sub(c.idle as int, p.idle as int);
                Some(CpuShare { busy: sat_sub(total, idle) as u64, total: total as u64 })
            }
        },
        _ => None,
    }
}

/// Computes the share of busy time of one CPU between two readings.
pub fn cpu_share(previous: Option<CpuTimes>, current: Option<CpuTimes>) -> (r: Option<CpuShare>)
    ensures
        r == share_of(previous, current),
        r matches Some(s) ==> 0 < s.total && s.busy <= s.total,
{
    match (previous, current) {
        (Some(p), Some(c)) => {
            let total = c.total.saturating_sub(p.total);
            if total == 0 {
                return None;
            }
            let idle = c.idle.saturating_sub(p.idle);
            Some(CpuShare { busy: total.saturating_sub(idle), total })
        },
        _ => None,
    }
}

/// The CPU usage between two snapshots: the aggregate, and each core.
#[derive(Clone, Debug)]
pub struct CpuUsage {
    pub aggregate: Option<CpuShare>,
    pub per_core: Vec<Option<CpuShare>>,
}

/// The first element of `s`, if any.
pub open spec fn first_of<A>(s: Seq<A>) -> Option<A> {
    if s.len() > 0 {
        Some(s[0])
    } else {
        None
    }
}

/// The number of per-core entries: without a previous snapshot one per core
/// of the current one, else one per core present in both.
pub open spec fn core_count(previous: Option<Seq<CpuTimes>>, current: Seq<CpuTimes>) -> int {
    match previous {
        None => sat_sub(current.len() as int, 1),
        Some(p) => if p.len() < current.len() {
            sat_sub(p.len() as int, 1)
        } else {
            sat_sub(current.len() as int, 1)
        },
    }
}

/// The usage that two snapshots give; entry 0 of a snapshot is the
/// aggregate, entry `i + 1` core `i`. Without a previous snapshot every share
/// is none.
pub open spec fn usage_matches(
    previous: Option<Seq<CpuTimes>>,
    current: Seq<CpuTimes>,
    aggregate: Option<CpuShare>,
    per_core: Seq<Option<CpuShare>>,
) -> bool {
    &&& per_core.len() == core_count(previous, current)
    &&& match previous {
        None => aggregate is None && forall|i: int| 0 <= i < per_core.len() ==> per_core[i] is None,
        Some(p) => {
            &&& aggregate == share_of(first_of(p), first_of(current))
            &&& forall|i: int|
                0 <= i < per_core.len() ==> per_core[i] == share_of(
                    Some(p[i + 1]),
                    Some(current[i + 1]),
                )
        },
    }
}

/// Computes CPU usage from the previous snapshot, if any, and the current one.
pub fn compute_cpu_usage(previous: &Option<Vec<CpuTimes>>, current: &[CpuTimes]) -> (r: CpuUsage)
    ensures
        usage_matches(
            match previous {
                Some(p) => Some(p@),
                None => None,
            },
            current@,
            r.aggregate,
            r.per_core@,
        ),
{
    let mut per_core: Vec<Option<CpuShare>> = Vec::new();
    match previous {
        None => {
            let n = current.len().saturating_sub(1);
            let mut i: usize = 0;
            while i < n
                invariant
                    i <= n,
                    per_core.len() == i,
                    forall|k: int| 0 <= k < i ==> per_core@[k] is None,
                decreases n - i,
            {
                per_core.push(None);
                i = i + 1;
            }
            assert(per_core.len() == core_count(None, current@));
            CpuUsage { aggregate: None, per_core }
        },
        Some(p) => {
            let first_prev = if p.len() > 0 {
                Some(p[0])
            } else {
                None
            };
            let first_cur = if current.len() > 0 {
                Some(current[0])
            } else {
                None
            };
            let aggregate = cpu_share(first_prev, first_cur);
            let mut i: usize = 1;
            while i < p.len() && i < current.len()
                invariant
                    1 <= i,
                    i <= p.len() || i == 1,
                    i <= current.len() || i == 1,
                    per_core.len() == i - 1,
                    forall|k: int|
                        0 <= k < i - 1 ==> per_core@[k] == share_of(
                            Some(p@[k + 1]),
                            Some(current@[k + 1]),
                        ),
                decreases p.len() - i,
            {
                per_core.push(cpu_share(Some(p[i]), Some(current[i])));
                i = i + 1;
            }
            assert(per_core.len() == core_count(Some(p@), current@));
            assert(aggregate == share_of(first_of(p@), first_of(current@)));
            CpuUsage { aggregate, per_core }
        },
    }
}

/// Usage never exceeds the time that passed: every share computed from two
/// snapshots is of a positive total and at most that total busy.
pub proof fn lemma_usage_within_bounds(previous: Option<CpuTimes>, current: Option<CpuTimes>)
    ensures
        share_of(previous, current) matches Some(s) ==> 0 < s.total && s.busy <= s.total,
{
}


/// How many processes the process list shows.
pub const TOP_PROCESSES: usize = 10;

/// Index of the last `c` in `s`, or -1 when there is none.
pub open spec fn last_index_of(s: Seq<char>, c: char) -> int
    decreases s.len(),
{
    if s.len() == 0 {
        -1
    } else if s.last() == c {
        s.len() - 1
    } else {
        last_index_of(s.drop_last(), c)
    }
}

proof fn lemma_last_index_of_at(s: Seq<char>, c: char, i: int)
    requires
        -1 <= i < s.len(),
        i >= 0 ==> s[i] == c,
        forall|k: int| i < k < s.len() ==> s[k] != c,
    ensures
        last_index_of(s, c) == i,
    decreases s.len(),
{
    if s.len() > 0 && s.last() != c {
        assert forall|k: int| i < k < s.len() - 1 implies s.drop_last()[k] != c by {
            assert(s.drop_last()[k] == s[k]);
        }
        if i >= 0 {
            assert(s.drop_last()[i] == s[i]);
        }
        lemma_last_index_of_at(s.drop_last(), c, i);
    }
}

/// Position of the last `c` in `s`, if any.
fn rfind(s: &Vec<char>, c: char) -> (r: Option<usize>)
    ensures
        r is None ==> last_index_of(s@, c) < 0,
        r matches Some(i) ==> i < s.len() && last_index_of(s@, c) == i,
{
    let mut i = s.len();
    while i > 0
        invariant
            i <= s.len(),
            forall|k: int| i <= k < s.len() ==> s@[k] != c,
        decreases i,
    {
        if s[i - 1] == c {
            proof {
                lemma_last_index_of_at(s@, c, i - 1);
            }
            return Some(i - 1);
        }
        i = i - 1;
    }
    proof {
        lemma_last_index_of_at(s@, c, -1);
    }
    None
}

/// `x`, or `u64::MAX` when it is larger.
pub open spec fn saturate(x: int) -> int {
    if x > u64::MAX {
        u64::MAX as int
    } else {
        x
    }
}

/// Whether slicing the command name out of `/proc/<pid>/stat` content can be
/// done: unless one is missing, the last `)` comes after the first `(`.
pub open spec fn stat_parens_in_order(raw: Seq<char>) -> bool {
    let o = index_of(raw, '(');
    let c = last_index_of(raw, ')');
    o < 0 || c < 0 || o < c
}

/// What one `/proc/<pid>/stat` line gives: the command name between the
/// first `(` and the last `)`; after it at least 22 fields, of which the
/// first begins with the state, the 12th and 13th are the user and system
/// jiffies and the 22nd the resident pages (4096 bytes each). The CPU time
/// since the previous reading is the growth of user plus system jiffies
/// over the time recorded for `pid` in `previous`, or 0 without one.
pub open spec fn process_entry(raw: Seq<char>, pid: u32, previous: Map<u32, ProcessCpuTimes>) -> Option<
    ((u32, Seq<char>, u64, u64, char), ProcessCpuTimes),
> {
    let o = index_of(raw, '(');
    let c = last_index_of(raw, ')');
    if o < 0 || c < 0 {
        None
    } else {
        let parts = split_ws(raw.skip(c + 1));
        if parts.len() < 22 {
            None
        } else {
            match (parse_u64(parts[11]), parse_u64(parts[12]), parse_u64(parts[21])) {
                (Ok(utime), Ok(stime), Ok(rss)) => {
                    let total = saturate(utime + stime);
                    let cpu = if previous.contains_key(pid) {
                        sat_sub(total, previous[pid].total_jiffies as int)
                    } else {
                        0
                    };
                    Some(
                        (
                            (
                                pid,
                                raw.subrange(o + 1, c),
                                cpu as u64,
                                saturate(rss * 4096) as u64,
                                parts[0][0],
                            ),
                            ProcessCpuTimes { pid, total_jiffies: total as u64 },
                        ),
                    )
                },
                _ => None,
            }
        }
    }
}

/// Reads one `/proc/<pid>/stat` line.
pub fn parse_process_stat(raw: &str, pid: u32, previous: &HashMap<u32, ProcessCpuTimes>) -> (r: Option<(ProcessInfo, ProcessCpuTimes)>)
    requires
        stat_parens_in_order(raw@),
    ensures
        r matches Some((info, times)) ==> process_entry(raw@, pid, previous@) == Some(
            (info@, times),
        ),
        r is None ==> process_entry(raw@, pid, previous@) is None,
{
    let cs = chars_of(raw);
    let o = match find_from(&cs, 0, '(') {
        None => {
            assert(cs@.skip(0) =~= cs@);
            return None;
        },
        Some(o) => o,
    };
    assert(cs@.skip(0) =~= cs@);
    let c = match rfind(&cs, ')') {
        None => {
            return None;
        },
        Some(c) => c,
    };
    let comm = copy_range(&cs, o + 1, c);
    let after = copy_range(&cs, c + 1, cs.len());
    assert(after@ =~= cs@.skip(c + 1));
    let parts = split_whitespace(&after);
    if parts.len() < 22 {
        return None;
    }
    proof {
        lemma_split_ws_words(after@);
        assert(views(parts@)[0] == parts@[0]@);
        assert(views(parts@)[11] == parts@[11]@);
        assert(views(parts@)[12] == parts@[12]@);
        assert(views(parts@)[21] == parts@[21]@);
    }
    let state = parts[0][0];
    let utime = match parse_uint_chars(&parts[11], u64::MAX, 10) {
        Ok(v) => v,
        Err(_) => {
            return None;
        },
    };
    let stime = match parse_uint_chars(&parts[12], u64::MAX, 10) {
        Ok(v) => v,
        Err(_) => {
            return None;
        },
    };
    let rss_pages = match parse_uint_chars(&parts[21], u64::MAX, 10) {
        Ok(v) => v,
        Err(_) => {
            return None;
        },
    };
    let mem_bytes = match rss_pages.checked_mul(4096) {
        Some(m) => m,
        None => u64::MAX,
    };
    let total_jiffies = utime.saturating_add(stime);
    let cpu_jiffies = match previous.get(&pid) {
        Some(prev) => total_jiffies.saturating_sub(prev.total_jiffies),
        None => 0,
    };
    let info = ProcessInfo { pid, name: string_from(&comm), cpu_jiffies, mem_bytes, state };
    Some((info, ProcessCpuTimes { pid, total_jiffies }))
}

/// The pid that a `/proc` entry name stands for, if it is a decimal `u32`.
pub open spec fn pid_of(name: Seq<char>) -> Option<u32> {
    match parse_uint(name, u32::MAX as int, 10) {
        Ok(v) => Some(v as u32),
        Err(_) => None,
    }
}

/// Reads the pid that a `/proc` entry name stands for.
pub fn proc_pid(name: &str) -> (r: Option<u32>)
    ensures
        r == pid_of(name@),
{
    match parse_uint_chars(&chars_of(name), u32::MAX as u64, 10) {
        Ok(v) => Some(v as u32),
        Err(_) => None,
    }
}

/// The `stat` content of one process.
#[derive(Clone, Debug)]
pub struct ProcStat {
    pub pid: u32,
    pub stat: String,
}

impl View for ProcStat {
    type V = (u32, Seq<char>);

    open spec fn view(&self) -> Self::V {
        (self.pid, self.stat@)
    }
}

/// Views of a sequence of processes.
pub open spec fn process_views(v: Seq<ProcessInfo>) -> Seq<(u32, Seq<char>, u64, u64, char)> {
    v.map_values(|x: ProcessInfo| x@)
}

/// Views of a sequence of `stat` contents.
pub open spec fn stat_views(v: Seq<ProcStat>) -> Seq<(u32, Seq<char>)> {
    v.map_values(|x: ProcStat| x@)
}

/// The processes that the `stat` contents describe, in order.
pub open spec fn collect_processes(stats: Seq<(u32, Seq<char>)>, previous: Map<u32, ProcessCpuTimes>) -> Seq<
    (u32, Seq<char>, u64, u64, char),
>
    decreases stats.len(),
{
    if stats.len() == 0 {
        seq![]
    } else {
        let before = collect_processes(stats.drop_last(), previous);
        match process_entry(stats.last().1, stats.last().0, previous) {
            Some((info, _)) => before.push(info),
            None => before,
        }
    }
}

/// The CPU times recorded from the `stat` contents, by pid.
pub open spec fn collect_times(stats: Seq<(u32, Seq<char>)>, previous: Map<u32, ProcessCpuTimes>) -> Map<
    u32,
    ProcessCpuTimes,
>
    decreases stats.len(),
{
    if stats.len() == 0 {
        Map::empty()
    } else {
        let before = collect_times(stats.drop_last(), previous);
        match process_entry(stats.last().1, stats.last().0, previous) {
            Some((_, times)) => before.insert(stats.last().0, times),
            None => before,
        }
    }
}

/// `x` put into the list `s`, which is sorted by CPU time from most to
/// least, after every entry with at least as much CPU time.
pub open spec fn insert_by_cpu(s: Seq<(u32, Seq<char>, u64, u64, char)>, x: (u32, Seq<char>, u64, u64, char)) -> Seq<
    (u32, Seq<char>, u64, u64, char),
>
    decreases s.len(),
{
    if s.len() == 0 {
        seq![x]
    } else if s[0].2 < x.2 {
        seq![x] + s
    } else {
        seq![s[0]] + insert_by_cpu(s.drop_first(), x)
    }
}

/// `s` sorted by CPU time from most to least, entries with equal CPU time
/// in their order in `s` (the stable sort).
pub open spec fn sort_by_cpu(s: Seq<(u32, Seq<char>, u64, u64, char)>) -> Seq<
    (u32, Seq<char>, u64, u64, char),
>
    decreases s.len(),
{
    if s.len() == 0 {
        seq![]
    } else {
        insert_by_cpu(sort_by_cpu(s.drop_last()), s.last())
    }
}

/// Sorted from most to least CPU time.
pub open spec fn sorted_by_cpu(s: Seq<(u32, Seq<char>, u64, u64, char)>) -> bool {
    forall|i: int, j: int| 0 <= i < j < s.len() ==> s[i].2 >= s[j].2
}

proof fn lemma_insert_position(s: Seq<(u32, Seq<char>, u64, u64, char)>, x: (u32, Seq<char>, u64, u64, char), p: int)
    requires
        0 <= p <= s.len(),
        forall|k: int| 0 <= k < p ==> s[k].2 >= x.2,
        p < s.len() ==> s[p].2 < x.2,
    ensures
        insert_by_cpu(s, x) == s.take(p) + seq![x] + s.skip(p),
    decreases s.len(),
{
    if s.len() == 0 {
        assert(s.take(p) + seq![x] + s.skip(p) =~= seq![x]);
    } else if p == 0 {
        assert(s.take(0) + seq![x] + s.skip(0) =~= seq![x] + s);
    } else {
        assert forall|k: int| 0 <= k < p - 1 implies s.drop_first()[k].2 >= x.2 by {
            assert(s.drop_first()[k] == s[k + 1]);
        }
        if p < s.len() {
            assert(s.drop_first()[p - 1] == s[p]);
        }
        lemma_insert_position(s.drop_first(), x, p - 1);
        assert(seq![s[0]] + (s.drop_first().take(p - 1) + seq![x] + s.drop_first().skip(p - 1))
            =~= s.take(p) + seq![x] + s.skip(p));
    }
}

proof fn lemma_insert_sorted(s: Seq<(u32, Seq<char>, u64, u64, char)>, x: (u32, Seq<char>, u64, u64, char))
    requires
        sorted_by_cpu(s),
    ensures
        sorted_by_cpu(insert_by_cpu(s, x)),
        insert_by_cpu(s, x).len() == s.len() + 1,
        insert_by_cpu(s, x).to_multiset() == s.to_multiset().insert(x),
    decreases s.len(),
{
    broadcast use vstd::seq_lib::group_to_multiset_ensures;

    if s.len() == 0 {
        assert(insert_by_cpu(s, x) =~= seq![x]);
        assert(seq![x] =~= s.push(x));
    } else if s[0].2 < x.2 {
        let r = seq![x] + s;
        assert forall|i: int, j: int| 0 <= i < j < r.len() implies r[i].2 >= r[j].2 by {
            if i > 0 {
                assert(r[i] == s[i - 1] && r[j] == s[j - 1]);
            } else {
                assert(r[j] == s[j - 1]);
                assert(s[0].2 >= s[j - 1].2);
            }
        }
        assert(r =~= s.insert(0, x));
    } else {
        let t = s.drop_first();
        lemma_insert_sorted(t, x);
        let it = insert_by_cpu(t, x);
        let r = seq![s[0]] + it;
        assert(r.len() == s.len() + 1);
        assert forall|i: int, j: int| 0 <= i < j < r.len() implies r[i].2 >= r[j].2 by {
            if i > 0 {
                assert(r[i] == it[i - 1] && r[j] == it[j - 1]);
            } else {
                assert(r[j] == it[j - 1]);
                assert(it.to_multiset().count(it[j - 1]) > 0);
                assert(t.to_multiset().insert(x).count(it[j - 1]) > 0);
                if it[j - 1] != x {
                    assert(t.to_multiset().count(it[j - 1]) > 0);
                    assert(t.contains(it[j - 1]));
                    let k = choose|k: int| 0 <= k < t.len() && t[k] == it[j - 1];
                    assert(t[k] == s[k + 1]);
                }
            }
        }
        assert(s =~= seq![s[0]] + t);
        assert(r.to_multiset() =~= s.to_multiset().insert(x)) by {
            vstd::seq_lib::lemma_multiset_commutative(seq![s[0]], it);
            vstd::seq_lib::lemma_multiset_commutative(seq![s[0]], t);
        }
    }
}

/// The process list is ordered from most to least CPU time and holds the
/// same processes as its input.
pub proof fn lemma_sort_by_cpu(s: Seq<(u32, Seq<char>, u64, u64, char)>)
    ensures
        sorted_by_cpu(sort_by_cpu(s)),
        sort_by_cpu(s).to_multiset() == s.to_multiset(),
        sort_by_cpu(s).len() == s.len(),
    decreases s.len(),
{
    broadcast use vstd::seq_lib::group_to_multiset_ensures;

    if s.len() > 0 {
        lemma_sort_by_cpu(s.drop_last());
        lemma_insert_sorted(sort_by_cpu(s.drop_last()), s.last());
        assert(s.drop_last().push(s.last()) =~= s);
    }
}

/// The process list shows at most `TOP_PROCESSES` processes, from most to
/// least CPU time.
pub proof fn lemma_top_processes_sorted(stats: Seq<(u32, Seq<char>)>, previous: Map<u32, ProcessCpuTimes>)
    ensures
        ({
            let top = first_n(sort_by_cpu(collect_processes(stats, previous)), TOP_PROCESSES as int);
            top.len() <= TOP_PROCESSES && sorted_by_cpu(top)
        }),
{
    let all = sort_by_cpu(collect_processes(stats, previous));
    lemma_sort_by_cpu(collect_processes(stats, previous));
    let top = first_n(all, TOP_PROCESSES as int);
    assert forall|i: int, j: int| 0 <= i < j < top.len() implies top[i].2 >= top[j].2 by {
        assert(top[i] == all[i] && top[j] == all[j]);
    }
}

/// Reads the `stat` contents of the processes into the top processes by CPU
/// time since `previous` (most first, at most `TOP_PROCESSES`, ties in input
/// order) and the CPU times to compare with next time.
pub fn top_processes(stats: &Vec<ProcStat>, previous: &HashMap<u32, ProcessCpuTimes>) -> (r: (Vec<ProcessInfo>, HashMap<u32, ProcessCpuTimes>))
    requires
        forall|i: int| 0 <= i < stats.len() ==> stat_parens_in_order(#[trigger] stats@[i].stat@),
    ensures
        process_views(r.0@) == first_n(
            sort_by_cpu(collect_processes(stat_views(stats@), previous@)),
            TOP_PROCESSES as int,
        ),
        r.1@ == collect_times(stat_views(stats@), previous@),
{
    let ghost all = stat_views(stats@);
    let mut current: HashMap<u32, ProcessCpuTimes> = HashMap::new();
    let mut sorted: Vec<ProcessInfo> = Vec::new();
    let mut i: usize = 0;
    assert(all.take(0) =~= Seq::<(u32, Seq<char>)>::empty());
    assert(process_views(sorted@) =~= seq![]);
    assert(current@ =~= Map::<u32, ProcessCpuTimes>::empty());
    while i < stats.len()
        invariant
            i <= stats.len(),
            all == stat_views(stats@),
            forall|k: int| 0 <= k < stats.len() ==> stat_parens_in_order(#[trigger] stats@[k].stat@),
            process_views(sorted@) == sort_by_cpu(collect_processes(all.take(i as int), previous@)),
            current@ == collect_times(all.take(i as int), previous@),
        decreases stats.len() - i,
    {
        let ghost pre = all.take(i + 1);
        assert(pre.drop_last() =~= all.take(i as int));
        assert(pre.last() == stats@[i as int]@);
        let entry = &stats[i];
        assert(stat_parens_in_order(entry.stat@));
        match parse_process_stat(entry.stat.as_str(), entry.pid, previous) {
            Some((info, times)) => {
                current.insert(entry.pid, times);
                let ghost sv = process_views(sorted@);
                proof {
                    lemma_sort_by_cpu(collect_processes(all.take(i as int), previous@));
                }
                let mut p: usize = 0;
                while p < sorted.len() && sorted[p].cpu_jiffies >= info.cpu_jiffies
                    invariant
                        p <= sorted.len(),
                        sv == process_views(sorted@),
                        forall|k: int| 0 <= k < p ==> sv[k].2 >= info@.2,
                    decreases sorted.len() - p,
                {
                    assert(sv[p as int] == sorted@[p as int]@);
                    p = p + 1;
                }
                proof {
                    if p < sorted.len() {
                        assert(sv[p as int] == sorted@[p as int]@);
                    }
                    lemma_insert_position(sv, info@, p as int);
                }
                let ghost iv = info@;
                sorted.insert(p, info);
                proof {
                    assert(process_views(sorted@) =~= sv.take(p as int) + seq![iv] + sv.skip(p as int));
                    let c_old = collect_processes(all.take(i as int), previous@);
                    assert(collect_processes(pre, previous@) == c_old.push(iv));
                    assert(c_old.push(iv).drop_last() =~= c_old);
                    assert(sort_by_cpu(c_old.push(iv)) == insert_by_cpu(sort_by_cpu(c_old), iv));
                }
            },
            None => {
                assert(collect_processes(pre, previous@) == collect_processes(all.take(i as int), previous@));
                assert(collect_times(pre, previous@) == collect_times(all.take(i as int), previous@));
            },
        }
        i = i + 1;
    }
    assert(all.take(i as int) =~= all);
    sorted.truncate(TOP_PROCESSES);
    proof {
        let full = sort_by_cpu(collect_processes(all, previous@));
        assert(process_views(sorted@) =~= first_n(full, TOP_PROCESSES as int));
    }
    (sorted, current)
}


/// Milliseconds since the Unix epoch as a `u64`: 0 for a clock before the
/// epoch, `u64::MAX` when the count does not fit.
pub open spec fn epoch_ms(elapsed_ms: Option<u128>) -> u64 {
    match elapsed_ms {
        None => 0,
        Some(m) => if m > u64::MAX {
            u64::MAX
        } else {
            m as u64
        },
    }
}

/// Turns the milliseconds elapsed since the Unix epoch (`None` for a clock
/// before it) into a timestamp.
pub fn epoch_millis(elapsed_ms: Option<u128>) -> (r: u64)
    ensures
        r == epoch_ms(elapsed_ms),
{
    match elapsed_ms {
        None => 0,
        Some(m) => if m > u64::MAX as u128 {
            u64::MAX
        } else {
            m as u64
        },
    }
}

/// The current time in milliseconds since the Unix epoch. It is read from
/// the system clock, so the contract can say nothing of its value.
pub fn unix_now_ms() -> u64 {
    let now = system_now();
    let elapsed = match since_unix_epoch(&now) {
        Some(d) => Some(duration_millis(&d)),
        None => None,
    };
    epoch_millis(elapsed)
}


/// One entry of `/sys/class/thermal`: its name when that is text, whether it
/// has a `temp` file, and the content of its `type` file (empty when it
/// cannot be read).
#[derive(Clone, Debug)]
pub struct ZoneEntry {
    pub file_name: Option<String>,
    pub temp_exists: bool,
    pub zone_type: String,
}

impl View for ZoneEntry {
    type V = (Option<Seq<char>>, bool, Seq<char>);

    open spec fn view(&self) -> Self::V {
        (
            match self.file_name {
                Some(n) => Some(n@),
                None => None,
            },
            self.temp_exists,
            self.zone_type@,
        )
    }
}

/// A thermal zone with a temperature reading.
pub open spec fn zone_usable(z: (Option<Seq<char>>, bool, Seq<char>)) -> bool {
    &&& z.0 matches Some(n) && starts_with(n, "thermal_zone"@)
    &&& z.1
}

/// A zone whose type, trimmed and in lower case, names the CPU.
pub open spec fn zone_is_cpu(z: (Option<Seq<char>>, bool, Seq<char>)) -> bool {
    let t = ascii_lower_seq(trim(z.2));
    ||| contains_seq(t, "cpu"@)
    ||| contains_seq(t, "soc"@)
    ||| contains_seq(t, "package"@)
    ||| contains_seq(t, "thermal"@)
}

/// The zone whose temperature is read, scanning from entry `i` with
/// `fallback` the first usable zone seen so far: the first usable zone that
/// names the CPU, else the first usable zone; no zone at all once an entry
/// could not be read (`None` in `zones`).
pub open spec fn zone_from(zones: Seq<Option<(Option<Seq<char>>, bool, Seq<char>)>>, i: int, fallback: Option<int>) -> Option<int>
    decreases zones.len() - i,
{
    if i < 0 || i >= zones.len() {
        fallback
    } else {
        match zones[i] {
            None => None,
            Some(z) => if !zone_usable(z) {
                zone_from(zones, i + 1, fallback)
            } else if zone_is_cpu(z) {
                Some(i)
            } else {
                zone_from(
                    zones,
                    i + 1,
                    match fallback {
                        None => Some(i),
                        Some(f) => Some(f),
                    },
                )
            },
        }
    }
}

/// Views of the entries, `None` for one that could not be read.
pub open spec fn zone_views(zones: Seq<Option<ZoneEntry>>) -> Seq<Option<(Option<Seq<char>>, bool, Seq<char>)>> {
    zones.map_values(|z: Option<ZoneEntry>| match z {
        Some(e) => Some(e@),
        None => None,
    })
}

/// Picks the thermal zone whose temperature stands for the CPU's, by its
/// index in `zones`.
pub fn select_temp_zone(zones: &Vec<Option<ZoneEntry>>) -> (r: Option<usize>)
    ensures
        r matches Some(i) ==> i < zones.len() && zone_from(zone_views(zones@), 0, None) == Some(i as int),
        r is None ==> zone_from(zone_views(zones@), 0, None) is None,
{
    let ghost zs = zone_views(zones@);
    let prefix = chars_of("thermal_zone");
    let mut fallback: Option<usize> = None;
    let mut i: usize = 0;
    while i < zones.len()
        invariant
            i <= zones.len(),
            zs == zone_views(zones@),
            prefix@ == "thermal_zone"@,
            fallback matches Some(f) ==> f < i,
            zone_from(zs, 0, None) == zone_from(
                zs,
                i as int,
                match fallback {
                    Some(f) => Some(f as int),
                    None => None,
                },
            ),
        decreases zones.len() - i,
    {
        let ghost fb = match fallback {
            Some(f) => Some(f as int),
            None => None::<int>,
        };
        assert(zone_from(zs, i as int, fb) == match zs[i as int] {
            None => None,
            Some(z) => if !zone_usable(z) {
                zone_from(zs, i + 1, fb)
            } else if zone_is_cpu(z) {
                Some(i as int)
            } else {
                zone_from(zs, i + 1, match fb {
                    None => Some(i as int),
                    Some(f) => Some(f),
                })
            },
        });
        match &zones[i] {
            None => {
                return None;
            },
            Some(z) => {
                assert(zs[i as int] == Some(z@));
                let usable = match &z.file_name {
                    Some(n) => has_prefix(&chars_of(n.as_str()), &prefix),
                    None => false,
                } && z.temp_exists;
                if usable {
                    let t = to_ascii_lower(&trim_chars(&chars_of(z.zone_type.as_str())));
                    let is_cpu = contains_chars(&t, &chars_of("cpu")) || contains_chars(
                        &t,
                        &chars_of("soc"),
                    ) || contains_chars(&t, &chars_of("package")) || contains_chars(
                        &t,
                        &chars_of("thermal"),
                    );
                    if is_cpu {
                        return Some(i);
                    }
                    if fallback.is_none() {
                        fallback = Some(i);
                    }
                }
            },
        }
        i = i + 1;
    }
    fallback
}


/// Bit `k` of `m`, counting from the least significant.
pub open spec fn bit(m: u32, k: u32) -> bool {
    (m >> k) & 1u32 == 1u32
}

/// Each throttling flag reads its own bit of the mask: under-voltage,
/// frequency capping, throttling and the soft temperature limit are bits 0,
/// 1, 2 and 3 now and bits 16, 17, 18 and 19 since boot; without a mask no
/// flag is set.
pub proof fn lemma_throttle_bits(raw: Option<u32>)
    ensures
        raw is None ==> !throttle_flags(raw).under_voltage_now && !throttle_flags(raw).freq_capped_now
            && !throttle_flags(raw).throttled_now && !throttle_flags(raw).soft_temp_limit_now
            && !throttle_flags(raw).under_voltage_past && !throttle_flags(raw).freq_capped_past
            && !throttle_flags(raw).throttled_past && !throttle_flags(raw).soft_temp_limit_past,
        raw matches Some(m) ==> {
            let f = throttle_flags(raw);
            &&& f.under_voltage_now == bit(m, 0)
            &&& f.freq_capped_now == bit(m, 1)
            &&& f.throttled_now == bit(m, 2)
            &&& f.soft_temp_limit_now == bit(m, 3)
            &&& f.under_voltage_past == bit(m, 16)
            &&& f.freq_capped_past == bit(m, 17)
            &&& f.throttled_past == bit(m, 18)
            &&& f.soft_temp_limit_past == bit(m, 19)
        },
{
    if let Some(m) = raw {
        assert(((m & 0x1) != 0) == ((m >> 0u32) & 1u32 == 1u32)) by (bit_vector);
        assert(((m & 0x2) != 0) == ((m >> 1u32) & 1u32 == 1u32)) by (bit_vector);
        assert(((m & 0x4) != 0) == ((m >> 2u32) & 1u32 == 1u32)) by (bit_vector);
        assert(((m & 0x8) != 0) == ((m >> 3u32) & 1u32 == 1u32)) by (bit_vector);
        assert(((m & 0x1_0000) != 0) == ((m >> 16u32) & 1u32 == 1u32)) by (bit_vector);
        assert(((m & 0x2_0000) != 0) == ((m >> 17u32) & 1u32 == 1u32)) by (bit_vector);
        assert(((m & 0x4_0000) != 0) == ((m >> 18u32) & 1u32 == 1u32)) by (bit_vector);
        assert(((m & 0x8_0000) != 0) == ((m >> 19u32) & 1u32 == 1u32)) by (bit_vector);
    }
}

/// A condition is reported for the union of two masks exactly when it is
/// reported for either; a mask without any of the eight bits reports nothing.
pub proof fn lemma_throttle_union(a: u32, b: u32)
    ensures
        ({
            let f = throttle_flags(Some(a | b));
            let g = throttle_flags(Some(a));
            let h = throttle_flags(Some(b));
            &&& f.under_voltage_now == (g.under_voltage_now || h.under_voltage_now)
            &&& f.freq_capped_now == (g.freq_capped_now || h.freq_capped_now)
            &&& f.throttled_now == (g.throttled_now || h.throttled_now)
            &&& f.soft_temp_limit_now == (g.soft_temp_limit_now || h.soft_temp_limit_now)
            &&& f.under_voltage_past == (g.under_voltage_past || h.under_voltage_past)
            &&& f.freq_capped_past == (g.freq_capped_past || h.freq_capped_past)
            &&& f.throttled_past == (g.throttled_past || h.throttled_past)
            &&& f.soft_temp_limit_past == (g.soft_temp_limit_past || h.soft_temp_limit_past)
        }),
        a & 0x000F_000F == 0 ==> throttle_flags(Some(a)) == ThrottleFlags::none(),
{
    lemma_throttle_bits(Some(a | b));
    lemma_throttle_bits(Some(a));
    lemma_throttle_bits(Some(b));
    assert(forall|k: u32| k < 32 ==> (((a | b) >> k) & 1u32 == 1u32) == (((a >> k) & 1u32 == 1u32) || ((b >> k) & 1u32 == 1u32))) by (bit_vector);
    if a & 0x000F_000F == 0 {
        assert(a & 0x000F_000F == 0 ==> (a & 0x1 == 0 && a & 0x2 == 0 && a & 0x4 == 0 && a & 0x8 == 0
            && a & 0x1_0000 == 0 && a & 0x2_0000 == 0 && a & 0x4_0000 == 0 && a & 0x8_0000 == 0)) by (bit_vector);
    }
}


/// One more line after well-formed lines: a line that names an interface
/// adds exactly that interface at the end, a line that names none changes
/// nothing, and a malformed line makes the whole an error.
pub proof fn lemma_net_interfaces_append(ls: Seq<Seq<char>>, l: Seq<char>)
    ensures
        net_interfaces(ls) matches Ok(v) ==> match net_line(l) {
            Some(Ok(x)) => net_interfaces(ls.push(l)) == Ok::<
                Seq<(Seq<char>, u64, u64, u64, u64)>,
                Seq<char>,
            >(v.push(x)),
            Some(Err(e)) => net_interfaces(ls.push(l)) == Err::<
                Seq<(Seq<char>, u64, u64, u64, u64)>,
                Seq<char>,
            >(e),
            None => net_interfaces(ls.push(l)) == net_interfaces(ls),
        },
        net_interfaces(ls) matches Err(e) ==> net_interfaces(ls.push(l)) == net_interfaces(ls),
{
    assert(ls.push(l).drop_last() =~= ls);
    assert(ls.push(l).last() == l);
}

/// What an interface line holds: the name is the text before the first `:`,
/// trimmed; received bytes and packets are the first and second numbers
/// after it, sent bytes and packets the ninth and tenth.
pub proof fn lemma_net_line_fields(line: Seq<char>)
    ensures
        net_line(line) matches Some(Ok(x)) ==> {
            let i = index_of(line, ':');
            let parts = split_ws(line.skip(i + 1));
            &&& 0 <= i < line.len()
            &&& line[i] == ':'
            &&& x.0 == trim(line.take(i))
            &&& x.0 != "lo"@
            &&& parts.len() >= 16
            &&& parse_u64(parts[0]) == Ok::<int, IntErrorKind>(x.1 as int)
            &&& parse_u64(parts[8]) == Ok::<int, IntErrorKind>(x.2 as int)
            &&& parse_u64(parts[1]) == Ok::<int, IntErrorKind>(x.3 as int)
            &&& parse_u64(parts[9]) == Ok::<int, IntErrorKind>(x.4 as int)
        },
        index_of(line, ':') < 0 ==> net_line(line) is None,
{
    crate::text::lemma_index_of(line, ':');
    let i = index_of(line, ':');
    if i >= 0 {
        let parts = split_ws(line.skip(i + 1));
        if parts.len() >= 16 {
            lemma_parse_u64_bound(parts[0]);
            lemma_parse_u64_bound(parts[1]);
            lemma_parse_u64_bound(parts[8]);
            lemma_parse_u64_bound(parts[9]);
        }
    }
}

/// A decimal `u64` is at most `u64::MAX`.
proof fn lemma_parse_u64_bound(t: Seq<char>)
    ensures
        parse_u64(t) matches Ok(v) ==> 0 <= v <= u64::MAX,
{
    if t.len() > 0 && !(t.len() == 1 && (t[0] == '+' || t[0] == '-')) {
        if t[0] == '+' {
            crate::text::lemma_scan_bounds(t.drop_first(), 0, u64::MAX as int, 10);
        } else {
            crate::text::lemma_scan_bounds(t, 0, u64::MAX as int, 10);
        }
    }
}


/// The interface a line names, when it is well formed.
pub open spec fn named_interface(l: Seq<char>) -> Option<(Seq<char>, u64, u64, u64, u64)> {
    match net_line(l) {
        Some(Ok(x)) => Some(x),
        _ => None,
    }
}

/// The error of a malformed line.
pub open spec fn line_error(l: Seq<char>) -> Seq<char> {
    match net_line(l) {
        Some(Err(e)) => e,
        _ => seq![],
    }
}

/// The interfaces that the lines name, in order (vstd's `filter_map`).
pub open spec fn named_interfaces(ls: Seq<Seq<char>>) -> Seq<(Seq<char>, u64, u64, u64, u64)> {
    ls.filter_map(|l: Seq<char>| named_interface(l))
}

/// Lines none of which is malformed give the interface of every line that
/// names one, in order, and nothing else.
pub proof fn lemma_net_interfaces_well_formed(ls: Seq<Seq<char>>)
    requires
        forall|i: int| 0 <= i < ls.len() ==> !(net_line(#[trigger] ls[i]) matches Some(Err(_))),
    ensures
        net_interfaces(ls) == Ok::<Seq<(Seq<char>, u64, u64, u64, u64)>, Seq<char>>(named_interfaces(ls)),
    decreases ls.len(),
{
    if ls.len() > 0 {
        let init = ls.drop_last();
        assert forall|i: int| 0 <= i < init.len() implies !(net_line(#[trigger] init[i]) matches Some(Err(_))) by {
            assert(init[i] == ls[i]);
        }
        lemma_net_interfaces_well_formed(init);
        assert(!(net_line(ls[ls.len() - 1]) matches Some(Err(_))));
        let v = named_interfaces(init);
        match net_line(ls.last()) {
            Some(Ok(x)) => {
                assert(v.push(x) =~= v + seq![x]);
            },
            _ => {},
        }
    }
}

/// With a malformed line, the list is the error of the first one.
pub proof fn lemma_net_interfaces_first_error(ls: Seq<Seq<char>>, i: int)
    requires
        0 <= i < ls.len(),
        net_line(ls[i]) matches Some(Err(_)),
        forall|j: int| 0 <= j < i ==> !(net_line(#[trigger] ls[j]) matches Some(Err(_))),
    ensures
        net_interfaces(ls) == Err::<Seq<(Seq<char>, u64, u64, u64, u64)>, Seq<char>>(line_error(ls[i])),
{
    let pre = ls.take(i);
    assert forall|j: int| 0 <= j < pre.len() implies !(net_line(#[trigger] pre[j]) matches Some(Err(_))) by {
        assert(pre[j] == ls[j]);
    }
    lemma_net_interfaces_well_formed(pre);
    let t = ls.take(i + 1);
    assert(t.drop_last() =~= pre);
    assert(t.last() == ls[i]);
    lemma_net_error_sticks(ls, i + 1, line_error(ls[i]));
}


/// Per-core usage covers every core that both snapshots hold (entries 1
/// onwards; entry 0 is the aggregate), each the share of that core; without
/// a previous snapshot every core of the current one is listed with no share.
pub proof fn lemma_usage_covers_cores(
    previous: Option<Seq<CpuTimes>>,
    current: Seq<CpuTimes>,
    aggregate: Option<CpuShare>,
    per_core: Seq<Option<CpuShare>>,
)
    requires
        usage_matches(previous, current, aggregate, per_core),
    ensures
        previous matches Some(p) ==> {
            let both = if p.len() <= current.len() {
                p.len() as int
            } else {
                current.len() as int
            };
            &&& per_core.len() == if both == 0 {
                0
            } else {
                both - 1
            }
            &&& forall|i: int|
                0 <= i < per_core.len() ==> #[trigger] per_core[i] == share_of(
                    Some(p[i + 1]),
                    Some(current[i + 1]),
                )
            &&& (p.len() > 0 && current.len() > 0 ==> aggregate == share_of(Some(p[0]), Some(current[0])))
            &&& (p.len() == 0 || current.len() == 0 ==> aggregate is None)
        },
        previous is None ==> per_core.len() == (if current.len() == 0 {
            0
        } else {
            current.len() - 1
        }) && aggregate is None && forall|i: int| 0 <= i < per_core.len() ==> #[trigger] per_core[i] is None,
{
}

/// The share between two readings of one CPU, in terms of the counters: none
/// when the total did not grow; else the total is the growth of the total,
/// and the busy part is that growth less the growth of idle time, kept
/// within 0 and the total.
pub proof fn lemma_share_counters(p: CpuTimes, c: CpuTimes)
    ensures
        c.total <= p.total ==> share_of(Some(p), Some(c)) is None,
        c.total > p.total ==> (share_of(Some(p), Some(c)) matches Some(s) && s.total + p.total
            == c.total && s.busy <= s.total && (c.idle <= p.idle ==> s.busy == s.total) && (p.idle
            <= c.idle && c.idle - p.idle <= s.total ==> s.busy + (c.idle - p.idle) == s.total) && (
        c.idle - p.idle >= s.total ==> s.busy == 0)),
        share_of(None, Some(c)) is None,
        share_of(Some(p), None) is None,
{
}


/// What reading one process's `stat` records for next time does not depend on
/// the previous reading: the same processes parse, with the same CPU times.
pub proof fn lemma_process_times_independent(
    raw: Seq<char>,
    pid: u32,
    a: Map<u32, ProcessCpuTimes>,
    b: Map<u32, ProcessCpuTimes>,
)
    ensures
        (process_entry(raw, pid, a) is Some) == (process_entry(raw, pid, b) is Some),
        process_entry(raw, pid, a) matches Some((_, ta)) ==> process_entry(raw, pid, b) matches Some(
            (_, tb),
        ) && ta == tb,
{
}

/// The fields of one process in terms of its `stat` line: pid as given, the
/// name between the first `(` and the last `)`, the recorded time the sum of
/// user and system jiffies (fields 12 and 13 after the name), the CPU time
/// since the previous reading that sum less the recorded one (0 without a
/// previous reading), and the memory field 22 in pages of 4096 bytes.
pub proof fn lemma_process_entry_fields(raw: Seq<char>, pid: u32, previous: Map<u32, ProcessCpuTimes>)
    ensures
        process_entry(raw, pid, previous) matches Some((info, t)) ==> {
            let o = index_of(raw, '(');
            let c = last_index_of(raw, ')');
            let parts = split_ws(raw.skip(c + 1));
            let ut = parse_u64(parts[11]);
            let st = parse_u64(parts[12]);
            let rss = parse_u64(parts[21]);
            &&& o >= 0 && c >= 0 && parts.len() >= 22
            &&& ut is Ok && st is Ok && rss is Ok
            &&& t.pid == pid && info.0 == pid
            &&& info.1 == raw.subrange(o + 1, c)
            &&& t.total_jiffies == if ut->Ok_0 + st->Ok_0 > u64::MAX {
                u64::MAX as int
            } else {
                ut->Ok_0 + st->Ok_0
            }
            &&& info.2 == if previous.contains_key(pid) && t.total_jiffies >= previous[pid].total_jiffies {
                t.total_jiffies - previous[pid].total_jiffies
            } else {
                0
            }
            &&& info.3 == if rss->Ok_0 * 4096 > u64::MAX {
                u64::MAX as int
            } else {
                rss->Ok_0 * 4096
            }
        },
{
    let c = last_index_of(raw, ')');
    if index_of(raw, '(') >= 0 && c >= 0 {
        let parts = split_ws(raw.skip(c + 1));
        if parts.len() >= 22 {
            lemma_parse_u64_bound(parts[11]);
            lemma_parse_u64_bound(parts[12]);
            lemma_parse_u64_bound(parts[21]);
        }
    }
}

/// Every process whose `stat` parses is recorded for next time, whether or
/// not it was seen before, with the times of its last parsed entry; nothing
/// else is recorded.
pub proof fn lemma_times_record_parsed(stats: Seq<(u32, Seq<char>)>, previous: Map<u32, ProcessCpuTimes>)
    ensures
        forall|i: int|
            0 <= i < stats.len() && (process_entry(#[trigger] stats[i].1, stats[i].0, previous) is Some)
                ==> collect_times(stats, previous).contains_key(stats[i].0),
        forall|i: int|
            0 <= i < stats.len() && (process_entry(#[trigger] stats[i].1, stats[i].0, previous) is Some)
                && (forall|j: int|
                i < j < stats.len() && stats[j].0 == stats[i].0 ==> process_entry(
                    #[trigger] stats[j].1,
                    stats[j].0,
                    previous,
                ) is None) ==> collect_times(stats, previous)[stats[i].0] == process_entry(
                stats[i].1,
                stats[i].0,
                previous,
            )->Some_0.1,
        forall|p: u32|
            #[trigger] collect_times(stats, previous).contains_key(p) ==> exists|i: int|
                0 <= i < stats.len() && stats[i].0 == p && (process_entry(
                    #[trigger] stats[i].1,
                    stats[i].0,
                    previous,
                ) is Some),
    decreases stats.len(),
{
    if stats.len() > 0 {
        let init = stats.drop_last();
        let n = stats.len() - 1;
        lemma_times_record_parsed(init, previous);
        assert forall|i: int| 0 <= i < init.len() implies init[i] == stats[i] by {}
        let before = collect_times(init, previous);
        let last = stats[n];
        assert(stats.last() == last);
        assert forall|i: int|
            0 <= i < stats.len() && (process_entry(#[trigger] stats[i].1, stats[i].0, previous) is Some)
            implies collect_times(stats, previous).contains_key(stats[i].0) by {
            if i < n {
                assert(init[i] == stats[i]);
            }
        }
        assert forall|i: int|
            0 <= i < stats.len() && (process_entry(#[trigger] stats[i].1, stats[i].0, previous) is Some)
                && (forall|j: int|
                i < j < stats.len() && stats[j].0 == stats[i].0 ==> process_entry(
                    #[trigger] stats[j].1,
                    stats[j].0,
                    previous,
                ) is None) implies collect_times(stats, previous)[stats[i].0] == process_entry(
            stats[i].1,
            stats[i].0,
            previous,
        )->Some_0.1 by {
            if i < n {
                assert(init[i] == stats[i]);
                assert forall|j: int|
                    i < j < init.len() && init[j].0 == init[i].0 implies process_entry(
                    #[trigger] init[j].1,
                    init[j].0,
                    previous,
                ) is None by {
                    assert(init[j] == stats[j]);
                }
            }
        }
        assert forall|p: u32|
            #[trigger] collect_times(stats, previous).contains_key(p) implies exists|i: int|
                0 <= i < stats.len() && stats[i].0 == p && (process_entry(
                    #[trigger] stats[i].1,
                    stats[i].0,
                    previous,
                ) is Some) by {
            if before.contains_key(p) {
                let i = choose|i: int|
                    0 <= i < init.len() && init[i].0 == p && (process_entry(
                        #[trigger] init[i].1,
                        init[i].0,
                        previous,
                    ) is Some);
                assert(init[i] == stats[i]);
            } else {
                assert(stats[n].0 == p);
            }
        }
    }
}

/// The view of a process whose `stat` parses.
pub open spec fn parsed_process(e: (u32, Seq<char>), previous: Map<u32, ProcessCpuTimes>) -> Option<
    (u32, Seq<char>, u64, u64, char),
> {
    match process_entry(e.1, e.0, previous) {
        Some((info, _)) => Some(info),
        None => None,
    }
}

/// The processes listed (before sorting) are those whose `stat` parses, each
/// once, in input order.
pub proof fn lemma_processes_are_parsed(stats: Seq<(u32, Seq<char>)>, previous: Map<u32, ProcessCpuTimes>)
    ensures
        collect_processes(stats, previous) == stats.filter_map(
            |e: (u32, Seq<char>)| parsed_process(e, previous),
        ),
    decreases stats.len(),
{
    if stats.len() > 0 {
        lemma_processes_are_parsed(stats.drop_last(), previous);
        let v = collect_processes(stats.drop_last(), previous);
        match process_entry(stats.last().1, stats.last().0, previous) {
            Some((info, _)) => {
                assert(v.push(info) =~= v + seq![info]);
            },
            None => {},
        }
    }
}

} // verus!
