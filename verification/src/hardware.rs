//! Host hardware inventory with explicit provenance and unknown values.
//!
//! The host reads `/proc/meminfo` and `/proc/cpuinfo`; the parsers and the
//! assembly of the inventory from what was read live here.

use vstd::prelude::*;

use crate::canonical::{owned, parse_u32_at, parse_u32_spec, parse_u64_at, parse_u64_spec};
use crate::engine::{DeviceInventory, HardwareInventory};
use crate::quantity::Bytes;
use crate::resource::{Estimate, EstimateConfidence, EstimateSource};
use crate::text::{chars_equal_at, chars_of, trim, trim_range};

verus! {

broadcast use Bytes::lemma_spec_new;

/// Index just past the line that starts at `i`: the next '\n', or the end.
pub open spec fn line_end(s: Seq<char>, i: int) -> int
    decreases s.len() - i,
{
    if 0 <= i < s.len() && s[i] != '\n' {
        line_end(s, i + 1)
    } else {
        i
    }
}

/// A line ended by '\n' loses one trailing '\r'.
pub open spec fn strip_cr(t: Seq<char>) -> Seq<char> {
    if t.len() > 0 && t.last() == '\r' {
        t.drop_last()
    } else {
        t
    }
}

pub proof fn lemma_line_end(s: Seq<char>, i: int)
    requires
        0 <= i <= s.len(),
    ensures
        i <= line_end(s, i) <= s.len(),
        line_end(s, i) < s.len() ==> s[line_end(s, i)] == '\n',
        forall|j: int| i <= j < line_end(s, i) ==> s[j] != '\n',
    decreases s.len() - i,
{
    if i < s.len() && s[i] != '\n' {
        lemma_line_end(s, i + 1);
    }
}

/// The lines of `s[i..]`, as `str::lines` yields them.
pub open spec fn lines_from(s: Seq<char>, i: int) -> Seq<Seq<char>>
    decreases s.len() - i,
{
    if i < 0 || i >= s.len() {
        Seq::empty()
    } else {
        let e = line_end(s, i);
        proof {
            lemma_line_end(s, i);
        }
        if e < s.len() {
            seq![strip_cr(s.subrange(i, e))] + lines_from(s, e + 1)
        } else {
            seq![s.subrange(i, e)]
        }
    }
}

/// The lines of `s`: split at '\n', a '\r' before it dropped, and no final empty line.
pub open spec fn lines_of(s: Seq<char>) -> Seq<Seq<char>> {
    lines_from(s, 0)
}

/// The characters of each line.
pub open spec fn line_views(r: Seq<Vec<char>>) -> Seq<Seq<char>> {
    Seq::new(r.len(), |i: int| r[i]@)
}

/// Splits text into its lines.
fn split_lines(v: &Vec<char>) -> (r: Vec<Vec<char>>)
    ensures
        line_views(r@) == lines_of(v@),
{
    let mut r: Vec<Vec<char>> = Vec::new();
    let mut pos: usize = 0;
    while pos < v.len()
        invariant
            pos <= v@.len(),
            line_views(r@) + lines_from(v@, pos as int) == lines_of(v@),
        decreases v@.len() - pos,
    {
        let mut e = pos;
        while e < v.len() && v[e] != '\n'
            invariant
                pos <= e <= v@.len(),
                line_end(v@, pos as int) == line_end(v@, e as int),
            decreases v@.len() - e,
        {
            e = e + 1;
        }
        let mut stop = e;
        if e < v.len() && e > pos && v[e - 1] == '\r' {
            stop = e - 1;
        }
        let mut line: Vec<char> = Vec::new();
        let mut k = pos;
        while k < stop
            invariant
                pos <= k <= stop <= v@.len(),
                line@ == v@.subrange(pos as int, k as int),
            decreases stop - k,
        {
            line.push(v[k]);
            assert(v@.subrange(pos as int, k + 1) == v@.subrange(pos as int, k as int).push(v@[k as int]));
            k = k + 1;
        }
        let ghost before = r@;
        let ghost lv = line@;
        proof {
            let t = v@.subrange(pos as int, e as int);
            if e < v@.len() {
                assert(line@ == strip_cr(t)) by {
                    if e > pos && v@[e - 1] == '\r' {
                        assert(t.drop_last() =~= v@.subrange(pos as int, stop as int));
                    }
                }
                assert(lines_from(v@, pos as int) == seq![line@] + lines_from(v@, e + 1));
            } else {
                assert(lines_from(v@, pos as int) == seq![line@]);
                assert(lines_from(v@, e as int) =~= Seq::<Seq<char>>::empty());
            }
        }
        r.push(line);
        proof {
            assert(line_views(r@) =~= line_views(before).push(lv));
        }
        if e < v.len() {
            pos = e + 1;
        } else {
            pos = e;
        }
        proof {
            assert(line_views(r@) + lines_from(v@, pos as int) =~= line_views(before) + (seq![lv]
                + lines_from(v@, pos as int)));
        }
    }
    assert(lines_from(v@, pos as int) =~= Seq::<Seq<char>>::empty());
    assert(line_views(r@) + Seq::<Seq<char>>::empty() =~= line_views(r@));
    r
}

/// Whitespace as `u8::is_ascii_whitespace` defines it.
pub open spec fn is_ascii_space(c: char) -> bool {
    c == ' ' || c == '\t' || c == '\n' || c == '\x0C' || c == '\r'
}

/// First index at or after `i` that is not ASCII whitespace.
pub open spec fn space_end(s: Seq<char>, i: int) -> int
    decreases s.len() - i,
{
    if 0 <= i < s.len() && is_ascii_space(s[i]) {
        space_end(s, i + 1)
    } else {
        i
    }
}

/// First index at or after `i` that is ASCII whitespace, or the end.
pub open spec fn word_end(s: Seq<char>, i: int) -> int
    decreases s.len() - i,
{
    if 0 <= i < s.len() && !is_ascii_space(s[i]) {
        word_end(s, i + 1)
    } else {
        i
    }
}

pub proof fn lemma_space_end(s: Seq<char>, i: int)
    requires
        0 <= i <= s.len(),
    ensures
        i <= space_end(s, i) <= s.len(),
        space_end(s, i) < s.len() ==> !is_ascii_space(s[space_end(s, i)]),
    decreases s.len() - i,
{
    if i < s.len() && is_ascii_space(s[i]) {
        lemma_space_end(s, i + 1);
    }
}

pub proof fn lemma_word_end(s: Seq<char>, i: int)
    requires
        0 <= i <= s.len(),
    ensures
        i <= word_end(s, i) <= s.len(),
        i < s.len() && !is_ascii_space(s[i]) ==> i < word_end(s, i),
    decreases s.len() - i,
{
    if i < s.len() && !is_ascii_space(s[i]) {
        lemma_word_end(s, i + 1);
    }
}

/// The whitespace-separated fields of `s[i..]`, as `str::split_ascii_whitespace` yields them.
pub open spec fn fields_from(s: Seq<char>, i: int) -> Seq<Seq<char>>
    decreases s.len() - i,
{
    if i < 0 || i > s.len() {
        Seq::empty()
    } else {
        let a = space_end(s, i);
        proof {
            lemma_space_end(s, i);
        }
        if a >= s.len() {
            Seq::empty()
        } else {
            let b = word_end(s, a);
            proof {
                lemma_word_end(s, a);
            }
            seq![s.subrange(a, b)] + fields_from(s, b)
        }
    }
}

/// The whitespace-separated fields of `s`.
pub open spec fn ascii_fields(s: Seq<char>) -> Seq<Seq<char>> {
    fields_from(s, 0)
}

fn space_end_at(v: &Vec<char>, i: usize) -> (r: usize)
    requires
        i <= v@.len(),
    ensures
        r == space_end(v@, i as int),
        i <= r <= v@.len(),
{
    let mut k = i;
    while k < v.len() && (v[k] == ' ' || v[k] == '\t' || v[k] == '\n' || v[k] == '\x0C' || v[k]
        == '\r')
        invariant
            i <= k <= v@.len(),
            space_end(v@, i as int) == space_end(v@, k as int),
        decreases v@.len() - k,
    {
        k = k + 1;
    }
    k
}

fn word_end_at(v: &Vec<char>, i: usize) -> (r: usize)
    requires
        i <= v@.len(),
    ensures
        r == word_end(v@, i as int),
        i <= r <= v@.len(),
{
    let mut k = i;
    while k < v.len() && !(v[k] == ' ' || v[k] == '\t' || v[k] == '\n' || v[k] == '\x0C' || v[k]
        == '\r')
        invariant
            i <= k <= v@.len(),
            word_end(v@, i as int) == word_end(v@, k as int),
        decreases v@.len() - k,
    {
        k = k + 1;
    }
    k
}

/// The byte count a meminfo line states: its second field is a `u64` count of KiB and
/// its third field is exactly "kB"; none when that does not hold or the bytes overflow.
pub open spec fn meminfo_line_bytes(line: Seq<char>) -> Option<nat> {
    let f = ascii_fields(line);
    if f.len() < 3 {
        None
    } else {
        match parse_u64_spec(f[1]) {
            None => None,
            Some(kib) => if f[2] == seq!['k', 'B'] && kib * 1024 <= u64::MAX {
                Some((kib * 1024) as nat)
            } else {
                None
            },
        }
    }
}

/// The first line that starts with `key`.
pub open spec fn first_line_with(lines: Seq<Seq<char>>, key: Seq<char>) -> Option<Seq<char>>
    decreases lines.len(),
{
    if lines.len() == 0 {
        None
    } else if key.len() <= lines[0].len() && lines[0].take(key.len() as int) == key {
        Some(lines[0])
    } else {
        first_line_with(lines.drop_first(), key)
    }
}

/// The byte count `/proc/meminfo` text states under `key`, when its first line with that
/// key is well formed.
pub open spec fn meminfo_value(input: Seq<char>, key: Seq<char>) -> Option<nat> {
    match first_line_with(lines_of(input), key) {
        None => None,
        Some(line) => meminfo_line_bytes(line),
    }
}

/// Reads the byte count of one meminfo line.
fn line_bytes(line: &Vec<char>) -> (r: Option<Bytes>)
    ensures
        match meminfo_line_bytes(line@) {
            Some(n) => r matches Some(b) && b@ == n,
            None => r is None,
        },
{
    let ghost s = line@;
    let n = line.len();
    let a1 = space_end_at(line, 0);
    proof {
        lemma_space_end(s, 0);
    }
    if a1 >= n {
        assert(ascii_fields(s) =~= Seq::<Seq<char>>::empty());
        return None;
    }
    let b1 = word_end_at(line, a1);
    proof {
        lemma_word_end(s, a1 as int);
        lemma_space_end(s, b1 as int);
    }
    let a2 = space_end_at(line, b1);
    if a2 >= n {
        assert(fields_from(s, b1 as int) =~= Seq::<Seq<char>>::empty());
        assert(ascii_fields(s).len() == 1);
        return None;
    }
    let b2 = word_end_at(line, a2);
    proof {
        lemma_word_end(s, a2 as int);
        lemma_space_end(s, b2 as int);
    }
    let a3 = space_end_at(line, b2);
    proof {
        assert(ascii_fields(s) == seq![s.subrange(a1 as int, b1 as int)] + fields_from(s, b1 as int));
        assert(fields_from(s, b1 as int) == seq![s.subrange(a2 as int, b2 as int)] + fields_from(
            s,
            b2 as int,
        ));
        assert(ascii_fields(s)[1] == s.subrange(a2 as int, b2 as int));
        assert(ascii_fields(s).len() >= 2);
    }
    let kib = match parse_u64_at(line.as_slice(), a2, b2) {
        Some(k) => k,
        None => {
            proof {
                assert(ascii_fields(s).len() >= 2);
            }
            return None;
        },
    };
    if a3 >= n {
        assert(fields_from(s, b2 as int) =~= Seq::<Seq<char>>::empty());
        assert(ascii_fields(s).len() == 2);
        return None;
    }
    let b3 = word_end_at(line, a3);
    proof {
        lemma_word_end(s, a3 as int);
        assert(fields_from(s, b2 as int) == seq![s.subrange(a3 as int, b3 as int)] + fields_from(
            s,
            b3 as int,
        ));
        assert(ascii_fields(s)[2] == s.subrange(a3 as int, b3 as int));
        assert(ascii_fields(s).len() >= 3);
    }
    let unit = "kB";
    proof {
        reveal_strlit("kB");
        assert(unit@ == seq!['k', 'B']);
    }
    if !chars_equal_at(line.as_slice(), a3, b3, unit) {
        return None;
    }
    match kib.checked_mul(1024) {
        Some(total) => Some(Bytes::new(total)),
        None => None,
    }
}

/// Reads the byte count stated under `key`.
fn meminfo_lookup(lines: &Vec<Vec<char>>, key: &str) -> (r: Option<Bytes>)
    ensures
        match first_line_with(line_views(lines@), key@) {
            Some(line) => match meminfo_line_bytes(line) {
                Some(n) => r matches Some(b) && b@ == n,
                None => r is None,
            },
            None => r is None,
        },
{
    let ghost ls = line_views(lines@);
    let k = chars_of(key);
    let mut i: usize = 0;
    assert(ls.skip(0) == ls);
    while i < lines.len()
        invariant
            i <= lines@.len(),
            ls == line_views(lines@),
            k@ == key@,
            first_line_with(ls, key@) == first_line_with(ls.skip(i as int), key@),
        decreases lines@.len() - i,
    {
        let line = &lines[i];
        assert(ls.skip(i as int)[0] == line@);
        assert(ls.skip(i as int).drop_first() == ls.skip(i + 1));
        if k.len() <= line.len() && chars_equal_at(line.as_slice(), 0, k.len(), key) {
            assert(line@.subrange(0, k@.len() as int) == line@.take(k@.len() as int));
            return line_bytes(line);
        }
        assert(!(key@.len() <= line@.len() && line@.take(key@.len() as int) == key@)) by {
            if key@.len() <= line@.len() {
                assert(line@.subrange(0, k@.len() as int) == line@.take(k@.len() as int));
            }
        }
        i = i + 1;
    }
    assert(ls.skip(i as int).len() == 0);
    None
}

/// The meminfo key of total host RAM.
pub open spec fn mem_total_key() -> Seq<char> {
    seq!['M', 'e', 'm', 'T', 'o', 't', 'a', 'l', ':']
}

/// The meminfo key of available host RAM.
pub open spec fn mem_available_key() -> Seq<char> {
    seq!['M', 'e', 'm', 'A', 'v', 'a', 'i', 'l', 'a', 'b', 'l', 'e', ':']
}

/// Reads total and available host RAM from `/proc/meminfo` text.
pub fn parse_linux_meminfo(input: &str) -> (r: Option<(Bytes, Bytes)>)
    ensures
        match (meminfo_value(input@, mem_total_key()), meminfo_value(input@, mem_available_key())) {
            (Some(total), Some(available)) => r matches Some((t, a)) && t@ == total && a@
                == available,
            _ => r is None,
        },
{
    let v = chars_of(input);
    let lines = split_lines(&v);
    let total_key = "MemTotal:";
    let available_key = "MemAvailable:";
    proof {
        reveal_strlit("MemTotal:");
        reveal_strlit("MemAvailable:");
        assert(total_key@ == mem_total_key());
        assert(available_key@ == mem_available_key());
    }
    let total = match meminfo_lookup(&lines, total_key) {
        Some(t) => t,
        None => return None,
    };
    let available = match meminfo_lookup(&lines, available_key) {
        Some(a) => a,
        None => return None,
    };
    Some((total, available))
}

/// The topology scan state: the pending physical id, the pending core id, and the
/// distinct (physical id, core id) pairs seen, in first-seen order.
pub type TopologyScan = (Option<u32>, Option<u32>, Seq<(u32, u32)>);

/// Adds a pair unless it is already present.
pub open spec fn insert_pair(s: Seq<(u32, u32)>, x: (u32, u32)) -> Seq<(u32, u32)> {
    if s.contains(x) {
        s
    } else {
        s.push(x)
    }
}

/// The scan state after one `/proc/cpuinfo` line. A blank line closes a processor
/// block: when both ids are pending, their pair is recorded, and both are cleared. A
/// "physical id" or "core id" line sets that id (to none when its value is not a
/// `u32`). Other lines change nothing.
pub open spec fn topology_step(st: TopologyScan, line: Seq<char>) -> TopologyScan {
    if trim(line).len() == 0 {
        let pairs = match (st.0, st.1) {
            (Some(p), Some(c)) => insert_pair(st.2, (p, c)),
            _ => st.2,
        };
        (None, None, pairs)
    } else {
        match crate::canonical::index_of(line, ':') {
            None => st,
            Some(k) => {
                let key = trim(line.take(k as int));
                let value = trim(line.skip(k as int + 1));
                if key == seq!['p', 'h', 'y', 's', 'i', 'c', 'a', 'l', ' ', 'i', 'd'] {
                    (parse_u32_spec(value), st.1, st.2)
                } else if key == seq!['c', 'o', 'r', 'e', ' ', 'i', 'd'] {
                    (st.0, parse_u32_spec(value), st.2)
                } else {
                    st
                }
            },
        }
    }
}

/// The scan state after `lines`, from nothing pending and no pairs.
pub open spec fn topology_scan(lines: Seq<Seq<char>>) -> TopologyScan
    decreases lines.len(),
{
    if lines.len() == 0 {
        (None, None, Seq::empty())
    } else {
        topology_step(topology_scan(lines.drop_last()), lines.last())
    }
}

/// The count of distinct physical cores that `/proc/cpuinfo` text lists, when it is
/// positive and fits `u32`. The text is scanned as if one more blank line followed it.
pub open spec fn physical_cpu_count(input: Seq<char>) -> Option<u32> {
    let n = topology_scan(lines_of(input).push(Seq::empty())).2.len();
    if 0 < n <= u32::MAX {
        Some(n as u32)
    } else {
        None
    }
}

/// True when `v` is blank once surrounding whitespace is removed.
fn blank_line(v: &Vec<char>) -> (r: bool)
    ensures
        r == (trim(v@).len() == 0),
{
    assert(v@.subrange(0, v@.len() as int) == v@);
    let (i, j) = trim_range(v.as_slice(), 0, v.len());
    i == j
}

/// True when `pairs` holds `x`.
fn holds_pair(pairs: &Vec<(u32, u32)>, x: (u32, u32)) -> (r: bool)
    ensures
        r == pairs@.contains(x),
{
    let mut i: usize = 0;
    while i < pairs.len()
        invariant
            i <= pairs@.len(),
            forall|j: int| 0 <= j < i ==> pairs@[j] != x,
        decreases pairs@.len() - i,
    {
        if pairs[i].0 == x.0 && pairs[i].1 == x.1 {
            assert(pairs@[i as int] == x);
            return true;
        }
        i = i + 1;
    }
    false
}

/// Applies one line to the scan state.
fn scan_line(
    physical: &mut Option<u32>,
    core: &mut Option<u32>,
    pairs: &mut Vec<(u32, u32)>,
    line: &Vec<char>,
)
    ensures
        (*final(physical), *final(core), final(pairs)@) == topology_step(
            (*old(physical), *old(core), old(pairs)@),
            line@,
        ),
{
    if blank_line(line) {
        match (*physical, *core) {
            (Some(p), Some(c)) => {
                if !holds_pair(pairs, (p, c)) {
                    pairs.push((p, c));
                }
            },
            _ => {},
        }
        *physical = None;
        *core = None;
        return ;
    }
    let colon = crate::canonical::find_char(line, ':');
    let k = match colon {
        Some(k) => k,
        None => return ,
    };
    let ghost s = line@;
    let n = line.len();
    assert(k < n);
    proof {
        assert(s.subrange(0, k as int) == s.take(k as int));
        assert(s.subrange(k + 1, s.len() as int) == s.skip(k as int + 1));
    }
    let (ka, kb) = trim_range(line.as_slice(), 0, k);
    let (va, vb) = trim_range(line.as_slice(), k + 1, n);
    let physical_key = "physical id";
    let core_key = "core id";
    proof {
        reveal_strlit("physical id");
        reveal_strlit("core id");
        assert(physical_key@ == seq!['p', 'h', 'y', 's', 'i', 'c', 'a', 'l', ' ', 'i', 'd']);
        assert(core_key@ == seq!['c', 'o', 'r', 'e', ' ', 'i', 'd']);
    }
    if chars_equal_at(line.as_slice(), ka, kb, physical_key) {
        *physical = parse_u32_at(line.as_slice(), va, vb);
    } else if chars_equal_at(line.as_slice(), ka, kb, core_key) {
        *core = parse_u32_at(line.as_slice(), va, vb);
    }
}

/// Counts distinct (physical id, core id) pairs in `/proc/cpuinfo` text.
pub fn parse_linux_physical_cpus(input: &str) -> (r: Option<u32>)
    ensures
        r == physical_cpu_count(input@),
{
    let v = chars_of(input);
    let mut lines = split_lines(&v);
    lines.push(Vec::new());
    let ghost ls = line_views(lines@);
    proof {
        assert(ls =~= lines_of(input@).push(Seq::<char>::empty()));
    }
    let mut physical: Option<u32> = None;
    let mut core: Option<u32> = None;
    let mut pairs: Vec<(u32, u32)> = Vec::new();
    let mut i: usize = 0;
    while i < lines.len()
        invariant
            i <= lines@.len(),
            ls == line_views(lines@),
            (physical, core, pairs@) == topology_scan(ls.take(i as int)),
        decreases lines@.len() - i,
    {
        proof {
            assert(ls.take(i + 1).drop_last() == ls.take(i as int));
            assert(ls.take(i + 1).last() == lines@[i as int]@);
        }
        scan_line(&mut physical, &mut core, &mut pairs, &lines[i]);
        i = i + 1;
    }
    assert(ls.take(i as int) == ls);
    let n = pairs.len();
    if 0 < n && n <= u32::MAX as usize {
        Some(n as u32)
    } else {
        None
    }
}

/// The method recorded for CPU values: the parallelism query, plus cpuinfo when it was read.
pub open spec fn cpu_method(cpuinfo_read: bool) -> Seq<char> {
    if cpuinfo_read {
        "os.parallelism+linux.proc.cpuinfo"@
    } else {
        "os.parallelism"@
    }
}

/// Assembles a host inventory from what the host could read: the logical CPU count
/// the operating system reported, the text of `/proc/cpuinfo` and `/proc/meminfo`
/// when they could be read, and the devices a device library listed. Every value
/// that could not be obtained stays unknown.
pub fn inventory_from(
    logical_cpus: Option<u32>,
    cpuinfo: Option<&str>,
    meminfo: Option<&str>,
    devices: Vec<DeviceInventory>,
) -> (inv: HardwareInventory)
    ensures
        match logical_cpus {
            Some(n) => inv.logical_cpus == Estimate::Known(n),
            None => inv.logical_cpus is Unknown,
        },
        match cpuinfo {
            Some(text) => match physical_cpu_count(text@) {
                Some(n) => inv.physical_cpus == Estimate::Known(n),
                None => inv.physical_cpus is Unknown,
            },
            None => inv.physical_cpus is Unknown,
        },
        (inv.logical_cpus is Unknown && inv.physical_cpus is Unknown) <==> inv.cpu_source is Unknown,
        inv.cpu_source matches Estimate::Known(src) ==> src.confidence == EstimateConfidence::Measured
            && src.method@ == cpu_method(cpuinfo is Some),
        match meminfo {
            Some(text) => match (
                meminfo_value(text@, mem_total_key()),
                meminfo_value(text@, mem_available_key()),
            ) {
                (Some(total), Some(available)) => {
                    &&& inv.ram_total matches Estimate::Known(t) && t@ == total
                    &&& inv.ram_available matches Estimate::Known(a) && a@ == available
                    &&& inv.ram_source matches Estimate::Known(src) && src.confidence
                        == EstimateConfidence::Measured && src.method@ == "linux.proc.meminfo"@
                },
                _ => inv.ram_total is Unknown && inv.ram_available is Unknown
                    && inv.ram_source is Unknown,
            },
            None => inv.ram_total is Unknown && inv.ram_available is Unknown && inv.ram_source is Unknown,
        },
        inv.devices@ == devices@,
{
    let logical = match logical_cpus {
        Some(n) => Estimate::Known(n),
        None => Estimate::Unknown,
    };
    let physical = match cpuinfo {
        Some(text) => match parse_linux_physical_cpus(text) {
            Some(n) => Estimate::Known(n),
            None => Estimate::Unknown,
        },
        None => Estimate::Unknown,
    };
    let cpu_source = if logical.is_unknown() && physical.is_unknown() {
        Estimate::Unknown
    } else {
        let method = if cpuinfo.is_some() {
            owned("os.parallelism+linux.proc.cpuinfo")
        } else {
            owned("os.parallelism")
        };
        Estimate::Known(EstimateSource { confidence: EstimateConfidence::Measured, method })
    };
    let (ram_total, ram_available, ram_source) = match meminfo {
        Some(text) => match parse_linux_meminfo(text) {
            Some((total, available)) => (
                Estimate::Known(total),
                Estimate::Known(available),
                Estimate::Known(
                    EstimateSource {
                        confidence: EstimateConfidence::Measured,
                        method: owned("linux.proc.meminfo"),
                    },
                ),
            ),
            None => (Estimate::Unknown, Estimate::Unknown, Estimate::Unknown),
        },
        None => (Estimate::Unknown, Estimate::Unknown, Estimate::Unknown),
    };
    HardwareInventory {
        logical_cpus: logical,
        physical_cpus: physical,
        cpu_source,
        ram_total,
        ram_available,
        ram_source,
        devices,
    }
}

} // verus!
