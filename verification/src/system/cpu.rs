use vstd::prelude::*;
use vstd::string::*;

use crate::text::{
    chars_of, has_char, lemma_split_seq_nonempty, line_ranges, lines_seq, parse_unsigned, parse_unsigned_range, split_ranges,
    split_seq, starts_with, str_eq, substring, trim_range, trim_seq, word_ranges, words_seq,
};

verus! {

/// Helpers that read what the system reports (process names, CPU lists,
/// governors) and compute what the system is told (affinity masks, I/O
/// priority words). The reading and writing themselves happen outside.
pub struct SystemUtils;

/// A CPU range `a..=b`, empty when `a > b`.
pub open spec fn cpu_range(a: int, b: int) -> Seq<usize> {
    Seq::new(
        if a <= b {
            (b - a + 1) as nat
        } else {
            0
        },
        |k: int| (a + k) as usize,
    )
}

/// The CPUs one comma-separated part of a CPU list names: `n` names CPU `n`,
/// `a-b` names `a` through `b`; anything else names none.
pub open spec fn cpu_list_part(part: Seq<char>) -> Seq<usize> {
    if has_char(part, '-') {
        let range = split_seq(part, '-');
        if range.len() == 2 {
            match (
                parse_unsigned(range[0], usize::MAX as int),
                parse_unsigned(range[1], usize::MAX as int),
            ) {
                (Some(a), Some(b)) => cpu_range(a, b),
                _ => Seq::empty(),
            }
        } else {
            Seq::empty()
        }
    } else {
        match parse_unsigned(part, usize::MAX as int) {
            Some(c) => seq![c as usize],
            None => Seq::empty(),
        }
    }
}

/// The sequences of `ps` one after the other.
pub open spec fn concat_parts(ps: Seq<Seq<usize>>) -> Seq<usize>
    decreases ps.len(),
{
    if ps.len() == 0 {
        Seq::empty()
    } else {
        concat_parts(ps.drop_last()) + ps.last()
    }
}

/// The CPUs a kernel CPU list such as `0-3,5,7-8` names, in the order written.
pub open spec fn cpu_list(s: Seq<char>) -> Seq<usize> {
    concat_parts(split_seq(s, ',').map_values(|p: Seq<char>| cpu_list_part(p)))
}

/// A copy of `s[lo..hi]`.
fn sub_chars(s: &Vec<char>, lo: usize, hi: usize) -> (r: Vec<char>)
    requires
        lo <= hi <= s.len(),
    ensures
        r@ == s@.subrange(lo as int, hi as int),
{
    let mut r: Vec<char> = Vec::new();
    let mut i = lo;
    while i < hi
        invariant
            lo <= i <= hi <= s.len(),
            r@ == s@.subrange(lo as int, i as int),
        decreases hi - i,
    {
        r.push(s[i]);
        proof {
            assert(s@.subrange(lo as int, i + 1) =~= s@.subrange(lo as int, i as int).push(
                s@[i as int],
            ));
        }
        i = i + 1;
    }
    r
}

/// Whether `c` occurs in `s[lo..hi]`.
fn range_has_char(s: &Vec<char>, lo: usize, hi: usize, c: char) -> (r: bool)
    requires
        lo <= hi <= s.len(),
    ensures
        r == has_char(s@.subrange(lo as int, hi as int), c),
{
    let mut i = lo;
    while i < hi
        invariant
            lo <= i <= hi <= s.len(),
            forall|k: int| lo <= k < i ==> s@[k] != c,
        decreases hi - i,
    {
        if s[i] == c {
            assert(s@.subrange(lo as int, hi as int)[i - lo] == c);
            return true;
        }
        i = i + 1;
    }
    proof {
        let sub = s@.subrange(lo as int, hi as int);
        assert forall|k: int| 0 <= k < sub.len() implies sub[k] != c by {
            assert(sub[k] == s@[lo + k]);
        }
    }
    false
}

/// Appends the CPUs of one part of a CPU list to `out`.
fn push_cpu_list_part(s: &Vec<char>, lo: usize, hi: usize, out: &mut Vec<usize>)
    requires
        lo <= hi <= s.len(),
    ensures
        final(out)@ == old(out)@ + cpu_list_part(s@.subrange(lo as int, hi as int)),
{
    let ghost part = s@.subrange(lo as int, hi as int);
    if range_has_char(s, lo, hi, '-') {
        let piece = sub_chars(s, lo, hi);
        let bounds = split_ranges(&piece, '-');
        if bounds.len() == 2 {
            let (a0, a1) = bounds[0];
            let (b0, b1) = bounds[1];
            let first = parse_unsigned_range(&piece, a0, a1, usize::MAX as u64);
            let last = parse_unsigned_range(&piece, b0, b1, usize::MAX as u64);
            match (first, last) {
                (Some(a), Some(b)) => {
                    let start = a as usize;
                    let end = b as usize;
                    let ghost base = out@;
                    if start <= end {
                        let mut c = start;
                        proof {
                            assert(cpu_range(start as int, c - 1) =~= Seq::<usize>::empty());
                            assert(base + Seq::<usize>::empty() =~= base);
                        }
                        loop
                            invariant_except_break
                                start <= c <= end,
                                out@ == base + cpu_range(start as int, c - 1),
                            ensures
                                out@ == base + cpu_range(start as int, end as int),
                            decreases end - c,
                        {
                            out.push(c);
                            proof {
                                assert(cpu_range(start as int, c as int) =~= cpu_range(
                                    start as int,
                                    c - 1,
                                ).push(c));
                            }
                            if c == end {
                                break ;
                            }
                            c = c + 1;
                        }
                    } else {
                        proof {
                            assert(cpu_range(start as int, end as int) =~= Seq::<usize>::empty());
                            assert(base + Seq::<usize>::empty() =~= base);
                        }
                    }
                },
                _ => {
                    assert(old(out)@ + Seq::<usize>::empty() =~= old(out)@);
                },
            }
        } else {
            assert(old(out)@ + Seq::<usize>::empty() =~= old(out)@);
        }
    } else {
        match parse_unsigned_range(s, lo, hi, usize::MAX as u64) {
            Some(c) => {
                out.push(c as usize);
                assert(old(out)@.push(c as usize) =~= old(out)@ + seq![c as usize]);
            },
            None => {
                assert(old(out)@ + Seq::<usize>::empty() =~= old(out)@);
            },
        }
    }
}

/// What `String::from_utf8_lossy` makes of `bytes`: the text they encode, with
/// each ill-formed part replaced by U+FFFD.
pub uninterp spec fn utf8_lossy(bytes: Seq<u8>) -> Seq<char>;

/// Calls `String::from_utf8_lossy`. Its result depends on the bytes alone and
/// is named `utf8_lossy`; nothing more of it is stated here.
#[verifier::external_body]
fn decode_utf8_lossy(bytes: &[u8]) -> (r: String)
    ensures
        r@ == utf8_lossy(bytes@),
{
    String::from_utf8_lossy(bytes).into_owned()
}

/// The program name in a `/proc/<pid>/cmdline` image: the text up to the first
/// NUL, after its last `/`.
pub open spec fn cmdline_name(cmdline: Seq<u8>) -> Seq<char> {
    split_seq(split_seq(utf8_lossy(cmdline), '\0')[0], '/').last()
}

/// The processes a listing of `/proc` describes: each entry is a directory
/// name and, where it could be read, the contents of its `cmdline`; an entry
/// counts when its name parses as a `u32` pid, its `cmdline` was read and the
/// program name in it is not empty.
pub open spec fn process_list(entries: Seq<(String, Option<Vec<u8>>)>) -> Seq<(u32, Seq<char>)>
    decreases entries.len(),
{
    if entries.len() == 0 {
        Seq::empty()
    } else {
        let prev = process_list(entries.drop_last());
        let e = entries.last();
        match parse_unsigned(e.0@, u32::MAX as int) {
            Some(pid) => match e.1 {
                Some(bytes) => {
                    let name = cmdline_name(bytes@);
                    if name.len() > 0 {
                        prev.push((pid as u32, name))
                    } else {
                        prev
                    }
                },
                None => prev,
            },
            None => prev,
        }
    }
}

/// The pids, in order, of the processes of `ps` called `name`.
pub open spec fn pids_named(ps: Seq<(u32, String)>, name: Seq<char>) -> Seq<u32>
    decreases ps.len(),
{
    if ps.len() == 0 {
        Seq::empty()
    } else {
        let prev = pids_named(ps.drop_last(), name);
        if ps.last().1@ == name {
            prev.push(ps.last().0)
        } else {
            prev
        }
    }
}

/// Whether some process of `ps` is called `name`.
pub open spec fn runs_process(ps: Seq<(u32, String)>, name: Seq<char>) -> bool {
    exists|i: int| 0 <= i < ps.len() && (#[trigger] ps[i]).1@ == name
}

/// A `/proc/<pid>/status` line that gives the allowed CPUs.
pub open spec fn affinity_line(line: Seq<char>) -> bool {
    starts_with(line, "Cpus_allowed_list:"@) && split_seq(line, ':').len() == 2
}

/// The allowed CPUs that the first such line of `ls` lists, or none.
pub open spec fn affinity_from_lines(ls: Seq<Seq<char>>) -> Seq<usize>
    decreases ls.len(),
{
    if ls.len() == 0 {
        Seq::empty()
    } else if affinity_line(ls[0]) {
        cpu_list(trim_seq(split_seq(ls[0], ':')[1]))
    } else {
        affinity_from_lines(ls.drop_first())
    }
}

/// `p` held to the range `0..=7` of I/O priority levels.
pub open spec fn io_level(p: int) -> int {
    if p < 0 {
        0
    } else if p > 7 {
        7
    } else {
        p
    }
}

/// The I/O priority word for class `class` and level `priority`: the kernel's
/// class number (`realtime` 1, `best-effort` 2, `idle` 3) times 8192, plus the
/// level held to `0..=7` (none for `idle`); `None` for any other class.
pub open spec fn io_word(class: Seq<char>, priority: int) -> Option<int> {
    if class == "realtime"@ {
        Some(8192 + io_level(priority))
    } else if class == "best-effort"@ {
        Some(2 * 8192 + io_level(priority))
    } else if class == "idle"@ {
        Some(3 * 8192int)
    } else {
        None
    }
}

/// Whether bit `i` of `m` is set.
pub open spec fn bit_set(m: u64, i: u64) -> bool {
    (m >> i) & 1u64 == 1u64
}

proof fn lemma_bit_or(m: u64, c: u64, i: u64)
    requires
        c < 64,
        i < 64,
    ensures
        bit_set(m | (1u64 << c), i) == (bit_set(m, i) || i == c),
{
    assert(((m | (1u64 << c)) >> i) & 1u64 == 1u64 <==> (((m >> i) & 1u64 == 1u64) || i == c))
        by (bit_vector)
        requires
            c < 64,
            i < 64,
    ;
}

proof fn lemma_bit_zero(i: u64)
    requires
        i < 64,
    ensures
        !bit_set(0u64, i),
{
    assert((0u64 >> i) & 1u64 != 1u64) by (bit_vector)
        requires
            i < 64,
    ;
}

proof fn lemma_io_word(class: i32, level: i32)
    requires
        1 <= class <= 3,
        0 <= level <= 7,
    ensures
        (class << 13u32) | level == class * 8192 + level,
{
    assert((class << 13u32) | level == class * 8192 + level) by (bit_vector)
        requires
            1 <= class <= 3,
            0 <= level <= 7,
    ;
}

/// The CPUs a kernel CPU list such as `0-3,5,7-8` names, in the order
/// written; parts that do not parse name no CPU.
fn cpu_list_of(chars: &Vec<char>) -> (r: Vec<usize>)
    ensures
        r@ == cpu_list(chars@),
{
    let ghost s = chars@;
    let parts = split_ranges(chars, ',');
    let ghost ps = split_seq(s, ',').map_values(|p: Seq<char>| cpu_list_part(p));
    let mut out: Vec<usize> = Vec::new();
    let mut k: usize = 0;
    proof {
        assert(ps.take(0) =~= Seq::<Seq<usize>>::empty());
    }
    while k < parts.len()
        invariant
            chars@ == s,
            ps == split_seq(s, ',').map_values(|p: Seq<char>| cpu_list_part(p)),
            parts.len() == ps.len(),
            forall|j: int|
                #![trigger parts[j]]
                0 <= j < parts.len() ==> parts[j].0 <= parts[j].1 <= chars.len()
                    && chars@.subrange(parts[j].0 as int, parts[j].1 as int) == split_seq(
                    s,
                    ',',
                )[j],
            k <= parts.len(),
            out@ == concat_parts(ps.take(k as int)),
        decreases parts.len() - k,
    {
        let (a, b) = parts[k];
        push_cpu_list_part(chars, a, b, &mut out);
        proof {
            assert(ps.take(k + 1).drop_last() =~= ps.take(k as int));
            assert(ps[k as int] == cpu_list_part(split_seq(s, ',')[k as int]));
        }
        k = k + 1;
    }
    proof {
        assert(ps.take(parts.len() as int) =~= ps);
    }
    out
}

impl SystemUtils {
    /// The CPUs a kernel CPU list such as `0-3,5,7-8` names, in the order
    /// written; parts that do not parse name no CPU.
    pub fn parse_cpu_list(s: &str) -> (r: Vec<usize>)
        ensures
            r@ == cpu_list(s@),
    {
        let chars = chars_of(s);
        cpu_list_of(&chars)
    }

    /// The first line of a file's contents, if it was read and has one.
    pub fn read_first_line(content: Option<String>) -> (r: Option<String>)
        ensures
            r is Some <==> (content is Some && lines_seq(content->0@).len() > 0),
            r is Some ==> r->0@ == lines_seq(content->0@)[0],
    {
        match content {
            None => None,
            Some(c) => {
                let chars = chars_of(c.as_str());
                let ls = line_ranges(&chars);
                if ls.len() == 0 {
                    None
                } else {
                    let (a, b) = ls[0];
                    Some(substring(c.as_str(), a, b))
                }
            },
        }
    }

    /// The CPU frequency governor that the first line of
    /// `scaling_governor` names, given that file's contents.
    pub fn get_current_cpu_governor(content: Option<String>) -> (r: Option<String>)
        ensures
            r is Some <==> (content is Some && lines_seq(content->0@).len() > 0),
            r is Some ==> r->0@ == lines_seq(content->0@)[0],
    {
        Self::read_first_line(content)
    }

    /// The governors that `scaling_available_governors` lists, given its
    /// contents: its white-space separated words, or none if it was not read.
    pub fn get_available_governors(content: Option<String>) -> (r: Vec<String>)
        ensures
            content is None ==> r.len() == 0,
            content is Some ==> r.len() == words_seq(content->0@).len() && forall|i: int|
                0 <= i < r.len() ==> (#[trigger] r[i])@ == words_seq(content->0@)[i],
    {
        let mut out: Vec<String> = Vec::new();
        match content {
            None => out,
            Some(c) => {
                let chars = chars_of(c.as_str());
                let ws = word_ranges(&chars);
                let mut k: usize = 0;
                while k < ws.len()
                    invariant
                        chars@ == c@,
                        ws.len() == words_seq(c@).len(),
                        forall|j: int|
                            #![trigger ws[j]]
                            0 <= j < ws.len() ==> ws[j].0 <= ws[j].1 <= chars.len()
                                && chars@.subrange(ws[j].0 as int, ws[j].1 as int) == words_seq(
                                c@,
                            )[j],
                        k <= ws.len(),
                        out.len() == k,
                        forall|i: int| 0 <= i < k ==> (#[trigger] out[i])@ == words_seq(c@)[i],
                    decreases ws.len() - k,
                {
                    let (a, b) = ws[k];
                    out.push(substring(c.as_str(), a, b));
                    k = k + 1;
                }
                out
            },
        }
    }

    /// The CPUs a process may run on, given the contents of its
    /// `/proc/<pid>/status`: the list on its first `Cpus_allowed_list:` line
    /// that holds exactly one colon, or none.
    pub fn get_cpu_affinity(status: Option<String>) -> (r: Vec<usize>)
        ensures
            content_affinity(status, r@),
    {
        match status {
            None => Vec::new(),
            Some(c) => {
                let chars = chars_of(c.as_str());
                let ls = line_ranges(&chars);
                let key = chars_of("Cpus_allowed_list:");
                let ghost lines = lines_seq(c@);
                let mut k: usize = 0;
                proof {
                    assert(lines.skip(0) =~= lines);
                }
                while k < ls.len()
                    invariant
                        chars@ == c@,
                        key@ == "Cpus_allowed_list:"@,
                        lines == lines_seq(c@),
                        status == Some(c),
                        ls.len() == lines.len(),
                        forall|j: int|
                            #![trigger ls[j]]
                            0 <= j < ls.len() ==> ls[j].0 <= ls[j].1 <= chars.len()
                                && chars@.subrange(ls[j].0 as int, ls[j].1 as int) == lines[j],
                        k <= ls.len(),
                        affinity_from_lines(lines) == affinity_from_lines(lines.skip(k as int)),
                    decreases ls.len() - k,
                {
                    let (a, b) = ls[k];
                    let ghost line = lines[k as int];
                    proof {
                        assert(lines.skip(k as int)[0] == line);
                        assert(lines.skip(k as int).drop_first() =~= lines.skip(k + 1));
                    }
                    if Self::line_has_prefix(&chars, a, b, &key) {
                        let piece = sub_chars(&chars, a, b);
                        let parts = split_ranges(&piece, ':');
                        if parts.len() == 2 {
                            let (p0, p1) = parts[1];
                            let (t0, t1) = trim_range(&piece, p0, p1);
                            let listed = sub_chars(&piece, t0, t1);
                            proof {
                                assert(piece@ == line);
                                assert(affinity_line(line));
                                assert(listed@ == trim_seq(split_seq(line, ':')[1]));
                                assert(affinity_from_lines(lines.skip(k as int)) == cpu_list(
                                    listed@,
                                ));
                                assert(affinity_from_lines(lines_seq(c@)) == cpu_list(listed@));
                            }
                            return cpu_list_of(&listed);
                        }
                    }
                    k = k + 1;
                }
                proof {
                    assert(lines.skip(ls.len() as int) =~= Seq::<Seq<char>>::empty());
                }
                Vec::new()
            },
        }
    }

    /// Whether `s[lo..hi]` begins with `key`.
    fn line_has_prefix(s: &Vec<char>, lo: usize, hi: usize, key: &Vec<char>) -> (r: bool)
        requires
            lo <= hi <= s.len(),
        ensures
            r == starts_with(s@.subrange(lo as int, hi as int), key@),
    {
        let ghost line = s@.subrange(lo as int, hi as int);
        if hi - lo < key.len() {
            return false;
        }
        let mut i: usize = 0;
        while i < key.len()
            invariant
                lo <= hi <= s.len(),
                line == s@.subrange(lo as int, hi as int),
                key.len() <= hi - lo,
                i <= key.len(),
                forall|j: int| 0 <= j < i ==> s@[lo + j] == key@[j],
            decreases key.len() - i,
        {
            if s[lo + i] != key[i] {
                proof {
                    assert(line.take(key.len() as int)[i as int] != key@[i as int]);
                }
                return false;
            }
            i = i + 1;
        }
        proof {
            assert(line.take(key.len() as int) =~= key@);
        }
        true
    }

    /// Whether some process of `processes` is called `name`.
    pub fn is_process_running(name: &str, processes: &Vec<(u32, String)>) -> (r: bool)
        ensures
            r == runs_process(processes@, name@),
    {
        let mut i: usize = 0;
        while i < processes.len()
            invariant
                i <= processes.len(),
                forall|j: int| 0 <= j < i ==> (#[trigger] processes@[j]).1@ != name@,
            decreases processes.len() - i,
        {
            if str_eq(processes[i].1.as_str(), name) {
                assert(processes@[i as int].1@ == name@);
                return true;
            }
            i = i + 1;
        }
        false
    }

    /// The pids, in order, of the processes of `processes` called `name`.
    pub fn find_pids_by_name(name: &str, processes: &Vec<(u32, String)>) -> (r: Vec<u32>)
        ensures
            r@ == pids_named(processes@, name@),
    {
        let mut r: Vec<u32> = Vec::new();
        let mut i: usize = 0;
        proof {
            assert(processes@.take(0) =~= Seq::<(u32, String)>::empty());
        }
        while i < processes.len()
            invariant
                i <= processes.len(),
                r@ == pids_named(processes@.take(i as int), name@),
            decreases processes.len() - i,
        {
            proof {
                assert(processes@.take(i + 1).drop_last() =~= processes@.take(i as int));
            }
            if str_eq(processes[i].1.as_str(), name) {
                r.push(processes[i].0);
            }
            i = i + 1;
        }
        proof {
            assert(processes@.take(processes.len() as int) =~= processes@);
        }
        r
    }

    /// The program name in a `/proc/<pid>/cmdline` image.
    pub fn process_name(cmdline: &Vec<u8>) -> (r: String)
        ensures
            r@ == cmdline_name(cmdline@),
    {
        let text = decode_utf8_lossy(cmdline.as_slice());
        let chars = chars_of(text.as_str());
        let args = split_ranges(&chars, '\0');
        proof {
            lemma_split_seq_nonempty(text@, '\0');
        }
        let (a, b) = args[0];
        let first = sub_chars(&chars, a, b);
        let segs = split_ranges(&first, '/');
        proof {
            lemma_split_seq_nonempty(first@, '/');
        }
        let (c, d) = segs[segs.len() - 1];
        proof {
            assert(text@.subrange(a + c, a + d) =~= first@.subrange(c as int, d as int));
        }
        substring(text.as_str(), a + c, a + d)
    }

    /// The processes a listing of `/proc` describes (see `process_list`).
    pub fn get_process_list(entries: &Vec<(String, Option<Vec<u8>>)>) -> (r: Vec<(u32, String)>)
        ensures
            r.len() == process_list(entries@).len(),
            forall|i: int|
                0 <= i < r.len() ==> (#[trigger] r[i]).0 == process_list(entries@)[i].0 && r[i].1@
                    == process_list(entries@)[i].1,
    {
        let mut r: Vec<(u32, String)> = Vec::new();
        let mut i: usize = 0;
        proof {
            assert(entries@.take(0) =~= Seq::<(String, Option<Vec<u8>>)>::empty());
        }
        while i < entries.len()
            invariant
                i <= entries.len(),
                r.len() == process_list(entries@.take(i as int)).len(),
                forall|j: int|
                    0 <= j < r.len() ==> (#[trigger] r[j]).0 == process_list(entries@.take(i as int))[j].0
                        && r[j].1@ == process_list(entries@.take(i as int))[j].1,
            decreases entries.len() - i,
        {
            proof {
                assert(entries@.take(i + 1).drop_last() =~= entries@.take(i as int));
                assert(entries@.take(i + 1).last() == entries@[i as int]);
            }
            let name_chars = chars_of(entries[i].0.as_str());
            let pid = parse_unsigned_range(&name_chars, 0, name_chars.len(), u32::MAX as u64);
            proof {
                assert(name_chars@.subrange(0, name_chars.len() as int) =~= entries@[i as int].0@);
            }
            match pid {
                Some(p) => match &entries[i].1 {
                    Some(bytes) => {
                        let name = Self::process_name(bytes);
                        if name.unicode_len() > 0 {
                            r.push((p as u32, name));
                        }
                    },
                    None => {},
                },
                None => {},
            }
            i = i + 1;
        }
        proof {
            assert(entries@.take(entries.len() as int) =~= entries@);
        }
        r
    }

    /// The word that `ioprio_set` takes for an I/O scheduling class and
    /// level (see `io_word`). Any other class is refused with a message that
    /// names it.
    pub fn io_priority_data(class: &str, priority: i32) -> (r: std::result::Result<i32, String>)
        ensures
            io_word(class@, priority as int) matches Some(w) ==> r == Ok::<i32, String>(w as i32),
            io_word(class@, priority as int) is None ==> r is Err && r->Err_0@
                == "Unknown I/O priority class: "@ + class@,
    {
        let level: i32 = if priority < 0 {
            0
        } else if priority > 7 {
            7
        } else {
            priority
        };
        if str_eq(class, "realtime") {
            proof {
                lemma_io_word(1, level);
            }
            Ok((1i32 << 13u32) | level)
        } else if str_eq(class, "best-effort") {
            proof {
                lemma_io_word(2, level);
            }
            Ok((2i32 << 13u32) | level)
        } else if str_eq(class, "idle") {
            proof {
                lemma_io_word(3, 0);
            }
            Ok((3i32 << 13u32) | 0)
        } else {
            let mut msg = "Unknown I/O priority class: ".to_owned();
            msg.append(class);
            Err(msg)
        }
    }

    /// The CPU mask `sched_setaffinity` takes for `cpus`: bit `i` is set when
    /// CPU `i` is listed; CPUs from 64 on do not fit and are left out.
    pub fn affinity_mask(cpus: &Vec<usize>) -> (r: u64)
        ensures
            forall|i: u64|
                i < 64 ==> (bit_set(r, i) <==> exists|j: int|
                    0 <= j < cpus.len() && cpus[j] == i),
    {
        let mut mask: u64 = 0;
        let mut k: usize = 0;
        proof {
            assert forall|i: u64| i < 64 implies !bit_set(mask, i) by {
                lemma_bit_zero(i);
            }
        }
        while k < cpus.len()
            invariant
                k <= cpus.len(),
                forall|i: u64|
                    i < 64 ==> (bit_set(mask, i) <==> exists|j: int|
                        0 <= j < k && cpus[j] == i),
            decreases cpus.len() - k,
        {
            let cpu = cpus[k];
            if cpu < 64 {
                let c = cpu as u64;
                let old_mask = mask;
                mask = mask | (1u64 << c);
                proof {
                    assert forall|i: u64| i < 64 implies (bit_set(mask, i) <==> exists|j: int|
                        0 <= j < k + 1 && cpus[j] == i) by {
                        lemma_bit_or(old_mask, c, i);
                        if i == c {
                            assert(cpus[k as int] == i);
                        }
                        if exists|j: int| 0 <= j < k + 1 && cpus[j] == i {
                            let j = choose|j: int| 0 <= j < k + 1 && cpus[j] == i;
                            if j < k {
                            } else {
                                assert(i == c);
                            }
                        }
                    }
                }
            } else {
                proof {
                    assert forall|i: u64| i < 64 implies (bit_set(mask, i) <==> exists|j: int|
                        0 <= j < k + 1 && cpus[j] == i) by {
                        if exists|j: int| 0 <= j < k + 1 && cpus[j] == i {
                            let j = choose|j: int| 0 <= j < k + 1 && cpus[j] == i;
                            assert(j < k);
                        }
                    }
                }
            }
            k = k + 1;
        }
        mask
    }
}

/// Whether `r` is the CPU list that a status file's contents give.
pub open spec fn content_affinity(status: Option<String>, r: Seq<usize>) -> bool {
    match status {
        None => r.len() == 0,
        Some(c) => r == affinity_from_lines(lines_seq(c@)),
    }
}

} // verus!
