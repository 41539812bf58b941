//! The memory collector: a multi-line `Label: value kB` source turned into a
//! snapshot of seventeen named kilobyte counters.

use vstd::prelude::*;

use crate::text;

verus! {

// ---------------------------------------------------------------------------
// The kilobyte unit marker
// ---------------------------------------------------------------------------

/// Whether the kilobyte marker `kB` occurs anywhere in the text.
pub open spec fn contains_kb(s: Seq<char>) -> bool {
    exists|i: int| 0 <= i && i + 2 <= s.len() && #[trigger] s[i] == 'k' && s[i + 1] == 'B'
}

/// The text with every occurrence of the kilobyte marker `kB` removed,
/// scanning left to right.
pub open spec fn remove_kb(s: Seq<char>) -> Seq<char>
    decreases s.len(),
{
    if s.len() < 2 {
        s
    } else if s[0] == 'k' && s[1] == 'B' {
        remove_kb(s.skip(2))
    } else {
        seq![s[0]] + remove_kb(s.skip(1))
    }
}

/// Looks for the kilobyte marker `kB`.
pub fn find_kb(s: &str) -> (r: bool)
    ensures
        r == contains_kb(s@),
{
    let n = s.unicode_len();
    if n < 2 {
        assert(!contains_kb(s@));
        return false;
    }
    let mut i: usize = 0;
    while i < n - 1
        invariant
            2 <= n,
            0 <= i <= n,
            n == s@.len(),
            forall|j: int| 0 <= j < i ==> !(#[trigger] s@[j] == 'k' && s@[j + 1] == 'B'),
        decreases n - i,
    {
        if s.get_char(i) == 'k' && s.get_char(i + 1) == 'B' {
            assert(contains_kb(s@));
            return true;
        }
        i = i + 1;
    }
    assert(!contains_kb(s@));
    false
}

/// Strips every occurrence of the kilobyte marker `kB`.
#[verifier::loop_isolation(false)]
pub fn strip_kb(s: &str) -> (r: String)
    ensures
        r@ == remove_kb(s@),
{
    let n = s.unicode_len();
    let mut out = String::new();
    let mut i: usize = 0;
    proof {
        assert(s@.skip(0) =~= s@);
        assert(out@ + remove_kb(s@) =~= remove_kb(s@));
    }
    while i < n
        invariant
            0 <= i <= n,
            n == s@.len(),
            remove_kb(s@) == out@ + remove_kb(s@.skip(i as int)),
        decreases n - i,
    {
        proof {
            assert(s@.skip(i as int)[0] == s@[i as int]);
            assert(s@.skip(i as int).skip(1) =~= s@.skip(i + 1));
            if i + 1 < n {
                assert(s@.skip(i as int)[1] == s@[i + 1]);
            }
        }
        if i + 1 < n && s.get_char(i) == 'k' && s.get_char(i + 1) == 'B' {
            proof {
                assert(s@.skip(i as int).skip(2) =~= s@.skip(i + 2));
            }
            i = i + 2;
        } else {
            let piece = s.substring_char(i, i + 1);
            proof {
                assert(piece@ =~= seq![s@[i as int]]);
                if i + 1 == n {
                    assert(s@.skip(i as int).len() == 1);
                    assert(s@.skip(i as int) =~= seq![s@[i as int]] + remove_kb(s@.skip(i + 1)));
                }
                assert(out@ + (seq![s@[i as int]] + remove_kb(s@.skip(i + 1))) =~= (out@ + seq![
                    s@[i as int],
                ]) + remove_kb(s@.skip(i + 1)));
            }
            out.append(piece);
            i = i + 1;
        }
    }
    proof {
        assert(remove_kb(s@.skip(n as int)) =~= Seq::<char>::empty());
        assert(out@ + Seq::<char>::empty() =~= out@);
    }
    out
}

// ---------------------------------------------------------------------------
// The snapshot and its errors
// ---------------------------------------------------------------------------

/// The memory counters from the memory-info source, each in kilobytes.
#[derive(PartialEq, Eq, Structural, Clone, Copy, Debug)]
pub struct Memory {
    pub inactive_anonymous: u64,
    pub active_anonymous: u64,
    pub inactive_file: u64,
    pub active_file: u64,
    pub unevictable: u64,
    pub swap_cached: u64,
    pub swap_total: u64,
    pub swap_free: u64,
    pub available: u64,
    pub inactive: u64,
    pub m_locked: u64,
    pub buffers: u64,
    pub cached: u64,
    pub active: u64,
    pub dirty: u64,
    pub total: u64,
    pub free: u64,
}

impl Memory {
    /// Returns the difference of the total memory and the free memory.
    pub fn used(&self) -> (r: u64)
        requires
            self.free <= self.total,
        ensures
            r == self.total - self.free,
    {
        self.total - self.free
    }
}

/// How a probe of the memory-info source can fail.
#[derive(PartialEq, Eq, Clone, Debug)]
pub enum Error {
    /// The source could not be read; the payload reports the failure.
    Io(String),
    /// A value carries no `kB` unit marker; the payload is the line.
    InvalidFormat(String),
    /// A required label is absent; the payload names it.
    MissingField(String),
    /// A value is not an unsigned number; the payload is the numeric text.
    ParseInt(String),
    /// A line has no colon; the payload is the line.
    MissingColon(String),
    /// A value is blank; the payload is the blank value or its line.
    ValueEmpty(String),
    /// A label is blank; the payload is the blank label.
    KeyEmpty(String),
}

// ---------------------------------------------------------------------------
// What one line means
// ---------------------------------------------------------------------------

/// The verdict on one line of the memory-info source.
pub enum LineOutcome {
    MissingColon(Seq<char>),
    KeyEmpty(Seq<char>),
    ValueEmpty(Seq<char>),
    InvalidFormat(Seq<char>),
    ParseInt(Seq<char>),
    Entry(Seq<char>, u64),
}

/// What one line means: it must carry a colon, a non-blank label, a non-blank
/// value bearing the `kB` marker, and digits once the marker is stripped.
pub open spec fn line_outcome(l: Seq<char>) -> LineOutcome {
    if !text::contains_char(l, ':') {
        LineOutcome::MissingColon(l)
    } else {
        let key = text::line_key(l);
        let val = text::line_value(l);
        if key.len() == 0 {
            LineOutcome::KeyEmpty(key)
        } else if val.len() == 0 {
            LineOutcome::ValueEmpty(val)
        } else if !contains_kb(val) {
            LineOutcome::InvalidFormat(l)
        } else {
            let num = text::trim_spec(remove_kb(val));
            if num.len() == 0 {
                LineOutcome::ValueEmpty(l)
            } else {
                match text::spec_parse_u64(num) {
                    Some(v) => LineOutcome::Entry(key, v),
                    None => LineOutcome::ParseInt(num),
                }
            }
        }
    }
}

/// Scans the lines in order, building the label-to-value entries; the first
/// failing line decides the error.
pub open spec fn scan_from(
    ls: Seq<Seq<char>>,
    acc: Seq<(Seq<char>, u64)>,
) -> Result<Seq<(Seq<char>, u64)>, LineOutcome>
    decreases ls.len(),
{
    if ls.len() == 0 {
        Ok(acc)
    } else {
        match line_outcome(ls[0]) {
            LineOutcome::Entry(k, v) => scan_from(ls.skip(1), acc.push((k, v))),
            e => Err(e),
        }
    }
}

pub open spec fn scan_lines(ls: Seq<Seq<char>>) -> Result<Seq<(Seq<char>, u64)>, LineOutcome> {
    scan_from(ls, Seq::empty())
}

/// The value under a label, the latest line winning, as a mapping built by
/// insertion would have it.
pub open spec fn lookup(ps: Seq<(Seq<char>, u64)>, key: Seq<char>) -> Option<u64>
    decreases ps.len(),
{
    if ps.len() == 0 {
        None
    } else if ps.last().0 == key {
        Some(ps.last().1)
    } else {
        lookup(ps.drop_last(), key)
    }
}

/// The seventeen required labels, in the order they are demanded.
pub open spec fn needed_labels() -> Seq<Seq<char>> {
    seq![
        "Inactive(anon)"@,
        "Active(anon)"@,
        "Inactive(file)"@,
        "Active(file)"@,
        "Unevictable"@,
        "SwapCached"@,
        "SwapTotal"@,
        "SwapFree"@,
        "MemAvailable"@,
        "Inactive"@,
        "Mlocked"@,
        "Buffers"@,
        "Cached"@,
        "Active"@,
        "Dirty"@,
        "MemTotal"@,
        "MemFree"@,
    ]
}

/// What a probe of the memory-info source returns for given content: every
/// line must scan into an entry, the first failing line deciding the error;
/// then each of the seventeen required labels is looked up in order, the
/// first absent one deciding a `MissingField`; with all present the snapshot
/// carries their values.
pub open spec fn memory_post(content: Seq<char>, r: Result<Memory, Error>) -> bool {
    let scan = scan_lines(text::lines(content));
    match r {
        Ok(m) => {
            &&& scan is Ok
            &&& {
                let ps = scan->Ok_0;
                &&& lookup(ps, "Inactive(anon)"@) == Some(m.inactive_anonymous)
                &&& lookup(ps, "Active(anon)"@) == Some(m.active_anonymous)
                &&& lookup(ps, "Inactive(file)"@) == Some(m.inactive_file)
                &&& lookup(ps, "Active(file)"@) == Some(m.active_file)
                &&& lookup(ps, "Unevictable"@) == Some(m.unevictable)
                &&& lookup(ps, "SwapCached"@) == Some(m.swap_cached)
                &&& lookup(ps, "SwapTotal"@) == Some(m.swap_total)
                &&& lookup(ps, "SwapFree"@) == Some(m.swap_free)
                &&& lookup(ps, "MemAvailable"@) == Some(m.available)
                &&& lookup(ps, "Inactive"@) == Some(m.inactive)
                &&& lookup(ps, "Mlocked"@) == Some(m.m_locked)
                &&& lookup(ps, "Buffers"@) == Some(m.buffers)
                &&& lookup(ps, "Cached"@) == Some(m.cached)
                &&& lookup(ps, "Active"@) == Some(m.active)
                &&& lookup(ps, "Dirty"@) == Some(m.dirty)
                &&& lookup(ps, "MemTotal"@) == Some(m.total)
                &&& lookup(ps, "MemFree"@) == Some(m.free)
            }
        },
        Err(Error::MissingColon(t)) => scan == Err::<Seq<(Seq<char>, u64)>, LineOutcome>(
            LineOutcome::MissingColon(t@),
        ),
        Err(Error::KeyEmpty(t)) => scan == Err::<Seq<(Seq<char>, u64)>, LineOutcome>(
            LineOutcome::KeyEmpty(t@),
        ),
        Err(Error::ValueEmpty(t)) => scan == Err::<Seq<(Seq<char>, u64)>, LineOutcome>(
            LineOutcome::ValueEmpty(t@),
        ),
        Err(Error::InvalidFormat(t)) => scan == Err::<Seq<(Seq<char>, u64)>, LineOutcome>(
            LineOutcome::InvalidFormat(t@),
        ),
        Err(Error::ParseInt(t)) => scan == Err::<Seq<(Seq<char>, u64)>, LineOutcome>(
            LineOutcome::ParseInt(t@),
        ),
        Err(Error::MissingField(t)) => {
            &&& scan is Ok
            &&& exists|i: int|
                {
                    &&& 0 <= i < needed_labels().len()
                    &&& lookup(scan->Ok_0, #[trigger] needed_labels()[i]) is None
                    &&& t@ == needed_labels()[i]
                    &&& forall|j: int|
                        0 <= j < i ==> lookup(scan->Ok_0, #[trigger] needed_labels()[j]) is Some
                }
        },
        Err(Error::Io(_)) => false,
    }
}

// ---------------------------------------------------------------------------
// The probe
// ---------------------------------------------------------------------------

/// Reads one line into its label and value, or into the error its shape
/// demands.
#[verifier::loop_isolation(false)]
fn line_entry(l: &String) -> (r: Result<(String, u64), Error>)
    ensures
        match r {
            Ok(p) => line_outcome(l@) == LineOutcome::Entry(p.0@, p.1),
            Err(Error::MissingColon(t)) => line_outcome(l@) == LineOutcome::MissingColon(t@),
            Err(Error::KeyEmpty(t)) => line_outcome(l@) == LineOutcome::KeyEmpty(t@),
            Err(Error::ValueEmpty(t)) => line_outcome(l@) == LineOutcome::ValueEmpty(t@),
            Err(Error::InvalidFormat(t)) => line_outcome(l@) == LineOutcome::InvalidFormat(t@),
            Err(Error::ParseInt(t)) => line_outcome(l@) == LineOutcome::ParseInt(t@),
            _ => false,
        },
{
    let s = l.as_str();
    let n = s.unicode_len();
    let c = text::find_char(s, ':');
    if c == n {
        return Err(Error::MissingColon(l.clone()));
    }
    let key = text::trim(s.substring_char(0, c));
    proof {
        assert(s@.subrange(0, c as int) =~= s@.take(c as int));
        assert(key@ == text::line_key(l@));
    }
    let rest = s.substring_char(c + 1, n);
    proof {
        assert(rest@ =~= s@.skip(c + 1));
    }
    let c2 = text::find_char(rest, ':');
    let vraw = rest.substring_char(0, c2);
    proof {
        assert(vraw@ =~= rest@.take(c2 as int));
    }
    let val = text::trim(vraw);
    proof {
        assert(val@ == text::line_value(l@));
    }
    if key.unicode_len() == 0 {
        return Err(Error::KeyEmpty(String::from_str(key)));
    }
    if val.unicode_len() == 0 {
        return Err(Error::ValueEmpty(String::from_str(val)));
    }
    if !find_kb(val) {
        return Err(Error::InvalidFormat(l.clone()));
    }
    let stripped = strip_kb(val);
    let num = text::trim(stripped.as_str());
    if num.unicode_len() == 0 {
        return Err(Error::ValueEmpty(l.clone()));
    }
    match text::parse_u64(num) {
        Some(v) => Ok((String::from_str(key), v)),
        None => Err(Error::ParseInt(String::from_str(num))),
    }
}

/// Finds the value under a label, the latest entry winning.
fn lookup_last(ps: &Vec<(String, u64)>, key: &str) -> (r: Option<u64>)
    ensures
        r == lookup(ps.deep_view(), key@),
{
    let mut i: usize = ps.len();
    proof {
        assert(ps.deep_view().len() == ps@.len());
        assert(ps.deep_view().take(ps@.len() as int) =~= ps.deep_view());
    }
    while i > 0
        invariant
            0 <= i <= ps@.len(),
            lookup(ps.deep_view(), key@) == lookup(ps.deep_view().take(i as int), key@),
        decreases i,
    {
        proof {
            assert(ps.deep_view().take(i as int).last() == ps.deep_view()[i - 1]);
            assert(ps.deep_view()[i - 1] == (ps@[i - 1].0@, ps@[i - 1].1));
            assert(ps.deep_view().take(i as int).drop_last() =~= ps.deep_view().take(i - 1));
        }
        if text::str_eq(ps[i - 1].0.as_str(), key) {
            return Some(ps[i - 1].1);
        }
        i = i - 1;
    }
    proof {
        assert(ps.deep_view().take(0) =~= Seq::<(Seq<char>, u64)>::empty());
    }
    None
}

impl Memory {
    /// Reads a memory snapshot out of the raw content of the memory-info
    /// source.
    #[verifier::loop_isolation(false)]
    pub fn parse(content: &str) -> (r: Result<Memory, Error>)
        ensures
            memory_post(content@, r),
    {
        let ls = text::split_lines(content);
        let ghost lsv = text::lines(content@);
        let mut pairs: Vec<(String, u64)> = Vec::new();
        let mut i: usize = 0;
        proof {
            assert(lsv.skip(0) =~= lsv);
            assert(pairs.deep_view() =~= Seq::<(Seq<char>, u64)>::empty());
        }
        while i < ls.len()
            invariant
                0 <= i <= ls@.len(),
                scan_lines(lsv) == scan_from(lsv.skip(i as int), pairs.deep_view()),
            decreases ls@.len() - i,
        {
            let ghost prev = pairs.deep_view();
            proof {
                assert(ls.deep_view()[i as int] == ls@[i as int]@);
                assert(lsv.skip(i as int)[0] == lsv[i as int]);
                assert(lsv.skip(i as int).skip(1) =~= lsv.skip(i + 1));
            }
            match line_entry(&ls[i]) {
                Ok(p) => {
                    pairs.push(p);
                    proof {
                        assert(pairs.deep_view() =~= prev.push((pairs@[prev.len() as int].0@,
                        pairs@[prev.len() as int].1)));
                    }
                },
                Err(e) => {
                    return Err(e);
                },
            }
            i = i + 1;
        }
        proof {
            assert(lsv.skip(ls@.len() as int) =~= Seq::<Seq<char>>::empty());
        }
        let inactive_anonymous = match lookup_last(&pairs, "Inactive(anon)") {
            Some(v) => v,
            None => {
                return Err(Error::MissingField(String::from_str("Inactive(anon)")));
            },
        };
        let active_anonymous = match lookup_last(&pairs, "Active(anon)") {
            Some(v) => v,
            None => {
                return Err(Error::MissingField(String::from_str("Active(anon)")));
            },
        };
        let inactive_file = match lookup_last(&pairs, "Inactive(file)") {
            Some(v) => v,
            None => {
                return Err(Error::MissingField(String::from_str("Inactive(file)")));
            },
        };
        let active_file = match lookup_last(&pairs, "Active(file)") {
            Some(v) => v,
            None => {
                return Err(Error::MissingField(String::from_str("Active(file)")));
            },
        };
        let unevictable = match lookup_last(&pairs, "Unevictable") {
            Some(v) => v,
            None => {
                return Err(Error::MissingField(String::from_str("Unevictable")));
            },
        };
        let swap_cached = match lookup_last(&pairs, "SwapCached") {
            Some(v) => v,
            None => {
                return Err(Error::MissingField(String::from_str("SwapCached")));
            },
        };
        let swap_total = match lookup_last(&pairs, "SwapTotal") {
            Some(v) => v,
            None => {
                return Err(Error::MissingField(String::from_str("SwapTotal")));
            },
        };
        let swap_free = match lookup_last(&pairs, "SwapFree") {
            Some(v) => v,
            None => {
                return Err(Error::MissingField(String::from_str("SwapFree")));
            },
        };
        let available = match lookup_last(&pairs, "MemAvailable") {
            Some(v) => v,
            None => {
                return Err(Error::MissingField(String::from_str("MemAvailable")));
            },
        };
        let inactive = match lookup_last(&pairs, "Inactive") {
            Some(v) => v,
            None => {
                return Err(Error::MissingField(String::from_str("Inactive")));
            },
        };
        let m_locked = match lookup_last(&pairs, "Mlocked") {
            Some(v) => v,
            None => {
                return Err(Error::MissingField(String::from_str("Mlocked")));
            },
        };
        let buffers = match lookup_last(&pairs, "Buffers") {
            Some(v) => v,
            None => {
                return Err(Error::MissingField(String::from_str("Buffers")));
            },
        };
        let cached = match lookup_last(&pairs, "Cached") {
            Some(v) => v,
            None => {
                return Err(Error::MissingField(String::from_str("Cached")));
            },
        };
        let active = match lookup_last(&pairs, "Active") {
            Some(v) => v,
            None => {
                return Err(Error::MissingField(String::from_str("Active")));
            },
        };
        let dirty = match lookup_last(&pairs, "Dirty") {
            Some(v) => v,
            None => {
                return Err(Error::MissingField(String::from_str("Dirty")));
            },
        };
        let total = match lookup_last(&pairs, "MemTotal") {
            Some(v) => v,
            None => {
                return Err(Error::MissingField(String::from_str("MemTotal")));
            },
        };
        let free = match lookup_last(&pairs, "MemFree") {
            Some(v) => v,
            None => {
                return Err(Error::MissingField(String::from_str("MemFree")));
            },
        };
        Ok(
            Memory {
                inactive_anonymous,
                active_anonymous,
                inactive_file,
                active_file,
                unevictable,
                swap_cached,
                swap_total,
                swap_free,
                available,
                inactive,
                m_locked,
                buffers,
                cached,
                active,
                dirty,
                total,
                free,
            },
        )
    }
}

impl Memory {
    /// What a whole probe returns once the read of the memory-info source
    /// has ended as given: a failed read is an `Io` with the read's own
    /// report, and a successful one hands its content to `parse`.
    pub fn probe_read(read: Result<String, String>) -> (r: Result<Memory, Error>)
        ensures
            match read {
                Err(m) => r matches Err(Error::Io(mm)) && mm@ == m@,
                Ok(c) => memory_post(c@, r),
            },
    {
        match read {
            Err(m) => Err(Error::Io(m)),
            Ok(c) => Memory::parse(c.as_str()),
        }
    }
}

/// Probing an unchanged memory-info source twice is idempotent: the same
/// content cannot yield two different snapshots or two different kinds of
/// error.
pub proof fn lemma_memory_probe_idempotent(
    content: Seq<char>,
    r1: Result<Memory, Error>,
    r2: Result<Memory, Error>,
)
    requires
        memory_post(content, r1),
        memory_post(content, r2),
    ensures
        r1 is Ok <==> r2 is Ok,
        r1 is Ok ==> r1 == r2,
{
    if r1 is Ok && r2 is Ok {
        assert(r1->Ok_0 == r2->Ok_0);
    }
}

} // verus!
