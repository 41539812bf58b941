//! The CPU collectors: usage counters from the per-CPU accounting file,
//! per-core temperatures from a sensor directory, the processor description,
//! and the aggregate snapshot.

use vstd::prelude::*;

use crate::scan::{ScanFile, content_of, file_index, has_file, find_file};
use crate::text;

verus! {

// ---------------------------------------------------------------------------
// Usage
// ---------------------------------------------------------------------------

/// Cpu usage counters from the first line of the per-CPU accounting file:
/// the time spent in each category of work, in the order the line gives them.
#[derive(PartialEq, Eq, Structural, Clone, Copy, Debug)]
pub struct Usage {
    pub guest_nice: u64,
    pub softirq: u64,
    pub system: u64,
    pub iowait: u64,
    pub steal: u64,
    pub guest: u64,
    pub idle: u64,
    pub user: u64,
    pub nice: u64,
    pub irq: u64,
}

/// How a probe of the usage source can fail.
#[derive(PartialEq, Eq, Clone, Debug)]
pub enum UsageError {
    /// The line had readable columns, but not ten of them.
    InvalidCpuLine,
    /// The source could not be read; the payload reports the failure.
    Io(String),
    /// A column is not an unsigned number; the payload is the column.
    ParseInt(String),
    /// The first line does not begin with the accounting tag.
    CpuMissing,
}

/// What a probe of the usage source returns for given content: the first
/// line must carry the three-character tag `cpu`; the rest of the line is
/// read as columns, left to right, the first unreadable column a `ParseInt`;
/// ten readable columns are the snapshot, any other count an
/// `InvalidCpuLine`.
pub open spec fn usage_post(content: Seq<char>, r: Result<Usage, UsageError>) -> bool {
    let line = text::first_line(content);
    let toks = text::tokens(line.skip(3));
    match r {
        Ok(u) => {
            &&& "cpu"@.is_prefix_of(line)
            &&& toks.len() == 10
            &&& text::spec_parse_u64(toks[0]) == Some(u.user)
            &&& text::spec_parse_u64(toks[1]) == Some(u.nice)
            &&& text::spec_parse_u64(toks[2]) == Some(u.system)
            &&& text::spec_parse_u64(toks[3]) == Some(u.idle)
            &&& text::spec_parse_u64(toks[4]) == Some(u.iowait)
            &&& text::spec_parse_u64(toks[5]) == Some(u.irq)
            &&& text::spec_parse_u64(toks[6]) == Some(u.softirq)
            &&& text::spec_parse_u64(toks[7]) == Some(u.steal)
            &&& text::spec_parse_u64(toks[8]) == Some(u.guest)
            &&& text::spec_parse_u64(toks[9]) == Some(u.guest_nice)
        },
        Err(UsageError::CpuMissing) => !"cpu"@.is_prefix_of(line),
        Err(UsageError::ParseInt(t)) => {
            &&& "cpu"@.is_prefix_of(line)
            &&& exists|i: int|
                {
                    &&& 0 <= i < toks.len()
                    &&& text::spec_parse_u64(#[trigger] toks[i]) is None
                    &&& t@ == toks[i]
                    &&& forall|j: int| 0 <= j < i ==> text::spec_parse_u64(#[trigger] toks[j]) is Some
                }
        },
        Err(UsageError::InvalidCpuLine) => {
            &&& "cpu"@.is_prefix_of(line)
            &&& toks.len() != 10
            &&& forall|i: int| 0 <= i < toks.len() ==> text::spec_parse_u64(#[trigger] toks[i]) is Some
        },
        Err(UsageError::Io(_)) => false,
    }
}

impl Usage {
    /// Reads a usage snapshot out of the raw content of the usage source.
    #[verifier::loop_isolation(false)]
    pub fn parse(content: &str) -> (r: Result<Usage, UsageError>)
        ensures
            usage_post(content@, r),
    {
        let line = text::take_first_line(content);
        proof {
            reveal_strlit("cpu");
        }
        if !text::starts_with(line, "cpu") {
            return Err(UsageError::CpuMissing);
        }
        let rest = line.substring_char(3, line.unicode_len());
        proof {
            assert(rest@ =~= text::first_line(content@).skip(3));
        }
        let toks = text::split_tokens(rest);
        let ghost tseq = text::tokens(text::first_line(content@).skip(3));
        let mut vals: Vec<u64> = Vec::new();
        let mut i: usize = 0;
        while i < toks.len()
            invariant
                0 <= i <= toks.len(),
                vals@.len() == i,
                forall|j: int|
                    0 <= j < i ==> text::spec_parse_u64(#[trigger] tseq[j]) == Some(vals@[j]),
            decreases toks.len() - i,
        {
            proof {
                assert(toks.deep_view()[i as int] == toks@[i as int]@);
            }
            match text::parse_u64(toks[i].as_str()) {
                Some(v) => {
                    vals.push(v);
                },
                None => {
                    return Err(UsageError::ParseInt(toks[i].clone()));
                },
            }
            i = i + 1;
        }
        if vals.len() != 10 {
            return Err(UsageError::InvalidCpuLine);
        }
        Ok(
            Usage {
                user: vals[0],
                nice: vals[1],
                system: vals[2],
                idle: vals[3],
                iowait: vals[4],
                irq: vals[5],
                softirq: vals[6],
                steal: vals[7],
                guest: vals[8],
                guest_nice: vals[9],
            },
        )
    }
}

impl Usage {
    /// What a whole probe returns once the read of the usage source has
    /// ended as given: a failed read is an `Io` with the read's own report,
    /// and a successful one hands its content to `parse`.
    pub fn probe_read(read: Result<String, String>) -> (r: Result<Usage, UsageError>)
        ensures
            match read {
                Err(m) => r matches Err(UsageError::Io(mm)) && mm@ == m@,
                Ok(c) => usage_post(c@, r),
            },
    {
        match read {
            Err(m) => Err(UsageError::Io(m)),
            Ok(c) => Usage::parse(c.as_str()),
        }
    }
}

// ---------------------------------------------------------------------------
// Cores
// ---------------------------------------------------------------------------

/// One core temperature sensor: its highest and critical thresholds, its
/// current reading, and the core's own number from its label.
#[derive(PartialEq, Eq, Structural, Clone, Copy, Debug)]
pub struct Core {
    pub max_temp: u64,
    pub count: u64,
    pub temp: u64,
    pub crit: u64,
}

/// The per-core temperature collector.
pub struct Cores;

/// How a probe of the sensor directory can fail.
#[derive(PartialEq, Eq, Clone, Debug)]
pub enum CoreError {
    /// The directory or a sensor file could not be read; the payload reports
    /// the failure.
    Io(String),
    /// A numeric sensor field or a label's number is malformed; the payload
    /// is the text found.
    ParseInt(String),
    /// A label beginning with `Core` goes on with no core number; the
    /// payload is the raw label.
    InvalidLabel(String),
}

/// The name of one sensor file: `temp<N>_<suffix>`, with `N` rendered
/// canonically.
pub open spec fn sensor_file_name(x: nat, sfx: Seq<char>) -> Seq<char> {
    "temp"@ + text::dec_digits(x) + "_"@ + sfx
}

/// Whether all five files of sensor group `x` were seen.
pub open spec fn has_group(fs: Seq<ScanFile>, x: nat) -> bool {
    &&& has_file(fs, sensor_file_name(x, "crit_alarm"@))
    &&& has_file(fs, sensor_file_name(x, "input"@))
    &&& has_file(fs, sensor_file_name(x, "label"@))
    &&& has_file(fs, sensor_file_name(x, "crit"@))
    &&& has_file(fs, sensor_file_name(x, "max"@))
}

/// Whether a run of group numbers is strictly ascending.
pub open spec fn strictly_increasing(xs: Seq<u64>) -> bool {
    forall|i: int, j: int| 0 <= i < j < xs.len() ==> xs[i] < xs[j]
}

/// Whether `xs` lists, in ascending order, exactly the group numbers whose
/// five files were all seen.
pub open spec fn lists_groups(fs: Seq<ScanFile>, xs: Seq<u64>) -> bool {
    &&& strictly_increasing(xs)
    &&& forall|x: u64| #[trigger] xs.contains(x) <==> has_group(fs, x as nat)
}

/// The verdict on one numeric sensor file.
pub enum SensorOutcome {
    /// The file could not be read; the payload reports the failure.
    Unreadable(Seq<char>),
    /// The trimmed content is not an unsigned number; the payload is that
    /// content.
    Bad(Seq<char>),
    /// The sensor's value.
    Val(u64),
}

/// What one numeric sensor file of group `x` holds.
pub open spec fn sensor_value(fs: Seq<ScanFile>, x: nat, sfx: Seq<char>) -> SensorOutcome {
    let f = fs[file_index(fs, sensor_file_name(x, sfx)) as int];
    match content_of(f) {
        Err(m) => SensorOutcome::Unreadable(m),
        Ok(c) => {
            let t = text::trim_spec(c);
            match text::spec_parse_u64(t) {
                Some(v) => SensorOutcome::Val(v),
                None => SensorOutcome::Bad(t),
            }
        },
    }
}

/// What the label file of group `x` holds, raw.
pub open spec fn sensor_label(fs: Seq<ScanFile>, x: nat) -> Result<Seq<char>, Seq<char>> {
    content_of(fs[file_index(fs, sensor_file_name(x, "label"@)) as int])
}

/// How the reading of a whole group can fail.
pub enum GroupErr {
    Unreadable(Seq<char>),
    Bad(Seq<char>),
}

/// One sensor group read whole, in the order the reads happen: the alarm
/// flag, the reading, the raw label, the critical threshold, the highest
/// threshold.
pub open spec fn group_result(fs: Seq<ScanFile>, x: nat) -> Result<
    (u64, u64, Seq<char>, u64, u64),
    GroupErr,
> {
    match sensor_value(fs, x, "crit_alarm"@) {
        SensorOutcome::Unreadable(m) => Err(GroupErr::Unreadable(m)),
        SensorOutcome::Bad(t) => Err(GroupErr::Bad(t)),
        SensorOutcome::Val(ca) => match sensor_value(fs, x, "input"@) {
            SensorOutcome::Unreadable(m) => Err(GroupErr::Unreadable(m)),
            SensorOutcome::Bad(t) => Err(GroupErr::Bad(t)),
            SensorOutcome::Val(inp) => match sensor_label(fs, x) {
                Err(m) => Err(GroupErr::Unreadable(m)),
                Ok(lbl) => match sensor_value(fs, x, "crit"@) {
                    SensorOutcome::Unreadable(m) => Err(GroupErr::Unreadable(m)),
                    SensorOutcome::Bad(t) => Err(GroupErr::Bad(t)),
                    SensorOutcome::Val(cr) => match sensor_value(fs, x, "max"@) {
                        SensorOutcome::Unreadable(m) => Err(GroupErr::Unreadable(m)),
                        SensorOutcome::Bad(t) => Err(GroupErr::Bad(t)),
                        SensorOutcome::Val(mx) => Ok((ca, inp, lbl, cr, mx)),
                    },
                },
            },
        },
    }
}

/// The groups with the given numbers read whole, in the given order; the
/// first failing read decides.
pub open spec fn groups_at(fs: Seq<ScanFile>, xs: Seq<u64>) -> Result<
    Seq<(u64, u64, Seq<char>, u64, u64)>,
    GroupErr,
>
    decreases xs.len(),
{
    if xs.len() == 0 {
        Ok(Seq::empty())
    } else {
        match groups_at(fs, xs.drop_last()) {
            Err(e) => Err(e),
            Ok(s) => match group_result(fs, xs.last() as nat) {
                Ok(g) => Ok(s.push(g)),
                Err(e) => Err(e),
            },
        }
    }
}

/// How the second pass over the labels can fail.
pub enum LabelErr {
    InvalidLabel(Seq<char>),
    ParseInt(Seq<char>),
}

/// Turns the groups whose raw label begins with `Core` into cores, in order:
/// the trimmed label must go on after its first five characters with the
/// core's number.
pub open spec fn cores_from(
    gs: Seq<(u64, u64, Seq<char>, u64, u64)>,
    acc: Seq<Core>,
) -> Result<Seq<Core>, LabelErr>
    decreases gs.len(),
{
    if gs.len() == 0 {
        Ok(acc)
    } else {
        let g = gs[0];
        if !"Core"@.is_prefix_of(g.2) {
            cores_from(gs.skip(1), acc)
        } else {
            let tl = text::trim_spec(g.2);
            if tl.len() < 5 {
                Err(LabelErr::InvalidLabel(g.2))
            } else {
                let numt = text::trim_spec(tl.skip(5));
                match text::spec_parse_u64(numt) {
                    Some(c) => cores_from(
                        gs.skip(1),
                        acc.push(Core { max_temp: g.4, count: c, temp: g.1, crit: g.3 }),
                    ),
                    None => Err(LabelErr::ParseInt(numt)),
                }
            }
        }
    }
}

/// What a probe of the sensor directory returns for a given scan: every
/// whole sensor group found is read, in ascending group number, the first
/// failing read deciding; then the groups labelled `Core` become the cores,
/// in the same order, the first bad label deciding.
pub open spec fn cores_post(fs: Seq<ScanFile>, r: Result<Vec<Core>, CoreError>) -> bool {
    match r {
        Ok(v) => exists|xs: Seq<u64>|
            {
                &&& #[trigger] lists_groups(fs, xs)
                &&& groups_at(fs, xs) matches Ok(gs)
                &&& cores_from(gs, Seq::empty()) == Ok::<Seq<Core>, LabelErr>(v@)
            },
        Err(CoreError::Io(m)) => exists|xs: Seq<u64>|
            {
                &&& #[trigger] lists_groups(fs, xs)
                &&& groups_at(fs, xs) == Err::<Seq<(u64, u64, Seq<char>, u64, u64)>, GroupErr>(
                    GroupErr::Unreadable(m@),
                )
            },
        Err(CoreError::InvalidLabel(l)) => exists|xs: Seq<u64>|
            {
                &&& #[trigger] lists_groups(fs, xs)
                &&& groups_at(fs, xs) matches Ok(gs)
                &&& cores_from(gs, Seq::empty()) == Err::<Seq<Core>, LabelErr>(
                    LabelErr::InvalidLabel(l@),
                )
            },
        Err(CoreError::ParseInt(t)) => exists|xs: Seq<u64>|
            {
                &&& #[trigger] lists_groups(fs, xs)
                &&& {
                    ||| groups_at(fs, xs) == Err::<Seq<(u64, u64, Seq<char>, u64, u64)>, GroupErr>(
                        GroupErr::Bad(t@),
                    )
                    ||| {
                        &&& groups_at(fs, xs) matches Ok(gs)
                        &&& cores_from(gs, Seq::empty()) == Err::<Seq<Core>, LabelErr>(
                            LabelErr::ParseInt(t@),
                        )
                    }
                }
            },
    }
}

/// The shape of an alarm file's name: a name equal to
/// `temp<N>_crit_alarm` carries the `temp` tag, the `_crit_alarm` tail, and
/// between them the canonical digits of `N` and nothing else.
proof fn lemma_alarm_name_shape(s: Seq<char>, x: u64)
    requires
        s == sensor_file_name(x as nat, "crit_alarm"@),
    ensures
        s.len() >= 16,
        "temp"@.is_prefix_of(s),
        s.subrange(s.len() - 11, s.len() as int) == "_crit_alarm"@,
        s.subrange(4, s.len() - 11) == text::dec_digits(x as nat),
        text::all_digits(s.subrange(4, s.len() - 11)),
        s.len() == 16 || s[4] != '0',
        text::dec_value(s.subrange(4, s.len() - 11)) == x,
{
    reveal_strlit("temp");
    reveal_strlit("_");
    reveal_strlit("crit_alarm");
    reveal_strlit("_crit_alarm");
    text::lemma_dec_digits_value(x as nat);
    text::lemma_dec_digits_canonical(x as nat);
    let dd = text::dec_digits(x as nat);
    assert(s.len() == 4 + dd.len() + 1 + 10);
    assert("temp"@.is_prefix_of(s)) by {
        assert("temp"@ =~= s.subrange(0, 4));
    }
    assert(s.subrange(4, s.len() - 11) =~= dd);
    assert(s.subrange(s.len() - 11, s.len() as int) =~= "_crit_alarm"@);
    if dd.len() > 1 {
        assert(s[4] == dd[0]);
    }
}

/// Filtering keeps a run of group numbers ascending.
proof fn lemma_filter_increasing(xs: Seq<u64>, pred: spec_fn(u64) -> bool)
    requires
        strictly_increasing(xs),
    ensures
        strictly_increasing(xs.filter(pred)),
    decreases xs.len(),
{
    reveal(Seq::filter);
    if xs.len() > 0 {
        let dl = xs.drop_last();
        assert(strictly_increasing(dl)) by {
            assert(forall|i: int| 0 <= i < dl.len() ==> dl[i] == #[trigger] xs[i]);
        }
        lemma_filter_increasing(dl, pred);
        if pred(xs.last()) {
            let f = xs.filter(pred);
            assert forall|i: int, j: int| 0 <= i < j < f.len() implies f[i] < f[j] by {
                if j == f.len() - 1 {
                    assert(f[i] == dl.filter(pred)[i]);
                    assert(dl.filter(pred).contains(f[i]));
                    dl.lemma_filter_contains_rev(pred, f[i]);
                    let k = choose|k: int| 0 <= k < dl.len() && dl[k] == f[i];
                    assert(xs[k] == f[i] && xs[k] < xs.last());
                }
            }
        }
    }
}

/// Once reading the listed groups has failed, listing more groups after them
/// changes nothing: the first failure decides.
proof fn lemma_groups_at_err_extends(fs: Seq<ScanFile>, xs: Seq<u64>, m: int)
    requires
        0 <= m <= xs.len(),
        groups_at(fs, xs.take(m)) is Err,
    ensures
        groups_at(fs, xs) == groups_at(fs, xs.take(m)),
    decreases xs.len() - m,
{
    if m == xs.len() {
        assert(xs.take(m) =~= xs);
    } else {
        assert(xs.take(m + 1).drop_last() =~= xs.take(m));
        lemma_groups_at_err_extends(fs, xs, m + 1);
    }
}

/// An ascending run is pinned by what it holds: two ascending runs with the
/// same members are the same run.
proof fn lemma_increasing_unique(a: Seq<u64>, b: Seq<u64>)
    requires
        strictly_increasing(a),
        strictly_increasing(b),
        forall|x: u64| a.contains(x) <==> #[trigger] b.contains(x),
    ensures
        a == b,
    decreases a.len(),
{
    if a.len() == 0 {
        if b.len() > 0 {
            assert(b.contains(b[0]));
            assert(a.contains(b[0]));
        }
        assert(a =~= b);
    } else if b.len() == 0 {
        assert(a.contains(a[0]));
        assert(b.contains(a[0]));
    } else {
        assert(a.contains(a.last()) && b.contains(b.last()));
        assert(a.contains(b.last()) && b.contains(a.last()));
        let i = choose|i: int| 0 <= i < a.len() && a[i] == b.last();
        let j = choose|j: int| 0 <= j < b.len() && b[j] == a.last();
        assert(a[i] <= a.last() && b[j] <= b.last());
        assert(a.last() == b.last());
        let da = a.drop_last();
        let db = b.drop_last();
        assert(strictly_increasing(da) && strictly_increasing(db)) by {
            assert(forall|k: int| 0 <= k < da.len() ==> da[k] == #[trigger] a[k]);
            assert(forall|k: int| 0 <= k < db.len() ==> db[k] == #[trigger] b[k]);
        }
        assert forall|x: u64| da.contains(x) <==> #[trigger] db.contains(x) by {
            assert(da.contains(x) <==> (a.contains(x) && x != a.last())) by {
                if da.contains(x) {
                    let k = choose|k: int| 0 <= k < da.len() && da[k] == x;
                    assert(a[k] == x && a[k] < a.last());
                }
                if a.contains(x) && x != a.last() {
                    let k = choose|k: int| 0 <= k < a.len() && a[k] == x;
                    assert(da[k] == x);
                }
            }
            assert(db.contains(x) <==> (b.contains(x) && x != b.last())) by {
                if db.contains(x) {
                    let k = choose|k: int| 0 <= k < db.len() && db[k] == x;
                    assert(b[k] == x && b[k] < b.last());
                }
                if b.contains(x) && x != b.last() {
                    let k = choose|k: int| 0 <= k < b.len() && b[k] == x;
                    assert(db[k] == x);
                }
            }
        }
        lemma_increasing_unique(da, db);
        assert(a.len() == b.len());
        assert forall|k: int| 0 <= k < a.len() implies a[k] == b[k] by {
            if k < a.len() - 1 {
                assert(a[k] == da[k] && b[k] == db[k]);
            }
        }
        assert(a =~= b);
    }
}

/// Builds the name of one sensor file.
fn sensor_name(x: u64, sfx: &str) -> (r: String)
    ensures
        r@ == sensor_file_name(x as nat, sfx@),
{
    let mut s = String::from_str("temp");
    text::push_u64_dec(&mut s, x);
    s.append("_");
    s.append(sfx);
    proof {
        assert(s@ =~= sensor_file_name(x as nat, sfx@));
    }
    s
}

/// Reads a file name of the shape `temp<N>_crit_alarm`, with the canonical
/// digits of `N` between the tag and the tail; any other name announces no
/// sensor group.
#[verifier::loop_isolation(false)]
fn parse_alarm_name(s: &str) -> (r: Option<u64>)
    ensures
        match r {
            Some(x) => s@ == sensor_file_name(x as nat, "crit_alarm"@),
            None => forall|x: u64| s@ != sensor_file_name(x as nat, "crit_alarm"@),
        },
{
    proof {
        reveal_strlit("temp");
        reveal_strlit("_");
        reveal_strlit("crit_alarm");
        reveal_strlit("_crit_alarm");
    }
    let n = s.unicode_len();
    if n < 16 {
        proof {
            assert forall|x: u64| s@ != sensor_file_name(x as nat, "crit_alarm"@) by {
                if s@ == sensor_file_name(x as nat, "crit_alarm"@) {
                    lemma_alarm_name_shape(s@, x);
                }
            }
        }
        return None;
    }
    if !text::starts_with(s, "temp") {
        proof {
            assert forall|x: u64| s@ != sensor_file_name(x as nat, "crit_alarm"@) by {
                if s@ == sensor_file_name(x as nat, "crit_alarm"@) {
                    lemma_alarm_name_shape(s@, x);
                }
            }
        }
        return None;
    }
    let tail = s.substring_char(n - 11, n);
    if !text::str_eq(tail, "_crit_alarm") {
        proof {
            assert forall|x: u64| s@ != sensor_file_name(x as nat, "crit_alarm"@) by {
                if s@ == sensor_file_name(x as nat, "crit_alarm"@) {
                    lemma_alarm_name_shape(s@, x);
                }
            }
        }
        return None;
    }
    let middle = s.substring_char(4, n - 11);
    let nm = middle.unicode_len();
    let mut i: usize = 0;
    while i < nm
        invariant
            0 <= i <= nm,
            forall|j: int| 0 <= j < i ==> text::is_digit(#[trigger] middle@[j]),
        decreases nm - i,
    {
        if !text::digit_char(middle.get_char(i)) {
            proof {
                assert(!text::all_digits(middle@));
                assert forall|x: u64| s@ != sensor_file_name(x as nat, "crit_alarm"@) by {
                    if s@ == sensor_file_name(x as nat, "crit_alarm"@) {
                        lemma_alarm_name_shape(s@, x);
                    }
                }
            }
            return None;
        }
        i = i + 1;
    }
    assert(text::all_digits(middle@));
    if nm > 1 && middle.get_char(0) == '0' {
        proof {
            assert forall|x: u64| s@ != sensor_file_name(x as nat, "crit_alarm"@) by {
                if s@ == sensor_file_name(x as nat, "crit_alarm"@) {
                    lemma_alarm_name_shape(s@, x);
                }
            }
        }
        return None;
    }
    match text::parse_u64(middle) {
        Some(x) => {
            proof {
                text::lemma_canonical_digits(middle@);
                assert(text::dec_digits(x as nat) == middle@);
                let rhs = "temp"@ + middle@ + "_"@ + "crit_alarm"@;
                assert(rhs.len() == s@.len());
                assert forall|k: int| 0 <= k < s@.len() implies rhs[k] == s@[k] by {
                    let n = s@.len() as int;
                    if k < 4 {
                        assert(rhs[k] == "temp"@[k]);
                        assert("temp"@ =~= s@.subrange(0, 4));
                    } else if k < n - 11 {
                        assert(rhs[k] == middle@[k - 4]);
                        assert(middle@[k - 4] == s@[k]);
                    } else if k == n - 11 {
                        assert(rhs[k] == "_"@[0]);
                        assert(s@[k] == s@.subrange(n - 11, n)[0]);
                    } else {
                        assert(rhs[k] == "crit_alarm"@[k - (n - 10)]);
                        assert(s@[k] == s@.subrange(n - 11, n)[k - (n - 11)]);
                        assert(s@.subrange(n - 11, n)[k - (n - 11)] == "_crit_alarm"@[k - (n
                            - 11)]);
                        assert("_crit_alarm"@ =~= "_"@ + "crit_alarm"@);
                    }
                }
                assert(s@ =~= rhs);
                assert(s@ == sensor_file_name(x as nat, "crit_alarm"@));
            }
            Some(x)
        },
        None => {
            proof {
                assert forall|x: u64| s@ != sensor_file_name(x as nat, "crit_alarm"@) by {
                    if s@ == sensor_file_name(x as nat, "crit_alarm"@) {
                        lemma_alarm_name_shape(s@, x);
                        text::lemma_dec_value_bound(middle@);
                    }
                }
            }
            None
        },
    }
}

/// Inserts a group number into an ascending run, keeping it ascending and
/// without doubles.
fn insert_unique(out: &mut Vec<u64>, c: u64)
    requires
        strictly_increasing(old(out)@),
    ensures
        strictly_increasing(final(out)@),
        forall|v: u64| #[trigger] final(out)@.contains(v) <==> (old(out)@.contains(v) || v == c),
{
    let ghost pre = out@;
    let mut p: usize = 0;
    while p < out.len() && out[p] < c
        invariant
            0 <= p <= out@.len(),
            out@ == pre,
            forall|j: int| 0 <= j < p ==> out@[j] < c,
        decreases out@.len() - p,
    {
        p = p + 1;
    }
    if p < out.len() && out[p] == c {
        proof {
            assert(out@.contains(c));
        }
        return;
    }
    out.insert(p, c);
    proof {
        assert(out@ =~= pre.take(p as int) + seq![c] + pre.skip(p as int));
        assert forall|i: int, j: int| 0 <= i < j < out@.len() implies out@[i] < out@[j] by {
            if j > p {
                assert(out@[j] == pre[j - 1]);
                if i < p {
                    assert(out@[i] == pre[i]);
                } else if i == p {
                    assert(p < pre.len());
                    assert(pre[p as int] > c);
                } else {
                    assert(out@[i] == pre[i - 1]);
                }
            } else if j == p {
                assert(out@[i] == pre[i]);
            }
        }
        assert forall|v: u64| #[trigger] out@.contains(v) implies (pre.contains(v) || v == c) by {
            let k = choose|k: int| 0 <= k < out@.len() && out@[k] == v;
            if k < p {
                assert(pre[k] == v);
            } else if k > p {
                assert(pre[k - 1] == v);
            }
        }
        assert forall|v: u64| (pre.contains(v) || v == c) implies #[trigger] out@.contains(v) by {
            if v == c {
                assert(out@[p as int] == c);
            } else if pre.contains(v) {
                let k = choose|k: int| 0 <= k < pre.len() && pre[k] == v;
                if k < p {
                    assert(out@[k] == v);
                } else {
                    assert(out@[k + 1] == v);
                }
            }
        }
    }
}

/// Reads one numeric sensor file, already found at position `i`.
fn read_sensor_at(
    files: &Vec<ScanFile>,
    i: usize,
    Ghost(x): Ghost<nat>,
    Ghost(sfx): Ghost<Seq<char>>,
) -> (r: Result<u64, CoreError>)
    requires
        i < files@.len(),
        i == file_index(files@, sensor_file_name(x, sfx)),
    ensures
        match r {
            Ok(v) => sensor_value(files@, x, sfx) == SensorOutcome::Val(v),
            Err(CoreError::Io(m)) => sensor_value(files@, x, sfx) == SensorOutcome::Unreadable(m@),
            Err(CoreError::ParseInt(t)) => sensor_value(files@, x, sfx) == SensorOutcome::Bad(t@),
            Err(CoreError::InvalidLabel(_)) => false,
        },
{
    match &files[i].content {
        Err(m) => Err(CoreError::Io(m.clone())),
        Ok(c) => {
            let t = text::trim(c.as_str());
            match text::parse_u64(t) {
                Some(v) => Ok(v),
                None => Err(CoreError::ParseInt(String::from_str(t))),
            }
        },
    }
}

impl Cores {
    /// Reads the per-core temperatures out of the scan of the sensor
    /// directory: every whole five-file sensor group `temp<N>_*` is read, in
    /// ascending group number, and the groups labelled `Core` become the
    /// cores.
    #[verifier::loop_isolation(false)]
    pub fn from_files(files: &Vec<ScanFile>) -> (r: Result<Vec<Core>, CoreError>)
        ensures
            cores_post(files@, r),
    {
        let ghost fs = files@;
        // every group number named by an alarm file, ascending and without
        // doubles
        let mut cands: Vec<u64> = Vec::new();
        let mut i: usize = 0;
        while i < files.len()
            invariant
                0 <= i <= fs.len(),
                strictly_increasing(cands@),
                forall|v: u64| #[trigger]
                    cands@.contains(v) <==> exists|j: int|
                        0 <= j < i && (#[trigger] fs[j]).name@ == sensor_file_name(
                            v as nat,
                            "crit_alarm"@,
                        ),
            decreases fs.len() - i,
        {
            match parse_alarm_name(files[i].name.as_str()) {
                Some(x) => {
                    let ghost before = cands@;
                    insert_unique(&mut cands, x);
                    proof {
                        assert forall|v: u64| #[trigger] cands@.contains(v) implies exists|j: int|
                            0 <= j < i + 1 && (#[trigger] fs[j]).name@ == sensor_file_name(
                                v as nat,
                                "crit_alarm"@,
                            ) by {
                            if v == x {
                                assert(fs[i as int].name@ == sensor_file_name(
                                    v as nat,
                                    "crit_alarm"@,
                                ));
                            }
                        }
                        assert forall|v: u64|
                            (exists|j: int|
                                0 <= j < i + 1 && (#[trigger] fs[j]).name@ == sensor_file_name(
                                    v as nat,
                                    "crit_alarm"@,
                                )) implies #[trigger] cands@.contains(v) by {
                            let j = choose|j: int|
                                0 <= j < i + 1 && (#[trigger] fs[j]).name@ == sensor_file_name(
                                    v as nat,
                                    "crit_alarm"@,
                                );
                            if j == i {
                                lemma_alarm_name_shape(fs[i as int].name@, v);
                                lemma_alarm_name_shape(fs[i as int].name@, x);
                                assert(v == x);
                            } else {
                                assert(before.contains(v));
                            }
                        }
                    }
                },
                None => {
                    proof {
                        assert forall|v: u64|
                            (exists|j: int|
                                0 <= j < i + 1 && (#[trigger] fs[j]).name@ == sensor_file_name(
                                    v as nat,
                                    "crit_alarm"@,
                                )) implies #[trigger] cands@.contains(v) by {
                            let j = choose|j: int|
                                0 <= j < i + 1 && (#[trigger] fs[j]).name@ == sensor_file_name(
                                    v as nat,
                                    "crit_alarm"@,
                                );
                            assert(j != i);
                        }
                    }
                },
            }
            i = i + 1;
        }
        // the whole groups among them: those with all five companion files
        let ghost gpred = |x: u64| has_group(fs, x as nat);
        let ghost whole = cands@.filter(gpred);
        proof {
            lemma_filter_increasing(cands@, gpred);
            cands@.filter_lemma(gpred);
            assert forall|x: u64| #[trigger] whole.contains(x) <==> has_group(fs, x as nat) by {
                if whole.contains(x) {
                    let k = choose|k: int| 0 <= k < whole.len() && whole[k] == x;
                    assert(gpred(whole[k]));
                }
                if has_group(fs, x as nat) {
                    assert(cands@.contains(x));
                    let k = choose|k: int| 0 <= k < cands@.len() && cands@[k] == x;
                    assert(gpred(cands@[k]));
                    assert(whole.contains(cands@[k]));
                }
            }
            assert(lists_groups(fs, whole));
        }
        let mut temps: Vec<(u64, u64, String, u64, u64)> = Vec::new();
        let mut j: usize = 0;
        proof {
            reveal(Seq::filter);
            assert(cands@.take(0).filter(gpred) =~= Seq::<u64>::empty());
            assert(temps.deep_view() =~= Seq::<(u64, u64, Seq<char>, u64, u64)>::empty());
        }
        while j < cands.len()
            invariant
                0 <= j <= cands@.len(),
                groups_at(fs, cands@.take(j as int).filter(gpred)) == Ok::<
                    Seq<(u64, u64, Seq<char>, u64, u64)>,
                    GroupErr,
                >(temps.deep_view()),
            decreases cands@.len() - j,
        {
            let x = cands[j];
            let ghost part = cands@.take(j as int).filter(gpred);
            proof {
                reveal(Seq::filter);
                assert(cands@.take(j + 1).drop_last() =~= cands@.take(j as int));
                assert(cands@.take(j + 1).last() == x);
            }
            let n_ca = sensor_name(x, "crit_alarm");
            let n_in = sensor_name(x, "input");
            let n_lb = sensor_name(x, "label");
            let n_cr = sensor_name(x, "crit");
            let n_mx = sensor_name(x, "max");
            let i_ca = find_file(files, n_ca.as_str());
            let i_in = find_file(files, n_in.as_str());
            let i_lb = find_file(files, n_lb.as_str());
            let i_cr = find_file(files, n_cr.as_str());
            let i_mx = find_file(files, n_mx.as_str());
            match (i_ca, i_in, i_lb, i_cr, i_mx) {
                (Some(i_ca), Some(i_in), Some(i_lb), Some(i_cr), Some(i_mx)) => {
                    proof {
                        assert(has_group(fs, x as nat));
                        assert(cands@.take(j + 1).filter(gpred) =~= part.push(x));
                        assert(part.push(x).drop_last() =~= part);
                        // an error here is the first one: what comes after
                        // the prefix cannot change it
                        cands@.take(j + 1).lemma_filter_monotone(cands@, gpred);
                    }
                    let ca = match read_sensor_at(
                        files,
                        i_ca,
                        Ghost(x as nat),
                        Ghost("crit_alarm"@),
                    ) {
                        Ok(v) => v,
                        Err(e) => {
                            proof {
                                lemma_groups_at_err_extends(fs, whole, part.push(x).len() as int);
                            }
                            return Err(e);
                        },
                    };
                    let inp = match read_sensor_at(files, i_in, Ghost(x as nat), Ghost("input"@)) {
                        Ok(v) => v,
                        Err(e) => {
                            proof {
                                lemma_groups_at_err_extends(fs, whole, part.push(x).len() as int);
                            }
                            return Err(e);
                        },
                    };
                    let lbl = match &files[i_lb].content {
                        Ok(c) => c.clone(),
                        Err(m) => {
                            proof {
                                lemma_groups_at_err_extends(fs, whole, part.push(x).len() as int);
                            }
                            return Err(CoreError::Io(m.clone()));
                        },
                    };
                    let cr = match read_sensor_at(files, i_cr, Ghost(x as nat), Ghost("crit"@)) {
                        Ok(v) => v,
                        Err(e) => {
                            proof {
                                lemma_groups_at_err_extends(fs, whole, part.push(x).len() as int);
                            }
                            return Err(e);
                        },
                    };
                    let mx = match read_sensor_at(files, i_mx, Ghost(x as nat), Ghost("max"@)) {
                        Ok(v) => v,
                        Err(e) => {
                            proof {
                                lemma_groups_at_err_extends(fs, whole, part.push(x).len() as int);
                            }
                            return Err(e);
                        },
                    };
                    let ghost prev = temps.deep_view();
                    temps.push((ca, inp, lbl, cr, mx));
                    proof {
                        assert(temps.deep_view() =~= prev.push(
                            (ca, inp, temps@[prev.len() as int].2@, cr, mx),
                        ));
                    }
                },
                _ => {
                    proof {
                        assert(!has_group(fs, x as nat));
                        assert(cands@.take(j + 1).filter(gpred) =~= part);
                    }
                },
            }
            j = j + 1;
        }
        proof {
            assert(cands@.take(cands@.len() as int) =~= cands@);
        }
        let mut cores: Vec<Core> = Vec::new();
        let mut j: usize = 0;
        let ghost gsv = temps.deep_view();
        proof {
            assert(gsv.skip(0) =~= gsv);
            assert(cores@ =~= Seq::<Core>::empty());
        }
        while j < temps.len()
            invariant
                0 <= j <= temps@.len(),
                cores_from(gsv, Seq::empty()) == cores_from(gsv.skip(j as int), cores@),
            decreases temps@.len() - j,
        {
            proof {
                assert(gsv.skip(j as int)[0] == gsv[j as int]);
                assert(gsv.skip(j as int).skip(1) =~= gsv.skip(j + 1));
                assert(gsv[j as int] == (temps@[j as int].0, temps@[j as int].1, temps@[
                    j as int
                ].2@, temps@[j as int].3, temps@[j as int].4));
            }
            let g = &temps[j];
            if text::starts_with(g.2.as_str(), "Core") {
                let trimmed = text::trim(g.2.as_str());
                let tn = trimmed.unicode_len();
                if tn < 5 {
                    return Err(CoreError::InvalidLabel(g.2.clone()));
                }
                let after = trimmed.substring_char(5, tn);
                proof {
                    assert(after@ =~= text::trim_spec(g.2@).skip(5));
                }
                let numt = text::trim(after);
                match text::parse_u64(numt) {
                    Some(c) => {
                        let ghost prevc = cores@;
                        cores.push(Core { max_temp: g.4, count: c, temp: g.1, crit: g.3 });
                        proof {
                            assert(cores@ =~= prevc.push(
                                Core { max_temp: g.4, count: c, temp: g.1, crit: g.3 },
                            ));
                        }
                    },
                    None => {
                        return Err(CoreError::ParseInt(String::from_str(numt)));
                    },
                }
            }
            j = j + 1;
        }
        proof {
            assert(gsv.skip(temps@.len() as int) =~= Seq::<(u64, u64, Seq<char>, u64, u64)>::empty());
        }
        Ok(cores)
    }
}

impl Cores {
    /// What a whole probe returns once the scan of the sensor directory has
    /// ended as given: a failed directory read is an `Io` with the scan's
    /// own report, and a successful one hands its files to `from_files`.
    pub fn probe_scan(scan: Result<Vec<ScanFile>, String>) -> (r: Result<Vec<Core>, CoreError>)
        ensures
            match scan {
                Err(m) => r matches Err(CoreError::Io(mm)) && mm@ == m@,
                Ok(files) => cores_post(files@, r),
            },
    {
        match scan {
            Err(m) => Err(CoreError::Io(m)),
            Ok(files) => Cores::from_files(&files),
        }
    }
}

/// Probing an unchanged sensor directory twice is idempotent: the same scan
/// cannot yield two different sets of cores.
pub proof fn lemma_cores_probe_idempotent(
    fs: Seq<ScanFile>,
    r1: Result<Vec<Core>, CoreError>,
    r2: Result<Vec<Core>, CoreError>,
)
    requires
        cores_post(fs, r1),
        cores_post(fs, r2),
    ensures
        r1 is Ok && r2 is Ok ==> r1->Ok_0@ == r2->Ok_0@,
{
    if r1 is Ok && r2 is Ok {
        let xs1 = choose|xs: Seq<u64>|
            {
                &&& #[trigger] lists_groups(fs, xs)
                &&& groups_at(fs, xs) matches Ok(gs)
                &&& cores_from(gs, Seq::empty()) == Ok::<Seq<Core>, LabelErr>(r1->Ok_0@)
            };
        let xs2 = choose|xs: Seq<u64>|
            {
                &&& #[trigger] lists_groups(fs, xs)
                &&& groups_at(fs, xs) matches Ok(gs)
                &&& cores_from(gs, Seq::empty()) == Ok::<Seq<Core>, LabelErr>(r2->Ok_0@)
            };
        assert forall|x: u64| xs1.contains(x) <==> #[trigger] xs2.contains(x) by {
            assert(xs1.contains(x) <==> has_group(fs, x as nat));
            assert(xs2.contains(x) <==> has_group(fs, x as nat));
        }
        lemma_increasing_unique(xs1, xs2);
    }
}

// ---------------------------------------------------------------------------
// Info
// ---------------------------------------------------------------------------

/// A non-negative decimal-fraction value: whole units and billionths.
#[derive(PartialEq, Eq, Structural, Clone, Copy, Debug)]
pub struct Decimal {
    pub units: u64,
    pub billionths: u32,
}

pub open spec fn decimal_wf(d: Decimal) -> bool {
    d.billionths < 1000000000
}

/// The processor description from the processor-info source.
#[derive(PartialEq, Eq, Clone, Debug)]
pub struct Info {
    /// The model name, when the source carries one.
    pub model: Option<String>,
    /// The clock speed in megahertz.
    pub mhz: Decimal,
    /// The sibling count.
    pub siblings: u64,
    /// The physical core count.
    pub cores: u64,
}

/// How a probe of the processor-info source can fail.
#[derive(PartialEq, Eq, Clone, Debug)]
pub enum InfoError {
    /// The source could not be read; the payload reports the failure.
    Io(String),
    /// The clock-speed label is absent.
    CpuMhzNotFound,
    /// The sibling-count label is absent.
    SiblingsNotFound,
    /// The core-count label is absent.
    CoresNotFound,
    /// The clock speed is not a decimal-fraction number; the payload is its
    /// text.
    ParseFloat(String),
    /// A count is not an unsigned number; the payload is its text.
    ParseInt(String),
}

/// The labelled entries of the description, in order: each line carrying a
/// colon yields its trimmed label and trimmed value; other lines say nothing.
pub open spec fn info_pairs_from(
    ls: Seq<Seq<char>>,
    acc: Seq<(Seq<char>, Seq<char>)>,
) -> Seq<(Seq<char>, Seq<char>)>
    decreases ls.len(),
{
    if ls.len() == 0 {
        acc
    } else if text::contains_char(ls[0], ':') {
        info_pairs_from(
            ls.skip(1),
            acc.push((text::line_key(ls[0]), text::line_value(ls[0]))),
        )
    } else {
        info_pairs_from(ls.skip(1), acc)
    }
}

pub open spec fn info_pairs(ls: Seq<Seq<char>>) -> Seq<(Seq<char>, Seq<char>)> {
    info_pairs_from(ls, Seq::empty())
}

/// The value under a label, the earliest line winning.
pub open spec fn lookup_first(ps: Seq<(Seq<char>, Seq<char>)>, key: Seq<char>) -> Option<Seq<char>>
    decreases ps.len(),
{
    if ps.len() == 0 {
        None
    } else if ps[0].0 == key {
        Some(ps[0].1)
    } else {
        lookup_first(ps.skip(1), key)
    }
}

/// What a probe of the processor-info source returns for given content: the
/// sibling count is demanded first, then the core count, then the clock
/// speed, each label's first line deciding its value; the model name is
/// taken when present and absent without error.
pub open spec fn info_post(content: Seq<char>, r: Result<Info, InfoError>) -> bool {
    let ps = info_pairs(text::lines(content));
    let sib = lookup_first(ps, "siblings"@);
    let cor = lookup_first(ps, "cpu cores"@);
    let mhz = lookup_first(ps, "cpu MHz"@);
    let model = lookup_first(ps, "model name"@);
    match r {
        Ok(info) => {
            &&& sib matches Some(v) && text::spec_parse_u64(v) == Some(info.siblings)
            &&& cor matches Some(v) && text::spec_parse_u64(v) == Some(info.cores)
            &&& mhz matches Some(v) && text::spec_parse_decimal(v) == Some(
                (info.mhz.units, info.mhz.billionths),
            )
            &&& match model {
                Some(v) => info.model matches Some(m) && m@ == v,
                None => info.model is None,
            }
        },
        Err(InfoError::SiblingsNotFound) => sib is None,
        Err(InfoError::CoresNotFound) => sib matches Some(v) && text::spec_parse_u64(v) is Some
            && cor is None,
        Err(InfoError::CpuMhzNotFound) => {
            &&& sib matches Some(v) && text::spec_parse_u64(v) is Some
            &&& cor matches Some(v) && text::spec_parse_u64(v) is Some
            &&& mhz is None
        },
        Err(InfoError::ParseInt(t)) => {
            ||| (sib matches Some(v) && text::spec_parse_u64(v) is None && t@ == v)
            ||| {
                &&& sib matches Some(v) && text::spec_parse_u64(v) is Some
                &&& cor matches Some(v) && text::spec_parse_u64(v) is None && t@ == v
            }
        },
        Err(InfoError::ParseFloat(t)) => {
            &&& sib matches Some(v) && text::spec_parse_u64(v) is Some
            &&& cor matches Some(v) && text::spec_parse_u64(v) is Some
            &&& mhz matches Some(v) && text::spec_parse_decimal(v) is None && t@ == v
        },
        Err(InfoError::Io(_)) => false,
    }
}

/// Finds the value under a label, the earliest entry winning.
fn lookup_entry(ps: &Vec<(String, String)>, key: &str) -> (r: Option<String>)
    ensures
        match r {
            Some(v) => lookup_first(ps.deep_view(), key@) == Some(v@),
            None => lookup_first(ps.deep_view(), key@) is None,
        },
{
    let mut i: usize = 0;
    proof {
        assert(ps.deep_view().skip(0) =~= ps.deep_view());
    }
    while i < ps.len()
        invariant
            0 <= i <= ps@.len(),
            ps.deep_view().len() == ps@.len(),
            lookup_first(ps.deep_view(), key@) == lookup_first(
                ps.deep_view().skip(i as int),
                key@,
            ),
        decreases ps@.len() - i,
    {
        proof {
            assert(ps.deep_view().skip(i as int)[0] == ps.deep_view()[i as int]);
            assert(ps.deep_view()[i as int] == (ps@[i as int].0@, ps@[i as int].1@));
            assert(ps.deep_view().skip(i as int).skip(1) =~= ps.deep_view().skip(i + 1));
        }
        if text::str_eq(ps[i].0.as_str(), key) {
            return Some(ps[i].1.clone());
        }
        i = i + 1;
    }
    None
}

impl Info {
    /// Reads a processor description out of the raw content of the
    /// processor-info source.
    #[verifier::loop_isolation(false)]
    pub fn parse(content: &str) -> (r: Result<Info, InfoError>)
        ensures
            info_post(content@, r),
            r matches Ok(info) ==> decimal_wf(info.mhz),
    {
        let ls = text::split_lines(content);
        let ghost lsv = text::lines(content@);
        let mut pairs: Vec<(String, String)> = Vec::new();
        let mut i: usize = 0;
        proof {
            assert(lsv.skip(0) =~= lsv);
            assert(pairs.deep_view() =~= Seq::<(Seq<char>, Seq<char>)>::empty());
        }
        while i < ls.len()
            invariant
                0 <= i <= ls@.len(),
                info_pairs(lsv) == info_pairs_from(lsv.skip(i as int), pairs.deep_view()),
            decreases ls@.len() - i,
        {
            let ghost prev = pairs.deep_view();
            proof {
                assert(ls.deep_view()[i as int] == ls@[i as int]@);
                assert(lsv.skip(i as int)[0] == lsv[i as int]);
                assert(lsv.skip(i as int).skip(1) =~= lsv.skip(i + 1));
            }
            let line = ls[i].as_str();
            let n = line.unicode_len();
            let c = text::find_char(line, ':');
            if c < n {
                let key = text::trim(line.substring_char(0, c));
                let rest = line.substring_char(c + 1, n);
                proof {
                    assert(line@.subrange(0, c as int) =~= line@.take(c as int));
                    assert(rest@ =~= line@.skip(c + 1));
                }
                let c2 = text::find_char(rest, ':');
                let vraw = rest.substring_char(0, c2);
                proof {
                    assert(vraw@ =~= rest@.take(c2 as int));
                }
                let val = text::trim(vraw);
                proof {
                    assert(key@ == text::line_key(lsv[i as int]));
                    assert(val@ == text::line_value(lsv[i as int]));
                }
                pairs.push((String::from_str(key), String::from_str(val)));
                proof {
                    assert(pairs.deep_view() =~= prev.push(
                        (text::line_key(lsv[i as int]), text::line_value(
                            lsv[i as int],
                        )),
                    ));
                }
            }
            i = i + 1;
        }
        proof {
            assert(lsv.skip(ls@.len() as int) =~= Seq::<Seq<char>>::empty());
        }
        let siblings = match lookup_entry(&pairs, "siblings") {
            None => {
                return Err(InfoError::SiblingsNotFound);
            },
            Some(v) => match text::parse_u64(v.as_str()) {
                Some(n) => n,
                None => {
                    return Err(InfoError::ParseInt(v));
                },
            },
        };
        let cores = match lookup_entry(&pairs, "cpu cores") {
            None => {
                return Err(InfoError::CoresNotFound);
            },
            Some(v) => match text::parse_u64(v.as_str()) {
                Some(n) => n,
                None => {
                    return Err(InfoError::ParseInt(v));
                },
            },
        };
        let mhz = match lookup_entry(&pairs, "cpu MHz") {
            None => {
                return Err(InfoError::CpuMhzNotFound);
            },
            Some(v) => match text::parse_decimal(v.as_str()) {
                Some(p) => Decimal { units: p.0, billionths: p.1 },
                None => {
                    return Err(InfoError::ParseFloat(v));
                },
            },
        };
        let model = lookup_entry(&pairs, "model name");
        Ok(Info { model, mhz, siblings, cores })
    }
}

impl Info {
    /// What a whole probe returns once the read of the processor-info source
    /// has ended as given: a failed read is an `Io` with the read's own
    /// report, and a successful one hands its content to `parse`.
    pub fn probe_read(read: Result<String, String>) -> (r: Result<Info, InfoError>)
        ensures
            match read {
                Err(m) => r matches Err(InfoError::Io(mm)) && mm@ == m@,
                Ok(c) => info_post(c@, r),
            },
    {
        match read {
            Err(m) => Err(InfoError::Io(m)),
            Ok(c) => Info::parse(c.as_str()),
        }
    }
}

/// Probing an unchanged processor-info source twice is idempotent: the same
/// content cannot yield two different descriptions or two different kinds of
/// error.
pub proof fn lemma_info_probe_idempotent(
    content: Seq<char>,
    r1: Result<Info, InfoError>,
    r2: Result<Info, InfoError>,
)
    requires
        info_post(content, r1),
        info_post(content, r2),
    ensures
        r1 is Ok <==> r2 is Ok,
        r1 is Ok ==> {
            &&& r1->Ok_0.mhz == r2->Ok_0.mhz
            &&& r1->Ok_0.siblings == r2->Ok_0.siblings
            &&& r1->Ok_0.cores == r2->Ok_0.cores
            &&& r1->Ok_0.model is Some <==> r2->Ok_0.model is Some
            &&& r1->Ok_0.model matches Some(m) ==> r2->Ok_0.model matches Some(n) && m@ == n@
        },
{
}

// ---------------------------------------------------------------------------
// The aggregate snapshot
// ---------------------------------------------------------------------------

/// The aggregate CPU snapshot: the usage counters and the per-core
/// temperatures.
#[derive(PartialEq, Eq, Clone, Debug)]
pub struct Cpu {
    pub cores: Vec<Core>,
    pub usage: Usage,
}

/// How the aggregate probe can fail: with whichever constituent failed
/// first.
#[derive(PartialEq, Eq, Clone, Debug)]
pub enum CpuError {
    Io(String),
    UsageError(UsageError),
    CoreError(CoreError),
}

impl Cpu {
    /// Combines the two constituent probes, usage first: any constituent
    /// failure propagates as that constituent's own error.
    pub fn combine(usage: Result<Usage, UsageError>, cores: Result<Vec<Core>, CoreError>) -> (r:
        Result<Cpu, CpuError>)
        ensures
            usage matches Err(e) ==> (r matches Err(CpuError::UsageError(ee)) && ee == e),
            usage is Ok ==> (cores matches Err(e) ==> (r matches Err(CpuError::CoreError(ee))
                && ee == e)),
            usage matches Ok(u) ==> (cores matches Ok(cs) ==> (r matches Ok(c) && c.usage == u
                && c.cores == cs)),
    {
        match usage {
            Err(e) => Err(CpuError::UsageError(e)),
            Ok(u) => match cores {
                Err(e) => Err(CpuError::CoreError(e)),
                Ok(cs) => Ok(Cpu { cores: cs, usage: u }),
            },
        }
    }
}

/// Probing an unchanged usage source twice is idempotent: the same content
/// cannot yield two different snapshots or two different kinds of error.
pub proof fn lemma_usage_probe_idempotent(
    content: Seq<char>,
    r1: Result<Usage, UsageError>,
    r2: Result<Usage, UsageError>,
)
    requires
        usage_post(content, r1),
        usage_post(content, r2),
    ensures
        r1 is Ok <==> r2 is Ok,
        r1 is Ok ==> r1 == r2,
        (r1 matches Err(UsageError::CpuMissing)) <==> (r2 matches Err(UsageError::CpuMissing)),
        (r1 matches Err(UsageError::InvalidCpuLine)) <==> (r2 matches Err(
            UsageError::InvalidCpuLine,
        )),
        (r1 matches Err(UsageError::ParseInt(_))) <==> (r2 matches Err(UsageError::ParseInt(_))),
{
    if r1 is Ok && r2 is Ok {
        assert(r1->Ok_0 == r2->Ok_0);
    }
}

} // verus!
