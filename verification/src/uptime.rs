//! The uptime collector: one line with exactly two whitespace-separated
//! decimal-seconds columns, turned into a pair of durations.

use vstd::prelude::*;

use crate::text;

verus! {

/// A span of time: whole seconds and billionths of a second.
#[derive(PartialEq, Eq, Structural, Clone, Copy, Debug)]
pub struct Duration {
    pub secs: u64,
    pub nanos: u32,
}

/// A duration is well formed when its fractional part is less than one
/// second.
pub open spec fn duration_wf(d: Duration) -> bool {
    d.nanos < 1000000000
}

/// The system uptime, read from the OS uptime file: the time since boot and
/// the accumulated idle time.
#[derive(PartialEq, Eq, Structural, Clone, Copy, Debug)]
pub struct Uptime {
    pub uptime: Duration,
    pub idle: Duration,
}

pub open spec fn uptime_wf(u: Uptime) -> bool {
    duration_wf(u.uptime) && duration_wf(u.idle)
}

/// How a probe of the uptime source can fail.
#[derive(PartialEq, Eq, Clone, Debug)]
pub enum Error {
    /// The first line decomposed into a number of columns other than two.
    InvalidUptime,
    /// The source could not be read; the payload reports the failure.
    Io(String),
    /// A column is not a decimal-seconds number; the payload is the column.
    ParseFloat(String),
    /// The source is empty.
    Empty,
}

/// What a duration column means: `spec_parse_decimal` read as seconds and
/// billionths of a second.
pub open spec fn spec_column_duration(t: Seq<char>) -> Option<Duration> {
    match text::spec_parse_decimal(t) {
        Some(p) => Some(Duration { secs: p.0, nanos: p.1 }),
        None => None,
    }
}

/// What a probe of the uptime source returns for given content: `Empty` on an
/// empty source; otherwise the first line's columns are read left to right,
/// the first unreadable column is a `ParseFloat`, a column count other than
/// two is an `InvalidUptime`, and exactly two readable columns are the
/// snapshot.
pub open spec fn uptime_post(content: Seq<char>, r: Result<Uptime, Error>) -> bool {
    let toks = text::tokens(text::first_line(content));
    match r {
        Ok(u) => {
            &&& content.len() > 0
            &&& toks.len() == 2
            &&& spec_column_duration(toks[0]) == Some(u.uptime)
            &&& spec_column_duration(toks[1]) == Some(u.idle)
        },
        Err(Error::Empty) => content.len() == 0,
        Err(Error::ParseFloat(t)) => {
            &&& content.len() > 0
            &&& exists|i: int|
                {
                    &&& 0 <= i < toks.len()
                    &&& spec_column_duration(#[trigger] toks[i]) is None
                    &&& t@ == toks[i]
                    &&& forall|j: int| 0 <= j < i ==> spec_column_duration(#[trigger] toks[j]) is Some
                }
        },
        Err(Error::InvalidUptime) => {
            &&& content.len() > 0
            &&& toks.len() != 2
            &&& forall|i: int| 0 <= i < toks.len() ==> spec_column_duration(#[trigger] toks[i]) is Some
        },
        Err(Error::Io(_)) => false,
    }
}

impl Uptime {
    /// Reads an uptime snapshot out of the raw content of the uptime source.
    #[verifier::loop_isolation(false)]
    pub fn parse(content: &str) -> (r: Result<Uptime, Error>)
        ensures
            uptime_post(content@, r),
            r matches Ok(u) ==> uptime_wf(u),
    {
        if content.unicode_len() == 0 {
            return Err(Error::Empty);
        }
        let line = text::take_first_line(content);
        let toks = text::split_tokens(line);
        let ghost tseq = text::tokens(text::first_line(content@));
        let mut vals: Vec<Duration> = Vec::new();
        let mut i: usize = 0;
        while i < toks.len()
            invariant
                0 <= i <= toks.len(),
                vals@.len() == i,
                forall|j: int|
                    0 <= j < i ==> spec_column_duration(#[trigger] tseq[j]) == Some(vals@[j]),
                forall|j: int| 0 <= j < i ==> duration_wf(#[trigger] vals@[j]),
            decreases toks.len() - i,
        {
            proof {
                assert(toks.deep_view()[i as int] == toks@[i as int]@);
            }
            match text::parse_decimal(toks[i].as_str()) {
                Some(p) => {
                    vals.push(Duration { secs: p.0, nanos: p.1 });
                },
                None => {
                    return Err(Error::ParseFloat(toks[i].clone()));
                },
            }
            i = i + 1;
        }
        if vals.len() != 2 {
            return Err(Error::InvalidUptime);
        }
        Ok(Uptime { uptime: vals[0], idle: vals[1] })
    }
}

impl Uptime {
    /// What a whole probe returns once the read of the uptime source has
    /// ended as given: a failed read is an `Io` with the read's own report,
    /// and a successful one hands its content to `parse`.
    pub fn probe_read(read: Result<String, String>) -> (r: Result<Uptime, Error>)
        ensures
            match read {
                Err(m) => r matches Err(Error::Io(mm)) && mm@ == m@,
                Ok(c) => uptime_post(c@, r),
            },
    {
        match read {
            Err(m) => Err(Error::Io(m)),
            Ok(c) => Uptime::parse(c.as_str()),
        }
    }
}

/// Probing an unchanged source twice is idempotent: the same content cannot
/// yield two different snapshots, nor a snapshot once and an error once, nor
/// two different kinds of error.
pub proof fn lemma_uptime_probe_idempotent(
    content: Seq<char>,
    r1: Result<Uptime, Error>,
    r2: Result<Uptime, Error>,
)
    requires
        uptime_post(content, r1),
        uptime_post(content, r2),
    ensures
        r1 is Ok <==> r2 is Ok,
        r1 is Ok ==> r1 == r2,
        (r1 matches Err(Error::Empty)) <==> (r2 matches Err(Error::Empty)),
        (r1 matches Err(Error::InvalidUptime)) <==> (r2 matches Err(Error::InvalidUptime)),
        (r1 matches Err(Error::ParseFloat(_))) <==> (r2 matches Err(Error::ParseFloat(_))),
{
    let toks = text::tokens(text::first_line(content));
    if r1 is Ok && r2 is Ok {
        assert(r1->Ok_0 == r2->Ok_0);
    }
}

} // verus!
