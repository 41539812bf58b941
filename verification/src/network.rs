//! The network collector: one snapshot per discovered interface directory,
//! each carrying four traffic counters and the link information, with the
//! speed policy that an active link must report a speed.

use vstd::prelude::*;

use crate::scan::{ScanFile, content_of, file_index, has_file, find_file};
use crate::text;

verus! {

// ---------------------------------------------------------------------------
// Snapshot types
// ---------------------------------------------------------------------------

/// The operational state of a link, as its state file spells it.
#[derive(PartialEq, Eq, Structural, Clone, Copy, Debug)]
pub enum OperState {
    Unknown,
    Down,
    Up,
}

/// What an operational-state text means: exactly `up`, `down` or `unknown`.
pub open spec fn operstate_of(t: Seq<char>) -> Option<OperState> {
    if t == "up"@ {
        Some(OperState::Up)
    } else if t == "down"@ {
        Some(OperState::Down)
    } else if t == "unknown"@ {
        Some(OperState::Unknown)
    } else {
        None
    }
}

impl OperState {
    /// Reads an operational state from its textual form.
    pub fn from_str(t: &str) -> (r: Option<OperState>)
        ensures
            r == operstate_of(t@),
    {
        if text::str_eq(t, "up") {
            Some(OperState::Up)
        } else if text::str_eq(t, "down") {
            Some(OperState::Down)
        } else if text::str_eq(t, "unknown") {
            Some(OperState::Unknown)
        } else {
            None
        }
    }

    /// The textual form the state file would carry for this state.
    pub fn as_str(&self) -> (r: &'static str)
        ensures
            operstate_of(r@) == Some(*self),
    {
        proof {
            reveal_strlit("up");
            reveal_strlit("down");
            reveal_strlit("unknown");
        }
        match self {
            OperState::Up => {
                let r = "up";
                assert(operstate_of(r@) == Some(OperState::Up));
                r
            },
            OperState::Down => {
                let r = "down";
                proof {
                    assert(r@.len() == 4 && "up"@.len() == 2);
                    assert(r@ != "up"@);
                }
                assert(operstate_of(r@) == Some(OperState::Down));
                r
            },
            OperState::Unknown => {
                let r = "unknown";
                proof {
                    assert(r@.len() == 7 && "up"@.len() == 2 && "down"@.len() == 4);
                    assert(r@ != "up"@ && r@ != "down"@);
                }
                assert(operstate_of(r@) == Some(OperState::Unknown));
                r
            },
        }
    }
}

/// The four traffic counters of one interface.
#[derive(PartialEq, Eq, Structural, Clone, Copy, Debug)]
pub struct Stats {
    pub tx_packets: u64,
    pub rx_packets: u64,
    pub rx_bytes: u64,
    pub tx_bytes: u64,
}

/// The link information of one interface.
#[derive(PartialEq, Eq, Clone, Debug)]
pub struct Info {
    pub operstate: OperState,
    pub address: String,
    pub speed: u64,
}

/// One discovered interface.
#[derive(PartialEq, Eq, Clone, Debug)]
pub struct Interface {
    pub path: String,
    pub name: String,
    pub stats: Stats,
    pub info: Info,
}

/// All discovered interfaces, in discovery order.
#[derive(PartialEq, Eq, Clone, Debug)]
pub struct Network {
    pub interfaces: Vec<Interface>,
}

/// How a probe of the interfaces root can fail.
#[derive(PartialEq, Eq, Clone, Debug)]
pub enum Error {
    /// A directory or file could not be read; the payload reports the
    /// failure.
    Io(String),
    /// A required link-information file is absent.
    MissingInfo { interface: String, info: String },
    /// A required statistics file is absent.
    MissingStat { interface: String, stat: String },
    /// The link is up and yet reports no readable speed.
    InvalidLinkState { interface: String },
    /// A counter is not an unsigned number; `stat` is the file, `message`
    /// the text found in it.
    ParseError { stat: String, message: String },
}

/// What one interface directory scan hands a collector.
#[derive(Debug)]
pub struct InterfaceScan {
    /// The directory's own name: the interface name.
    pub name: String,
    /// The directory's full path.
    pub path: String,
    /// The scan of its statistics subdirectory, or the report of the failed
    /// directory read.
    pub stats_dir: Result<Vec<ScanFile>, String>,
    /// The scan of the interface directory itself, or the report of the
    /// failed directory read.
    pub info_dir: Result<Vec<ScanFile>, String>,
}

// ---------------------------------------------------------------------------
// Statistics
// ---------------------------------------------------------------------------

/// The verdict on one named counter file.
pub enum StatOutcome {
    /// No file of that name was seen.
    Missing,
    /// The file could not be read; the payload reports the failure.
    Unreadable(Seq<char>),
    /// The trimmed content is not an unsigned number; the payload is the
    /// file's path and that content.
    Bad(Seq<char>, Seq<char>),
    /// The counter's value.
    Val(u64),
}

/// What one named counter file holds.
pub open spec fn stat_outcome(fs: Seq<ScanFile>, name: Seq<char>) -> StatOutcome {
    if !has_file(fs, name) {
        StatOutcome::Missing
    } else {
        let f = fs[file_index(fs, name) as int];
        match content_of(f) {
            Err(m) => StatOutcome::Unreadable(m),
            Ok(c) => {
                let t = text::trim_spec(c);
                match text::spec_parse_u64(t) {
                    Some(v) => StatOutcome::Val(v),
                    None => StatOutcome::Bad(f.path@, t),
                }
            },
        }
    }
}

/// The statistics of an interface: the four counters demanded in order, the
/// first failing one deciding the error, named by the counter's file name.
pub open spec fn stats_result(fs: Seq<ScanFile>) -> Result<Stats, (Seq<char>, StatOutcome)> {
    let a = stat_outcome(fs, "rx_packets"@);
    let b = stat_outcome(fs, "tx_packets"@);
    let c = stat_outcome(fs, "rx_bytes"@);
    let d = stat_outcome(fs, "tx_bytes"@);
    if !(a is Val) {
        Err(("rx_packets"@, a))
    } else if !(b is Val) {
        Err(("tx_packets"@, b))
    } else if !(c is Val) {
        Err(("rx_bytes"@, c))
    } else if !(d is Val) {
        Err(("tx_bytes"@, d))
    } else {
        Ok(Stats { rx_packets: a->Val_0, tx_packets: b->Val_0, rx_bytes: c->Val_0, tx_bytes: d->Val_0 })
    }
}

/// What probing an interface's statistics returns: an unreadable statistics
/// directory is an `Io`; otherwise `stats_result` decides, a missing counter
/// file naming the interface path and the counter.
pub open spec fn stats_post(scan: InterfaceScan, r: Result<Stats, Error>) -> bool {
    match scan.stats_dir {
        Err(m) => r matches Err(Error::Io(mm)) && mm@ == m@,
        Ok(fsv) => {
            let fs = fsv@;
            match r {
                Ok(st) => stats_result(fs) == Ok::<Stats, (Seq<char>, StatOutcome)>(st),
                Err(Error::MissingStat { interface, stat }) => {
                    &&& interface@ == scan.path@
                    &&& stats_result(fs) == Err::<Stats, (Seq<char>, StatOutcome)>(
                        (stat@, StatOutcome::Missing),
                    )
                },
                Err(Error::Io(m)) => {
                    &&& stats_result(fs) matches Err(p)
                    &&& p.1 == StatOutcome::Unreadable(m@)
                },
                Err(Error::ParseError { stat, message }) => {
                    &&& stats_result(fs) matches Err(p)
                    &&& p.1 == StatOutcome::Bad(stat@, message@)
                },
                _ => false,
            }
        },
    }
}

/// Reads one named counter out of a statistics scan.
fn read_stat(fs: &Vec<ScanFile>, path: &String, name: &str) -> (r: Result<u64, Error>)
    ensures
        match r {
            Ok(v) => stat_outcome(fs@, name@) == StatOutcome::Val(v),
            Err(Error::MissingStat { interface, stat }) => {
                &&& interface@ == path@
                &&& stat@ == name@
                &&& stat_outcome(fs@, name@) == StatOutcome::Missing
            },
            Err(Error::Io(m)) => stat_outcome(fs@, name@) == StatOutcome::Unreadable(m@),
            Err(Error::ParseError { stat, message }) => stat_outcome(fs@, name@)
                == StatOutcome::Bad(stat@, message@),
            _ => false,
        },
{
    let i = match find_file(fs, name) {
        Some(i) => i,
        None => {
            return Err(
                Error::MissingStat { interface: path.clone(), stat: String::from_str(name) },
            );
        },
    };
    let c = match &fs[i].content {
        Ok(c) => c,
        Err(m) => {
            return Err(Error::Io(m.clone()));
        },
    };
    let t = text::trim(c.as_str());
    match text::parse_u64(t) {
        Some(v) => Ok(v),
        None => Err(
            Error::ParseError { stat: fs[i].path.clone(), message: String::from_str(t) },
        ),
    }
}

/// Reads the four traffic counters of one interface out of its scan.
pub fn get_stats(scan: &InterfaceScan) -> (r: Result<Stats, Error>)
    ensures
        stats_post(*scan, r),
{
    let fs = match &scan.stats_dir {
        Ok(fs) => fs,
        Err(m) => {
            return Err(Error::Io(m.clone()));
        },
    };
    let rx_packets = match read_stat(fs, &scan.path, "rx_packets") {
        Ok(v) => v,
        Err(e) => {
            return Err(e);
        },
    };
    let tx_packets = match read_stat(fs, &scan.path, "tx_packets") {
        Ok(v) => v,
        Err(e) => {
            return Err(e);
        },
    };
    let rx_bytes = match read_stat(fs, &scan.path, "rx_bytes") {
        Ok(v) => v,
        Err(e) => {
            return Err(e);
        },
    };
    let tx_bytes = match read_stat(fs, &scan.path, "tx_bytes") {
        Ok(v) => v,
        Err(e) => {
            return Err(e);
        },
    };
    Ok(Stats { rx_packets, tx_packets, rx_bytes, tx_bytes })
}

// ---------------------------------------------------------------------------
// Link information
// ---------------------------------------------------------------------------

/// The speed an interface reports, when its speed file is readable and
/// numeric.
pub open spec fn speed_outcome(fs: Seq<ScanFile>) -> Option<u64> {
    let f = fs[file_index(fs, "speed"@) as int];
    match content_of(f) {
        Err(m) => None,
        Ok(c) => text::spec_parse_u64(text::trim_spec(c)),
    }
}

/// What probing an interface's link information returns: the state file is
/// demanded first and must parse; the speed file must exist, and an
/// unreadable or non-numeric speed is an error exactly when the link is up,
/// zero otherwise; the address file is demanded last and taken trimmed.
pub open spec fn info_post(scan: InterfaceScan, r: Result<Info, Error>) -> bool {
    match scan.info_dir {
        Err(m) => r matches Err(Error::Io(mm)) && mm@ == m@,
        Ok(fsv) => {
            let fs = fsv@;
            if !has_file(fs, "operstate"@) {
                r matches Err(Error::MissingInfo { interface, info }) && interface@ == scan.path@
                    && info@ == "operstate"@
            } else {
                let f_op = fs[file_index(fs, "operstate"@) as int];
                match content_of(f_op) {
                    Err(m) => r matches Err(Error::Io(mm)) && mm@ == m,
                    Ok(c_op) => match operstate_of(text::trim_spec(c_op)) {
                        None => r matches Err(Error::ParseError { stat, message }) && stat@
                            == f_op.path@ && message@ == text::trim_spec(c_op),
                        Some(op) => if !has_file(fs, "speed"@) {
                            r matches Err(Error::MissingInfo { interface, info }) && interface@
                                == scan.path@ && info@ == "speed"@
                        } else {
                            let spd = speed_outcome(fs);
                            if spd is None && op == OperState::Up {
                                r matches Err(Error::InvalidLinkState { interface }) && interface@
                                    == scan.path@
                            } else {
                                let speed = if spd is Some {
                                    spd->0
                                } else {
                                    0u64
                                };
                                if !has_file(fs, "address"@) {
                                    r matches Err(Error::MissingInfo { interface, info })
                                        && interface@ == scan.path@ && info@ == "address"@
                                } else {
                                    let f_ad = fs[file_index(fs, "address"@) as int];
                                    match content_of(f_ad) {
                                        Err(m) => r matches Err(Error::Io(mm)) && mm@ == m,
                                        Ok(c_ad) => r matches Ok(info) && info.operstate == op
                                            && info.speed == speed && info.address@
                                            == text::trim_spec(c_ad),
                                    }
                                }
                            }
                        },
                    },
                }
            }
        },
    }
}

/// Reads the link information of one interface out of its scan.
pub fn get_info(scan: &InterfaceScan) -> (r: Result<Info, Error>)
    ensures
        info_post(*scan, r),
{
    let fs = match &scan.info_dir {
        Ok(fs) => fs,
        Err(m) => {
            return Err(Error::Io(m.clone()));
        },
    };
    let op_i = match find_file(fs, "operstate") {
        Some(i) => i,
        None => {
            return Err(
                Error::MissingInfo {
                    interface: scan.path.clone(),
                    info: String::from_str("operstate"),
                },
            );
        },
    };
    let op_c = match &fs[op_i].content {
        Ok(c) => c,
        Err(m) => {
            return Err(Error::Io(m.clone()));
        },
    };
    let op_t = text::trim(op_c.as_str());
    let op = match OperState::from_str(op_t) {
        Some(o) => o,
        None => {
            return Err(
                Error::ParseError { stat: fs[op_i].path.clone(), message: String::from_str(op_t) },
            );
        },
    };
    let sp_i = match find_file(fs, "speed") {
        Some(i) => i,
        None => {
            return Err(
                Error::MissingInfo { interface: scan.path.clone(), info: String::from_str("speed") },
            );
        },
    };
    let sp: Option<u64> = match &fs[sp_i].content {
        Ok(c) => text::parse_u64(text::trim(c.as_str())),
        Err(_) => None,
    };
    let speed: u64 = match sp {
        Some(v) => v,
        None => match op {
            OperState::Up => {
                return Err(Error::InvalidLinkState { interface: scan.path.clone() });
            },
            _ => 0,
        },
    };
    let ad_i = match find_file(fs, "address") {
        Some(i) => i,
        None => {
            return Err(
                Error::MissingInfo {
                    interface: scan.path.clone(),
                    info: String::from_str("address"),
                },
            );
        },
    };
    let address = match &fs[ad_i].content {
        Ok(c) => String::from_str(text::trim(c.as_str())),
        Err(m) => {
            return Err(Error::Io(m.clone()));
        },
    };
    Ok(Info { operstate: op, address, speed })
}

// ---------------------------------------------------------------------------
// One interface, and the aggregate
// ---------------------------------------------------------------------------

/// What probing one interface returns: its statistics are demanded first,
/// then its link information, and the snapshot carries the scan's own name
/// and path.
pub open spec fn interface_post(scan: InterfaceScan, r: Result<Interface, Error>) -> bool {
    match r {
        Ok(ifc) => {
            &&& ifc.path@ == scan.path@
            &&& ifc.name@ == scan.name@
            &&& stats_post(scan, Ok(ifc.stats))
            &&& info_post(scan, Ok(ifc.info))
        },
        Err(e) => {
            ||| stats_post(scan, Err(e))
            ||| {
                &&& exists|st: Stats| stats_post(scan, Ok(st))
                &&& info_post(scan, Err(e))
            }
        },
    }
}

/// Reads one interface snapshot out of its directory scan.
pub fn probe_interface(scan: &InterfaceScan) -> (r: Result<Interface, Error>)
    ensures
        interface_post(*scan, r),
{
    let stats = match get_stats(scan) {
        Ok(st) => st,
        Err(e) => {
            return Err(e);
        },
    };
    let info = match get_info(scan) {
        Ok(i) => i,
        Err(e) => {
            proof {
                assert(stats_post(*scan, Ok(stats)));
            }
            return Err(e);
        },
    };
    Ok(Interface { path: scan.path.clone(), name: scan.name.clone(), stats, info })
}

/// What probing a sequence of interface scans returns: the interfaces in
/// scan order, the first failing interface deciding the error.
pub open spec fn net_seq_post(scans: Seq<InterfaceScan>, r: Result<Seq<Interface>, Error>) -> bool
    decreases scans.len(),
{
    if scans.len() == 0 {
        r matches Ok(ifs) && ifs.len() == 0
    } else {
        match r {
            Ok(ifs) => {
                &&& ifs.len() == scans.len()
                &&& interface_post(scans[0], Ok(ifs[0]))
                &&& net_seq_post(scans.skip(1), Ok(ifs.skip(1)))
            },
            Err(e) => {
                ||| interface_post(scans[0], Err(e))
                ||| {
                    &&& exists|ifc: Interface| interface_post(scans[0], Ok(ifc))
                    &&& net_seq_post(scans.skip(1), Err(e))
                }
            },
        }
    }
}

/// What a probe of the interfaces root returns for a given scan.
pub open spec fn network_post(scans: Seq<InterfaceScan>, r: Result<Network, Error>) -> bool {
    match r {
        Ok(nw) => net_seq_post(scans, Ok(nw.interfaces@)),
        Err(e) => net_seq_post(scans, Err(e)),
    }
}

/// Reads the interfaces from position `i` of the scans onward.
fn probe_interfaces_from(scans: &Vec<InterfaceScan>, i: usize) -> (r: Result<Vec<Interface>, Error>)
    requires
        0 <= i <= scans@.len(),
    ensures
        match r {
            Ok(ifs) => net_seq_post(scans@.skip(i as int), Ok(ifs@)),
            Err(e) => net_seq_post(scans@.skip(i as int), Err(e)),
        },
    decreases scans@.len() - i,
{
    if i == scans.len() {
        let out: Vec<Interface> = Vec::new();
        proof {
            assert(scans@.skip(i as int) =~= Seq::<InterfaceScan>::empty());
        }
        return Ok(out);
    }
    proof {
        assert(scans@.skip(i as int)[0] == scans@[i as int]);
        assert(scans@.skip(i as int).skip(1) =~= scans@.skip(i + 1));
    }
    let ifc = match probe_interface(&scans[i]) {
        Ok(ifc) => ifc,
        Err(e) => {
            return Err(e);
        },
    };
    let mut rest = match probe_interfaces_from(scans, i + 1) {
        Ok(ifs) => ifs,
        Err(e) => {
            proof {
                assert(interface_post(scans@[i as int], Ok(ifc)));
            }
            return Err(e);
        },
    };
    let ghost rest_view = rest@;
    rest.insert(0, ifc);
    proof {
        assert(rest@.skip(1) =~= rest_view);
    }
    Ok(rest)
}

impl Network {
    /// Reads a network snapshot out of the scans of the interface
    /// directories, in discovery order.
    pub fn from_scan(scans: &Vec<InterfaceScan>) -> (r: Result<Network, Error>)
        ensures
            network_post(scans@, r),
    {
        proof {
            assert(scans@.skip(0) =~= scans@);
        }
        match probe_interfaces_from(scans, 0) {
            Ok(ifs) => Ok(Network { interfaces: ifs }),
            Err(e) => Err(e),
        }
    }
}

impl Network {
    /// What a whole probe returns once the scan of the interfaces root has
    /// ended as given: a failed directory read is an `Io` with the scan's
    /// own report, and a successful one hands its interfaces to `from_scan`.
    pub fn probe_scan(scan: Result<Vec<InterfaceScan>, String>) -> (r: Result<Network, Error>)
        ensures
            match scan {
                Err(m) => r matches Err(Error::Io(mm)) && mm@ == m@,
                Ok(scans) => network_post(scans@, r),
            },
    {
        match scan {
            Err(m) => Err(Error::Io(m)),
            Ok(scans) => Network::from_scan(&scans),
        }
    }
}

/// Two interface snapshots that show the same paths, names, counters and
/// link information.
pub open spec fn iface_same(a: Interface, b: Interface) -> bool {
    &&& a.path@ == b.path@
    &&& a.name@ == b.name@
    &&& a.stats == b.stats
    &&& a.info.operstate == b.info.operstate
    &&& a.info.speed == b.info.speed
    &&& a.info.address@ == b.info.address@
}

/// Probing an unchanged set of interface directories twice is idempotent:
/// the same scans cannot yield a snapshot once and an error once, and two
/// snapshots agree interface by interface in everything they show.
pub proof fn lemma_network_probe_idempotent(
    scans: Seq<InterfaceScan>,
    r1: Result<Network, Error>,
    r2: Result<Network, Error>,
)
    requires
        network_post(scans, r1),
        network_post(scans, r2),
    ensures
        r1 is Ok <==> r2 is Ok,
        r1 is Ok ==> {
            &&& r1->Ok_0.interfaces@.len() == r2->Ok_0.interfaces@.len()
            &&& forall|i: int|
                0 <= i < r1->Ok_0.interfaces@.len() ==> iface_same(
                    #[trigger] r1->Ok_0.interfaces@[i],
                    r2->Ok_0.interfaces@[i],
                )
        },
{
    if r1 is Ok && r2 is Ok {
        lemma_net_seq_deterministic(scans, r1->Ok_0.interfaces@, r2->Ok_0.interfaces@);
    } else if r1 is Ok && r2 is Err {
        lemma_net_seq_ok_err(scans, r1->Ok_0.interfaces@, r2->Err_0);
    } else if r1 is Err && r2 is Ok {
        lemma_net_seq_ok_err(scans, r2->Ok_0.interfaces@, r1->Err_0);
    }
}

/// Interface snapshots are pinned by their scans: two successful probes of
/// the same scans see the same interfaces.
proof fn lemma_net_seq_deterministic(
    scans: Seq<InterfaceScan>,
    a: Seq<Interface>,
    b: Seq<Interface>,
)
    requires
        net_seq_post(scans, Ok(a)),
        net_seq_post(scans, Ok(b)),
    ensures
        a.len() == b.len(),
        forall|i: int| 0 <= i < a.len() ==> iface_same(#[trigger] a[i], b[i]),
    decreases scans.len(),
{
    if scans.len() == 0 {
    } else {
        lemma_interface_deterministic(scans[0], a[0], b[0]);
        lemma_net_seq_deterministic(scans.skip(1), a.skip(1), b.skip(1));
        assert forall|i: int| 0 <= i < a.len() implies iface_same(#[trigger] a[i], b[i]) by {
            if i > 0 {
                assert(a.skip(1)[i - 1] == a[i]);
                assert(b.skip(1)[i - 1] == b[i]);
            }
        }
    }
}

/// Scans that can yield interfaces cannot also yield an error.
proof fn lemma_net_seq_ok_err(scans: Seq<InterfaceScan>, a: Seq<Interface>, e: Error)
    requires
        net_seq_post(scans, Ok(a)),
    ensures
        !net_seq_post(scans, Err(e)),
    decreases scans.len(),
{
    if scans.len() == 0 {
    } else {
        lemma_interface_ok_err(scans[0], a[0], e);
        lemma_net_seq_ok_err(scans.skip(1), a.skip(1), e);
    }
}

/// One interface's snapshot is pinned by its scan.
proof fn lemma_interface_deterministic(scan: InterfaceScan, a: Interface, b: Interface)
    requires
        interface_post(scan, Ok(a)),
        interface_post(scan, Ok(b)),
    ensures
        iface_same(a, b),
{
}

/// An interface scan that can yield a snapshot cannot also yield an error.
proof fn lemma_interface_ok_err(scan: InterfaceScan, a: Interface, e: Error)
    requires
        interface_post(scan, Ok(a)),
    ensures
        !interface_post(scan, Err(e)),
{
}

} // verus!
