//! Building a snapshot from the raw figures the operating system reports:
//! memory in mebibytes, the processes ranked by processor load, the top five kept.
use vstd::prelude::*;
use crate::model::{error_text, CpuInfo, MemInfo, ProcessInfo, SysWatchError, SystemSnapshot};
use crate::clock::{clock_text, local_timestamp, timestamp_shaped};
use crate::load::{is_nan, load_rank, load_rank_of, Load};

verus! {

/// How many processes a snapshot lists.
pub const TOP_COUNT: usize = 5;

/// A process as the operating system reports it.
#[derive(Debug, Clone)]
pub struct RawProcess {
    pub pid: u32,
    pub name: String,
    /// Processor load in percent.
    pub cpu: Load,
    pub memory_bytes: u64,
}

/// The figures read from the operating system, before any processing.
#[derive(Debug, Clone)]
pub struct RawMetrics {
    /// Global processor load in percent.
    pub cpu_usage: Load,
    pub core_count: usize,
    pub total_memory_bytes: u64,
    pub used_memory_bytes: u64,
    pub free_memory_bytes: u64,
    /// In the order the operating system listed them.
    pub processes: Vec<RawProcess>,
}

/// Bytes to whole mebibytes, rounding down.
pub open spec fn mebibytes(bytes: u64) -> u64 {
    bytes / 1024 / 1024
}

pub open spec fn process_of(r: RawProcess) -> ProcessInfo {
    ProcessInfo {
        pid: r.pid,
        name: r.name,
        cpu: r.cpu,
        memory_mb: mebibytes(r.memory_bytes),
    }
}

/// Where a process of load `load` goes in a list ranked by decreasing load:
/// after every process whose load is at least as high.
pub open spec fn rank_position(s: Seq<ProcessInfo>, load: int) -> nat
    decreases s.len(),
{
    if s.len() == 0 {
        0
    } else if load_rank(s[0].cpu.bits) < load {
        0
    } else {
        1 + rank_position(s.drop_first(), load)
    }
}

/// `s` ranked by decreasing load; processes of equal load keep their order
/// (a stable sort).
pub open spec fn ranked(s: Seq<ProcessInfo>) -> Seq<ProcessInfo>
    decreases s.len(),
{
    if s.len() == 0 {
        s
    } else {
        let r = ranked(s.drop_last());
        r.insert(rank_position(r, load_rank(s.last().cpu.bits)) as int, s.last())
    }
}

/// The processes a snapshot lists: the `TOP_COUNT` most loaded, most loaded first.
pub open spec fn top_processes(raw: Seq<RawProcess>) -> Seq<ProcessInfo> {
    let r = ranked(raw.map_values(|p: RawProcess| process_of(p)));
    if r.len() <= TOP_COUNT {
        r
    } else {
        r.take(TOP_COUNT as int)
    }
}

/// Whether the processes can be ranked: comparing loads has no answer for a NaN load,
/// so once there are two processes to compare none may be NaN.
pub open spec fn rankable(raw: Seq<RawProcess>) -> bool {
    raw.len() >= 2 ==> forall|i: int| 0 <= i < raw.len() ==> !is_nan(#[trigger] raw[i].cpu.bits)
}

pub open spec fn sorted_by_load(s: Seq<ProcessInfo>) -> bool {
    forall|i: int, j: int| 0 <= i < j < s.len() ==> load_rank(s[i].cpu.bits) >= load_rank(s[j].cpu.bits)
}

/// `s` describes `m` in everything but its timestamp.
pub open spec fn describes(s: SystemSnapshot, m: RawMetrics) -> bool {
    &&& s.cpu == CpuInfo { usage: m.cpu_usage, core_count: m.core_count }
    &&& s.memory == MemInfo {
        total_mb: mebibytes(m.total_memory_bytes),
        used_mb: mebibytes(m.used_memory_bytes),
        free_mb: mebibytes(m.free_memory_bytes),
    }
    &&& s.top_processes@ == top_processes(m.processes@)
}

proof fn lemma_rank_position(s: Seq<ProcessInfo>, load: int, j: int)
    requires
        0 <= j <= s.len(),
        forall|t: int| 0 <= t < j ==> load_rank(s[t].cpu.bits) >= load,
        j == s.len() || load_rank(s[j].cpu.bits) < load,
    ensures
        rank_position(s, load) == j,
    decreases s.len(),
{
    if s.len() > 0 && j > 0 {
        lemma_rank_position(s.drop_first(), load, j - 1);
    }
}

proof fn lemma_rank_position_bound(s: Seq<ProcessInfo>, load: int)
    ensures
        rank_position(s, load) <= s.len(),
        forall|t: int| 0 <= t < rank_position(s, load) ==> load_rank(s[t].cpu.bits) >= load,
        rank_position(s, load) < s.len() ==> load_rank(s[rank_position(s, load) as int].cpu.bits) < load,
    decreases s.len(),
{
    if s.len() > 0 && load_rank(s[0].cpu.bits) >= load {
        lemma_rank_position_bound(s.drop_first(), load);
        assert forall|t: int| 0 <= t < rank_position(s, load) implies load_rank(s[t].cpu.bits) >= load by {
            if t > 0 {
                assert(s[t] == s.drop_first()[t - 1]);
            }
        }
    }
}

/// Ranking puts the processes in decreasing order of load and keeps all of them.
pub proof fn lemma_ranked(s: Seq<ProcessInfo>)
    ensures
        sorted_by_load(ranked(s)),
        ranked(s).to_multiset() == s.to_multiset(),
        ranked(s).len() == s.len(),
    decreases s.len(),
{
    broadcast use vstd::seq_lib::to_multiset_insert, vstd::seq_lib::to_multiset_build;

    if s.len() > 0 {
        let r = ranked(s.drop_last());
        lemma_ranked(s.drop_last());
        let x = s.last();
        let p = rank_position(r, load_rank(x.cpu.bits));
        lemma_rank_position_bound(r, load_rank(x.cpu.bits));
        let q = r.insert(p as int, x);
        assert(sorted_by_load(q)) by {
            assert forall|i: int, j: int| 0 <= i < j < q.len() implies load_rank(q[i].cpu.bits)
                >= load_rank(q[j].cpu.bits) by {
                if j < p {
                } else if j == p {
                } else if i < p {
                    assert(load_rank(r[i].cpu.bits) >= load_rank(x.cpu.bits));
                    if p < r.len() {
                        assert(load_rank(r[p as int].cpu.bits) >= load_rank(r[j - 1].cpu.bits));
                    }
                } else if i == p {
                    assert(load_rank(r[p as int].cpu.bits) < load_rank(x.cpu.bits));
                    assert(load_rank(r[p as int].cpu.bits) >= load_rank(r[j - 1].cpu.bits) || p == j - 1);
                } else {
                }
            }
        }
        assert(s.drop_last().push(x) =~= s);
    }
}

/// The listed processes: at most `TOP_COUNT` of them, in decreasing order of load,
/// each one of those reported.
pub proof fn lemma_top_processes(raw: Seq<RawProcess>)
    ensures
        top_processes(raw).len() == if raw.len() <= TOP_COUNT {
            raw.len()
        } else {
            TOP_COUNT as nat
        },
        sorted_by_load(top_processes(raw)),
        top_processes(raw).to_multiset().subset_of(
            raw.map_values(|p: RawProcess| process_of(p)).to_multiset(),
        ),
{
    broadcast use vstd::multiset::group_multiset_axioms;

    let all = raw.map_values(|p: RawProcess| process_of(p));
    let r = ranked(all);
    lemma_ranked(all);
    if r.len() > TOP_COUNT {
        let k = TOP_COUNT as int;
        assert(r =~= r.take(k) + r.skip(k));
        vstd::seq_lib::lemma_multiset_commutative(r.take(k), r.skip(k));
    }
}

/// Converts one reported process.
fn process_from(r: RawProcess) -> (p: ProcessInfo)
    ensures
        p == process_of(r),
{
    ProcessInfo {
        pid: r.pid,
        name: r.name,
        cpu: r.cpu,
        memory_mb: r.memory_bytes / 1024 / 1024,
    }
}

/// Ranks the reported processes and keeps the most loaded.
pub fn rank_processes(raw: Vec<RawProcess>) -> (top: Vec<ProcessInfo>)
    requires
        rankable(raw@),
    ensures
        top@ == top_processes(raw@),
{
    let ghost all = raw@.map_values(|p: RawProcess| process_of(p));
    let ghost n = raw@.len();
    let count = raw.len();
    let mut rest = raw;
    let mut sorted: Vec<ProcessInfo> = Vec::new();
    let mut i: usize = 0;
    assert(all.take(0) =~= Seq::<ProcessInfo>::empty());
    while rest.len() > 0
        invariant
            i <= n == raw@.len() == count,
            all == raw@.map_values(|p: RawProcess| process_of(p)),
            rest@ == raw@.skip(i as int),
            sorted@ == ranked(all.take(i as int)),
        decreases rest@.len(),
    {
        assert(raw@.skip(i as int).len() == n - i);
        let r = rest.remove(0);
        assert(r == raw@[i as int]);
        let p = process_from(r);
        let key = load_rank_of(p.cpu);
        let mut j: usize = 0;
        while j < sorted.len() && load_rank_of(sorted[j].cpu) >= key
            invariant
                j <= sorted@.len(),
                key == load_rank(p.cpu.bits),
                forall|t: int| 0 <= t < j ==> load_rank(sorted@[t].cpu.bits) >= key,
            decreases sorted@.len() - j,
        {
            j = j + 1;
        }
        proof {
            lemma_rank_position(sorted@, key as int, j as int);
            assert(all.take(i + 1).drop_last() =~= all.take(i as int));
            assert(all.take(i + 1).last() == p);
        }
        sorted.insert(j, p);
        i = i + 1;
        assert(rest@ =~= raw@.skip(i as int));
    }
    assert(all.take(i as int) =~= all);
    sorted.truncate(TOP_COUNT);
    sorted
}

/// The snapshot that `m` gives at time `timestamp`; it fails when no processor was seen.
pub fn snapshot_from_metrics(m: RawMetrics, timestamp: String) -> (r: Result<
    SystemSnapshot,
    SysWatchError,
>)
    requires
        m.core_count > 0 ==> rankable(m.processes@),
    ensures
        m.core_count == 0 <==> r is Err,
        r matches Err(e) ==> e matches SysWatchError::CollectionFailed(msg) && msg@
            == "Aucun CPU detecte"@,
        r matches Ok(s) ==> describes(s, m) && s.timestamp@ == timestamp@,
{
    if m.core_count == 0 {
        return Err(SysWatchError::CollectionFailed(String::from_str("Aucun CPU detecte")));
    }
    let cpu = CpuInfo { usage: m.cpu_usage, core_count: m.core_count };
    let memory = MemInfo {
        total_mb: m.total_memory_bytes / 1024 / 1024,
        used_mb: m.used_memory_bytes / 1024 / 1024,
        free_mb: m.free_memory_bytes / 1024 / 1024,
    };
    let top = rank_processes(m.processes);
    Ok(SystemSnapshot { timestamp, cpu, memory, top_processes: top })
}

/// The message of the error given when the clock cannot be read.
pub open spec fn unreadable_clock_message() -> Seq<char> {
    "Horloge systeme illisible"@
}

/// Builds the snapshot of `m`, stamped with the local time. It fails when no processor
/// was seen, and otherwise when the clock cannot be read.
pub fn snapshot_now(m: RawMetrics) -> (r: Result<SystemSnapshot, SysWatchError>)
    requires
        m.core_count > 0 ==> rankable(m.processes@),
    ensures
        m.core_count == 0 ==> r is Err,
        r matches Err(e) ==> e matches SysWatchError::CollectionFailed(msg) && msg@ == (if m.core_count
            == 0 {
            "Aucun CPU detecte"@
        } else {
            unreadable_clock_message()
        }),
        r matches Ok(s) ==> describes(s, m) && timestamp_shaped(s.timestamp@),
        r matches Ok(s) ==> exists|local: int| s.timestamp@ == #[trigger] clock_text(local),
{
    if m.core_count == 0 {
        return snapshot_from_metrics(m, String::new());
    }
    match local_timestamp() {
        Some((timestamp, _)) => snapshot_from_metrics(m, timestamp),
        None => {
            let msg = String::from_str("Horloge systeme illisible");
            proof {
                reveal_strlit("Horloge systeme illisible");
            }
            Err(SysWatchError::CollectionFailed(msg))
        },
    }
}

/// Seconds between two refreshes of the shared snapshot.
pub const REFRESH_PERIOD_SECS: u64 = 5;

/// Takes the outcome of a periodic collection: a new snapshot replaces the shared one,
/// an error leaves it as it was. Returns the line to report and whether it reports an
/// error (for the error stream).
pub fn apply_refresh(shared: &mut SystemSnapshot, outcome: Result<SystemSnapshot, SysWatchError>) -> (r: (
    String,
    bool,
))
    ensures
        match outcome {
            Ok(s) => *final(shared) == s && r.0@ == refresh_report_text(None) && !r.1,
            Err(e) => *final(shared) == *old(shared) && r.0@ == refresh_report_text(Some(e))
                && r.1,
        },
{
    match outcome {
        Ok(s) => {
            *shared = s;
            (refresh_report(None), false)
        },
        Err(e) => (refresh_report(Some(&e)), true),
    }
}

/// What the periodic refresh reports: an update, or the error that prevented it.
pub open spec fn refresh_report_text(failure: Option<SysWatchError>) -> Seq<char> {
    match failure {
        None => "[refresh] Metriques mises a jour"@,
        Some(e) => "[refresh] Erreur: "@ + error_text(e),
    }
}

pub fn refresh_report(failure: Option<&SysWatchError>) -> (r: String)
    ensures
        r@ == refresh_report_text(match failure {
            Some(e) => Some(*e),
            None => None,
        }),
{
    match failure {
        None => String::from_str("[refresh] Metriques mises a jour"),
        Some(e) => {
            let mut r = String::from_str("[refresh] Erreur: ");
            r.append(e.display_text().as_str());
            r
        },
    }
}

} // verus!
