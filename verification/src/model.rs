//! The metrics a snapshot holds and their human-readable rendering.
//!
//! Processor loads are `Load`s: the exact `f32` the system reports.
use vstd::prelude::*;
use crate::load::{load_string, load_text, push_load, Load};
use crate::text::{decimal, pad_left, pad_right, push_decimal, push_padded_left, push_padded_right,
    decimal_string};

verus! {

/// Global processor load and number of cores.
#[derive(Debug, Clone)]
pub struct CpuInfo {
    /// Load in percent.
    pub usage: Load,
    pub core_count: usize,
}

/// Memory figures in mebibytes.
#[derive(Debug, Clone)]
pub struct MemInfo {
    pub total_mb: u64,
    pub used_mb: u64,
    pub free_mb: u64,
}

/// One process of the top list.
#[derive(Debug, Clone)]
pub struct ProcessInfo {
    pub pid: u32,
    pub name: String,
    /// Processor load in percent.
    pub cpu: Load,
    pub memory_mb: u64,
}

/// Everything the agent reports at one moment.
#[derive(Debug, Clone)]
pub struct SystemSnapshot {
    pub timestamp: String,
    pub cpu: CpuInfo,
    pub memory: MemInfo,
    pub top_processes: Vec<ProcessInfo>,
}

/// Failures while collecting metrics.
#[derive(Debug)]
pub enum SysWatchError {
    CollectionFailed(String),
}

/// `CPU: 42.5% (8 coeurs)`
pub open spec fn cpu_text(c: CpuInfo) -> Seq<char> {
    "CPU: "@ + load_text(c.usage.bits) + "% ("@ + decimal(c.core_count as nat)
        + " coeurs)"@
}

/// `MEM: 8192MB utilises / 16384MB total (8192 MB libres)`
pub open spec fn mem_text(m: MemInfo) -> Seq<char> {
    "MEM: "@ + decimal(m.used_mb as nat) + "MB utilises / "@ + decimal(m.total_mb as nat)
        + "MB total ("@ + decimal(m.free_mb as nat) + " MB libres)"@
}

/// `  [  1234] test.exe                  CPU:  5.5%  MEM:  128MB`
pub open spec fn process_text(p: ProcessInfo) -> Seq<char> {
    "  ["@ + pad_left(decimal(p.pid as nat), 6) + "] "@ + pad_right(p.name@, 25) + " CPU:"@
        + pad_left(load_text(p.cpu.bits), 5) + "%  MEM:"@ + pad_left(
        decimal(p.memory_mb as nat),
        5,
    ) + "MB"@
}

/// Each process on a line of its own, each line ended by a newline.
pub open spec fn process_lines(ps: Seq<ProcessInfo>) -> Seq<char>
    decreases ps.len(),
{
    if ps.len() == 0 {
        Seq::empty()
    } else {
        process_lines(ps.drop_last()) + process_text(ps.last()) + "\n"@
    }
}

/// The full report: header, processor, memory, then the top processes.
pub open spec fn snapshot_text(s: SystemSnapshot) -> Seq<char> {
    "=== SysWatch -- "@ + s.timestamp@ + " ===\n"@ + cpu_text(s.cpu) + "\n"@ + mem_text(s.memory)
        + "\n"@ + "--- Top Processus ---\n"@ + process_lines(s.top_processes@)
        + "====================="@
}

/// `Erreur collecte: <message>`
pub open spec fn error_text(e: SysWatchError) -> Seq<char> {
    match e {
        SysWatchError::CollectionFailed(msg) => "Erreur collecte: "@ + msg@,
    }
}

pub fn push_cpu(out: &mut String, c: &CpuInfo)
    ensures
        final(out)@ == old(out)@ + cpu_text(*c),
{
    out.append("CPU: ");
    push_load(out, c.usage);
    out.append("% (");
    push_decimal(out, c.core_count as u128);
    out.append(" coeurs)");
    assert(final(out)@ =~= old(out)@ + cpu_text(*c));
}

pub fn push_mem(out: &mut String, m: &MemInfo)
    ensures
        final(out)@ == old(out)@ + mem_text(*m),
{
    out.append("MEM: ");
    push_decimal(out, m.used_mb as u128);
    out.append("MB utilises / ");
    push_decimal(out, m.total_mb as u128);
    out.append("MB total (");
    push_decimal(out, m.free_mb as u128);
    out.append(" MB libres)");
    assert(final(out)@ =~= old(out)@ + mem_text(*m));
}

pub fn push_process(out: &mut String, p: &ProcessInfo)
    ensures
        final(out)@ == old(out)@ + process_text(*p),
{
    out.append("  [");
    push_padded_left(out, &decimal_string(p.pid as u64), 6);
    out.append("] ");
    push_padded_right(out, &p.name, 25);
    out.append(" CPU:");
    push_padded_left(out, &load_string(p.cpu), 5);
    out.append("%  MEM:");
    push_padded_left(out, &decimal_string(p.memory_mb), 5);
    out.append("MB");
    assert(final(out)@ =~= old(out)@ + process_text(*p));
}

pub fn push_snapshot(out: &mut String, s: &SystemSnapshot)
    ensures
        final(out)@ == old(out)@ + snapshot_text(*s),
{
    let ghost start = out@;
    out.append("=== SysWatch -- ");
    out.append(s.timestamp.as_str());
    out.append(" ===\n");
    push_cpu(out, &s.cpu);
    out.append("\n");
    push_mem(out, &s.memory);
    out.append("\n");
    out.append("--- Top Processus ---\n");
    let ghost head = out@;
    let ps = &s.top_processes;
    let mut i: usize = 0;
    assert(ps@.take(0) =~= Seq::<ProcessInfo>::empty());
    while i < ps.len()
        invariant
            i <= ps@.len(),
            out@ == head + process_lines(ps@.take(i as int)),
        decreases ps@.len() - i,
    {
        push_process(out, &ps[i]);
        out.append("\n");
        assert(ps@.take(i + 1).drop_last() =~= ps@.take(i as int));
        i = i + 1;
        assert(out@ =~= head + process_lines(ps@.take(i as int)));
    }
    assert(ps@.take(ps@.len() as int) =~= ps@);
    out.append("=====================");
    assert(out@ =~= start + snapshot_text(*s));
}

impl CpuInfo {
    /// The one-line rendering of the processor figures.
    pub fn display_text(&self) -> (r: String)
        ensures
            r@ == cpu_text(*self),
    {
        let mut r = String::new();
        push_cpu(&mut r, self);
        assert(r@ =~= cpu_text(*self));
        r
    }
}

impl MemInfo {
    /// The one-line rendering of the memory figures.
    pub fn display_text(&self) -> (r: String)
        ensures
            r@ == mem_text(*self),
    {
        let mut r = String::new();
        push_mem(&mut r, self);
        assert(r@ =~= mem_text(*self));
        r
    }
}

impl ProcessInfo {
    /// The one-line rendering of a process.
    pub fn display_text(&self) -> (r: String)
        ensures
            r@ == process_text(*self),
    {
        let mut r = String::new();
        push_process(&mut r, self);
        assert(r@ =~= process_text(*self));
        r
    }
}

impl SystemSnapshot {
    /// The full multi-line report.
    pub fn display_text(&self) -> (r: String)
        ensures
            r@ == snapshot_text(*self),
    {
        let mut r = String::new();
        push_snapshot(&mut r, self);
        assert(r@ =~= snapshot_text(*self));
        r
    }
}

impl SysWatchError {
    /// The message shown for this error.
    pub fn display_text(&self) -> (r: String)
        ensures
            r@ == error_text(*self),
    {
        match self {
            SysWatchError::CollectionFailed(msg) => {
                let mut r = String::from_str("Erreur collecte: ");
                r.append(msg.as_str());
                r
            },
        }
    }
}

} // verus!
