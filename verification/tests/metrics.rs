use syswatch::clock::{log_line, stamped_log_line};
use syswatch::load::Load;
use syswatch::model::{ProcessInfo, SysWatchError};
use syswatch::snapshot::{rank_processes, refresh_report, snapshot_from_metrics, snapshot_now, RawMetrics, RawProcess};
use sysinfo::System;

fn load(x: f32) -> Load {
    Load { bits: x.to_bits() }
}

/// Reads the machine the tests run on.
fn read_system() -> RawMetrics {
    let mut sys = System::new_all();
    sys.refresh_all();
    RawMetrics {
        cpu_usage: load(sys.global_cpu_info().cpu_usage()),
        core_count: sys.cpus().len(),
        total_memory_bytes: sys.total_memory(),
        used_memory_bytes: sys.used_memory(),
        free_memory_bytes: sys.free_memory(),
        processes: sys
            .processes()
            .values()
            .map(|p| RawProcess {
                pid: p.pid().as_u32(),
                name: p.name().to_string(),
                cpu: load(p.cpu_usage()),
                memory_bytes: p.memory(),
            })
            .collect(),
    }
}

fn raw(pid: u32, cpu: f32, memory_bytes: u64) -> RawProcess {
    RawProcess { pid, name: format!("p{}", pid), cpu: load(cpu), memory_bytes }
}

fn metrics(processes: Vec<RawProcess>) -> RawMetrics {
    RawMetrics {
        cpu_usage: load(12.3),
        core_count: 8,
        total_memory_bytes: 16 * 1024 * 1024 * 1024,
        used_memory_bytes: 3 * 1024 * 1024 + 1,
        free_memory_bytes: 1024 * 1024 - 1,
        processes,
    }
}

#[test]
fn test_collect_snapshot_succeeds() {
    let result = snapshot_now(read_system());
    assert!(result.is_ok(), "collect_snapshot devrait reussir");
    let snap = result.unwrap();
    assert!(snap.cpu.core_count > 0);
    assert!(snap.memory.total_mb > 0);
    assert!(snap.top_processes.len() <= 5);
}

#[test]
fn test_snapshot_processes_sorted_by_cpu() {
    let result = snapshot_now(read_system()).unwrap();
    for w in result.top_processes.windows(2) {
        assert!(f32::from_bits(w[0].cpu.bits) >= f32::from_bits(w[1].cpu.bits),
            "Les processus doivent etre tries par CPU decroissant");
    }
}

#[test]
fn snapshot_converts_memory_to_mebibytes() {
    let snap = snapshot_from_metrics(metrics(vec![]), "t".to_string()).unwrap();
    assert_eq!(snap.memory.total_mb, 16384);
    assert_eq!(snap.memory.used_mb, 3);
    assert_eq!(snap.memory.free_mb, 0);
    assert_eq!(snap.cpu.usage, load(12.3));
    assert_eq!(snap.cpu.core_count, 8);
    assert_eq!(snap.timestamp, "t");
    assert!(snap.top_processes.is_empty());
}

#[test]
fn snapshot_without_processor_fails() {
    let mut m = metrics(vec![raw(1, 0.5, 0)]);
    m.core_count = 0;
    match snapshot_from_metrics(m, "t".to_string()) {
        Err(SysWatchError::CollectionFailed(msg)) => assert_eq!(msg, "Aucun CPU detecte"),
        Ok(_) => panic!("no processor must fail"),
    }
}

#[test]
fn ranking_keeps_top_five_most_loaded_stably() {
    let top = rank_processes(vec![
        raw(1, 1.0, 0),
        raw(2, 5.0, 2 * 1024 * 1024),
        raw(3, 1.0, 0),
        raw(4, 7.0, 0),
        raw(5, 0.0, 0),
        raw(6, 5.0, 0),
        raw(7, 1.0, 0),
    ]);
    let pids: Vec<u32> = top.iter().map(|p| p.pid).collect();
    assert_eq!(pids, vec![4, 2, 6, 1, 3]);
    assert_eq!(top[1].memory_mb, 2);
    assert_eq!(top[1].name, "p2");
}

#[test]
fn ranking_fewer_than_five() {
    let top = rank_processes(vec![raw(1, 0.1, 0), raw(2, 0.2, 0)]);
    let pids: Vec<u32> = top.iter().map(|p| p.pid).collect();
    assert_eq!(pids, vec![2, 1]);
}

#[test]
fn refresh_reports() {
    assert_eq!(refresh_report(None), "[refresh] Metriques mises a jour");
    let e = SysWatchError::CollectionFailed("x".to_string());
    assert_eq!(refresh_report(Some(&e)), "[refresh] Erreur: Erreur collecte: x");
}

#[test]
fn journal_lines() {
    assert_eq!(log_line("2026-01-01 00:00:00", "[+] Connexion de a"), "[2026-01-01 00:00:00] [+] Connexion de a\n");
    let line = stamped_log_line("bonjour");
    assert!(line.starts_with('['));
    assert!(line.ends_with("] bonjour\n"));
    assert_eq!(line.len(), "[2026-01-01 00:00:00] bonjour\n".len());
}

#[test]
fn ranking_follows_exact_loads() {
    // Loads within the same tenth keep their exact order; -0.0 ranks with 0.0.
    let top = rank_processes(vec![
        raw(1, 3.01, 0),
        raw(2, 3.04, 0),
        raw(3, -0.0, 0),
        raw(4, 3.02, 0),
        raw(5, 0.0, 0),
        raw(6, -1.0, 0),
    ]);
    let pids: Vec<u32> = top.iter().map(|p| p.pid).collect();
    assert_eq!(pids, vec![2, 4, 1, 3, 5]);
}

#[test]
fn ranking_is_the_stable_float_sort() {
    let loads: Vec<f32> = (0..60u32).map(|i| ((i * 7919) % 23) as f32 * 0.37 - 1.0).collect();
    let procs: Vec<RawProcess> = loads.iter().enumerate().map(|(i, x)| raw(i as u32, *x, 0)).collect();
    let mut expected: Vec<(u32, f32)> = loads.iter().enumerate().map(|(i, x)| (i as u32, *x)).collect();
    expected.sort_by(|a, b| b.1.partial_cmp(&a.1).unwrap());
    expected.truncate(5);
    let top: Vec<ProcessInfo> = rank_processes(procs);
    let got: Vec<u32> = top.iter().map(|p| p.pid).collect();
    let want: Vec<u32> = expected.iter().map(|p| p.0).collect();
    assert_eq!(got, want);
}
