use syswatch::command::{finish_reply, format_response, setup_utf8_console, Job, ProgramCall, ProgramOutcome, Response};
use syswatch::load::{load_cells_of, load_rank_of, load_string, Load};
use syswatch::model::{CpuInfo, MemInfo, ProcessInfo, SysWatchError, SystemSnapshot};

fn make_test_snapshot() -> SystemSnapshot {
    SystemSnapshot {
        timestamp: "2026-01-01 00:00:00".to_string(),
        cpu: CpuInfo { usage: pct(45.0), core_count: 4 },
        memory: MemInfo { total_mb: 16384, used_mb: 8192, free_mb: 8192 },
        top_processes: vec![
            ProcessInfo { pid: 1000, name: "chrome.exe".to_string(), cpu: pct(12.5), memory_mb: 512 },
            ProcessInfo { pid: 2000, name: "code.exe".to_string(), cpu: pct(8.3), memory_mb: 256 },
        ],
    }
}

fn pct(x: f32) -> Load {
    Load { bits: x.to_bits() }
}

fn reply(r: Response) -> String {
    match r {
        Response::Reply(t) => t,
        _ => panic!("expected a direct reply"),
    }
}

fn call_parts(c: &ProgramCall) -> (String, Vec<String>) {
    (c.program.clone(), c.args.clone())
}

#[test]
fn test_cpu_info_display() {
    let cpu = CpuInfo { usage: pct(42.5), core_count: 8 };
    let display = cpu.display_text();
    assert!(display.contains("42.5%"));
    assert!(display.contains("8"));
}

#[test]
fn test_mem_info_display() {
    let mem = MemInfo { total_mb: 16384, used_mb: 8192, free_mb: 8192 };
    let display = mem.display_text();
    assert!(display.contains("8192"));
    assert!(display.contains("16384"));
}

#[test]
fn test_process_info_display() {
    let proc_info = ProcessInfo { pid: 1234, name: "test.exe".to_string(), cpu: pct(5.5), memory_mb: 128 };
    let display = proc_info.display_text();
    assert!(display.contains("1234"));
    assert!(display.contains("test.exe"));
    assert!(display.contains("5.5"));
}

#[test]
fn test_snapshot_display() {
    let snap = make_test_snapshot();
    let display = snap.display_text();
    assert!(display.contains("SysWatch"));
    assert!(display.contains("2026-01-01"));
    assert!(display.contains("chrome.exe"));
}

#[test]
fn test_format_cpu() {
    let snap = make_test_snapshot();
    let result = reply(format_response(&snap, "cpu"));
    assert!(result.contains("[CPU]"));
    assert!(result.contains("45.0%"));
}

#[test]
fn test_format_mem() {
    let snap = make_test_snapshot();
    let result = reply(format_response(&snap, "mem"));
    assert!(result.contains("[MEMOIRE]") || result.contains("MEM"));
}

#[test]
fn test_format_ps() {
    let snap = make_test_snapshot();
    let result = reply(format_response(&snap, "ps"));
    assert!(result.contains("PROCESSUS"));
    assert!(result.contains("chrome.exe"));
}

#[test]
fn test_format_all() {
    let snap = make_test_snapshot();
    let result = reply(format_response(&snap, "all"));
    assert!(result.contains("SysWatch"));
}

#[test]
fn test_format_help() {
    let snap = make_test_snapshot();
    let result = reply(format_response(&snap, "help"));
    assert!(result.contains("cpu"));
    assert!(result.contains("mem"));
    assert!(result.contains("exec"));
    assert!(result.contains("kill"));
    assert!(result.contains("lock"));
    assert!(result.contains("quit"));
}

#[test]
fn test_format_quit() {
    let snap = make_test_snapshot();
    let result = reply(format_response(&snap, "quit"));
    assert_eq!(result, "BYE\n");
}

#[test]
fn test_format_unknown_command() {
    let snap = make_test_snapshot();
    let result = reply(format_response(&snap, "xyz123"));
    assert!(result.contains("Commande inconnue"));
    assert!(result.contains("xyz123"));
}

#[test]
fn test_format_command_case_insensitive() {
    let snap = make_test_snapshot();
    let result = reply(format_response(&snap, "CPU"));
    assert!(result.contains("[CPU]"));
}

#[test]
fn test_syswatcherror_display() {
    let err = SysWatchError::CollectionFailed("test erreur".to_string());
    let msg = err.display_text();
    assert!(msg.contains("test erreur"));
}

#[test]
fn test_exec_command_response() {
    let snap = make_test_snapshot();
    match format_response(&snap, "exec echo hello") {
        Response::Run(call, job) => {
            assert_eq!(call_parts(&call), ("cmd".to_string(), vec!["/C".to_string(), "echo hello".to_string()]));
            assert_eq!(job, Job::Exec);
            let outcome = ProgramOutcome::Finished {
                success: true,
                stdout: "hello\r\n".to_string(),
                stderr: String::new(),
            };
            let result = finish_reply(job, &outcome);
            assert!(result.contains("hello") || result.contains("executee"),
                "exec echo hello devrait renvoyer hello");
        }
        _ => panic!("exec must run a program"),
    }
}

#[test]
fn test_kill_invalid_pid() {
    let snap = make_test_snapshot();
    let result = reply(format_response(&snap, "kill abc"));
    assert!(result.contains("PID invalide"));
}

#[test]
fn cpu_report_exact() {
    let snap = make_test_snapshot();
    let result = reply(format_response(&snap, "  cpu \n"));
    assert_eq!(result, "[CPU]\nCPU: 45.0% (4 coeurs)\n\nHistorique:\n####...... 45.0%\n");
}

#[test]
fn mem_report_exact() {
    let snap = make_test_snapshot();
    let result = reply(format_response(&snap, "MEM"));
    assert_eq!(
        result,
        "[MEMOIRE]\nMEM: 8192MB utilises / 16384MB total (8192 MB libres)\n[##########..........] 50.0%\n"
    );
}

#[test]
fn mem_report_rounds_and_handles_zero_total() {
    let mut snap = make_test_snapshot();
    snap.memory = MemInfo { total_mb: 3, used_mb: 1, free_mb: 2 };
    let result = reply(format_response(&snap, "mem"));
    assert!(result.ends_with("[######..............] 33.3%\n"));
    snap.memory = MemInfo { total_mb: 0, used_mb: 0, free_mb: 0 };
    let result = reply(format_response(&snap, "mem"));
    assert!(result.ends_with("[....................] NaN%\n"));
    snap.memory = MemInfo { total_mb: 0, used_mb: 5, free_mb: 0 };
    let result = reply(format_response(&snap, "mem"));
    assert!(result.ends_with("[####################] inf%\n"));
}

#[test]
fn ps_report_exact() {
    let snap = make_test_snapshot();
    let result = reply(format_response(&snap, "procs"));
    assert_eq!(
        result,
        "[PROCESSUS -- Top 2]\n1.   [  1000] chrome.exe                CPU: 12.5%  MEM:  512MB\n2.   [  2000] code.exe                  CPU:  8.3%  MEM:  256MB\n"
    );
}

#[test]
fn snapshot_display_exact() {
    let snap = make_test_snapshot();
    assert_eq!(
        snap.display_text(),
        "=== SysWatch -- 2026-01-01 00:00:00 ===\nCPU: 45.0% (4 coeurs)\nMEM: 8192MB utilises / 16384MB total (8192 MB libres)\n--- Top Processus ---\n  [  1000] chrome.exe                CPU: 12.5%  MEM:  512MB\n  [  2000] code.exe                  CPU:  8.3%  MEM:  256MB\n====================="
    );
}

#[test]
fn empty_command_shows_everything() {
    let snap = make_test_snapshot();
    let result = reply(format_response(&snap, "   "));
    assert_eq!(result, format!("{}\n", snap.display_text()));
}

#[test]
fn unknown_command_keeps_typed_case() {
    let snap = make_test_snapshot();
    let result = reply(format_response(&snap, "  HeLLo  "));
    assert_eq!(result, "Commande inconnue: 'HeLLo'. Tape 'help'.\n");
}

#[test]
fn exit_says_bye() {
    let snap = make_test_snapshot();
    assert_eq!(reply(format_response(&snap, "EXIT")), "BYE\n");
}

#[test]
fn kill_with_valid_pid_runs_taskkill() {
    let snap = make_test_snapshot();
    match format_response(&snap, "kill  +0042 ") {
        Response::Run(call, job) => {
            assert_eq!(
                call_parts(&call),
                ("taskkill".to_string(), vec!["/PID".to_string(), "42".to_string(), "/F".to_string()])
            );
            assert_eq!(job, Job::Kill(42));
            let ok = ProgramOutcome::Finished { success: true, stdout: "fait".to_string(), stderr: String::new() };
            assert_eq!(finish_reply(job, &ok), "Processus 42 termine.\nfait");
            let bad = ProgramOutcome::Finished { success: false, stdout: String::new(), stderr: "refus".to_string() };
            assert_eq!(finish_reply(job, &bad), "Echec kill PID 42: refus\n");
            let failed = ProgramOutcome::Failed("absent".to_string());
            assert_eq!(finish_reply(job, &failed), "Erreur taskkill: absent\n");
        }
        _ => panic!("kill must run taskkill"),
    }
}

#[test]
fn kill_rejects_out_of_range_and_signs() {
    let snap = make_test_snapshot();
    assert_eq!(reply(format_response(&snap, "kill 4294967296")), "PID invalide: '4294967296'\n");
    assert_eq!(reply(format_response(&snap, "kill -1")), "PID invalide: '-1'\n");
    assert_eq!(reply(format_response(&snap, "kill +")), "PID invalide: '+'\n");
    match format_response(&snap, "kill 4294967295") {
        Response::Run(_, job) => assert_eq!(job, Job::Kill(4294967295)),
        _ => panic!("the largest pid is valid"),
    }
}

#[test]
fn exec_outcomes() {
    let both = ProgramOutcome::Finished { success: true, stdout: "a".to_string(), stderr: "b".to_string() };
    assert_eq!(finish_reply(Job::Exec, &both), "a[STDERR] b");
    let none = ProgramOutcome::Finished { success: false, stdout: String::new(), stderr: String::new() };
    assert_eq!(finish_reply(Job::Exec, &none), "(commande executee, pas de sortie)\n");
    let failed = ProgramOutcome::Failed("introuvable".to_string());
    assert_eq!(finish_reply(Job::Exec, &failed), "Erreur execution: introuvable\n");
}

#[test]
fn users_outcomes() {
    let snap = make_test_snapshot();
    match format_response(&snap, "users") {
        Response::Run(call, job) => {
            assert_eq!(call_parts(&call), ("query".to_string(), vec!["user".to_string()]));
            let empty = ProgramOutcome::Finished { success: true, stdout: String::new(), stderr: String::new() };
            assert_eq!(finish_reply(job, &empty), "Aucun utilisateur connecte.\n");
            let some = ProgramOutcome::Finished { success: true, stdout: "bob".to_string(), stderr: String::new() };
            assert_eq!(finish_reply(job, &some), "[UTILISATEURS]\nbob\n");
            let failed = ProgramOutcome::Failed("x".to_string());
            assert_eq!(finish_reply(job, &failed), "Erreur query user: x\n");
        }
        _ => panic!("users must run query"),
    }
}

#[test]
fn power_commands_launch_shutdown() {
    let snap = make_test_snapshot();
    match format_response(&snap, "shutdown") {
        Response::Launch(call, text) => {
            assert_eq!(
                call_parts(&call),
                ("shutdown".to_string(), vec!["/s".to_string(), "/t".to_string(), "5".to_string()])
            );
            assert_eq!(text, "SHUTDOWN programme dans 5 secondes.\n");
        }
        _ => panic!("shutdown must launch"),
    }
    match format_response(&snap, "Reboot") {
        Response::Launch(call, text) => {
            assert_eq!(call.args, vec!["/r".to_string(), "/t".to_string(), "5".to_string()]);
            assert_eq!(text, "REBOOT programme dans 5 secondes.\n");
        }
        _ => panic!("reboot must launch"),
    }
    match format_response(&snap, "abort") {
        Response::Launch(call, text) => {
            assert_eq!(call.args, vec!["/a".to_string()]);
            assert_eq!(text, "Extinction annulee.\n");
        }
        _ => panic!("abort must launch"),
    }
    match format_response(&snap, "lock") {
        Response::Launch(call, text) => {
            assert_eq!(call_parts(&call), ("rundll32.exe".to_string(), vec!["user32.dll,LockWorkStation".to_string()]));
            assert_eq!(text, "Poste verrouille.\n");
        }
        _ => panic!("lock must launch"),
    }
}

#[test]
fn install_runs_winget_in_background() {
    let snap = make_test_snapshot();
    match format_response(&snap, "install   Firefox") {
        Response::LaunchInBackground(call, text) => {
            assert_eq!(
                call_parts(&call),
                ("winget".to_string(), vec!["install".to_string(), "--silent".to_string(), "Firefox".to_string()])
            );
            assert_eq!(text, "Installation de '  Firefox' lancee en arriere-plan.\n");
        }
        _ => panic!("install must launch in background"),
    }
}

#[test]
fn msg_prints_a_banner() {
    let snap = make_test_snapshot();
    match format_response(&snap, "msg Bonjour") {
        Response::Announce(banner, text) => {
            assert_eq!(
                banner,
                format!(
                    "\n+======================================+\n| MESSAGE DU PROFESSEUR                |\n| Bonjour{}|\n+======================================+\n\n",
                    " ".repeat(31)
                )
            );
            assert_eq!(text, "Message affiche sur la machine cible.\n");
        }
        _ => panic!("msg must announce"),
    }
}

#[test]
fn msg_banner_pads_by_bytes() {
    let snap = make_test_snapshot();
    match format_response(&snap, "msg \u{e9}t\u{e9}") {
        Response::Announce(banner, _) => {
            let line = banner.lines().nth(3).unwrap().to_string();
            assert_eq!(line, format!("| \u{e9}t\u{e9}{}|", " ".repeat(33)));
        }
        _ => panic!("msg must announce"),
    }
}

#[test]
fn console_setup_only_on_windows() {
    let c = setup_utf8_console(true).unwrap();
    assert_eq!(call_parts(&c), ("cmd".to_string(), vec!["/C".to_string(), "chcp".to_string(), "65001".to_string()]));
    assert!(setup_utf8_console(false).is_none());
}

fn sample_loads() -> Vec<f32> {
    let mut v = vec![
        0.0, -0.0, 0.04, 0.05, 0.15, 0.25, 0.35, 0.45, 6.25, 19.96, 19.999998, 20.0, 99.95, 99.99,
        100.0, 1e-45, f32::MIN_POSITIVE, 1e10, f32::MAX, -1.5, -0.04, -99.95, 1234.55, 0.95,
        f32::NAN, -f32::NAN, f32::INFINITY, f32::NEG_INFINITY,
    ];
    for i in 0..4000u32 {
        v.push(i as f32 * 0.025);
    }
    for k in 0..60000u32 {
        v.push(f32::from_bits(k.wrapping_mul(71_582)));
    }
    v
}

#[test]
fn load_text_is_float_formatting() {
    for x in sample_loads() {
        assert_eq!(load_string(pct(x)), format!("{:.1}", x), "bits {:#x}", x.to_bits());
    }
}

#[test]
fn load_cells_are_float_division() {
    for x in sample_loads() {
        let expected = ((x / 10.0) as usize).min(10) as u64;
        assert_eq!(load_cells_of(pct(x)), expected, "bits {:#x}", x.to_bits());
    }
}

#[test]
fn load_rank_is_float_order() {
    let xs: Vec<f32> = sample_loads().into_iter().filter(|x| !x.is_nan()).step_by(37).collect();
    for a in &xs {
        for b in &xs {
            let by_float = a.partial_cmp(b).unwrap();
            let by_rank = load_rank_of(pct(*a)).cmp(&load_rank_of(pct(*b)));
            assert_eq!(by_float, by_rank, "{} {}", a, b);
        }
    }
}

#[test]
fn cpu_bar_follows_exact_load() {
    let mut snap = make_test_snapshot();
    snap.cpu.usage = pct(19.96);
    let result = reply(format_response(&snap, "cpu"));
    assert!(result.ends_with("#......... 20.0%\n"));
}

#[test]
fn mem_report_is_float_formatting() {
    let mut snap = make_test_snapshot();
    for total in 1..120u64 {
        for used in 0..(total + 3) {
            snap.memory = MemInfo { total_mb: total, used_mb: used, free_mb: 0 };
            let percent = (used as f64 / total as f64) * 100.0;
            let bar: String = (0..20).map(|i| if i < (percent / 5.0) as usize { '#' } else { '.' }).collect();
            let expected = format!(
                "[MEMOIRE]\n{}\n[{}] {:.1}%\n",
                snap.memory.display_text(),
                bar,
                percent
            );
            assert_eq!(reply(format_response(&snap, "mem")), expected, "{}/{}", used, total);
        }
    }
}

#[test]
fn mem_percent_ties_go_to_even() {
    let mut snap = make_test_snapshot();
    snap.memory = MemInfo { total_mb: 16, used_mb: 1, free_mb: 15 };
    assert!(reply(format_response(&snap, "mem")).ends_with(" 6.2%\n"));
}

#[test]
fn mem_report_large_counts_follow_doubles() {
    let mut snap = make_test_snapshot();
    let mut x: u64 = 0x9E37_79B9_7F4A_7C15;
    for _ in 0..4000 {
        x = x.wrapping_mul(6364136223846793005).wrapping_add(1442695040888963407);
        let total = (x >> (x % 50)) | 1;
        x = x.wrapping_mul(6364136223846793005).wrapping_add(1442695040888963407);
        let used = if x % 3 == 0 { total.wrapping_sub(x % 7) } else { x >> (x % 60) };
        snap.memory = MemInfo { total_mb: total, used_mb: used, free_mb: 0 };
        let percent = (used as f64 / total as f64) * 100.0;
        let bar: String = (0..20).map(|i| if i < (percent / 5.0) as usize { '#' } else { '.' }).collect();
        let expected = format!(
            "[MEMOIRE]\n{}\n[{}] {:.1}%\n",
            snap.memory.display_text(),
            bar,
            percent
        );
        assert_eq!(reply(format_response(&snap, "mem")), expected, "{}/{}", used, total);
    }
}

#[test]
fn exec_passes_the_command_as_typed() {
    let snap = make_test_snapshot();
    for line in ["exec echo Hi", "EXEC echo Hi", "  Exec echo Hi  "] {
        match format_response(&snap, line) {
            Response::Run(call, job) => {
                assert_eq!(call_parts(&call), ("cmd".to_string(), vec!["/C".to_string(), "echo Hi".to_string()]));
                assert_eq!(job, Job::Exec);
            }
            _ => panic!("exec must run a program"),
        }
    }
}

#[test]
fn msg_and_install_keep_typed_case() {
    let snap = make_test_snapshot();
    match format_response(&snap, "MSG Salut A Tous") {
        Response::Announce(banner, _) => assert!(banner.contains("| Salut A Tous ")),
        _ => panic!("msg must announce"),
    }
    match format_response(&snap, "Install VLC") {
        Response::LaunchInBackground(call, text) => {
            assert_eq!(call_parts(&call).1[2], "VLC");
            assert_eq!(text, "Installation de 'VLC' lancee en arriere-plan.\n");
        }
        _ => panic!("install must launch in background"),
    }
}
