use syswatch::master::{
    agent_address, agent_name, command_line, first_line_or_empty, ipv4_string, login_check, menu_text,
    needs_reconnect, prompt_check, prompt_is_complete, scan_header, scan_summary, subnet_hosts, token_line, Console, Directive, Machine,
    ReplyCollector,
};
use syswatch::command::{format_response, Response};
use syswatch::load::Load;
use syswatch::model::{CpuInfo, MemInfo, SystemSnapshot};
use syswatch::session::{framed_response, ClientSession, SessionEvent, SessionState};

fn line(s: &str) -> SessionEvent {
    SessionEvent::Line(s.to_string())
}

#[test]
fn test_tcp_agent_auth_and_commands() {
    let mut s = ClientSession::new("127.0.0.1:5000".to_string());
    let greet = s.step(SessionEvent::Connected);
    assert_eq!(greet.send.as_deref(), Some("TOKEN: "));
    assert_eq!(greet.logs, vec!["[+] Connexion de 127.0.0.1:5000".to_string()]);

    let ok = s.step(line("ENSPD2026\n"));
    assert!(ok.send.as_deref().unwrap().contains("OK"), "Authentification doit reussir");
    assert_eq!(s.state(), SessionState::Ready);

    let help = s.step(line("help"));
    assert_eq!(help.dispatch.as_deref(), Some("help"));
    let snap = SystemSnapshot {
        timestamp: "2026-01-01 00:00:00".to_string(),
        cpu: CpuInfo { usage: Load { bits: 45.0f32.to_bits() }, core_count: 4 },
        memory: MemInfo { total_mb: 16384, used_mb: 8192, free_mb: 8192 },
        top_processes: vec![],
    };
    let answer = match format_response(&snap, help.dispatch.as_deref().unwrap()) {
        Response::Reply(t) => t,
        _ => panic!("help is answered at once"),
    };
    let sent = framed_response(&answer);
    let mut collector = ReplyCollector::new();
    for l in sent.split_inclusive('\n') {
        if collector.push_line(l) {
            break;
        }
    }
    let help_response = collector.text;
    assert!(help_response.contains("cpu"), "Help doit contenir cpu");
    assert!(help_response.contains("exec"), "Help doit contenir exec");
    assert!(help_response.contains("kill"), "Help doit contenir kill");
    assert_eq!(help.logs, vec!["[127.0.0.1:5000] commande: 'help'".to_string()]);
    assert!(help.send.is_none());

    let bye = s.step(line("quit"));
    assert!(bye.send.as_deref().unwrap().contains("BYE"));
    assert_eq!(
        bye.logs,
        vec!["[127.0.0.1:5000] commande: 'quit'".to_string(), "[-] Deconnexion de 127.0.0.1:5000".to_string()]
    );
    assert_eq!(s.state(), SessionState::Closed);
}

#[test]
fn test_tcp_agent_bad_token() {
    let mut s = ClientSession::new("peer".to_string());
    s.step(SessionEvent::Connected);
    let resp = s.step(line("WRONG_TOKEN\n"));
    assert!(resp.send.as_deref().unwrap().contains("UNAUTHORIZED"), "Mauvais token doit etre refuse");
    assert_eq!(resp.logs, vec!["[!] Acces refuse depuis peer".to_string()]);
    assert_eq!(s.state(), SessionState::Closed);
    let after = s.step(line("help"));
    assert!(after.send.is_none() && after.dispatch.is_none() && after.logs.is_empty());
}

#[test]
fn session_quit_is_case_insensitive_and_input_end_disconnects() {
    let mut s = ClientSession::new("p".to_string());
    s.step(SessionEvent::Connected);
    s.step(line("  ENSPD2026 \r\n"));
    assert_eq!(s.state(), SessionState::Ready);
    let cmd = s.step(line("  CPU  "));
    assert_eq!(cmd.dispatch.as_deref(), Some("CPU"));
    let bye = s.step(line(" QuIt "));
    assert_eq!(bye.send.as_deref(), Some("BYE\n"));

    let mut t = ClientSession::new("p".to_string());
    t.step(SessionEvent::Connected);
    t.step(line("ENSPD2026"));
    let end = t.step(SessionEvent::InputEnded);
    assert_eq!(end.logs, vec!["[-] Deconnexion de p".to_string()]);
    assert_eq!(t.state(), SessionState::Closed);

    let mut u = ClientSession::new("p".to_string());
    u.step(SessionEvent::Connected);
    let refused = u.step(SessionEvent::InputEnded);
    assert_eq!(refused.send.as_deref(), Some("UNAUTHORIZED\n"));
}

#[test]
fn framing() {
    assert_eq!(framed_response("BYE\n"), "BYE\n\nEND\n");
}

#[test]
fn handshake_checks() {
    assert!(prompt_check("TOKEN: ").is_ok());
    assert_eq!(prompt_check("  hello \n").unwrap_err(), "Prompt inattendu: hello");
    assert!(login_check("OK\n").is_ok());
    assert_eq!(login_check("NO\n").unwrap_err(), "Token refuse par l'agent");
    assert_eq!(token_line(), "ENSPD2026\n");
    assert_eq!(command_line("exec hostname"), "exec hostname\n");
}

#[test]
fn prompt_without_newline_is_complete() {
    assert!(prompt_is_complete("TOKEN: "));
    assert!(!prompt_is_complete("TOK"));
    assert!(prompt_is_complete("hello\n"));
}

#[test]
fn reply_collection_stops_at_end() {
    let mut c = ReplyCollector::new();
    assert!(!c.push_line("PC-01\r\n"));
    assert!(!c.push_line("\n"));
    assert!(c.push_line(" END \n"));
    assert_eq!(c.text, "PC-01\r\n\n");
}

#[test]
fn agent_names_and_addresses() {
    assert_eq!(agent_name("  PC-01\r\n", "10.0.0.2"), "PC-01");
    assert_eq!(agent_name(" \r\n", "10.0.0.2"), "Agent-10.0.0.2");
    assert_eq!(agent_address("10.0.0.2"), "10.0.0.2:7878");
    assert_eq!(ipv4_string([192, 168, 1, 50]), "192.168.1.50");
}

#[test]
fn subnet_scan_helpers() {
    let hosts = subnet_hosts([192, 168, 1, 50]);
    assert_eq!(hosts.len(), 254);
    assert_eq!(hosts[0], [192, 168, 1, 1]);
    assert_eq!(hosts[253], [192, 168, 1, 254]);
    let (a, b) = scan_header([10, 1, 2, 3]);
    assert_eq!(a, "  IP locale: 10.1.2.3");
    assert_eq!(b, "  Scan du sous-reseau 10.1.2.0/24 sur le port 7878...");
    assert_eq!(scan_summary(3), vec!["  3 agent(s) trouve(s).".to_string()]);
    assert_eq!(scan_summary(0).len(), 2);
}

#[test]
fn first_lines() {
    assert_eq!(first_line_or_empty(""), "(vide)");
    assert_eq!(first_line_or_empty("abc\r\ndef"), "abc");
    assert_eq!(first_line_or_empty("\nabc"), "");
    assert_eq!(first_line_or_empty("abc"), "abc");
}

#[test]
fn menu_lists_commands() {
    let m = menu_text();
    assert!(m.starts_with("\n+====="));
    assert!(m.contains("select <nom>"));
    assert!(m.ends_with("+=============================================+\n"));
}

fn print_text(d: Directive) -> String {
    match d {
        Directive::Print(t) => t,
        _ => panic!("expected text to print"),
    }
}

#[test]
fn console_add_list_select_forward() {
    let mut c = Console::new();
    assert!(matches!(c.handle("   "), Directive::Skip));
    assert_eq!(print_text(c.handle("list")), "Aucune machine connue. Lance 'scan' d'abord.");
    assert_eq!(print_text(c.handle("add PC-01 192.168.1.50")), "Machine ajoutee: PC-01 (192.168.1.50)");
    assert_eq!(print_text(c.handle("add PC-02")), "Usage: add <nom> <ip>  (ex: add PC-01 192.168.1.50)");
    assert_eq!(
        print_text(c.handle("cpu")),
        "Aucune machine selectionnee. Utilise 'scan' puis 'select <nom>'."
    );
    match c.handle("select PC-01") {
        Directive::Connect(name, ip) => {
            assert_eq!((name.as_str(), ip.as_str()), ("PC-01", "192.168.1.50"));
            assert!(c.connected(&name, true).is_none());
        }
        _ => panic!("select must connect"),
    }
    assert_eq!(print_text(c.handle("list")), "\nMachines connues:\n  PC-01 (192.168.1.50) <-- actif");
    match c.handle(" mem ") {
        Directive::Forward(name, ip, cmd) => {
            assert_eq!((name.as_str(), ip.as_str(), cmd.as_str()), ("PC-01", "192.168.1.50", "mem"));
        }
        _ => panic!("commands go to the selected machine"),
    }
    assert_eq!(
        print_text(c.handle("select PC-09")),
        "Machine inconnue: 'PC-09'. Lance 'scan' ou 'add <nom> <ip>'."
    );
    assert!(matches!(c.handle("disconnect"), Directive::Disconnect));
    assert_eq!(print_text(c.handle("list")), "\nMachines connues:\n  PC-01 (192.168.1.50)");
    assert!(matches!(c.handle("quit"), Directive::Quit));
    assert!(matches!(c.handle("help"), Directive::ShowMenu));
    assert!(matches!(c.handle("scan"), Directive::Scan));
}

#[test]
fn console_add_replaces_address_and_broadcasts() {
    let mut c = Console::new();
    assert_eq!(
        print_text(c.handle("all cpu")),
        "Aucune machine connue. Lance 'scan' d'abord."
    );
    c.handle("add A 10.0.0.1");
    c.handle("add B 10.0.0.2");
    c.handle("add A 10.0.0.9");
    match c.handle("all  cpu ") {
        Directive::Broadcast(cmd, targets) => {
            assert_eq!(cmd, "cpu");
            let pairs: Vec<(String, String)> = targets.into_iter().map(|m| (m.name, m.ip)).collect();
            assert_eq!(
                pairs,
                vec![("A".to_string(), "10.0.0.9".to_string()), ("B".to_string(), "10.0.0.2".to_string())]
            );
        }
        _ => panic!("all must broadcast"),
    }
}

#[test]
fn console_merge_and_failed_connection() {
    let mut c = Console::new();
    assert!(c.scan_listing().is_none());
    c.merge(vec![
        Machine { name: "X".to_string(), ip: "1.1.1.1".to_string() },
        Machine { name: "Y".to_string(), ip: "1.1.1.2".to_string() },
        Machine { name: "X".to_string(), ip: "1.1.1.3".to_string() },
    ]);
    assert_eq!(c.scan_listing().unwrap(), "\nMachines connues:\n  X (1.1.1.3)\n  Y (1.1.1.2)");
    assert_eq!(c.connected("X", false).unwrap(), "Impossible de se connecter a X.");
    assert_eq!(
        print_text(c.handle("exec dir")),
        "Aucune machine selectionnee. Utilise 'scan' puis 'select <nom>'."
    );
    c.connected("Y", true);
    c.forget_selection();
    assert_eq!(print_text(c.handle("list")), "\nMachines connues:\n  X (1.1.1.3)\n  Y (1.1.1.2)");
}

#[test]
fn reconnection_decision() {
    assert!(needs_reconnect(None));
    assert!(needs_reconnect(Some(false)));
    assert!(!needs_reconnect(Some(true)));

    let mut c = Console::new();
    c.merge(vec![Machine { name: "Z".to_string(), ip: "1.1.1.9".to_string() }]);
    c.connected("Z", true);
    assert!(c.reconnected("Z", true).is_none());
    assert_eq!(c.selected().as_deref(), Some("Z"));
    assert_eq!(c.reconnected("Z", false).unwrap(), "Impossible de se reconnecter a Z.");
    assert!(c.selected().is_none());
}

#[test]
fn journal_order_around_sends() {
    let mut s = ClientSession::new("p".to_string());
    assert_eq!(s.step(SessionEvent::Connected).logged_before_send, 1);
    assert_eq!(s.step(line("ENSPD2026\n")).logged_before_send, 0);
    let bye = s.step(line("quit\n"));
    assert_eq!(bye.logged_before_send, 1);
    assert_eq!(bye.logs.len(), 2);
    let mut r = ClientSession::new("q".to_string());
    r.step(SessionEvent::Connected);
    assert_eq!(r.step(line("nope\n")).logged_before_send, 0);
}
