//! The agent's answer to one command line.
//!
//! Commands that need the operating system (starting a program, printing on the
//! agent's console) are answered with a `Response` that names the program to start
//! and the text to send back; the caller performs that work. For the commands whose
//! answer depends on a program's output, `finish_reply` turns the outcome into text.
use vstd::prelude::*;
use crate::model::{cpu_text, mem_text, process_text, snapshot_text, push_cpu, push_mem,
    push_process, push_snapshot, CpuInfo, MemInfo, ProcessInfo, SystemSnapshot};
use crate::text::{ascii_lowercase, chars_equal, chars_of, contains_text, decimal, decimal_string, lowercase,
    parse_u32, parse_u32_chars, push_char, push_decimal, push_spaces, push_tenths,
    starts_with, spaces, string_of, tenths, to_lowercase, trim, trimmed};
use vstd::utf8::{encode_utf8, is_ascii_chars};
use crate::load::{load_cells, load_cells_of, load_text, push_load};
use crate::binary64::{double_fifths, double_tenths, used_percent, percent_of, fifths_of, tenths_of};

verus! {

/// A program and its arguments.
pub struct ProgramCall {
    pub program: String,
    pub args: Vec<String>,
}

/// The model of a `ProgramCall`.
pub struct CallSpec {
    pub program: Seq<char>,
    pub args: Seq<Seq<char>>,
}

impl View for ProgramCall {
    type V = CallSpec;

    open spec fn view(&self) -> CallSpec {
        CallSpec { program: self.program@, args: self.args@.map_values(|a: String| a@) }
    }
}

/// Which command a program run answers, for `finish_reply`.
#[derive(Debug, Clone, Copy, PartialEq, Eq, Structural)]
pub enum Job {
    /// `exec <command>`
    Exec,
    /// `kill <pid>`
    Kill(u32),
    /// `users`
    Users,
}

/// What the agent does for a command.
pub enum Response {
    /// Send this text.
    Reply(String),
    /// Start the program without waiting for it, then send the text.
    Launch(ProgramCall, String),
    /// Run the program to completion on another thread, and send the text at once.
    LaunchInBackground(ProgramCall, String),
    /// Print the banner on the agent's own console, then send the text.
    Announce(String, String),
    /// Run the program and wait for it; send what `finish_reply` makes of the outcome.
    Run(ProgramCall, Job),
}

/// The model of a `Response`.
pub enum ResponseSpec {
    Reply(Seq<char>),
    Launch(CallSpec, Seq<char>),
    LaunchInBackground(CallSpec, Seq<char>),
    Announce(Seq<char>, Seq<char>),
    Run(CallSpec, Job),
}

impl View for Response {
    type V = ResponseSpec;

    open spec fn view(&self) -> ResponseSpec {
        match self {
            Response::Reply(t) => ResponseSpec::Reply(t@),
            Response::Launch(c, t) => ResponseSpec::Launch(c@, t@),
            Response::LaunchInBackground(c, t) => ResponseSpec::LaunchInBackground(c@, t@),
            Response::Announce(b, t) => ResponseSpec::Announce(b@, t@),
            Response::Run(c, j) => ResponseSpec::Run(c@, *j),
        }
    }
}

/// How a program run ended.
pub enum ProgramOutcome {
    /// It ran; its exit status and its two output streams (decoded as text).
    Finished { success: bool, stdout: String, stderr: String },
    /// It could not be started; the error's message.
    Failed(String),
}

/// A row of `len` cells, the first `filled` of them `#`, the others `.`.
pub open spec fn bar(len: nat, filled: nat) -> Seq<char> {
    Seq::new(len, |i: int| if i < filled { '#' } else { '.' })
}

/// Answer to `cpu`: the figures and a ten-cell bar, one cell per whole ten percent.
pub open spec fn cpu_report(c: CpuInfo) -> Seq<char> {
    "[CPU]\n"@ + cpu_text(c) + "\n\nHistorique:\n"@ + bar(10, load_cells(c.usage.bits))
        + " "@ + load_text(c.usage.bits) + "%"@ + "\n"@
}

/// How many of the twenty memory cells are filled: one per whole five in the share
/// of memory used, that share being the double `used / total * 100`. With no total,
/// `0/0` fills none and any other ratio fills them all.
pub open spec fn mem_fill(m: MemInfo) -> nat {
    if m.total_mb == 0 {
        if m.used_mb == 0 {
            0
        } else {
            20
        }
    } else if m.used_mb == 0 {
        0
    } else {
        double_fifths(used_percent(m.used_mb as nat, m.total_mb as nat))
    }
}

/// The share of memory used, the double `used / total * 100`, in percent with one
/// decimal, rounded to nearest with ties to even as `{:.1}` rounds (`NaN` for `0/0`,
/// `inf` for a use out of a zero total).
pub open spec fn mem_percent_text(m: MemInfo) -> Seq<char> {
    if m.total_mb == 0 {
        if m.used_mb == 0 {
            "NaN"@
        } else {
            "inf"@
        }
    } else if m.used_mb == 0 {
        tenths(0)
    } else {
        tenths(double_tenths(used_percent(m.used_mb as nat, m.total_mb as nat)))
    }
}

/// Answer to `mem`: the figures and a twenty-cell bar.
pub open spec fn mem_report(m: MemInfo) -> Seq<char> {
    "[MEMOIRE]\n"@ + mem_text(m) + "\n["@ + bar(20, mem_fill(m)) + "] "@ + mem_percent_text(m)
        + "%\n"@
}

/// `<i>. <process>`
pub open spec fn numbered_entry(i: nat, p: ProcessInfo) -> Seq<char> {
    decimal(i) + ". "@ + process_text(p)
}

/// The processes numbered from 1, one per line, lines joined by newlines.
pub open spec fn numbered_list(ps: Seq<ProcessInfo>) -> Seq<char>
    decreases ps.len(),
{
    if ps.len() == 0 {
        Seq::empty()
    } else if ps.len() == 1 {
        numbered_entry(1, ps[0])
    } else {
        numbered_list(ps.drop_last()) + "\n"@ + numbered_entry(ps.len(), ps.last())
    }
}

/// Answer to `ps`.
pub open spec fn ps_report(ps: Seq<ProcessInfo>) -> Seq<char> {
    "[PROCESSUS -- Top "@ + decimal(ps.len()) + "]\n"@ + numbered_list(ps) + "\n"@
}

/// Width of the text field in the message banner.
pub open spec fn banner_padding(text: Seq<char>) -> nat {
    let len = encode_utf8(text).len();
    if len < 38 {
        (38 - len) as nat
    } else {
        0
    }
}

/// The framed message printed for `msg <text>`; the text is padded to 38 bytes.
pub open spec fn banner(text: Seq<char>) -> Seq<char> {
    "\n+======================================+\n"@ + "| MESSAGE DU PROFESSEUR                |\n"@
        + "| "@ + text + spaces(banner_padding(text)) + "|\n"@
        + "+======================================+\n\n"@
}

/// The banner shows the whole message, however long: its third line is `| `, every
/// character of the text, then spaces up to 38 bytes of text (none once the text has
/// 38 bytes or more), then `|`.
pub proof fn lemma_banner_keeps_message(text: Seq<char>)
    ensures
        banner(text) == "\n+======================================+\n"@
            + "| MESSAGE DU PROFESSEUR                |\n"@ + "| "@ + text + spaces(
            if encode_utf8(text).len() < 38 {
                (38 - encode_utf8(text).len()) as nat
            } else {
                0
            },
        ) + "|\n"@ + "+======================================+\n\n"@,
        encode_utf8(text).len() >= 38 ==> contains_text(banner(text), "| "@ + text + "|\n"@),
        contains_text(banner(text), text),
{
    let top = "\n+======================================+\n"@
        + "| MESSAGE DU PROFESSEUR                |\n"@;
    let foot = "+======================================+\n\n"@;
    let pad = spaces(banner_padding(text));
    let b = banner(text);
    assert(b =~= top + ("| "@ + text + pad + "|\n"@) + foot);
    let p = (top.len() + "| "@.len()) as int;
    assert(b.subrange(p, p + text.len()) =~= text);
    if encode_utf8(text).len() >= 38 {
        assert(pad =~= Seq::<char>::empty());
        let line = "| "@ + text + "|\n"@;
        assert(b =~= top + line + foot);
        let q = top.len() as int;
        assert(b.subrange(q, q + line.len()) =~= line);
    }
}

/// What `exec` reports of a program that ran: its output, then `[STDERR] ` and its
/// error output whenever there is any (whatever the output was); the text saying there
/// was no output only when both are empty.
pub proof fn lemma_exec_reports_both_streams(success: bool, stdout: String, stderr: String)
    ensures
        ({
            let r = finish_text(Job::Exec, ProgramOutcome::Finished { success, stdout, stderr });
            &&& stderr@.len() > 0 ==> r == stdout@ + "[STDERR] "@ + stderr@
            &&& stderr@.len() == 0 && stdout@.len() > 0 ==> r == stdout@
            &&& stderr@.len() == 0 && stdout@.len() == 0 ==> r
                == "(commande executee, pas de sortie)\n"@
        }),
{
    reveal_strlit("[STDERR] ");
    if stderr@.len() > 0 && stdout@.len() == 0 {
        assert(stdout@ =~= Seq::<char>::empty());
        assert(Seq::<char>::empty() + "[STDERR] "@ + stderr@ =~= stdout@ + "[STDERR] "@ + stderr@);
    }
}

/// Answer to `help`.
pub open spec fn help_text() -> Seq<char> {
    "Commandes disponibles:\n  cpu      - Usage CPU + barre\n  mem      - Memoire RAM\n  ps       - Top processus\n  all      - Vue complete\n  exec <c> - Executer une commande shell\n  kill <p> - Tuer un processus par PID\n  lock     - Verrouiller le poste\n  users    - Lister les utilisateurs\n  msg <t>  - Afficher un message\n  install  - Installer un logiciel\n  shutdown - Eteindre la machine\n  reboot   - Redemarrer la machine\n  abort    - Annuler extinction\n  help     - Cette aide\n  quit     - Fermer la connexion\n"@
}

/// Whether `s` begins with `prefix`.
pub open spec fn has_prefix(s: Seq<char>, prefix: Seq<char>) -> bool {
    prefix.len() <= s.len() && s.take(prefix.len() as int) == prefix
}

pub open spec fn call_spec(program: Seq<char>, args: Seq<Seq<char>>) -> CallSpec {
    CallSpec { program, args }
}

/// What follows the first `n` characters of `typed` (nothing when it is shorter).
pub open spec fn argument(typed: Seq<char>, n: nat) -> Seq<char> {
    if n <= typed.len() {
        typed.skip(n as int)
    } else {
        Seq::empty()
    }
}

/// The answer to command `cmd` (trimmed and lower-cased), `typed` being the
/// command trimmed only, as the user typed it. The command word is matched in lower
/// case; the text that `msg`, `install` and `exec` take is the text as typed.
pub open spec fn respond(s: SystemSnapshot, cmd: Seq<char>, typed: Seq<char>) -> ResponseSpec {
    if cmd == "cpu"@ {
        ResponseSpec::Reply(cpu_report(s.cpu))
    } else if cmd == "mem"@ {
        ResponseSpec::Reply(mem_report(s.memory))
    } else if cmd == "ps"@ || cmd == "procs"@ {
        ResponseSpec::Reply(ps_report(s.top_processes@))
    } else if cmd == "shutdown"@ {
        ResponseSpec::Launch(
            call_spec("shutdown"@, seq!["/s"@, "/t"@, "5"@]),
            "SHUTDOWN programme dans 5 secondes.\n"@,
        )
    } else if cmd == "reboot"@ {
        ResponseSpec::Launch(
            call_spec("shutdown"@, seq!["/r"@, "/t"@, "5"@]),
            "REBOOT programme dans 5 secondes.\n"@,
        )
    } else if cmd == "abort"@ {
        ResponseSpec::Launch(call_spec("shutdown"@, seq!["/a"@]), "Extinction annulee.\n"@)
    } else if has_prefix(cmd, "msg "@) {
        ResponseSpec::Announce(
            banner(argument(typed, 4)),
            "Message affiche sur la machine cible.\n"@,
        )
    } else if has_prefix(cmd, "install "@) {
        ResponseSpec::LaunchInBackground(
            call_spec("winget"@, seq!["install"@, "--silent"@, trimmed(argument(typed, 8))]),
            "Installation de '"@ + argument(typed, 8) + "' lancee en arriere-plan.\n"@,
        )
    } else if has_prefix(cmd, "exec "@) {
        ResponseSpec::Run(call_spec("cmd"@, seq!["/C"@, argument(typed, 5)]), Job::Exec)
    } else if has_prefix(cmd, "kill "@) {
        let pid_text = trimmed(cmd.skip(5));
        match parse_u32(pid_text) {
            Some(pid) => ResponseSpec::Run(
                call_spec("taskkill"@, seq!["/PID"@, decimal(pid as nat), "/F"@]),
                Job::Kill(pid),
            ),
            None => ResponseSpec::Reply("PID invalide: '"@ + pid_text + "'\n"@),
        }
    } else if cmd == "lock"@ {
        ResponseSpec::Launch(
            call_spec("rundll32.exe"@, seq!["user32.dll,LockWorkStation"@]),
            "Poste verrouille.\n"@,
        )
    } else if cmd == "users"@ {
        ResponseSpec::Run(call_spec("query"@, seq!["user"@]), Job::Users)
    } else if cmd == "all"@ || cmd.len() == 0 {
        ResponseSpec::Reply(snapshot_text(s) + "\n"@)
    } else if cmd == "help"@ {
        ResponseSpec::Reply(help_text())
    } else if cmd == "quit"@ || cmd == "exit"@ {
        ResponseSpec::Reply("BYE\n"@)
    } else {
        ResponseSpec::Reply("Commande inconnue: '"@ + typed + "'. Tape 'help'.\n"@)
    }
}

/// Whether `cmd` (trimmed and lower-cased) is one the agent knows.
pub open spec fn recognized(cmd: Seq<char>) -> bool {
    ||| cmd == "cpu"@
    ||| cmd == "mem"@
    ||| cmd == "ps"@
    ||| cmd == "procs"@
    ||| cmd == "shutdown"@
    ||| cmd == "reboot"@
    ||| cmd == "abort"@
    ||| has_prefix(cmd, "msg "@)
    ||| has_prefix(cmd, "install "@)
    ||| has_prefix(cmd, "exec "@)
    ||| has_prefix(cmd, "kill "@)
    ||| cmd == "lock"@
    ||| cmd == "users"@
    ||| cmd == "all"@
    ||| cmd.len() == 0
    ||| cmd == "help"@
    ||| cmd == "quit"@
    ||| cmd == "exit"@
}

/// Whitespace around a command never changes the answer.
pub proof fn lemma_surrounding_space_ignored(s: SystemSnapshot, c1: Seq<char>, c2: Seq<char>)
    requires
        trimmed(c1) == trimmed(c2),
    ensures
        respond(s, lowercase(trimmed(c1)), trimmed(c1)) == respond(
            s,
            lowercase(trimmed(c2)),
            trimmed(c2),
        ),
{
}

/// Where the text that a command takes starts: after `msg `, `install ` or `exec `
/// (0 for a command that takes no text as typed).
pub open spec fn argument_start(cmd: Seq<char>) -> nat {
    if has_prefix(cmd, "msg "@) {
        4
    } else if has_prefix(cmd, "install "@) {
        8
    } else if has_prefix(cmd, "exec "@) {
        5
    } else {
        0
    }
}

/// Two command lines that lower-case to the same recognized command get the same
/// answer, provided the text the command takes is the same as typed: the case of the
/// command word never matters.
pub proof fn lemma_case_ignored(s: SystemSnapshot, c1: Seq<char>, c2: Seq<char>)
    requires
        lowercase(trimmed(c1)) == lowercase(trimmed(c2)),
        recognized(lowercase(trimmed(c1))),
        argument_start(lowercase(trimmed(c1))) > 0 ==> argument(
            trimmed(c1),
            argument_start(lowercase(trimmed(c1))),
        ) == argument(trimmed(c2), argument_start(lowercase(trimmed(c1)))),
    ensures
        respond(s, lowercase(trimmed(c1)), trimmed(c1)) == respond(
            s,
            lowercase(trimmed(c2)),
            trimmed(c2),
        ),
{
}

/// Two ASCII command lines whose letters match but for case get the same answer when
/// the command is recognized and the text it takes is the same as typed (`CPU` is
/// answered as `cpu`, `EXEC dir` as `exec dir`).
pub proof fn lemma_ascii_case_ignored(s: SystemSnapshot, c1: Seq<char>, c2: Seq<char>)
    requires
        is_ascii_chars(trimmed(c1)),
        is_ascii_chars(trimmed(c2)),
        ascii_lowercase(trimmed(c1)) == ascii_lowercase(trimmed(c2)),
        recognized(ascii_lowercase(trimmed(c1))),
        argument_start(ascii_lowercase(trimmed(c1))) > 0 ==> argument(
            trimmed(c1),
            argument_start(ascii_lowercase(trimmed(c1))),
        ) == argument(trimmed(c2), argument_start(ascii_lowercase(trimmed(c1)))),
    ensures
        respond(s, ascii_lowercase(trimmed(c1)), trimmed(c1)) == respond(
            s,
            ascii_lowercase(trimmed(c2)),
            trimmed(c2),
        ),
{
}

/// A command that is not recognized is answered by echoing it, and nothing is run.
pub proof fn lemma_unknown_echoed(s: SystemSnapshot, cmd: Seq<char>, typed: Seq<char>)
    requires
        !recognized(cmd),
    ensures
        respond(s, cmd, typed) == ResponseSpec::Reply(
            "Commande inconnue: '"@ + typed + "'. Tape 'help'.\n"@,
        ),
{
}

/// The text sent once a program run for `job` has ended.
pub open spec fn finish_text(job: Job, outcome: ProgramOutcome) -> Seq<char> {
    match job {
        Job::Exec => match outcome {
            ProgramOutcome::Finished { stdout, stderr, .. } => {
                let out = if stdout@.len() > 0 {
                    stdout@
                } else {
                    Seq::empty()
                };
                let all = if stderr@.len() > 0 {
                    out + "[STDERR] "@ + stderr@
                } else {
                    out
                };
                if all.len() == 0 {
                    "(commande executee, pas de sortie)\n"@
                } else {
                    all
                }
            },
            ProgramOutcome::Failed(e) => "Erreur execution: "@ + e@ + "\n"@,
        },
        Job::Kill(pid) => match outcome {
            ProgramOutcome::Finished { success, stdout, stderr } => if success {
                "Processus "@ + decimal(pid as nat) + " termine.\n"@ + stdout@
            } else {
                "Echec kill PID "@ + decimal(pid as nat) + ": "@ + stderr@ + "\n"@
            },
            ProgramOutcome::Failed(e) => "Erreur taskkill: "@ + e@ + "\n"@,
        },
        Job::Users => match outcome {
            ProgramOutcome::Finished { stdout, .. } => if stdout@.len() == 0 {
                "Aucun utilisateur connecte.\n"@
            } else {
                "[UTILISATEURS]\n"@ + stdout@ + "\n"@
            },
            ProgramOutcome::Failed(e) => "Erreur query user: "@ + e@ + "\n"@,
        },
    }
}

fn owned(s: &str) -> (r: String)
    ensures
        r@ == s@,
{
    String::from_str(s)
}

fn call(program: &str, args: Vec<String>) -> (c: ProgramCall)
    ensures
        c.program@ == program@,
        c.args == args,
{
    ProgramCall { program: owned(program), args }
}

fn push_bar(out: &mut String, len: usize, filled: u128)
    ensures
        final(out)@ == old(out)@ + bar(len as nat, filled as nat),
{
    let ghost start = out@;
    let mut i: usize = 0;
    while i < len
        invariant
            i <= len,
            out@ == start + bar(i as nat, filled as nat),
        decreases len - i,
    {
        if (i as u128) < filled {
            push_char(out, '#');
        } else {
            push_char(out, '.');
        }
        i = i + 1;
        assert(out@ =~= start + bar(i as nat, filled as nat));
    }
}

/// The answer to `cpu`.
pub fn cpu_report_text(c: &CpuInfo) -> (r: String)
    ensures
        r@ == cpu_report(*c),
{
    let mut r = owned("[CPU]\n");
    push_cpu(&mut r, c);
    r.append("\n\nHistorique:\n");
    push_bar(&mut r, 10, load_cells_of(c.usage) as u128);
    r.append(" ");
    push_load(&mut r, c.usage);
    r.append("%");
    r.append("\n");
    assert(r@ =~= cpu_report(*c));
    r
}

/// The answer to `mem`.
pub fn mem_report_text(m: &MemInfo) -> (r: String)
    ensures
        r@ == mem_report(*m),
{
    let mut r = owned("[MEMOIRE]\n");
    push_mem(&mut r, m);
    r.append("\n[");
    if m.total_mb == 0 {
        let fill: u128 = if m.used_mb == 0 {
            0
        } else {
            20
        };
        push_bar(&mut r, 20, fill);
        r.append("] ");
        if m.used_mb == 0 {
            r.append("NaN");
        } else {
            r.append("inf");
        }
    } else if m.used_mb == 0 {
        push_bar(&mut r, 20, 0);
        r.append("] ");
        push_tenths(&mut r, 0);
    } else {
        let f = percent_of(m.used_mb, m.total_mb);
        let fill = fifths_of(f);
        push_bar(&mut r, 20, fill);
        r.append("] ");
        push_tenths(&mut r, tenths_of(f));
    }
    r.append("%\n");
    assert(r@ =~= mem_report(*m));
    r
}

/// The answer to `ps`.
pub fn ps_report_text(ps: &Vec<ProcessInfo>) -> (r: String)
    ensures
        r@ == ps_report(ps@),
{
    let mut r = owned("[PROCESSUS -- Top ");
    push_decimal(&mut r, ps.len() as u128);
    r.append("]\n");
    let ghost head = r@;
    let mut i: usize = 0;
    assert(ps@.take(0) =~= Seq::<ProcessInfo>::empty());
    while i < ps.len()
        invariant
            i <= ps@.len(),
            r@ == head + numbered_list(ps@.take(i as int)),
        decreases ps@.len() - i,
    {
        if i > 0 {
            r.append("\n");
        }
        push_decimal(&mut r, (i + 1) as u128);
        r.append(". ");
        push_process(&mut r, &ps[i]);
        assert(ps@.take(i + 1).drop_last() =~= ps@.take(i as int));
        i = i + 1;
        assert(r@ =~= head + numbered_list(ps@.take(i as int)));
    }
    assert(ps@.take(ps@.len() as int) =~= ps@);
    r.append("\n");
    assert(r@ =~= ps_report(ps@));
    r
}

/// The banner printed for `msg <text>`.
pub fn banner_text(text: &String) -> (r: String)
    ensures
        r@ == banner(text@),
{
    let mut r = owned("\n+======================================+\n");
    r.append("| MESSAGE DU PROFESSEUR                |\n");
    r.append("| ");
    r.append(text.as_str());
    let len = text.as_str().as_bytes().len();
    if len < 38 {
        push_spaces(&mut r, 38 - len);
    } else {
        push_spaces(&mut r, 0);
    }
    r.append("|\n");
    r.append("+======================================+\n\n");
    assert(r@ =~= banner(text@));
    r
}

/// The answer to `help`.
pub fn help_reply() -> (r: String)
    ensures
        r@ == help_text(),
{
    owned(
        "Commandes disponibles:\n  cpu      - Usage CPU + barre\n  mem      - Memoire RAM\n  ps       - Top processus\n  all      - Vue complete\n  exec <c> - Executer une commande shell\n  kill <p> - Tuer un processus par PID\n  lock     - Verrouiller le poste\n  users    - Lister les utilisateurs\n  msg <t>  - Afficher un message\n  install  - Installer un logiciel\n  shutdown - Eteindre la machine\n  reboot   - Redemarrer la machine\n  abort    - Annuler extinction\n  help     - Cette aide\n  quit     - Fermer la connexion\n",
    )
}

fn launch(program: &str, args: Vec<String>, reply: &str) -> (r: Response)
    ensures
        r@ == ResponseSpec::Launch(
            call_spec(program@, args@.map_values(|a: String| a@)),
            reply@,
        ),
{
    Response::Launch(call(program, args), owned(reply))
}

/// The answer to `kill <pid_text>`.
fn kill_response(pid_text: String) -> (r: Response)
    ensures
        r@ == (match parse_u32(pid_text@) {
            Some(pid) => ResponseSpec::Run(
                call_spec("taskkill"@, seq!["/PID"@, decimal(pid as nat), "/F"@]),
                Job::Kill(pid),
            ),
            None => ResponseSpec::Reply("PID invalide: '"@ + pid_text@ + "'\n"@),
        }),
{
    let v = chars_of(pid_text.as_str());
    match parse_u32_chars(&v) {
        Some(pid) => {
            let mut args: Vec<String> = Vec::new();
            args.push(owned("/PID"));
            args.push(decimal_string(pid as u64));
            args.push(owned("/F"));
            let c = call("taskkill", args);
            assert(c@.args =~= seq!["/PID"@, decimal(pid as nat), "/F"@]);
            Response::Run(c, Job::Kill(pid))
        },
        None => {
            let mut t = owned("PID invalide: '");
            t.append(pid_text.as_str());
            t.append("'\n");
            Response::Reply(t)
        },
    }
}

/// What follows the first `n` characters of `w`.
fn argument_of(w: &Vec<char>, n: usize) -> (r: String)
    ensures
        r@ == argument(w@, n as nat),
{
    if n <= w.len() {
        string_of(w, n, w.len())
    } else {
        String::new()
    }
}

/// The answer to `cmd`, a command already trimmed and lower-cased; `typed` is the
/// command as typed, trimmed only: it gives the text that `msg`, `install` and `exec`
/// take, and is echoed back when the command is unknown.
pub fn respond_to(snapshot: &SystemSnapshot, cmd: &str, typed: &str) -> (r: Response)
    ensures
        r@ == respond(*snapshot, cmd@, typed@),
{
    let v = chars_of(cmd);
    let w = chars_of(typed);
    proof {
        reveal_strlit("msg ");
        reveal_strlit("install ");
        reveal_strlit("exec ");
        reveal_strlit("kill ");
    }
    if chars_equal(&v, "cpu") {
        Response::Reply(cpu_report_text(&snapshot.cpu))
    } else if chars_equal(&v, "mem") {
        Response::Reply(mem_report_text(&snapshot.memory))
    } else if chars_equal(&v, "ps") || chars_equal(&v, "procs") {
        Response::Reply(ps_report_text(&snapshot.top_processes))
    } else if chars_equal(&v, "shutdown") {
        let mut args: Vec<String> = Vec::new();
        args.push(owned("/s"));
        args.push(owned("/t"));
        args.push(owned("5"));
        assert(args@.map_values(|a: String| a@) =~= seq!["/s"@, "/t"@, "5"@]);
        let r = launch("shutdown", args, "SHUTDOWN programme dans 5 secondes.\n");
        r
    } else if chars_equal(&v, "reboot") {
        let mut args: Vec<String> = Vec::new();
        args.push(owned("/r"));
        args.push(owned("/t"));
        args.push(owned("5"));
        assert(args@.map_values(|a: String| a@) =~= seq!["/r"@, "/t"@, "5"@]);
        let r = launch("shutdown", args, "REBOOT programme dans 5 secondes.\n");
        r
    } else if chars_equal(&v, "abort") {
        let mut args: Vec<String> = Vec::new();
        args.push(owned("/a"));
        assert(args@.map_values(|a: String| a@) =~= seq!["/a"@]);
        let r = launch("shutdown", args, "Extinction annulee.\n");
        r
    } else if starts_with(&v, "msg ") {
        let text = argument_of(&w, 4);
        Response::Announce(banner_text(&text), owned("Message affiche sur la machine cible.\n"))
    } else if starts_with(&v, "install ") {
        let rest = argument_of(&w, 8);
        let package = trim(rest.as_str());
        let mut args: Vec<String> = Vec::new();
        args.push(owned("install"));
        args.push(owned("--silent"));
        args.push(package);
        let c = call("winget", args);
        let mut t = owned("Installation de '");
        t.append(rest.as_str());
        t.append("' lancee en arriere-plan.\n");
        assert(c@.args =~= seq!["install"@, "--silent"@, trimmed(argument(typed@, 8))]);
        Response::LaunchInBackground(c, t)
    } else if starts_with(&v, "exec ") {
        let mut args: Vec<String> = Vec::new();
        args.push(owned("/C"));
        args.push(argument_of(&w, 5));
        let c = call("cmd", args);
        assert(c@.args =~= seq!["/C"@, argument(typed@, 5)]);
        Response::Run(c, Job::Exec)
    } else if starts_with(&v, "kill ") {
        let rest = string_of(&v, 5, v.len());
        kill_response(trim(rest.as_str()))
    } else if chars_equal(&v, "lock") {
        let mut args: Vec<String> = Vec::new();
        args.push(owned("user32.dll,LockWorkStation"));
        assert(args@.map_values(|a: String| a@) =~= seq!["user32.dll,LockWorkStation"@]);
        let r = launch("rundll32.exe", args, "Poste verrouille.\n");
        r
    } else if chars_equal(&v, "users") {
        let mut args: Vec<String> = Vec::new();
        args.push(owned("user"));
        let c = call("query", args);
        assert(c@.args =~= seq!["user"@]);
        Response::Run(c, Job::Users)
    } else if chars_equal(&v, "all") || v.len() == 0 {
        let mut t = String::new();
        push_snapshot(&mut t, snapshot);
        t.append("\n");
        assert(t@ =~= snapshot_text(*snapshot) + "\n"@);
        Response::Reply(t)
    } else if chars_equal(&v, "help") {
        Response::Reply(help_reply())
    } else if chars_equal(&v, "quit") || chars_equal(&v, "exit") {
        Response::Reply(owned("BYE\n"))
    } else {
        let mut t = owned("Commande inconnue: '");
        t.append(typed);
        t.append("'. Tape 'help'.\n");
        Response::Reply(t)
    }
}

/// The program that switches a Windows console to UTF-8 (code page 65001), to be run
/// at start-up; on other systems there is nothing to run.
pub fn setup_utf8_console(on_windows: bool) -> (c: Option<ProgramCall>)
    ensures
        on_windows ==> (c matches Some(call) && call@ == call_spec(
            "cmd"@,
            seq!["/C"@, "chcp"@, "65001"@],
        )),
        !on_windows ==> c is None,
{
    if on_windows {
        let mut args: Vec<String> = Vec::new();
        args.push(owned("/C"));
        args.push(owned("chcp"));
        args.push(owned("65001"));
        let c = call("cmd", args);
        assert(c@.args =~= seq!["/C"@, "chcp"@, "65001"@]);
        Some(c)
    } else {
        None
    }
}

/// The agent's answer to one command line: the line is trimmed and lower-cased,
/// then answered as `respond` says.
pub fn format_response(snapshot: &SystemSnapshot, command: &str) -> (r: Response)
    ensures
        r@ == respond(*snapshot, lowercase(trimmed(command@)), trimmed(command@)),
        is_ascii_chars(trimmed(command@)) ==> r@ == respond(
            *snapshot,
            ascii_lowercase(trimmed(command@)),
            trimmed(command@),
        ),
{
    let typed = trim(command);
    let cmd = to_lowercase(typed.as_str());
    respond_to(snapshot, cmd.as_str(), typed.as_str())
}

/// The text sent for `job` once its program run has ended with `outcome`.
pub fn finish_reply(job: Job, outcome: &ProgramOutcome) -> (r: String)
    ensures
        r@ == finish_text(job, *outcome),
{
    match job {
        Job::Exec => match outcome {
            ProgramOutcome::Finished { stdout, stderr, .. } => {
                let mut result = String::new();
                if stdout.as_str().is_empty() == false {
                    result.append(stdout.as_str());
                }
                if stderr.as_str().is_empty() == false {
                    result.append("[STDERR] ");
                    result.append(stderr.as_str());
                }
                if result.as_str().is_empty() {
                    result = owned("(commande executee, pas de sortie)\n");
                }
                assert(result@ =~= finish_text(job, *outcome));
                result
            },
            ProgramOutcome::Failed(e) => {
                let mut t = owned("Erreur execution: ");
                t.append(e.as_str());
                t.append("\n");
                t
            },
        },
        Job::Kill(pid) => match outcome {
            ProgramOutcome::Finished { success, stdout, stderr } => {
                if *success {
                    let mut t = owned("Processus ");
                    push_decimal(&mut t, pid as u128);
                    t.append(" termine.\n");
                    t.append(stdout.as_str());
                    assert(t@ =~= finish_text(job, *outcome));
                    t
                } else {
                    let mut t = owned("Echec kill PID ");
                    push_decimal(&mut t, pid as u128);
                    t.append(": ");
                    t.append(stderr.as_str());
                    t.append("\n");
                    assert(t@ =~= finish_text(job, *outcome));
                    t
                }
            },
            ProgramOutcome::Failed(e) => {
                let mut t = owned("Erreur taskkill: ");
                t.append(e.as_str());
                t.append("\n");
                t
            },
        },
        Job::Users => match outcome {
            ProgramOutcome::Finished { stdout, .. } => {
                if stdout.as_str().is_empty() {
                    owned("Aucun utilisateur connecte.\n")
                } else {
                    let mut t = owned("[UTILISATEURS]\n");
                    t.append(stdout.as_str());
                    t.append("\n");
                    t
                }
            },
            ProgramOutcome::Failed(e) => {
                let mut t = owned("Erreur query user: ");
                t.append(e.as_str());
                t.append("\n");
                t
            },
        },
    }
}

} // verus!
