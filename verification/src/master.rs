//! The controlling console: the agent protocol as seen from the client side,
//! subnet discovery helpers, and the command console over the known machines.
use vstd::prelude::*;
use crate::session::AUTH_TOKEN;
use crate::text::{trim_end, trim_start, char_index, chars_of, chars_equal, contains, contains_text, decimal, find_char,
    is_space, lemma_char_index, push_decimal, starts_with, string_of, trim, trimmed};

verus! {

/// The port agents listen on.
pub const TCP_PORT: u16 = 7878;

/// The console's menu, as printed.
pub open spec fn menu() -> Seq<char> {
    "\n+=============================================+\n|       SYSWATCH MASTER -- ENSPD 2026         |\n+==============================================+\n|  scan             - scanner le reseau        |\n|  list             - afficher agents connus   |\n|  add <nom> <ip>   - ajouter manuellement     |\n|  select <nom>     - cibler une machine       |\n|  all <cmd>        - envoyer cmd a toutes     |\n+==============================================+\n|  Commandes agent (apres select) :            |\n|  cpu / mem / ps / all                        |\n|  exec <cmd>   - executer commande shell      |\n|  kill <pid>   - tuer un processus            |\n|  lock         - verrouiller le poste         |\n|  users        - lister les utilisateurs      |\n|  msg <texte>  - afficher message             |\n|  install <pkg> - installer un logiciel       |\n|  shutdown     - eteindre la machine          |\n|  reboot       - redemarrer                   |\n|  abort        - annuler extinction           |\n+==============================================+\n|  disconnect   - fermer la session active     |\n|  help         - afficher ce menu             |\n|  quit         - quitter le master            |\n+=============================================+\n"@
}

pub fn menu_text() -> (r: String)
    ensures
        r@ == menu(),
{
    String::from_str("\n+=============================================+\n|       SYSWATCH MASTER -- ENSPD 2026         |\n+==============================================+\n|  scan             - scanner le reseau        |\n|  list             - afficher agents connus   |\n|  add <nom> <ip>   - ajouter manuellement     |\n|  select <nom>     - cibler une machine       |\n|  all <cmd>        - envoyer cmd a toutes     |\n+==============================================+\n|  Commandes agent (apres select) :            |\n|  cpu / mem / ps / all                        |\n|  exec <cmd>   - executer commande shell      |\n|  kill <pid>   - tuer un processus            |\n|  lock         - verrouiller le poste         |\n|  users        - lister les utilisateurs      |\n|  msg <texte>  - afficher message             |\n|  install <pkg> - installer un logiciel       |\n|  shutdown     - eteindre la machine          |\n|  reboot       - redemarrer                   |\n|  abort        - annuler extinction           |\n+==============================================+\n|  disconnect   - fermer la session active     |\n|  help         - afficher ce menu             |\n|  quit         - quitter le master            |\n+=============================================+\n")
}

/// Whether a line read from an agent is its token prompt.
pub open spec fn is_token_prompt(line: Seq<char>) -> bool {
    contains_text(line, "TOKEN"@)
}

/// Whether a line read from an agent accepts the token.
pub open spec fn is_ok_reply(line: Seq<char>) -> bool {
    trimmed(line) == "OK"@
}

/// Checks the first line an agent sends: it must be the token prompt.
pub fn prompt_check(line: &str) -> (r: Result<(), String>)
    ensures
        r is Ok <==> is_token_prompt(line@),
        r matches Err(e) ==> e@ == "Prompt inattendu: "@ + trimmed(line@),
{
    let v = chars_of(line);
    if contains(&v, "TOKEN") {
        Ok(())
    } else {
        let mut e = String::from_str("Prompt inattendu: ");
        let t = trim(line);
        e.append(t.as_str());
        Err(e)
    }
}

/// Whether what has arrived from an agent so far is a whole prompt: it holds a
/// newline, or the token prompt `TOKEN: `, which the agent sends without one.
pub open spec fn prompt_ended(text: Seq<char>) -> bool {
    char_index(text, '\n') < text.len() || contains_text(text, "TOKEN: "@)
}

pub fn prompt_is_complete(text: &str) -> (b: bool)
    ensures
        b == prompt_ended(text@),
{
    let v = chars_of(text);
    find_char(&v, '\n') < v.len() || contains(&v, "TOKEN: ")
}

/// Checks the agent's answer to the token.
pub fn login_check(line: &str) -> (r: Result<(), String>)
    ensures
        r is Ok <==> is_ok_reply(line@),
        r matches Err(e) ==> e@ == "Token refuse par l'agent"@,
{
    let t = trim(line);
    let v = chars_of(t.as_str());
    if chars_equal(&v, "OK") {
        Ok(())
    } else {
        Err(String::from_str("Token refuse par l'agent"))
    }
}

/// A line as sent to an agent: the text and a newline.
pub fn command_line(cmd: &str) -> (r: String)
    ensures
        r@ == cmd@ + "\n"@,
{
    let mut r = String::from_str(cmd);
    r.append("\n");
    r
}

/// The token line sent to an agent.
pub fn token_line() -> (r: String)
    ensures
        r@ == AUTH_TOKEN@ + "\n"@,
{
    command_line(AUTH_TOKEN)
}

/// Gathers an agent's answer line by line, up to the line `END`.
pub struct ReplyCollector {
    pub text: String,
}

impl ReplyCollector {
    pub fn new() -> (c: Self)
        ensures
            c.text@ == Seq::<char>::empty(),
    {
        ReplyCollector { text: String::new() }
    }

    /// Takes one line as read (newline included); returns whether it was the end marker,
    /// which is not kept.
    pub fn push_line(&mut self, line: &str) -> (end: bool)
        ensures
            end == (trimmed(line@) == "END"@),
            end ==> final(self).text@ == old(self).text@,
            !end ==> final(self).text@ == old(self).text@ + line@,
    {
        let t = trim(line);
        let v = chars_of(t.as_str());
        if chars_equal(&v, "END") {
            true
        } else {
            self.text.append(line);
            false
        }
    }
}

/// The name an agent goes by: its host name as it reported it, trimmed, or
/// `Agent-<ip>` when that is empty.
pub open spec fn agent_name_text(hostname: Seq<char>, ip: Seq<char>) -> Seq<char> {
    if trimmed(hostname).len() == 0 {
        "Agent-"@ + ip
    } else {
        trimmed(hostname)
    }
}

pub fn agent_name(hostname: &str, ip: &str) -> (r: String)
    ensures
        r@ == agent_name_text(hostname@, ip@),
{
    let t = trim(hostname);
    if t.as_str().is_empty() {
        let mut r = String::from_str("Agent-");
        r.append(ip);
        r
    } else {
        t
    }
}

/// `<ip>:7878`
pub fn agent_address(ip: &str) -> (r: String)
    ensures
        r@ == ip@ + ":"@ + decimal(TCP_PORT as nat),
{
    let mut r = String::from_str(ip);
    r.append(":");
    push_decimal(&mut r, TCP_PORT as u128);
    r
}

/// Dotted-decimal notation of an IPv4 address.
pub open spec fn ipv4_text(o: Seq<u8>) -> Seq<char> {
    decimal(o[0] as nat) + "."@ + decimal(o[1] as nat) + "."@ + decimal(o[2] as nat) + "."@
        + decimal(o[3] as nat)
}

pub fn ipv4_string(o: [u8; 4]) -> (r: String)
    ensures
        r@ == ipv4_text(o@),
{
    let mut r = String::new();
    push_decimal(&mut r, o[0] as u128);
    r.append(".");
    push_decimal(&mut r, o[1] as u128);
    r.append(".");
    push_decimal(&mut r, o[2] as u128);
    r.append(".");
    push_decimal(&mut r, o[3] as u128);
    assert(r@ =~= ipv4_text(o@));
    r
}

/// The hosts probed when scanning: hosts 1 to 254 of the local /24 network.
pub fn subnet_hosts(local: [u8; 4]) -> (hosts: Vec<[u8; 4]>)
    ensures
        hosts@.len() == 254,
        forall|i: int|
            0 <= i < 254 ==> #[trigger] hosts@[i]@ == seq![local@[0], local@[1], local@[2], (i + 1) as u8],
{
    let mut hosts: Vec<[u8; 4]> = Vec::new();
    let mut h: u8 = 1;
    while h <= 254
        invariant
            1 <= h <= 255,
            hosts@.len() == h - 1,
            forall|i: int|
                0 <= i < h - 1 ==> #[trigger] hosts@[i]@ == seq![local@[0], local@[1], local@[2], (i + 1) as u8],
        decreases 255 - h,
    {
        let a: [u8; 4] = [local[0], local[1], local[2], h];
        assert(a@ =~= seq![local@[0], local@[1], local@[2], h]);
        hosts.push(a);
        h = h + 1;
    }
    hosts
}

/// The two lines printed before a scan.
pub fn scan_header(local: [u8; 4]) -> (r: (String, String))
    ensures
        r.0@ == "  IP locale: "@ + ipv4_text(local@),
        r.1@ == "  Scan du sous-reseau "@ + decimal(local@[0] as nat) + "."@ + decimal(
            local@[1] as nat,
        ) + "."@ + decimal(local@[2] as nat) + ".0/24 sur le port "@ + decimal(TCP_PORT as nat)
            + "..."@,
{
    let mut a = String::from_str("  IP locale: ");
    a.append(ipv4_string(local).as_str());
    let mut b = String::from_str("  Scan du sous-reseau ");
    push_decimal(&mut b, local[0] as u128);
    b.append(".");
    push_decimal(&mut b, local[1] as u128);
    b.append(".");
    push_decimal(&mut b, local[2] as u128);
    b.append(".0/24 sur le port ");
    push_decimal(&mut b, TCP_PORT as u128);
    b.append("...");
    (a, b)
}

/// The lines printed after a scan that found `count` agents.
pub open spec fn scan_summary_text(count: nat) -> Seq<Seq<char>> {
    if count == 0 {
        seq![
            "  Aucun agent detecte sur le sous-reseau."@,
            "  Conseil: utilisez 'add <nom> <ip>' pour ajouter manuellement."@,
        ]
    } else {
        seq!["  "@ + decimal(count) + " agent(s) trouve(s)."@]
    }
}

pub fn scan_summary(count: usize) -> (r: Vec<String>)
    ensures
        r@.map_values(|l: String| l@) == scan_summary_text(count as nat),
{
    let mut r: Vec<String> = Vec::new();
    if count == 0 {
        r.push(String::from_str("  Aucun agent detecte sur le sous-reseau."));
        r.push(String::from_str("  Conseil: utilisez 'add <nom> <ip>' pour ajouter manuellement."));
    } else {
        let mut l = String::from_str("  ");
        push_decimal(&mut l, count as u128);
        l.append(" agent(s) trouve(s).");
        r.push(l);
    }
    assert(r@.map_values(|l: String| l@) =~= scan_summary_text(count as nat));
    r
}

/// The first line of `s` as `str::lines` gives it: up to the first newline, without
/// a carriage return just before it; none for an empty text.
pub open spec fn first_line(s: Seq<char>) -> Option<Seq<char>> {
    let k = char_index(s, '\n');
    if s.len() == 0 {
        None
    } else if k < s.len() && k > 0 && s[k - 1] == '\r' {
        Some(s.take(k - 1))
    } else {
        Some(s.take(k as int))
    }
}

/// The first line of an agent's answer, or `(vide)` when the answer is empty.
pub fn first_line_or_empty(response: &str) -> (r: String)
    ensures
        r@ == (match first_line(response@) {
            Some(l) => l,
            None => "(vide)"@,
        }),
{
    let v = chars_of(response);
    if v.len() == 0 {
        return String::from_str("(vide)");
    }
    let k = find_char(&v, '\n');
    if k < v.len() && k > 0 && v[k - 1] == '\r' {
        string_of(&v, 0, k - 1)
    } else {
        string_of(&v, 0, k)
    }
}

/// The first line of a text: with its first newline at `k`, it is every character
/// before `k`, less a carriage return right before the newline; a text with no newline
/// is its own first line; an empty text has none.
pub proof fn lemma_first_line_kept(s: Seq<char>, k: int)
    requires
        0 <= k <= s.len(),
        forall|j: int| 0 <= j < k ==> s[j] != '\n',
        k < s.len() ==> s[k] == '\n',
    ensures
        s.len() == 0 ==> first_line(s) is None,
        s.len() > 0 && (k == 0 || s[k - 1] != '\r') ==> first_line(s) == Some(s.take(k)),
        s.len() > 0 && k < s.len() && k > 0 && s[k - 1] == '\r' ==> first_line(s) == Some(
            s.take(k - 1),
        ),
        s.len() > 0 && k == s.len() ==> first_line(s) == Some(s),
{
    lemma_char_index(s, '\n', k);
    assert(s.take(s.len() as int) =~= s);
}

/// The lines `read_line` yields from `s`: each up to and including a newline, the
/// last one possibly without.
pub open spec fn read_lines(s: Seq<char>) -> Seq<Seq<char>>
    decreases s.len(),
{
    if s.len() == 0 {
        Seq::empty()
    } else {
        let k = char_index(s, '\n') as int;
        if k < s.len() {
            seq![s.take(k + 1)] + read_lines(s.skip(k + 1))
        } else {
            seq![s]
        }
    }
}

/// What a `ReplyCollector` holds after being fed `lines` up to the end marker.
pub open spec fn gathered(lines: Seq<Seq<char>>) -> Seq<char>
    decreases lines.len(),
{
    if lines.len() == 0 {
        Seq::empty()
    } else if trimmed(lines[0]) == "END"@ {
        Seq::empty()
    } else {
        lines[0] + gathered(lines.drop_first())
    }
}

/// No line of `t` reads as the end marker.
pub open spec fn free_of_end_marker(t: Seq<char>) -> bool {
    forall|i: int|
        0 <= i < read_lines(t + "\n"@).len() ==> trimmed(#[trigger] read_lines(t + "\n"@)[i])
            != "END"@
}

proof fn lemma_char_index_prefix(s: Seq<char>, u: Seq<char>, c: char)
    requires
        char_index(s, c) < s.len(),
    ensures
        char_index(s + u, c) == char_index(s, c),
    decreases s.len(),
{
    if s[0] != c {
        assert((s + u).drop_first() =~= s.drop_first() + u);
        lemma_char_index_prefix(s.drop_first(), u, c);
    }
}

proof fn lemma_char_index_bound(s: Seq<char>, c: char)
    ensures
        char_index(s, c) <= s.len(),
        char_index(s, c) < s.len() ==> s[char_index(s, c) as int] == c,
    decreases s.len(),
{
    if s.len() > 0 && s[0] != c {
        lemma_char_index_bound(s.drop_first(), c);
    }
}

proof fn lemma_first_char(s: Seq<char>, c: char, j: int)
    requires
        0 <= j < s.len(),
        s[j] == c,
        forall|t: int| 0 <= t < j ==> s[t] != c,
    ensures
        char_index(s, c) == j,
    decreases s.len(),
{
    if j > 0 {
        lemma_first_char(s.drop_first(), c, j - 1);
    }
}

/// Splitting text that ends with a newline, then more text, splits each part.
proof fn lemma_read_lines_append(s: Seq<char>, u: Seq<char>)
    requires
        s.len() > 0,
        s.last() == '\n',
    ensures
        read_lines(s + u) == read_lines(s) + read_lines(u),
    decreases s.len(),
{
    lemma_char_index_bound(s, '\n');
    if char_index(s, '\n') >= s.len() {
        assert(s[s.len() - 1] == '\n');
        assert(false) by {
            lemma_char_index_not_found(s, '\n');
        }
    }
    let k = char_index(s, '\n') as int;
    lemma_char_index_prefix(s, u, '\n');
    assert((s + u).take(k + 1) =~= s.take(k + 1));
    if k + 1 < s.len() {
        assert((s + u).skip(k + 1) =~= s.skip(k + 1) + u);
        lemma_read_lines_append(s.skip(k + 1), u);
        assert(read_lines(s + u) =~= seq![s.take(k + 1)] + (read_lines(s.skip(k + 1)) + read_lines(u)));
        assert(read_lines(s) =~= seq![s.take(k + 1)] + read_lines(s.skip(k + 1)));
    } else {
        assert((s + u).skip(k + 1) =~= u);
        assert(s.skip(k + 1) =~= Seq::<char>::empty());
        assert(read_lines(s.skip(k + 1)) =~= Seq::<Seq<char>>::empty());
    }
    assert(read_lines(s + u) =~= read_lines(s) + read_lines(u));
}

proof fn lemma_char_index_not_found(s: Seq<char>, c: char)
    requires
        char_index(s, c) >= s.len(),
    ensures
        forall|i: int| 0 <= i < s.len() ==> s[i] != c,
    decreases s.len(),
{
    if s.len() > 0 {
        lemma_char_index_not_found(s.drop_first(), c);
        assert forall|i: int| 0 <= i < s.len() implies s[i] != c by {
            if i > 0 {
                assert(s[i] == s.drop_first()[i - 1]);
            }
        }
    }
}

/// Feeding the lines of `s` (none of them the end marker) gathers `s` itself.
proof fn lemma_gathered_all(s: Seq<char>, rest: Seq<Seq<char>>)
    requires
        forall|i: int| 0 <= i < read_lines(s).len() ==> trimmed(#[trigger] read_lines(s)[i]) != "END"@,
    ensures
        gathered(read_lines(s) + rest) == s + gathered(rest),
    decreases s.len(),
{
    if s.len() == 0 {
        assert(read_lines(s) + rest =~= rest);
        assert(s + gathered(rest) =~= gathered(rest));
    } else {
        let k = char_index(s, '\n') as int;
        lemma_char_index_bound(s, '\n');
        if k < s.len() {
            let tail = s.skip(k + 1);
            assert(read_lines(s)[0] == s.take(k + 1));
            assert forall|i: int| 0 <= i < read_lines(tail).len() implies trimmed(
                #[trigger] read_lines(tail)[i],
            ) != "END"@ by {
                assert(read_lines(s)[i + 1] == read_lines(tail)[i]);
            }
            lemma_gathered_all(tail, rest);
            let all = read_lines(s) + rest;
            assert(all.drop_first() =~= read_lines(tail) + rest);
            assert(s =~= s.take(k + 1) + tail);
        } else {
            assert(read_lines(s)[0] == s);
            let all = read_lines(s) + rest;
            assert(all.drop_first() =~= rest);
        }
    }
}

/// What the console reads back of an answer the agent frames: the answer and a
/// newline, provided no line of the answer reads as the end marker.
pub proof fn lemma_framed_reply_read_back(t: Seq<char>)
    requires
        free_of_end_marker(t),
    ensures
        gathered(read_lines(crate::session::framed(t))) == t + "\n"@,
{
    reveal_strlit("\nEND\n");
    reveal_strlit("\n");
    reveal_strlit("END");
    reveal_strlit("END\n");
    let s = t + "\n"@;
    let u = "END\n"@;
    assert(u.len() == 4);
    assert(u[0] == 'E' && u[1] == 'N' && u[2] == 'D' && u[3] == '\n');
    assert(crate::session::framed(t) =~= s + u);
    assert(s.last() == '\n');
    lemma_read_lines_append(s, u);
    assert(char_index(u, '\n') == 3) by {
        lemma_char_index_bound(u, '\n');
        if char_index(u, '\n') < 3 {
            assert(u[char_index(u, '\n') as int] == '\n');
        }
        lemma_first_char(u, '\n', 3);
    }
    assert(u.take(4) =~= u);
    assert(u.skip(4) =~= Seq::<char>::empty());
    assert(read_lines(u.skip(4)) =~= Seq::<Seq<char>>::empty());
    assert(read_lines(u) == seq![u.take(4)] + read_lines(u.skip(4)));
    assert(read_lines(u) =~= seq![u]);
    assert(trimmed(u) == "END"@) by {
        reveal_with_fuel(trim_end, 3);
        assert(u.drop_last() =~= "END"@);
        assert(trim_start(u) == u);
    }
    assert(gathered(read_lines(u)) =~= Seq::<char>::empty());
    lemma_gathered_all(s, read_lines(u));
    assert(s + Seq::<char>::empty() =~= s);
}

/// The agent's greeting, though it ends without a newline, is a whole prompt and is
/// recognised as the token prompt; the console's token line is
/// accepted by the agent, and the agent's acceptance is recognised by the console.
pub proof fn lemma_handshake_agrees(peer: Seq<char>)
    ensures
        crate::session::session_step(
            crate::session::SessionState::Fresh,
            peer,
            crate::session::EventSpec::Connected,
        ).1.send == Some("TOKEN: "@),
        prompt_ended("TOKEN: "@),
        is_token_prompt("TOKEN: "@),
        crate::session::token_accepted(AUTH_TOKEN@ + "\n"@),
        is_ok_reply("OK\n"@),
{
    reveal_strlit("TOKEN: ");
    reveal_strlit("TOKEN");
    reveal_strlit("ENSPD2026");
    reveal_strlit("\n");
    reveal_strlit("OK\n");
    reveal_strlit("OK");
    assert("TOKEN: "@.subrange(0, 0 + "TOKEN"@.len() as int) =~= "TOKEN"@);
    assert("TOKEN: "@.subrange(0, 0 + "TOKEN: "@.len() as int) =~= "TOKEN: "@);
    let tok = AUTH_TOKEN@ + "\n"@;
    assert(trimmed(tok) == AUTH_TOKEN@) by {
        reveal_with_fuel(trim_end, 3);
        assert(tok.drop_last() =~= AUTH_TOKEN@);
    }
    assert(trimmed("OK\n"@) == "OK"@) by {
        reveal_with_fuel(trim_end, 3);
        assert("OK\n"@.drop_last() =~= "OK"@);
    }
}

/// A machine the console knows: its name and its address.
pub struct Machine {
    pub name: String,
    pub ip: String,
}

impl View for Machine {
    type V = (Seq<char>, Seq<char>);

    open spec fn view(&self) -> (Seq<char>, Seq<char>) {
        (self.name@, self.ip@)
    }
}

/// Machines as (name, address) pairs.
pub type MachineList = Seq<(Seq<char>, Seq<char>)>;

pub open spec fn machine_views(ms: Seq<Machine>) -> MachineList {
    ms.map_values(|m: Machine| m@)
}

pub open spec fn names_unique(ms: MachineList) -> bool {
    forall|i: int, j: int| 0 <= i < j < ms.len() ==> (#[trigger] ms[i]).0 != (#[trigger] ms[j]).0
}

pub open spec fn knows(ms: MachineList, name: Seq<char>) -> bool {
    exists|i: int| 0 <= i < ms.len() && (#[trigger] ms[i]).0 == name
}

pub open spec fn slot_of(ms: MachineList, name: Seq<char>) -> int {
    choose|i: int| 0 <= i < ms.len() && (#[trigger] ms[i]).0 == name
}

/// The address recorded for `name`.
pub open spec fn address_of(ms: MachineList, name: Seq<char>) -> Seq<char> {
    ms[slot_of(ms, name)].1
}

/// `ms` with `name` at `ip`: a known name gets the new address in place,
/// a new one is added at the end.
pub open spec fn with_machine(ms: MachineList, name: Seq<char>, ip: Seq<char>) -> MachineList {
    if knows(ms, name) {
        ms.update(slot_of(ms, name), (name, ip))
    } else {
        ms.push((name, ip))
    }
}

/// A consistent console: no name twice, and the selected machine is a known one.
pub open spec fn console_ok(c: ConsoleSpec) -> bool {
    &&& names_unique(c.machines)
    &&& c.selected matches Some(n) ==> knows(c.machines, n)
}

/// Recording a machine: it is then known at that address, and every other name keeps
/// whether it is known and its address.
pub proof fn lemma_recorded_machine(ms: MachineList, name: Seq<char>, ip: Seq<char>, other: Seq<char>)
    requires
        names_unique(ms),
    ensures
        names_unique(with_machine(ms, name, ip)),
        knows(with_machine(ms, name, ip), name),
        address_of(with_machine(ms, name, ip), name) == ip,
        other != name ==> knows(with_machine(ms, name, ip), other) == knows(ms, other),
        other != name && knows(ms, other) ==> address_of(with_machine(ms, name, ip), other)
            == address_of(ms, other),
{
    lemma_with_machine_unique(ms, name, ip);
    let r = with_machine(ms, name, ip);
    let k = if knows(ms, name) {
        slot_of(ms, name)
    } else {
        ms.len() as int
    };
    assert(r[k].0 == name);
    lemma_slot(r, name, k);
    if other != name {
        if knows(r, other) {
            let i = choose|i: int| 0 <= i < r.len() && (#[trigger] r[i]).0 == other;
            assert(ms[i].0 == other);
        }
        if knows(ms, other) {
            let i = slot_of(ms, other);
            assert(r[i].0 == other);
            lemma_slot(r, other, i);
        }
    }
}

/// Every step of the console keeps it consistent.
pub proof fn lemma_console_step_ok(c: ConsoleSpec, input: Seq<char>)
    requires
        console_ok(c),
    ensures
        console_ok(console_step(c, input).0),
{
    let t = trimmed(input);
    if t.len() >= 4 && t.take(4) == "add "@ {
        let args = trimmed(t.skip(4));
        let k = char_index(args, ' ');
        if k < args.len() {
            let name = args.take(k as int);
            lemma_with_machine_unique(c.machines, name, args.skip(k as int + 1));
        }
    }
}

/// The model of the console: its machines in order, and the one selected.
pub struct ConsoleSpec {
    pub machines: MachineList,
    pub selected: Option<Seq<char>>,
}

/// What the caller does for one input line of the console.
pub enum Directive {
    /// Nothing (an empty line).
    Skip,
    /// Close the active session, say goodbye and stop.
    Quit,
    /// Print the menu.
    ShowMenu,
    /// Scan the local network, then `merge` what was found and print `scan_listing`.
    Scan,
    /// Print this text.
    Print(String),
    /// Close the active session, if any (the selection is already cleared).
    Disconnect,
    /// Close the active session, open one to this machine, and report with `connected`.
    Connect(String, String),
    /// Send the command to each of these machines in a session of its own.
    Broadcast(String, Vec<Machine>),
    /// Send the command to the selected machine (name, address) in the active session.
    Forward(String, String, String),
}

/// The model of a `Directive`.
pub enum DirectiveSpec {
    Skip,
    Quit,
    ShowMenu,
    Scan,
    Print(Seq<char>),
    Disconnect,
    Connect(Seq<char>, Seq<char>),
    Broadcast(Seq<char>, MachineList),
    Forward(Seq<char>, Seq<char>, Seq<char>),
}

impl View for Directive {
    type V = DirectiveSpec;

    open spec fn view(&self) -> DirectiveSpec {
        match self {
            Directive::Skip => DirectiveSpec::Skip,
            Directive::Quit => DirectiveSpec::Quit,
            Directive::ShowMenu => DirectiveSpec::ShowMenu,
            Directive::Scan => DirectiveSpec::Scan,
            Directive::Print(t) => DirectiveSpec::Print(t@),
            Directive::Disconnect => DirectiveSpec::Disconnect,
            Directive::Connect(n, ip) => DirectiveSpec::Connect(n@, ip@),
            Directive::Broadcast(c, ms) => DirectiveSpec::Broadcast(
                c@,
                machine_views(ms@),
            ),
            Directive::Forward(n, ip, c) => DirectiveSpec::Forward(n@, ip@, c@),
        }
    }
}

/// One line per machine: `  <name> (<ip>)`, and ` <-- actif` after the selected one
/// when `marked`.
pub open spec fn machine_lines(ms: MachineList, selected: Option<Seq<char>>, marked: bool) -> Seq<
    char,
>
    decreases ms.len(),
{
    if ms.len() == 0 {
        Seq::empty()
    } else {
        let m = ms.last();
        let marker = if marked && selected == Some(m.0) {
            " <-- actif"@
        } else {
            Seq::empty()
        };
        machine_lines(ms.drop_last(), selected, marked) + "\n  "@ + m.0 + " ("@ + m.1 + ")"@
            + marker
    }
}

/// The answer to `list`.
pub open spec fn list_text(c: ConsoleSpec) -> Seq<char> {
    if c.machines.len() == 0 {
        "Aucune machine connue. Lance 'scan' d'abord."@
    } else {
        "\nMachines connues:"@ + machine_lines(c.machines, c.selected, true)
    }
}

/// The console's state and directive after the input line `input`.
pub open spec fn console_step(c: ConsoleSpec, input: Seq<char>) -> (ConsoleSpec, DirectiveSpec) {
    let t = trimmed(input);
    if t.len() == 0 {
        (c, DirectiveSpec::Skip)
    } else if t == "quit"@ || t == "exit"@ {
        (c, DirectiveSpec::Quit)
    } else if t == "help"@ {
        (c, DirectiveSpec::ShowMenu)
    } else if t == "scan"@ {
        (c, DirectiveSpec::Scan)
    } else if t == "list"@ {
        (c, DirectiveSpec::Print(list_text(c)))
    } else if t == "disconnect"@ {
        (ConsoleSpec { selected: None, ..c }, DirectiveSpec::Disconnect)
    } else if t.len() >= 4 && t.take(4) == "add "@ {
        let args = trimmed(t.skip(4));
        let k = char_index(args, ' ');
        if k < args.len() {
            let name = args.take(k as int);
            let ip = args.skip(k as int + 1);
            (
                ConsoleSpec { machines: with_machine(c.machines, name, ip), ..c },
                DirectiveSpec::Print("Machine ajoutee: "@ + name + " ("@ + ip + ")"@),
            )
        } else {
            (c, DirectiveSpec::Print("Usage: add <nom> <ip>  (ex: add PC-01 192.168.1.50)"@))
        }
    } else if t.len() >= 7 && t.take(7) == "select "@ {
        let name = trimmed(t.skip(7));
        if knows(c.machines, name) {
            (c, DirectiveSpec::Connect(name, address_of(c.machines, name)))
        } else {
            (
                c,
                DirectiveSpec::Print(
                    "Machine inconnue: '"@ + name + "'. Lance 'scan' ou 'add <nom> <ip>'."@,
                ),
            )
        }
    } else if t.len() >= 4 && t.take(4) == "all "@ {
        let cmd = trimmed(t.skip(4));
        if c.machines.len() == 0 {
            (c, DirectiveSpec::Print("Aucune machine connue. Lance 'scan' d'abord."@))
        } else {
            (c, DirectiveSpec::Broadcast(cmd, c.machines))
        }
    } else {
        match c.selected {
            None => (
                c,
                DirectiveSpec::Print(
                    "Aucune machine selectionnee. Utilise 'scan' puis 'select <nom>'."@,
                ),
            ),
            Some(name) => (c, DirectiveSpec::Forward(name, address_of(c.machines, name), t)),
        }
    }
}

/// Selecting a known machine opens a session to the address recorded for that very
/// machine, wherever it stands in the list: for `name` at position `i`, `select <name>`
/// connects to `name` at the address stored at `i`, and leaves the console as it was.
pub proof fn lemma_select_connects_to_own_address(c: ConsoleSpec, name: Seq<char>, i: int)
    requires
        console_ok(c),
        0 <= i < c.machines.len(),
        c.machines[i].0 == name,
        name.len() > 0,
        !is_space(name[0]),
        !is_space(name.last()),
    ensures
        console_step(c, "select "@ + name) == (c, DirectiveSpec::Connect(name, c.machines[i].1)),
{
    reveal_strlit("select ");
    reveal_strlit("quit");
    reveal_strlit("exit");
    reveal_strlit("help");
    reveal_strlit("scan");
    reveal_strlit("list");
    reveal_strlit("disconnect");
    reveal_strlit("add ");
    let t = "select "@ + name;
    assert(t[0] == 's');
    assert(!is_space(t[0]));
    assert(t.last() == name.last());
    assert(trim_start(t) == t);
    assert(trim_end(t) == t);
    assert(trim_start(name) == name);
    assert(trim_end(name) == name);
    assert(t.take(7) =~= "select "@);
    assert(t.skip(7) =~= name);
    assert(t.take(4) != "add "@) by {
        assert(t.take(4)[0] == 's');
    }
    assert(t != "quit"@ && t != "exit"@ && t != "help"@ && t != "scan"@ && t != "list"@) by {
        assert(t.len() >= 8);
    }
    assert(t != "disconnect"@) by {
        assert(t[0] != "disconnect"@[0]);
    }
    assert(knows(c.machines, name));
    let j = slot_of(c.machines, name);
    assert(c.machines[j].0 == name);
    assert(j == i);
}

/// Whatever the input, a session is only ever opened to a machine at the address
/// recorded for it, and a command is only forwarded to the selected machine at its
/// recorded address.
pub proof fn lemma_directives_use_recorded_addresses(c: ConsoleSpec, input: Seq<char>)
    requires
        console_ok(c),
    ensures
        console_step(c, input).1 matches DirectiveSpec::Connect(name, ip) ==> exists|i: int|
            0 <= i < c.machines.len() && #[trigger] c.machines[i] == (name, ip),
        console_step(c, input).1 matches DirectiveSpec::Forward(name, ip, _) ==> c.selected
            == Some(name) && exists|i: int|
            0 <= i < c.machines.len() && #[trigger] c.machines[i] == (name, ip),
{
    let d = console_step(c, input).1;
    match d {
        DirectiveSpec::Connect(name, ip) => {
            let j = slot_of(c.machines, name);
            assert(c.machines[j] == (name, ip));
        },
        DirectiveSpec::Forward(name, ip, _) => {
            let j = slot_of(c.machines, name);
            assert(c.machines[j] == (name, ip));
        },
        _ => {},
    }
}

/// Adding a machine then selecting it opens a session to the address just given:
/// after `add <name> <ip>`, `select <name>` connects to `name` at `ip`, whatever the
/// console knew before (a name given again takes its new address).
pub proof fn lemma_add_then_select(c: ConsoleSpec, name: Seq<char>, ip: Seq<char>)
    requires
        console_ok(c),
        name.len() > 0,
        ip.len() > 0,
        forall|j: int| 0 <= j < name.len() ==> !is_space(#[trigger] name[j]),
        !is_space(ip.last()),
    ensures
        console_step(console_step(c, "add "@ + name + " "@ + ip).0, "select "@ + name).1
            == DirectiveSpec::Connect(name, ip),
{
    reveal_strlit("add ");
    reveal_strlit(" ");
    reveal_strlit("quit");
    reveal_strlit("exit");
    reveal_strlit("help");
    reveal_strlit("scan");
    reveal_strlit("list");
    reveal_strlit("disconnect");
    let t = "add "@ + name + " "@ + ip;
    assert(t[0] == 'a');
    assert(t.last() == ip.last());
    assert(trim_start(t) == t);
    assert(trim_end(t) == t);
    assert(t.take(4) =~= "add "@);
    let args = name + " "@ + ip;
    assert(t.skip(4) =~= args);
    assert(args[0] == name[0]);
    assert(args.last() == ip.last());
    assert(trim_start(args) == args);
    assert(trim_end(args) == args);
    assert forall|j: int| 0 <= j < name.len() implies args[j] != ' ' by {
        assert(args[j] == name[j]);
        assert(!is_space(name[j]));
    }
    assert(args[name.len() as int] == ' ');
    lemma_char_index(args, ' ', name.len() as int);
    assert(args.take(name.len() as int) =~= name);
    assert(args.skip(name.len() as int + 1) =~= ip);
    assert(t != "quit"@ && t != "exit"@ && t != "help"@ && t != "scan"@ && t != "list"@) by {
        assert(t.len() >= 6);
        if t.len() == 4 {
        }
    }
    assert(t != "disconnect"@) by {
        assert(t[0] != "disconnect"@[0]);
    }
    let c2 = console_step(c, t).0;
    assert(c2.machines == with_machine(c.machines, name, ip));
    lemma_recorded_machine(c.machines, name, ip, name);
    lemma_console_step_ok(c, t);
    let i = slot_of(c2.machines, name);
    assert(c2.machines[i].0 == name);
    assert(!is_space(name[0]));
    assert(!is_space(name.last()));
    lemma_select_connects_to_own_address(c2, name, i);
}

/// The console: the machines it knows and the one selected.
pub struct Console {
    machines: Vec<Machine>,
    selected: Option<String>,
}

impl View for Console {
    type V = ConsoleSpec;

    closed spec fn view(&self) -> ConsoleSpec {
        ConsoleSpec {
            machines: machine_views(self.machines@),
            selected: match self.selected {
                Some(n) => Some(n@),
                None => None,
            },
        }
    }
}

/// The machines known after taking in `found`, in order.
pub open spec fn merged(ms: MachineList, found: MachineList) -> MachineList
    decreases found.len(),
{
    if found.len() == 0 {
        ms
    } else {
        with_machine(merged(ms, found.drop_last()), found.last().0, found.last().1)
    }
}

proof fn lemma_slot(ms: MachineList, name: Seq<char>, i: int)
    requires
        names_unique(ms),
        0 <= i < ms.len(),
        ms[i].0 == name,
    ensures
        knows(ms, name),
        slot_of(ms, name) == i,
{
    assert(knows(ms, name));
    let j = slot_of(ms, name);
    if j != i {
        if i < j {
            assert(ms[i].0 != ms[j].0);
        } else {
            assert(ms[j].0 != ms[i].0);
        }
    }
}

proof fn lemma_with_machine_unique(ms: MachineList, name: Seq<char>, ip: Seq<char>)
    requires
        names_unique(ms),
    ensures
        names_unique(with_machine(ms, name, ip)),
        knows(with_machine(ms, name, ip), name),
        forall|n: Seq<char>| knows(ms, n) ==> knows(with_machine(ms, name, ip), n),
{
    let r = with_machine(ms, name, ip);
    if knows(ms, name) {
        let k = slot_of(ms, name);
        assert(r[k].0 == name);
        assert forall|n: Seq<char>| knows(ms, n) implies knows(r, n) by {
            let i = choose|i: int| 0 <= i < ms.len() && (#[trigger] ms[i]).0 == n;
            assert(r[i].0 == n);
        }
    } else {
        assert(r[ms.len() as int].0 == name);
        assert forall|n: Seq<char>| knows(ms, n) implies knows(r, n) by {
            let i = choose|i: int| 0 <= i < ms.len() && (#[trigger] ms[i]).0 == n;
            assert(r[i].0 == n);
        }
    }
}

impl Console {
    #[verifier::type_invariant]
    spec fn well_formed(self) -> bool {
        &&& names_unique(self@.machines)
        &&& self@.selected matches Some(n) ==> knows(self@.machines, n)
    }

    /// A console that knows no machine and has none selected.
    pub fn new() -> (c: Self)
        ensures
            c@.machines.len() == 0,
            c@.selected is None,
    {
        let c = Console { machines: Vec::new(), selected: None };
        assert(c@.machines =~= Seq::<(Seq<char>, Seq<char>)>::empty());
        c
    }

    fn slot(&self, name: &str) -> (r: Option<usize>)
        ensures
            r matches Some(i) ==> i < self@.machines.len() && slot_of(self@.machines, name@) == i
                && knows(self@.machines, name@),
            r is None ==> !knows(self@.machines, name@),
    {
        proof {
            use_type_invariant(self);
        }
        let w = chars_of(name);
        let mut i: usize = 0;
        while i < self.machines.len()
            invariant
                i <= self.machines@.len(),
                names_unique(self@.machines),
                w@ == name@,
                self@.machines == machine_views(self.machines@),
                forall|j: int| 0 <= j < i ==> (#[trigger] self@.machines[j]).0 != name@,
            decreases self.machines@.len() - i,
        {
            let v = chars_of(self.machines[i].name.as_str());
            if v.len() == w.len() && chars_equal(&v, name) {
                proof {
                    lemma_slot(self@.machines, name@, i as int);
                }
                return Some(i);
            }
            i = i + 1;
        }
        None
    }

    fn insert(&mut self, name: String, ip: String)
        ensures
            final(self)@.machines == with_machine(old(self)@.machines, name@, ip@),
            final(self)@.selected == old(self)@.selected,
    {
        proof {
            use_type_invariant(&*self);
            lemma_with_machine_unique(self@.machines, name@, ip@);
        }
        let ghost before = self@.machines;
        let found = self.slot(name.as_str());
        let mut current = Console::new();
        std::mem::swap(&mut current, self);
        let Console { mut machines, selected } = current;
        match found {
            Some(i) => {
                machines.set(i, Machine { name, ip });
            },
            None => {
                machines.push(Machine { name, ip });
            },
        }
        assert(machine_views(machines@) =~= with_machine(before, name@, ip@));
        *self = Console { machines, selected };
    }

    fn copy_machines(&self) -> (r: Vec<Machine>)
        ensures
            machine_views(r@) == self@.machines,
    {
        let mut r: Vec<Machine> = Vec::new();
        let mut i: usize = 0;
        while i < self.machines.len()
            invariant
                i <= self.machines@.len(),
                self@.machines == machine_views(self.machines@),
                r@.len() == i,
                forall|k: int| 0 <= k < i ==> (#[trigger] r@[k])@ == self@.machines[k],
            decreases self.machines@.len() - i,
        {
            let m = &self.machines[i];
            let c = Machine { name: m.name.clone(), ip: m.ip.clone() };
            assert(c@ == self@.machines[i as int]);
            r.push(c);
            i = i + 1;
        }
        assert(machine_views(r@) =~= self@.machines);
        r
    }

    fn push_machine_lines(&self, out: &mut String, marked: bool)
        ensures
            final(out)@ == old(out)@ + machine_lines(self@.machines, self@.selected, marked),
    {
        let ghost start = out@;
        let ghost ms = self@.machines;
        let mut i: usize = 0;
        assert(ms.take(0) =~= Seq::<(Seq<char>, Seq<char>)>::empty());
        while i < self.machines.len()
            invariant
                i <= self.machines@.len(),
                ms == self@.machines,
                self@.machines == machine_views(self.machines@),
                out@ == start + machine_lines(ms.take(i as int), self@.selected, marked),
            decreases self.machines@.len() - i,
        {
            let m = &self.machines[i];
            out.append("\n  ");
            out.append(m.name.as_str());
            out.append(" (");
            out.append(m.ip.as_str());
            out.append(")");
            let is_selected = match &self.selected {
                Some(sel) => {
                    let v = chars_of(sel.as_str());
                    chars_equal(&v, m.name.as_str())
                },
                None => false,
            };
            if marked && is_selected {
                out.append(" <-- actif");
            }
            assert(ms.take(i + 1).drop_last() =~= ms.take(i as int));
            i = i + 1;
            assert(out@ =~= start + machine_lines(ms.take(i as int), self@.selected, marked));
        }
        assert(ms.take(i as int) =~= ms);
    }

    /// The answer to `list`.
    pub fn list_reply(&self) -> (r: String)
        ensures
            r@ == list_text(self@),
    {
        if self.machines.len() == 0 {
            String::from_str("Aucune machine connue. Lance 'scan' d'abord.")
        } else {
            let mut r = String::from_str("\nMachines connues:");
            self.push_machine_lines(&mut r, true);
            r
        }
    }

    /// What is printed after a scan: the machines known, if any, without marker.
    pub fn scan_listing(&self) -> (r: Option<String>)
        ensures
            self@.machines.len() == 0 ==> r is None,
            self@.machines.len() > 0 ==> (r matches Some(t) && t@ == "\nMachines connues:"@
                + machine_lines(self@.machines, self@.selected, false)),
    {
        if self.machines.len() == 0 {
            None
        } else {
            let mut r = String::from_str("\nMachines connues:");
            self.push_machine_lines(&mut r, false);
            Some(r)
        }
    }

    /// Takes in the machines a scan found, in order: known names get the new
    /// address, new names are added.
    pub fn merge(&mut self, found: Vec<Machine>)
        ensures
            final(self)@.machines == merged(old(self)@.machines, machine_views(found@)),
            final(self)@.selected == old(self)@.selected,
    {
        let ghost f = machine_views(found@);
        let ghost start = self@.machines;
        let count = found.len();
        let mut rest = found;
        let mut i: usize = 0;
        assert(f.take(0) =~= Seq::<(Seq<char>, Seq<char>)>::empty());
        while rest.len() > 0
            invariant
                i <= count == f.len(),
                machine_views(rest@) == f.skip(i as int),
                self@.machines == merged(start, f.take(i as int)),
                self@.selected == old(self)@.selected,
            decreases rest@.len(),
        {
            assert(f.skip(i as int).len() == count - i);
            assert(machine_views(rest@)[0] == rest@[0]@);
            let ghost before_rest = rest@;
            let m = rest.remove(0);
            assert(rest@ =~= before_rest.drop_first());
            assert forall|k: int| 0 <= k < rest@.len() implies #[trigger] machine_views(rest@)[k] == f.skip(i + 1)[k] by {
                assert(rest@[k] == before_rest[k + 1]);
                assert(machine_views(before_rest)[k + 1] == f.skip(i as int)[k + 1]);
            }
            assert(m@ == f[i as int]);
            self.insert(m.name, m.ip);
            assert(f.take(i + 1).drop_last() =~= f.take(i as int));
            i = i + 1;
            assert(machine_views(rest@) =~= f.skip(i as int));
        }
        assert(f.take(i as int) =~= f);
    }

    /// Records how the connection to `name` (from a `Connect`) went: on success it
    /// becomes the selected machine; otherwise nothing is selected and the message to
    /// print is returned.
    pub fn connected(&mut self, name: &str, ok: bool) -> (msg: Option<String>)
        ensures
            final(self)@.machines == old(self)@.machines,
            ok && knows(old(self)@.machines, name@) ==> final(self)@.selected == Some(name@)
                && msg is None,
            ok && !knows(old(self)@.machines, name@) ==> final(self)@.selected is None && msg is None,
            !ok ==> final(self)@.selected is None && (msg matches Some(t) && t@
                == "Impossible de se connecter a "@ + name@ + "."@),
    {
        proof {
            use_type_invariant(&*self);
        }
        if ok {
            if self.slot(name).is_some() {
                self.selected = Some(String::from_str(name));
            } else {
                self.selected = None;
            }
            None
        } else {
            self.selected = None;
            let mut t = String::from_str("Impossible de se connecter a ");
            t.append(name);
            t.append(".");
            Some(t)
        }
    }

    /// The name of the selected machine, if any.
    pub fn selected(&self) -> (r: Option<String>)
        ensures
            r matches Some(n) ==> self@.selected == Some(n@),
            r is None ==> self@.selected is None,
    {
        match &self.selected {
            Some(n) => Some(n.clone()),
            None => None,
        }
    }

    /// Drops the selection (the selected machine could not be reached again).
    pub fn forget_selection(&mut self)
        ensures
            final(self)@.machines == old(self)@.machines,
            final(self)@.selected is None,
    {
        proof {
            use_type_invariant(&*self);
        }
        self.selected = None;
    }

    /// Records how reconnecting to the selected machine `name` went: on failure the
    /// selection is dropped and the message to print is returned; on success nothing
    /// changes.
    pub fn reconnected(&mut self, name: &str, ok: bool) -> (msg: Option<String>)
        ensures
            final(self)@.machines == old(self)@.machines,
            ok ==> final(self)@ == old(self)@ && msg is None,
            !ok ==> final(self)@.selected is None && (msg matches Some(t) && t@
                == "Impossible de se reconnecter a "@ + name@ + "."@),
    {
        if ok {
            None
        } else {
            self.forget_selection();
            let mut t = String::from_str("Impossible de se reconnecter a ");
            t.append(name);
            t.append(".");
            Some(t)
        }
    }

    /// Handles one input line.
    pub fn handle(&mut self, input: &str) -> (d: Directive)
        ensures
            (final(self)@, d@) == console_step(old(self)@, input@),
    {
        proof {
            use_type_invariant(&*self);
            reveal_strlit("add ");
            reveal_strlit("select ");
            reveal_strlit("all ");
        }
        let t = trim(input);
        let v = chars_of(t.as_str());
        if v.len() == 0 {
            Directive::Skip
        } else if chars_equal(&v, "quit") || chars_equal(&v, "exit") {
            Directive::Quit
        } else if chars_equal(&v, "help") {
            Directive::ShowMenu
        } else if chars_equal(&v, "scan") {
            Directive::Scan
        } else if chars_equal(&v, "list") {
            Directive::Print(self.list_reply())
        } else if chars_equal(&v, "disconnect") {
            self.selected = None;
            Directive::Disconnect
        } else if starts_with(&v, "add ") {
            let rest = string_of(&v, 4, v.len());
            let args = trim(rest.as_str());
            let a = chars_of(args.as_str());
            let k = find_char(&a, ' ');
            if k < a.len() {
                let name = string_of(&a, 0, k);
                let ip = string_of(&a, k + 1, a.len());
                let mut msg = String::from_str("Machine ajoutee: ");
                msg.append(name.as_str());
                msg.append(" (");
                msg.append(ip.as_str());
                msg.append(")");
                self.insert(name, ip);
                Directive::Print(msg)
            } else {
                Directive::Print(String::from_str("Usage: add <nom> <ip>  (ex: add PC-01 192.168.1.50)"))
            }
        } else if starts_with(&v, "select ") {
            let rest = string_of(&v, 7, v.len());
            let name = trim(rest.as_str());
            match self.slot(name.as_str()) {
                Some(i) => {
                    let ip = self.machines[i].ip.clone();
                    Directive::Connect(name, ip)
                },
                None => {
                    let mut msg = String::from_str("Machine inconnue: '");
                    msg.append(name.as_str());
                    msg.append("'. Lance 'scan' ou 'add <nom> <ip>'.");
                    Directive::Print(msg)
                },
            }
        } else if starts_with(&v, "all ") {
            let rest = string_of(&v, 4, v.len());
            let cmd = trim(rest.as_str());
            if self.machines.len() == 0 {
                Directive::Print(String::from_str("Aucune machine connue. Lance 'scan' d'abord."))
            } else {
                Directive::Broadcast(cmd, self.copy_machines())
            }
        } else {
            match &self.selected {
                None => Directive::Print(
                    String::from_str("Aucune machine selectionnee. Utilise 'scan' puis 'select <nom>'."),
                ),
                Some(name) => {
                    let name = name.clone();
                    match self.slot(name.as_str()) {
                        Some(i) => {
                            let ip = self.machines[i].ip.clone();
                            Directive::Forward(name, ip, t)
                        },
                        None => Directive::Skip,
                    }
                },
            }
        }
    }
}

/// Whether a command for the selected machine must first reconnect: `alive` tells
/// whether there is an open session and, if so, whether it still answers.
pub fn needs_reconnect(alive: Option<bool>) -> (r: bool)
    ensures
        r == !(alive == Some(true)),
{
    match alive {
        Some(a) => !a,
        None => true,
    }
}

} // verus!
