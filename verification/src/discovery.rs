//! Discovery of development servers listening on localhost: reading the
//! listener tables that the operating system prints, classifying the
//! processes behind them, and ranking the candidates.

use vstd::prelude::*;
use crate::models::{AppSettings, DiscoveryCandidate};
use crate::platform::{canonical_path, file_name_of, now_ms, path_file_name, path_is_dir, path_prefix, path_starts_with};
use crate::text::{
    chars_of, decimal, has_prefix, lower, lower_string, push_decimal, push_str, has_substring, lines, parse_unsigned, parse_unsigned_exec, slice_chars,
    split_lines, str_contains, str_equal, string_of, trim, trim_string, views_of,
};

verus! {

/// A TCP socket in the listening state, and the process that owns it.
#[derive(Debug, Clone, PartialEq, Eq)]
pub struct ListeningSocket {
    pub pid: u32,
    pub port: u16,
    pub address: String,
}

impl View for ListeningSocket {
    type V = (u32, u16, Seq<char>);

    open spec fn view(&self) -> (u32, u16, Seq<char>) {
        (self.pid, self.port, self.address@)
    }
}

pub open spec fn sockets_view(v: Seq<ListeningSocket>) -> Seq<(u32, u16, Seq<char>)> {
    v.map_values(|s: ListeningSocket| s@)
}

// ---------------------------------------------------------------------
// lsof's machine-readable output
// ---------------------------------------------------------------------

/// Index of the last `:` in `v`, or -1.
pub open spec fn last_colon(v: Seq<char>) -> int
    decreases v.len(),
{
    if v.len() == 0 {
        -1
    } else if v.last() == ':' {
        v.len() - 1
    } else {
        last_colon(v.drop_last())
    }
}

/// The text after the last `:`, or all of `v` when it has none
/// (`v.rsplit(':').next()`).
pub open spec fn after_last_colon(v: Seq<char>) -> Seq<char> {
    v.subrange(last_colon(v) + 1, v.len() as int)
}

pub open spec fn is_bracket(c: char) -> bool {
    c == '[' || c == ']'
}

pub open spec fn strip_brackets_start(s: Seq<char>) -> Seq<char>
    decreases s.len(),
{
    if s.len() > 0 && is_bracket(s[0]) {
        strip_brackets_start(s.drop_first())
    } else {
        s
    }
}

pub open spec fn strip_brackets_end(s: Seq<char>) -> Seq<char>
    decreases s.len(),
{
    if s.len() > 0 && is_bracket(s.last()) {
        strip_brackets_end(s.drop_last())
    } else {
        s
    }
}

/// `s.trim_matches(['[', ']'])`.
pub open spec fn strip_brackets(s: Seq<char>) -> Seq<char> {
    strip_brackets_end(strip_brackets_start(s))
}

/// The address of an `n` record: what stands before the last `:`, without
/// the brackets of an IPv6 address; empty when there is no `:`.
pub open spec fn lsof_address(v: Seq<char>) -> Seq<char> {
    if last_colon(v) >= 0 {
        strip_brackets(v.subrange(0, last_colon(v)))
    } else {
        seq![]
    }
}

/// One line of `lsof -F pcn` output applied to (current pid, listeners so
/// far): `p<pid>` sets the pid (a bad number clears it), `n<address>:<port>`
/// adds a listener when a pid is known and the port is a number, and every
/// other line is skipped.
pub open spec fn lsof_step(
    state: (Option<u32>, Seq<(u32, u16, Seq<char>)>),
    line: Seq<char>,
) -> (Option<u32>, Seq<(u32, u16, Seq<char>)>) {
    let (pid, out) = state;
    if line.len() > 0 && line[0] == 'p' {
        let parsed = parse_unsigned(line.drop_first(), 0xffff_ffff);
        (
            match parsed {
                Some(n) => Some(n as u32),
                None => None,
            },
            out,
        )
    } else if line.len() > 0 && line[0] == 'n' {
        let value = line.drop_first();
        match (parse_unsigned(after_last_colon(value), 0xffff), pid) {
            (Some(port), Some(p)) => (pid, out.push((p, port as u16, lsof_address(value)))),
            _ => (pid, out),
        }
    } else {
        (pid, out)
    }
}

pub open spec fn lsof_fold(ls: Seq<Seq<char>>) -> (Option<u32>, Seq<(u32, u16, Seq<char>)>)
    decreases ls.len(),
{
    if ls.len() == 0 {
        (None, seq![])
    } else {
        lsof_step(lsof_fold(ls.drop_last()), ls.last())
    }
}

/// The listeners that `lsof -nP -iTCP -sTCP:LISTEN -Fpcn` reports in `s`.
pub open spec fn lsof_listeners(s: Seq<char>) -> Seq<(u32, u16, Seq<char>)> {
    lsof_fold(lines(s)).1
}

fn last_colon_exec(v: &Vec<char>) -> (r: Option<usize>)
    ensures
        match r {
            Some(i) => last_colon(v@) == i as int && i < v.len(),
            None => last_colon(v@) == -1,
        },
{
    let mut i = v.len();
    assert(v@.subrange(0, i as int) =~= v@);
    while i > 0
        invariant
            i <= v.len(),
            last_colon(v@) == last_colon(v@.subrange(0, i as int)),
        decreases i,
    {
        assert(v@.subrange(0, i as int).drop_last() =~= v@.subrange(0, i - 1));
        if v[i - 1] == ':' {
            return Some(i - 1);
        }
        i -= 1;
    }
    None
}

fn strip_brackets_exec(v: &Vec<char>) -> (r: Vec<char>)
    ensures
        r@ == strip_brackets(v@),
{
    let n = v.len();
    let mut lo: usize = 0;
    assert(v@.subrange(0, n as int) =~= v@);
    while lo < n && (v[lo] == '[' || v[lo] == ']')
        invariant
            lo <= n == v.len(),
            strip_brackets_start(v@) == strip_brackets_start(v@.subrange(lo as int, n as int)),
        decreases n - lo,
    {
        assert(v@.subrange(lo as int, n as int).drop_first() =~= v@.subrange(lo + 1, n as int));
        lo += 1;
    }
    assert(strip_brackets_start(v@.subrange(lo as int, n as int)) == v@.subrange(
        lo as int,
        n as int,
    ));
    let mut hi: usize = n;
    while hi > lo && (v[hi - 1] == '[' || v[hi - 1] == ']')
        invariant
            lo <= hi <= n == v.len(),
            strip_brackets(v@) == strip_brackets_end(v@.subrange(lo as int, hi as int)),
        decreases hi,
    {
        assert(v@.subrange(lo as int, hi as int).drop_last() =~= v@.subrange(lo as int, hi - 1));
        hi -= 1;
    }
    slice_chars(v, lo, hi)
}

/// Reads the listeners out of lsof's machine-readable output
/// (`-F pcn`: a `p` line names the process, `n` lines its sockets).
pub fn parse_lsof_listeners(contents: &str) -> (r: Vec<ListeningSocket>)
    ensures
        sockets_view(r@) == lsof_listeners(contents@),
{
    let all = chars_of(contents);
    let ls = split_lines(&all);
    let mut pid: Option<u32> = None;
    let mut listeners: Vec<ListeningSocket> = Vec::new();
    let mut i: usize = 0;
    while i < ls.len()
        invariant
            i <= ls.len(),
            views_of(ls@) == lines(contents@),
            (pid, sockets_view(listeners@)) == lsof_fold(views_of(ls@).subrange(0, i as int)),
        decreases ls.len() - i,
    {
        let line = &ls[i];
        let ghost before = (pid, sockets_view(listeners@));
        assert(views_of(ls@).subrange(0, i + 1).drop_last() =~= views_of(ls@).subrange(0, i as int));
        assert(views_of(ls@).subrange(0, i + 1).last() == line@);
        if line.len() > 0 && line[0] == 'p' {
            let rest = slice_chars(line, 1, line.len());
            assert(rest@ =~= line@.drop_first());
            pid = match parse_unsigned_exec(&rest, 0xffff_ffff) {
                Some(n) => Some(n as u32),
                None => None,
            };
        } else if line.len() > 0 && line[0] == 'n' {
            let value = slice_chars(line, 1, line.len());
            assert(value@ =~= line@.drop_first());
            let colon = last_colon_exec(&value);
            let port_text = match colon {
                Some(c) => slice_chars(&value, c + 1, value.len()),
                None => slice_chars(&value, 0, value.len()),
            };
            assert(port_text@ =~= after_last_colon(value@));
            let port = parse_unsigned_exec(&port_text, 0xffff);
            match (port, pid) {
                (Some(port), Some(p)) => {
                    let address_chars = match colon {
                        Some(c) => {
                            let before_colon = slice_chars(&value, 0, c);
                            strip_brackets_exec(&before_colon)
                        },
                        None => Vec::new(),
                    };
                    assert(address_chars@ =~= lsof_address(value@));
                    let address = string_of(&address_chars);
                    listeners.push(ListeningSocket { pid: p, port: port as u16, address });
                    assert(sockets_view(listeners@) =~= before.1.push(
                        (p, port as u16, lsof_address(value@)),
                    ));
                },
                _ => {},
            }
        }
        i += 1;
    }
    assert(views_of(ls@).subrange(0, ls.len() as int) =~= views_of(ls@));
    listeners
}

// ---------------------------------------------------------------------
// Classifying processes and ports
// ---------------------------------------------------------------------

/// The runtime that a lowercase process name suggests, and how strongly it
/// suggests a development server.
pub open spec fn runtime_of(name: Seq<char>) -> (Seq<char>, u8) {
    if has_substring(name, "node"@) {
        ("Node.js"@, 40)
    } else if has_substring(name, "bun"@) {
        ("Bun"@, 40)
    } else if has_substring(name, "deno"@) {
        ("Deno"@, 40)
    } else if has_substring(name, "python"@) || has_substring(name, "uvicorn"@) {
        ("Python"@, 40)
    } else if has_substring(name, "cargo"@) || has_substring(name, "rust"@) {
        ("Rust"@, 35)
    } else if has_substring(name, "dotnet"@) {
        (".NET"@, 35)
    } else if has_substring(name, "java"@) {
        ("Java"@, 30)
    } else if has_substring(name, "php"@) {
        ("PHP"@, 35)
    } else if has_substring(name, "ruby"@) {
        ("Ruby"@, 35)
    } else {
        ("Local server / ローカルサーバー"@, 0)
    }
}

/// Names the runtime behind a (lowercase) process name, with a score.
pub fn classify_runtime(process_name: &str) -> (r: (String, u8))
    ensures
        r.0@ == runtime_of(process_name@).0,
        r.1 == runtime_of(process_name@).1,
{
    if str_contains(process_name, "node") {
        ("Node.js".to_string(), 40)
    } else if str_contains(process_name, "bun") {
        ("Bun".to_string(), 40)
    } else if str_contains(process_name, "deno") {
        ("Deno".to_string(), 40)
    } else if str_contains(process_name, "python") || str_contains(process_name, "uvicorn") {
        ("Python".to_string(), 40)
    } else if str_contains(process_name, "cargo") || str_contains(process_name, "rust") {
        ("Rust".to_string(), 35)
    } else if str_contains(process_name, "dotnet") {
        (".NET".to_string(), 35)
    } else if str_contains(process_name, "java") {
        ("Java".to_string(), 30)
    } else if str_contains(process_name, "php") {
        ("PHP".to_string(), 35)
    } else if str_contains(process_name, "ruby") {
        ("Ruby".to_string(), 35)
    } else {
        ("Local server / ローカルサーバー".to_string(), 0)
    }
}

/// `name` is `base` itself or `base` followed by a dot and anything
/// (`svchost.exe` for `svchost`).
pub open spec fn names_process(name: Seq<char>, base: Seq<char>) -> bool {
    name == base || has_prefix(name, base.push('.'))
}

/// Processes that discovery never offers: system services, databases,
/// Docker, and the manager itself.
pub open spec fn excluded_process(name: Seq<char>) -> bool {
    ||| names_process(name, "system"@)
    ||| names_process(name, "svchost"@)
    ||| names_process(name, "lsass"@)
    ||| names_process(name, "services"@)
    ||| names_process(name, "postgres"@)
    ||| names_process(name, "mysqld"@)
    ||| names_process(name, "mariadbd"@)
    ||| names_process(name, "redis-server"@)
    ||| names_process(name, "docker"@)
    ||| names_process(name, "com.docker"@)
    ||| names_process(name, "vibe-manager"@)
}

fn names_process_exec(name: &str, base: &str) -> (r: bool)
    ensures
        r == names_process(name@, base@),
{
    if str_equal(name, base) {
        return true;
    }
    let mut dotted = chars_of(base);
    dotted.push('.');
    let n = chars_of(name);
    crate::text::has_prefix_exec(&n, &dotted)
}

/// Whether discovery leaves a (lowercase) process name alone.
pub fn is_excluded_process(process_name: &str) -> (r: bool)
    ensures
        r == excluded_process(process_name@),
{
    names_process_exec(process_name, "system") || names_process_exec(process_name, "svchost")
        || names_process_exec(process_name, "lsass") || names_process_exec(process_name, "services")
        || names_process_exec(process_name, "postgres") || names_process_exec(
        process_name,
        "mysqld",
    ) || names_process_exec(process_name, "mariadbd") || names_process_exec(
        process_name,
        "redis-server",
    ) || names_process_exec(process_name, "docker") || names_process_exec(
        process_name,
        "com.docker",
    ) || names_process_exec(process_name, "vibe-manager")
}

/// Ports that development servers commonly use.
pub open spec fn common_dev_port(port: u16) -> bool {
    ||| 3000 <= port <= 3010
    ||| 4000 <= port <= 4010
    ||| port == 4200
    ||| port == 4321
    ||| 5000 <= port <= 5010
    ||| 5173 <= port <= 5180
    ||| 8000 <= port <= 8010
    ||| 8080 <= port <= 8090
    ||| 8787 <= port <= 8790
    ||| 9000 <= port <= 9010
}

pub fn is_common_dev_port(port: u16) -> (r: bool)
    ensures
        r == common_dev_port(port),
{
    (3000 <= port && port <= 3010) || (4000 <= port && port <= 4010) || port == 4200 || port
        == 4321 || (5000 <= port && port <= 5010) || (5173 <= port && port <= 5180) || (8000 <= port
        && port <= 8010) || (8080 <= port && port <= 8090) || (8787 <= port && port <= 8790) || (
    9000 <= port && port <= 9010)
}

/// Addresses on which a server is reachable from other machines.
pub open spec fn external_address(address: Seq<char>) -> bool {
    address == "0.0.0.0"@ || address == "::"@ || address == "*"@ || address == "[::]"@
}

pub fn is_external_address(address: &str) -> (r: bool)
    ensures
        r == external_address(address@),
{
    str_equal(address, "0.0.0.0") || str_equal(address, "::") || str_equal(address, "*")
        || str_equal(address, "[::]")
}

// ---------------------------------------------------------------------
// Reconstructing a command line
// ---------------------------------------------------------------------

/// The platform's conventions: how a command line is written back (for a POSIX
/// shell or for `cmd.exe`), and whether paths compare resolved and without case.
#[derive(Debug, Clone, Copy, PartialEq, Eq, Structural)]
pub enum ShellStyle {
    Posix,
    Windows,
}

/// Characters that a POSIX shell reads literally outside quotes.
pub open spec fn posix_plain(c: char) -> bool {
    ||| 'a' <= c <= 'z'
    ||| 'A' <= c <= 'Z'
    ||| '0' <= c <= '9'
    ||| c == '-'
    ||| c == '_'
    ||| c == '.'
    ||| c == '/'
    ||| c == ':'
}

/// Each `'` written as `'\''` (close the quote, an escaped quote, reopen).
pub open spec fn escape_single_quotes(s: Seq<char>) -> Seq<char>
    decreases s.len(),
{
    if s.len() == 0 {
        seq![]
    } else {
        escape_single_quotes(s.drop_last()) + if s.last() == '\'' {
            seq!['\'', '\\', '\'', '\'']
        } else {
            seq![s.last()]
        }
    }
}

/// Each `"` written as `\"`.
pub open spec fn escape_double_quotes(s: Seq<char>) -> Seq<char>
    decreases s.len(),
{
    if s.len() == 0 {
        seq![]
    } else {
        escape_double_quotes(s.drop_last()) + if s.last() == '"' {
            seq!['\\', '"']
        } else {
            seq![s.last()]
        }
    }
}

pub open spec fn windows_special(c: char) -> bool {
    c == ' ' || c == '\t' || c == '"'
}

/// One argument as it is written into a command line.
pub open spec fn quoted(arg: Seq<char>, style: ShellStyle) -> Seq<char> {
    match style {
        ShellStyle::Posix => if forall|i: int| 0 <= i < arg.len() ==> posix_plain(#[trigger] arg[i]) {
            arg
        } else {
            seq!['\''] + escape_single_quotes(arg) + seq!['\'']
        },
        ShellStyle::Windows => if exists|i: int| 0 <= i < arg.len() && windows_special(#[trigger] arg[i]) {
            seq!['"'] + escape_double_quotes(arg) + seq!['"']
        } else {
            arg
        },
    }
}

/// The parts separated by single spaces (`[..].join(" ")`).
pub open spec fn join_spaced(parts: Seq<Seq<char>>) -> Seq<char>
    decreases parts.len(),
{
    if parts.len() == 0 {
        seq![]
    } else if parts.len() == 1 {
        parts[0]
    } else {
        join_spaced(parts.drop_last()) + seq![' '] + parts.last()
    }
}

pub open spec fn command_line(args: Seq<Seq<char>>, style: ShellStyle) -> Seq<char> {
    join_spaced(args.map_values(|a: Seq<char>| quoted(a, style)))
}

fn posix_plain_exec(c: char) -> (r: bool)
    ensures
        r == posix_plain(c),
{
    ('a' <= c && c <= 'z') || ('A' <= c && c <= 'Z') || ('0' <= c && c <= '9') || c == '-' || c
        == '_' || c == '.' || c == '/' || c == ':'
}

/// Quotes one argument so that the shell of `style` reads it back intact.
pub fn shell_quote(argument: &str, style: ShellStyle) -> (r: String)
    ensures
        r@ == quoted(argument@, style),
{
    let v = chars_of(argument);
    let n = v.len();
    let mut out: Vec<char> = Vec::new();
    match style {
        ShellStyle::Posix => {
            let mut i: usize = 0;
            while i < n && posix_plain_exec(v[i])
                invariant
                    i <= n == v.len(),
                    forall|k: int| 0 <= k < i ==> posix_plain(#[trigger] v@[k]),
                decreases n - i,
            {
                i += 1;
            }
            if i == n {
                return string_of(&v);
            }
            out.push('\'');
            let mut j: usize = 0;
            while j < n
                invariant
                    j <= n == v.len(),
                    out@ == seq!['\''] + escape_single_quotes(v@.subrange(0, j as int)),
                decreases n - j,
            {
                assert(v@.subrange(0, j + 1).drop_last() =~= v@.subrange(0, j as int));
                if v[j] == '\'' {
                    out.push('\'');
                    out.push('\\');
                    out.push('\'');
                    out.push('\'');
                } else {
                    out.push(v[j]);
                }
                j += 1;
                assert(out@ =~= seq!['\''] + escape_single_quotes(v@.subrange(0, j as int)));
            }
            out.push('\'');
            assert(v@.subrange(0, n as int) =~= v@);
            assert(out@ =~= seq!['\''] + escape_single_quotes(v@) + seq!['\'']);
            assert(!posix_plain(v@[i as int]));
            string_of(&out)
        },
        ShellStyle::Windows => {
            let mut i: usize = 0;
            while i < n && !(v[i] == ' ' || v[i] == '\t' || v[i] == '"')
                invariant
                    i <= n == v.len(),
                    forall|k: int| 0 <= k < i ==> !windows_special(#[trigger] v@[k]),
                decreases n - i,
            {
                i += 1;
            }
            if i == n {
                return string_of(&v);
            }
            assert(windows_special(v@[i as int]));
            out.push('"');
            let mut j: usize = 0;
            while j < n
                invariant
                    j <= n == v.len(),
                    out@ == seq!['"'] + escape_double_quotes(v@.subrange(0, j as int)),
                decreases n - j,
            {
                assert(v@.subrange(0, j + 1).drop_last() =~= v@.subrange(0, j as int));
                if v[j] == '"' {
                    out.push('\\');
                    out.push('"');
                } else {
                    out.push(v[j]);
                }
                j += 1;
                assert(out@ =~= seq!['"'] + escape_double_quotes(v@.subrange(0, j as int)));
            }
            out.push('"');
            assert(v@.subrange(0, n as int) =~= v@);
            assert(out@ =~= seq!['"'] + escape_double_quotes(v@) + seq!['"']);
            string_of(&out)
        },
    }
}

pub open spec fn strings_view(v: Seq<String>) -> Seq<Seq<char>> {
    v.map_values(|s: String| s@)
}

/// The command line of a process, each argument quoted, separated by spaces.
pub fn join_command(arguments: &Vec<String>, style: ShellStyle) -> (r: String)
    ensures
        r@ == command_line(strings_view(arguments@), style),
{
    let mut out: Vec<char> = Vec::new();
    let mut i: usize = 0;
    let ghost parts = strings_view(arguments@).map_values(|a: Seq<char>| quoted(a, style));
    while i < arguments.len()
        invariant
            i <= arguments.len(),
            parts == strings_view(arguments@).map_values(|a: Seq<char>| quoted(a, style)),
            out@ == join_spaced(parts.subrange(0, i as int)),
        decreases arguments.len() - i,
    {
        let q = shell_quote(arguments[i].as_str(), style);
        let qc = chars_of(q.as_str());
        assert(parts.subrange(0, i + 1).drop_last() =~= parts.subrange(0, i as int));
        assert(parts[i as int] == qc@);
        if i > 0 {
            out.push(' ');
        }
        let mut k: usize = 0;
        let ghost before = out@;
        while k < qc.len()
            invariant
                k <= qc.len(),
                out@ == before + qc@.subrange(0, k as int),
            decreases qc.len() - k,
        {
            out.push(qc[k]);
            k += 1;
            assert(out@ =~= before + qc@.subrange(0, k as int));
        }
        assert(qc@.subrange(0, qc.len() as int) =~= qc@);
        i += 1;
        if i == 1 {
            assert(out@ =~= join_spaced(parts.subrange(0, i as int)));
        } else {
            assert(out@ =~= join_spaced(parts.subrange(0, i as int)));
        }
    }
    assert(parts.subrange(0, arguments.len() as int) =~= parts);
    string_of(&out)
}

// ---------------------------------------------------------------------
// Ranking candidates: highest confidence first, then lowest port
// ---------------------------------------------------------------------

/// `a` is listed before `b`.
pub open spec fn ranks_before(a: DiscoveryCandidate, b: DiscoveryCandidate) -> bool {
    a.confidence > b.confidence || (a.confidence == b.confidence && a.port < b.port)
}

/// `x` placed into `s` after every candidate that it does not rank before.
pub open spec fn insert_ranked(s: Seq<DiscoveryCandidate>, x: DiscoveryCandidate) -> Seq<
    DiscoveryCandidate,
>
    decreases s.len(),
{
    if s.len() == 0 {
        seq![x]
    } else if ranks_before(x, s.last()) {
        insert_ranked(s.drop_last(), x).push(s.last())
    } else {
        s.push(x)
    }
}

/// `s` sorted by rank; candidates of equal rank keep their order.
pub open spec fn rank_sorted(s: Seq<DiscoveryCandidate>) -> Seq<DiscoveryCandidate>
    decreases s.len(),
{
    if s.len() == 0 {
        seq![]
    } else {
        insert_ranked(rank_sorted(s.drop_last()), s.last())
    }
}

pub open spec fn in_rank_order(s: Seq<DiscoveryCandidate>) -> bool {
    forall|i: int, j: int| 0 <= i < j < s.len() ==> !ranks_before(#[trigger] s[j], #[trigger] s[i])
}

proof fn lemma_insert_ranked_at(s: Seq<DiscoveryCandidate>, x: DiscoveryCandidate, j: int)
    requires
        0 <= j <= s.len(),
        forall|k: int| j <= k < s.len() ==> ranks_before(x, #[trigger] s[k]),
        j == 0 || !ranks_before(x, s[j - 1]),
    ensures
        insert_ranked(s, x) == s.insert(j, x),
    decreases s.len(),
{
    if s.len() == 0 {
        assert(s.insert(j, x) =~= seq![x]);
    } else if j == s.len() {
        assert(s.insert(j, x) =~= s.push(x));
    } else {
        assert(ranks_before(x, s[s.len() - 1]));
        lemma_insert_ranked_at(s.drop_last(), x, j);
        assert(s.drop_last().insert(j, x).push(s.last()) =~= s.insert(j, x));
    }
}

proof fn lemma_insert_ranked_elements(s: Seq<DiscoveryCandidate>, x: DiscoveryCandidate)
    ensures
        insert_ranked(s, x).to_multiset() =~= s.to_multiset().insert(x),
        insert_ranked(s, x).len() == s.len() + 1,
    decreases s.len(),
{
    broadcast use vstd::seq_lib::group_to_multiset_ensures;

    if s.len() > 0 && ranks_before(x, s.last()) {
        lemma_insert_ranked_elements(s.drop_last(), x);
        assert(s.drop_last().push(s.last()) =~= s);
    }
}

proof fn lemma_insert_ranked_sorted(s: Seq<DiscoveryCandidate>, x: DiscoveryCandidate)
    requires
        in_rank_order(s),
    ensures
        in_rank_order(insert_ranked(s, x)),
    decreases s.len(),
{
    broadcast use vstd::seq_lib::group_to_multiset_ensures;

    if s.len() > 0 && ranks_before(x, s.last()) {
        let d = s.drop_last();
        assert(in_rank_order(d));
        lemma_insert_ranked_sorted(d, x);
        lemma_insert_ranked_elements(d, x);
        let t = insert_ranked(d, x);
        assert forall|k: int| 0 <= k < t.len() implies !ranks_before(s.last(), #[trigger] t[k]) by {
            assert(t.to_multiset().count(t[k]) > 0);
            if t[k] != x {
                assert(d.to_multiset().count(t[k]) > 0);
                assert(d.contains(t[k]));
                let m = choose|m: int| 0 <= m < d.len() && d[m] == t[k];
                assert(s[m] == d[m]);
            }
        }
        assert forall|i: int, j: int| 0 <= i < j < t.push(s.last()).len() implies !ranks_before(
            #[trigger] t.push(s.last())[j],
            #[trigger] t.push(s.last())[i],
        ) by {
            if j == t.len() {
                assert(t.push(s.last())[i] == t[i]);
            } else {
                assert(t.push(s.last())[i] == t[i]);
                assert(t.push(s.last())[j] == t[j]);
            }
        }
    } else if s.len() > 0 {
        assert forall|i: int, j: int| 0 <= i < j < s.push(x).len() implies !ranks_before(
            #[trigger] s.push(x)[j],
            #[trigger] s.push(x)[i],
        ) by {
            if j == s.len() {
                assert(!ranks_before(s[s.len() - 1], s[i]) || i == s.len() - 1);
            }
        }
    }
}

/// Discovery lists candidates by rank: no candidate is listed after one
/// that it ranks before.
pub proof fn lemma_rank_sorted_in_order(s: Seq<DiscoveryCandidate>)
    ensures
        in_rank_order(rank_sorted(s)),
    decreases s.len(),
{
    if s.len() > 0 {
        lemma_rank_sorted_in_order(s.drop_last());
        lemma_insert_ranked_sorted(rank_sorted(s.drop_last()), s.last());
    }
}

/// Ranking neither drops nor adds a candidate.
pub proof fn lemma_rank_sorted_permutes(s: Seq<DiscoveryCandidate>)
    ensures
        rank_sorted(s).to_multiset() =~= s.to_multiset(),
        rank_sorted(s).len() == s.len(),
    decreases s.len(),
{
    broadcast use vstd::seq_lib::group_to_multiset_ensures;

    if s.len() > 0 {
        lemma_rank_sorted_permutes(s.drop_last());
        lemma_insert_ranked_elements(rank_sorted(s.drop_last()), s.last());
        assert(s.drop_last().push(s.last()) =~= s);
    }
}

fn ranks_before_exec(a: &DiscoveryCandidate, b: &DiscoveryCandidate) -> (r: bool)
    ensures
        r == ranks_before(*a, *b),
{
    a.confidence > b.confidence || (a.confidence == b.confidence && a.port < b.port)
}

/// Sorts candidates by rank, keeping the order of candidates of equal rank
/// (a stable sort by confidence, descending, then port, ascending).
pub fn sort_candidates(v: &Vec<DiscoveryCandidate>) -> (r: Vec<DiscoveryCandidate>)
    ensures
        r@ == rank_sorted(v@),
{
    let mut r: Vec<DiscoveryCandidate> = Vec::new();
    let mut i: usize = 0;
    while i < v.len()
        invariant
            i <= v.len(),
            r@ == rank_sorted(v@.subrange(0, i as int)),
        decreases v.len() - i,
    {
        let x = v[i].copy();
        let mut j = r.len();
        while j > 0 && ranks_before_exec(&x, &r[j - 1])
            invariant
                j <= r.len(),
                forall|k: int| j <= k < r.len() ==> ranks_before(x, #[trigger] r@[k]),
            decreases j,
        {
            j -= 1;
        }
        proof {
            lemma_insert_ranked_at(r@, x, j as int);
            assert(v@.subrange(0, i + 1).drop_last() =~= v@.subrange(0, i as int));
        }
        r.insert(j, x);
        i += 1;
    }
    assert(v@.subrange(0, v.len() as int) =~= v@);
    r
}

// ---------------------------------------------------------------------
// The process table
// ---------------------------------------------------------------------

/// What the operating system reports of one process.
#[derive(Debug, Clone)]
pub struct ProcessInfo {
    pub pid: u32,
    pub parent: Option<u32>,
    pub name: String,
    /// The working directory; empty when unknown.
    pub cwd: String,
    /// The executable's path; empty when unknown.
    pub exe: String,
    pub cmd: Vec<String>,
}

/// The first entry of `t` for process `pid`.
pub open spec fn find_pid(t: Seq<ProcessInfo>, pid: u32) -> Option<int>
    decreases t.len(),
{
    if t.len() == 0 {
        None
    } else if t[0].pid == pid {
        Some(0)
    } else {
        match find_pid(t.drop_first(), pid) {
            Some(i) => Some(i + 1),
            None => None,
        }
    }
}

proof fn lemma_find_pid(t: Seq<ProcessInfo>, pid: u32, i: int)
    requires
        0 <= i <= t.len(),
        forall|k: int| 0 <= k < i ==> (#[trigger] t[k]).pid != pid,
    ensures
        i < t.len() && t[i].pid == pid ==> find_pid(t, pid) == Some(i),
        i == t.len() ==> find_pid(t, pid) is None,
    decreases i,
{
    if i > 0 {
        lemma_find_pid(t.drop_first(), pid, i - 1);
        assert(t[0].pid != pid);
    } else if t.len() > 0 {
        assert(t[0].pid == pid || i < t.len());
    }
}

pub fn find_process(t: &Vec<ProcessInfo>, pid: u32) -> (r: Option<usize>)
    ensures
        match r {
            Some(i) => find_pid(t@, pid) == Some(i as int) && i < t.len(),
            None => find_pid(t@, pid) is None,
        },
{
    let mut i: usize = 0;
    while i < t.len()
        invariant
            i <= t.len(),
            forall|k: int| 0 <= k < i ==> (#[trigger] t@[k]).pid != pid,
        decreases t.len() - i,
    {
        if t[i].pid == pid {
            proof {
                lemma_find_pid(t@, pid, i as int);
            }
            return Some(i);
        }
        i += 1;
    }
    proof {
        lemma_find_pid(t@, pid, i as int);
    }
    None
}

/// The working directory of the process, or else of the nearest of its
/// ancestors that has one, looking at `steps` processes at most.
pub open spec fn best_dir(t: Seq<ProcessInfo>, cur: Option<u32>, steps: nat) -> Option<Seq<char>>
    decreases steps,
{
    if steps == 0 {
        None
    } else {
        match cur {
            None => None,
            Some(p) => match find_pid(t, p) {
                None => None,
                Some(i) => if t[i].cwd@.len() > 0 {
                    Some(t[i].cwd@)
                } else {
                    best_dir(t, t[i].parent, (steps - 1) as nat)
                },
            },
        }
    }
}

fn directory_from(t: &Vec<ProcessInfo>, cur: Option<u32>, steps: u32) -> (r: Option<String>)
    ensures
        match r {
            Some(d) => best_dir(t@, cur, steps as nat) == Some(d@),
            None => best_dir(t@, cur, steps as nat) is None,
        },
    decreases steps,
{
    if steps == 0 {
        return None;
    }
    match cur {
        None => None,
        Some(p) => match find_process(t, p) {
            None => None,
            Some(i) => {
                if !t[i].cwd.as_str().is_empty() {
                    Some(t[i].cwd.clone())
                } else {
                    directory_from(t, t[i].parent, steps - 1)
                }
            },
        },
    }
}

/// The working directory that best describes process `pid`: its own, or
/// that of one of its three nearest ancestors.
pub fn best_directory(t: &Vec<ProcessInfo>, pid: u32) -> (r: Option<String>)
    ensures
        match r {
            Some(d) => best_dir(t@, Some(pid), 4) == Some(d@),
            None => best_dir(t@, Some(pid), 4) is None,
        },
{
    directory_from(t, Some(pid), 4)
}

/// A command line that starts a development server through a package
/// manager or a runtime's task runner.
pub open spec fn dev_command(lowered: Seq<char>) -> bool {
    ||| has_substring(lowered, "npm"@)
    ||| has_substring(lowered, "pnpm"@)
    ||| has_substring(lowered, "yarn"@)
    ||| has_substring(lowered, "bun run"@)
    ||| has_substring(lowered, "deno"@)
    ||| has_substring(lowered, "cargo run"@)
}

/// Walking from `cur` up through at most `steps` processes: the first
/// command line that looks like a development command, or else the first
/// non-empty one (`fallback` holds it once found).
pub open spec fn best_cmd(
    t: Seq<ProcessInfo>,
    cur: Option<u32>,
    steps: nat,
    fallback: Seq<char>,
    style: ShellStyle,
) -> Seq<char>
    decreases steps,
{
    if steps == 0 {
        fallback
    } else {
        match cur {
            None => fallback,
            Some(p) => match find_pid(t, p) {
                None => fallback,
                Some(i) => {
                    let c = command_line(strings_view(t[i].cmd@), style);
                    if dev_command(lower(c)) {
                        c
                    } else {
                        best_cmd(
                            t,
                            t[i].parent,
                            (steps - 1) as nat,
                            if fallback.len() == 0 && c.len() > 0 {
                                c
                            } else {
                                fallback
                            },
                            style,
                        )
                    }
                },
            },
        }
    }
}

fn is_dev_command(lowered: &str) -> (r: bool)
    ensures
        r == dev_command(lowered@),
{
    str_contains(lowered, "npm") || str_contains(lowered, "pnpm") || str_contains(lowered, "yarn")
        || str_contains(lowered, "bun run") || str_contains(lowered, "deno") || str_contains(
        lowered,
        "cargo run",
    )
}

fn command_from(
    t: &Vec<ProcessInfo>,
    cur: Option<u32>,
    steps: u32,
    fallback: String,
    style: ShellStyle,
) -> (r: String)
    ensures
        r@ == best_cmd(t@, cur, steps as nat, fallback@, style),
    decreases steps,
{
    if steps == 0 {
        return fallback;
    }
    match cur {
        None => fallback,
        Some(p) => match find_process(t, p) {
            None => fallback,
            Some(i) => {
                let command = join_command(&t[i].cmd, style);
                let lowered = lower_string(command.as_str());
                if is_dev_command(lowered.as_str()) {
                    command
                } else {
                    let next = if fallback.as_str().is_empty() && !command.as_str().is_empty() {
                        command
                    } else {
                        fallback
                    };
                    command_from(t, t[i].parent, steps - 1, next, style)
                }
            },
        },
    }
}

/// The command line that best describes how process `pid` was started:
/// its own or an ancestor's, preferring one that runs a dev server.
pub fn best_command(t: &Vec<ProcessInfo>, pid: u32, style: ShellStyle) -> (r: String)
    ensures
        r@ == best_cmd(t@, Some(pid), 4, seq![], style),
{
    command_from(t, Some(pid), 4, String::new(), style)
}

// ---------------------------------------------------------------------
// Building candidates from one scan
// ---------------------------------------------------------------------

/// What the platform's path rules say of the directory found for a socket:
/// whether it lies under a watched workspace folder, and its last component.
#[derive(Debug, Clone)]
pub struct PathFacts {
    pub under_root: bool,
    pub dir_name: Option<String>,
}

/// Everything one discovery pass looks at.
pub struct Scan {
    pub sockets: Seq<ListeningSocket>,
    pub processes: Seq<ProcessInfo>,
    pub own_pid: u32,
    pub roots_nonempty: bool,
    pub facts: Seq<PathFacts>,
    pub style: ShellStyle,
    pub now: i64,
}

pub open spec fn localhost_url(port: u16) -> Seq<char> {
    "http://localhost:"@ + decimal(port as nat)
}

impl Scan {
    /// Socket `i` is looked at: a real process other than the manager, and
    /// the first socket with its pid and port.
    pub open spec fn considered(self, i: int) -> bool {
        let s = self.sockets[i];
        &&& s.pid != 0
        &&& s.pid != self.own_pid
        &&& forall|k: int|
            0 <= k < i ==> !((#[trigger] self.sockets[k]).pid == s.pid && self.sockets[k].port
                == s.port)
    }

    pub open spec fn process(self, i: int) -> ProcessInfo {
        self.processes[find_pid(self.processes, self.sockets[i].pid)->0]
    }

    pub open spec fn lname(self, i: int) -> Seq<char> {
        lower(self.process(i).name@)
    }

    pub open spec fn dir(self, i: int) -> Seq<char> {
        match best_dir(self.processes, Some(self.sockets[i].pid), 4) {
            Some(d) => d,
            None => seq![],
        }
    }

    pub open spec fn under(self, i: int) -> bool {
        self.dir(i).len() > 0 && self.facts[i].under_root
    }

    pub open spec fn cmd(self, i: int) -> Seq<char> {
        best_cmd(self.processes, Some(self.sockets[i].pid), 4, seq![], self.style)
    }

    /// Socket `i` becomes a candidate.
    pub open spec fn admitted(self, i: int) -> bool {
        &&& self.considered(i)
        &&& find_pid(self.processes, self.sockets[i].pid) is Some
        &&& !excluded_process(self.lname(i))
        &&& self.roots_nonempty ==> self.under(i)
        &&& !self.roots_nonempty ==> (runtime_of(self.lname(i)).1 != 0 || common_dev_port(
            self.sockets[i].port,
        ))
    }

    pub open spec fn display_name(self, i: int) -> Seq<char> {
        if self.dir(i).len() > 0 && self.facts[i].dir_name is Some
            && self.facts[i].dir_name->0@.len() > 0 {
            self.facts[i].dir_name->0@
        } else {
            runtime_of(self.lname(i)).0 + " :"@ + decimal(self.sockets[i].port as nat)
        }
    }

    pub open spec fn score(self, i: int) -> int {
        runtime_of(self.lname(i)).1 + (if self.dir(i).len() > 0 {
            25int
        } else {
            0
        }) + (if self.under(i) {
            25int
        } else {
            0
        }) + (if common_dev_port(self.sockets[i].port) {
            15int
        } else {
            0
        }) + (if self.cmd(i).len() > 0 {
            10int
        } else {
            0
        })
    }

    /// What identifies the server across scans: its directory, else its
    /// executable, else its process name.
    pub open spec fn identity(self, i: int) -> Seq<char> {
        if self.dir(i).len() > 0 {
            lower(self.dir(i))
        } else if self.process(i).exe@.len() > 0 {
            lower(self.process(i).exe@)
        } else {
            self.lname(i)
        }
    }

    pub open spec fn key(self, i: int) -> Seq<char> {
        self.identity(i) + "|"@ + self.lname(i) + "|"@ + decimal(self.sockets[i].port as nat)
    }

    /// `c` is the candidate that socket `i` gives.
    pub open spec fn fits(self, c: DiscoveryCandidate, i: int) -> bool {
        let s = self.sockets[i];
        &&& c.key@ == self.key(i)
        &&& c.pid == s.pid
        &&& c.port == s.port
        &&& c.address@ == s.address@
        &&& c.url@ == localhost_url(s.port)
        &&& c.name@ == self.display_name(i)
        &&& c.process_name@ == self.process(i).name@
        &&& c.process_type@ == runtime_of(self.lname(i)).0
        &&& c.executable@ == self.process(i).exe@
        &&& c.command@ == self.cmd(i)
        &&& c.directory@ == self.dir(i)
        &&& c.external_exposure == external_address(s.address@)
        &&& c.confidence == if self.score(i) > 100 {
            100
        } else {
            self.score(i)
        }
        &&& c.discovered_at == self.now
    }

    /// The indices of the admitted sockets among the first `n`.
    pub open spec fn admitted_upto(self, n: int) -> Seq<int>
        decreases n,
    {
        if n <= 0 {
            seq![]
        } else if self.admitted(n - 1) {
            self.admitted_upto(n - 1).push(n - 1)
        } else {
            self.admitted_upto(n - 1)
        }
    }

    /// `u` holds, in socket order, the candidate of every admitted socket.
    pub open spec fn fits_all(self, u: Seq<DiscoveryCandidate>) -> bool {
        let a = self.admitted_upto(self.sockets.len() as int);
        &&& u.len() == a.len()
        &&& forall|j: int| 0 <= j < u.len() ==> self.fits(#[trigger] u[j], a[j])
    }

    /// The candidates of this scan, ranked.
    pub open spec fn ranked(self, r: Seq<DiscoveryCandidate>) -> bool {
        exists|u: Seq<DiscoveryCandidate>| self.fits_all(u) && r == rank_sorted(u)
    }
}

pub open spec fn scan_of(
    sockets: &Vec<ListeningSocket>,
    processes: &Vec<ProcessInfo>,
    own_pid: u32,
    roots_nonempty: bool,
    facts: &Vec<PathFacts>,
    style: ShellStyle,
    now: i64,
) -> Scan {
    Scan {
        sockets: sockets@,
        processes: processes@,
        own_pid,
        roots_nonempty,
        facts: facts@,
        style,
        now,
    }
}

fn first_of_pair(sockets: &Vec<ListeningSocket>, i: usize) -> (r: bool)
    requires
        i < sockets.len(),
    ensures
        r == forall|k: int|
            0 <= k < i ==> !((#[trigger] sockets@[k]).pid == sockets@[i as int].pid
                && sockets@[k].port == sockets@[i as int].port),
{
    let mut k: usize = 0;
    while k < i
        invariant
            k <= i < sockets.len(),
            forall|m: int|
                0 <= m < k ==> !((#[trigger] sockets@[m]).pid == sockets@[i as int].pid
                    && sockets@[m].port == sockets@[i as int].port),
        decreases i - k,
    {
        if sockets[k].pid == sockets[i].pid && sockets[k].port == sockets[i].port {
            return false;
        }
        k += 1;
    }
    true
}

/// The candidate of socket `i`, or `None` when the socket is not admitted.
fn candidate_for(
    sockets: &Vec<ListeningSocket>,
    processes: &Vec<ProcessInfo>,
    own_pid: u32,
    roots_nonempty: bool,
    facts: &Vec<PathFacts>,
    style: ShellStyle,
    now: i64,
    i: usize,
) -> (r: Option<DiscoveryCandidate>)
    requires
        i < sockets.len(),
        facts.len() == sockets.len(),
    ensures
        ({
            let scan = scan_of(sockets, processes, own_pid, roots_nonempty, facts, style, now);
            match r {
                Some(c) => scan.admitted(i as int) && scan.fits(c, i as int),
                None => !scan.admitted(i as int),
            }
        }),
{
    let ghost scan = scan_of(sockets, processes, own_pid, roots_nonempty, facts, style, now);
    let socket = &sockets[i];
    if socket.pid == 0 || socket.pid == own_pid || !first_of_pair(sockets, i) {
        return None;
    }
    let pi = match find_process(processes, socket.pid) {
        Some(pi) => pi,
        None => return None,
    };
    let process = &processes[pi];
    assert(scan.process(i as int) == *process);
    let name_lower = lower_string(process.name.as_str());
    if is_excluded_process(name_lower.as_str()) {
        return None;
    }
    let (process_type, runtime_score) = classify_runtime(name_lower.as_str());
    let directory = match best_directory(processes, socket.pid) {
        Some(d) => d,
        None => String::new(),
    };
    let has_dir = !directory.as_str().is_empty();
    let under_root = has_dir && facts[i].under_root;
    let common_port = is_common_dev_port(socket.port);
    if roots_nonempty && !under_root {
        return None;
    }
    if !roots_nonempty && runtime_score == 0 && !common_port {
        return None;
    }
    let command = best_command(processes, socket.pid, style);
    let executable = process.exe.clone();
    let name = match &facts[i].dir_name {
        Some(n) if has_dir && !n.as_str().is_empty() => n.clone(),
        _ => {
            let mut v = chars_of(process_type.as_str());
            push_str(&mut v, " :");
            push_decimal(&mut v, socket.port as u64);
            string_of(&v)
        },
    };
    let mut confidence: u8 = runtime_score;
    if has_dir {
        confidence = confidence + 25;
    }
    if under_root {
        confidence = confidence + 25;
    }
    if common_port {
        confidence = confidence + 15;
    }
    if !command.as_str().is_empty() {
        confidence = confidence + 10;
    }
    let identity = if has_dir {
        lower_string(directory.as_str())
    } else if !executable.as_str().is_empty() {
        lower_string(executable.as_str())
    } else {
        name_lower.clone()
    };
    let mut key = chars_of(identity.as_str());
    push_str(&mut key, "|");
    push_str(&mut key, name_lower.as_str());
    push_str(&mut key, "|");
    push_decimal(&mut key, socket.port as u64);
    let mut url = chars_of("http://localhost:");
    push_decimal(&mut url, socket.port as u64);
    let c = DiscoveryCandidate {
        key: string_of(&key),
        pid: socket.pid,
        port: socket.port,
        address: socket.address.clone(),
        url: string_of(&url),
        name,
        process_name: process.name.clone(),
        process_type,
        executable,
        command,
        directory,
        external_exposure: is_external_address(socket.address.as_str()),
        confidence: if confidence > 100 { 100 } else { confidence },
        discovered_at: now,
    };
    assert(c.key@ =~= scan.key(i as int));
    assert(c.url@ =~= localhost_url(socket.port));
    assert(c.name@ =~= scan.display_name(i as int));
    Some(c)
}

/// The candidates of one scan, ranked (see `Scan`): each admitted socket
/// gives one candidate, built from the process table and the path facts.
pub fn candidates_from(
    sockets: &Vec<ListeningSocket>,
    processes: &Vec<ProcessInfo>,
    own_pid: u32,
    roots_nonempty: bool,
    facts: &Vec<PathFacts>,
    style: ShellStyle,
    now: i64,
) -> (r: Vec<DiscoveryCandidate>)
    requires
        facts.len() == sockets.len(),
    ensures
        scan_of(sockets, processes, own_pid, roots_nonempty, facts, style, now).ranked(r@),
{
    let ghost scan = scan_of(sockets, processes, own_pid, roots_nonempty, facts, style, now);
    let mut unsorted: Vec<DiscoveryCandidate> = Vec::new();
    let mut i: usize = 0;
    while i < sockets.len()
        invariant
            i <= sockets.len() == facts.len(),
            scan == scan_of(sockets, processes, own_pid, roots_nonempty, facts, style, now),
            unsorted@.len() == scan.admitted_upto(i as int).len(),
            forall|j: int|
                0 <= j < unsorted@.len() ==> scan.fits(
                    #[trigger] unsorted@[j],
                    scan.admitted_upto(i as int)[j],
                ),
        decreases sockets.len() - i,
    {
        match candidate_for(sockets, processes, own_pid, roots_nonempty, facts, style, now, i) {
            Some(c) => {
                unsorted.push(c);
            },
            None => {},
        }
        i += 1;
    }
    let r = sort_candidates(&unsorted);
    assert(scan.fits_all(unsorted@));
    r
}

/// A watched workspace folder as discovery compares it: the text trimmed,
/// then resolved where the file system can; `None` when the trimmed path is
/// not an existing folder. Whether it is one, and what resolving gives, are
/// the file system's answers: stated is which text is asked about and what
/// comes back for each answer.
pub fn normalize_existing_path(path: &str) -> (r: Option<String>)
    ensures
        r matches Some(n) ==> exists|resolved: Option<Seq<char>>| #[trigger]
            resolved_or(trim(path@), resolved) == n@,
{
    let trimmed = trim_string(path);
    if !path_is_dir(trimmed.as_str()) {
        return None;
    }
    let found = canonical_path(trimmed.as_str());
    let ghost resolved: Option<Seq<char>> = match &found {
        Some(p) => Some(p@),
        None => None,
    };
    let n = match found {
        Some(p) => p,
        None => trimmed,
    };
    assert(resolved_or(trim(path@), resolved) == n@);
    Some(n)
}

/// What resolving `path` gave, or `path` itself where it failed.
pub open spec fn resolved_or(path: Seq<char>, resolved: Option<Seq<char>>) -> Seq<char> {
    match resolved {
        Some(p) => p,
        None => path,
    }
}

/// `path` as the platform compares it, given what resolving it gave
/// (`None` where the file system refused): on Windows the resolved form,
/// or the path itself, in ASCII lower case; elsewhere the path as it stands.
pub open spec fn comparable_form(
    path: Seq<char>,
    resolved: Option<Seq<char>>,
    style: ShellStyle,
) -> Seq<char> {
    match style {
        ShellStyle::Posix => path,
        ShellStyle::Windows => lower(
            match resolved {
                Some(p) => p,
                None => path,
            },
        ),
    }
}

/// Whether some root, in its comparable form, is a path prefix of `dir` in
/// its comparable form, given what resolving each of them gave.
pub open spec fn some_root_prefixes(
    dir: Seq<char>,
    roots: Seq<Seq<char>>,
    resolved_dir: Option<Seq<char>>,
    resolved_roots: Seq<Option<Seq<char>>>,
    style: ShellStyle,
) -> bool {
    exists|i: int|
        0 <= i < roots.len() && #[trigger] path_prefix(
            comparable_form(dir, resolved_dir, style),
            comparable_form(roots[i], resolved_roots[i], style),
        )
}

/// `path` as the platform compares it: on Windows resolved where the file
/// system can, and in ASCII lower case; elsewhere as it stands.
fn comparable_path(path: &str, style: ShellStyle) -> (r: String)
    ensures
        exists|resolved: Option<Seq<char>>| r@ == #[trigger] comparable_form(path@, resolved, style),
{
    match style {
        ShellStyle::Posix => {
            let r = path.to_string();
            assert(r@ == comparable_form(path@, None, style));
            r
        },
        ShellStyle::Windows => {
            let found = canonical_path(path);
            let ghost resolved: Option<Seq<char>> = match &found {
                Some(p) => Some(p@),
                None => None,
            };
            let resolved_text = match found {
                Some(p) => p,
                None => path.to_string(),
            };
            let r = lower_string(resolved_text.as_str());
            assert(r@ == comparable_form(path@, resolved, style));
            r
        },
    }
}

/// Whether some root is a path prefix of `dir`.
fn under_some_root(dir: &str, roots: &Vec<String>, style: ShellStyle) -> (r: bool)
    ensures
        r ==> roots@.len() > 0,
        exists|resolved_dir: Option<Seq<char>>, resolved_roots: Seq<Option<Seq<char>>>|
            resolved_roots.len() == roots@.len() && r == #[trigger] some_root_prefixes(
                dir@,
                strings_view(roots@),
                resolved_dir,
                resolved_roots,
                style,
            ),
{
    let dir_form = comparable_path(dir, style);
    let ghost rd = choose|resolved: Option<Seq<char>>| dir_form@ == comparable_form(dir@, resolved, style);
    let ghost mut rr: Seq<Option<Seq<char>>> = Seq::empty();
    let mut i: usize = 0;
    while i < roots.len()
        invariant
            i <= roots.len(),
            rr.len() == i,
            dir_form@ == comparable_form(dir@, rd, style),
            forall|k: int| 0 <= k < i ==> !path_prefix(
                dir_form@,
                comparable_form(#[trigger] roots@[k]@, rr[k], style),
            ),
        decreases roots.len() - i,
    {
        let root = comparable_path(roots[i].as_str(), style);
        let ghost ri = choose|resolved: Option<Seq<char>>| root@ == comparable_form(roots@[i as int]@, resolved, style);
        if path_starts_with(dir_form.as_str(), root.as_str()) {
            let ghost full = Seq::new(
                roots@.len(),
                |k: int| if k < i { rr[k] } else if k == i { ri } else { None },
            );
            proof {
                assert(strings_view(roots@)[i as int] == roots@[i as int]@);
                assert(path_prefix(
                    comparable_form(dir@, rd, style),
                    comparable_form(strings_view(roots@)[i as int], full[i as int], style),
                ));
                assert(some_root_prefixes(dir@, strings_view(roots@), rd, full, style));
            }
            return true;
        }
        proof {
            rr = rr.push(ri);
        }
        i += 1;
    }
    proof {
        assert forall|k: int| 0 <= k < strings_view(roots@).len() implies !path_prefix(
            comparable_form(dir@, rd, style),
            comparable_form(strings_view(roots@)[k], rr[k], style),
        ) by {
            assert(strings_view(roots@)[k] == roots@[k]@);
        }
        assert(!some_root_prefixes(dir@, strings_view(roots@), rd, rr, style));
    }
    false
}

/// `f` is what the platform says of the directory `dir` found for a socket
/// (none, or an empty one, where no process up the chain has one): whether
/// some watched root is a path prefix of it, both compared as the platform
/// compares paths, and its last component.
pub open spec fn facts_for(
    dir: Option<Seq<char>>,
    roots: Seq<Seq<char>>,
    style: ShellStyle,
    f: PathFacts,
) -> bool {
    match dir {
        Some(d) => if d.len() == 0 {
            !f.under_root && f.dir_name is None
        } else {
            &&& exists|rd: Option<Seq<char>>, rr: Seq<Option<Seq<char>>>|
                rr.len() == roots.len() && f.under_root == #[trigger] some_root_prefixes(
                    d,
                    roots,
                    rd,
                    rr,
                    style,
                )
            &&& match f.dir_name {
                Some(n) => path_file_name(d) == Some(n@),
                None => path_file_name(d) is None,
            }
        },
        None => !f.under_root && f.dir_name is None,
    }
}

/// The platform's view of each socket's directory.
fn path_facts(
    sockets: &Vec<ListeningSocket>,
    processes: &Vec<ProcessInfo>,
    roots: &Vec<String>,
    style: ShellStyle,
) -> (r:
    Vec<PathFacts>)
    ensures
        r@.len() == sockets@.len(),
        forall|i: int| 0 <= i < r@.len() ==> (#[trigger] r@[i]).under_root ==> roots@.len() > 0,
        forall|i: int|
            0 <= i < r@.len() ==> facts_for(
                best_dir(processes@, Some(sockets@[i].pid), 4),
                strings_view(roots@),
                style,
                #[trigger] r@[i],
            ),
{
    let mut facts: Vec<PathFacts> = Vec::new();
    let mut i: usize = 0;
    while i < sockets.len()
        invariant
            i <= sockets.len(),
            facts@.len() == i,
            forall|k: int| 0 <= k < i ==> (#[trigger] facts@[k]).under_root ==> roots@.len() > 0,
            forall|k: int|
                0 <= k < i ==> facts_for(
                    best_dir(processes@, Some(sockets@[k].pid), 4),
                    strings_view(roots@),
                    style,
                    #[trigger] facts@[k],
                ),
        decreases sockets.len() - i,
    {
        let fact = match best_directory(processes, sockets[i].pid) {
            Some(d) => {
                if d.as_str().is_empty() {
                    PathFacts { under_root: false, dir_name: None }
                } else {
                    PathFacts {
                        under_root: under_some_root(d.as_str(), roots, style),
                        dir_name: file_name_of(d.as_str()),
                    }
                }
            },
            None => PathFacts { under_root: false, dir_name: None },
        };
        facts.push(fact);
        i += 1;
    }
    facts
}

/// `r` is what a scan with these path answers and this time gives.
pub open spec fn scan_result(
    sockets: Seq<ListeningSocket>,
    processes: Seq<ProcessInfo>,
    own_pid: u32,
    roots: Seq<String>,
    style: ShellStyle,
    facts: Seq<PathFacts>,
    now: i64,
    r: Seq<DiscoveryCandidate>,
) -> bool {
    &&& facts.len() == sockets.len()
    &&& forall|i: int| 0 <= i < facts.len() ==> (#[trigger] facts[i]).under_root ==> roots.len() > 0
    &&& forall|i: int|
        0 <= i < facts.len() ==> facts_for(
            best_dir(processes, Some(sockets[i].pid), 4),
            strings_view(roots),
            style,
            #[trigger] facts[i],
        )
    &&& (Scan { sockets, processes, own_pid, roots_nonempty: roots.len() > 0, facts, style, now }).ranked(r)
}

/// Finds unregistered development servers among the listening sockets.
/// `processes` is the operating system's process table, `roots` the
/// watched workspace folders that exist (as the platform spells them) and
/// `own_pid` the manager's own process. Nothing is found when discovery is
/// off or nothing listens; otherwise the result is the ranked candidates of
/// the scan (see `Scan`), for the path answers and the time the platform
/// gave.
pub fn discover_candidates(
    settings: &AppSettings,
    sockets: &Vec<ListeningSocket>,
    processes: &Vec<ProcessInfo>,
    own_pid: u32,
    roots: &Vec<String>,
    style: ShellStyle,
) -> (r: Vec<DiscoveryCandidate>)
    ensures
        !settings.discovery_enabled || sockets@.len() == 0 ==> r@.len() == 0,
        settings.discovery_enabled && sockets@.len() > 0 ==> exists|facts: Seq<PathFacts>, now: i64|
            #[trigger] scan_result(sockets@, processes@, own_pid, roots@, style, facts, now, r@),
{
    if !settings.discovery_enabled || sockets.len() == 0 {
        return Vec::new();
    }
    let facts = path_facts(sockets, processes, roots, style);
    let now = now_ms();
    let r = candidates_from(sockets, processes, own_pid, roots.len() > 0, &facts, style, now);
    assert(scan_result(sockets@, processes@, own_pid, roots@, style, facts@, now, r@));
    r
}

// ---------------------------------------------------------------------
// The JSON listener table that PowerShell prints on Windows
// ---------------------------------------------------------------------

/// The `pid`, `port` and `address` fields of one listener record, as far
/// as they are present with the right JSON type.
#[derive(Debug, Clone)]
pub struct ListenerFields {
    pub pid: Option<u64>,
    pub port: Option<u64>,
    pub address: Option<String>,
}

/// What `serde_json` reads from a JSON array of listener objects: for each
/// element, its `pid` and `port` as unsigned integers and its `address` as
/// a string, where present; `None` when the text is not a JSON array.
pub uninterp spec fn json_listener_fields(text: Seq<char>) -> Option<
    Seq<(Option<u64>, Option<u64>, Option<Seq<char>>)>,
>;

pub open spec fn fields_view(f: ListenerFields) -> (Option<u64>, Option<u64>, Option<Seq<char>>) {
    (
        f.pid,
        f.port,
        match f.address {
            Some(a) => Some(a@),
            None => None,
        },
    )
}

/// `serde_json::from_str::<Vec<Value>>`, each element's fields read with
/// `Value::get` and `as_u64` / `as_str`. The result is named: it depends
/// on the text alone.
#[verifier::external_body]
fn read_listener_json(text: &str) -> (r: Option<Vec<ListenerFields>>)
    ensures
        match r {
            Some(v) => json_listener_fields(text@) == Some(
                v@.map_values(|f: ListenerFields| fields_view(f)),
            ),
            None => json_listener_fields(text@) is None,
        },
{
    let values = serde_json::from_str::<Vec<serde_json::Value>>(text).ok()?;
    Some(values.iter().map(|value| ListenerFields {
        pid: value.get("pid").and_then(|field| field.as_u64()),
        port: value.get("port").and_then(|field| field.as_u64()),
        address: value.get("address").and_then(|field| field.as_str()).map(|field| field.to_string()),
    }).collect())
}

/// The listeners among the records: those with all three fields, the
/// numbers cut to the width of a pid and a port.
pub open spec fn complete_listeners(fs: Seq<(Option<u64>, Option<u64>, Option<Seq<char>>)>) -> Seq<
    (u32, u16, Seq<char>),
>
    decreases fs.len(),
{
    if fs.len() == 0 {
        seq![]
    } else {
        let rest = complete_listeners(fs.drop_last());
        match fs.last() {
            (Some(pid), Some(port), Some(address)) => rest.push(
                (pid as u32, port as u16, address),
            ),
            _ => rest,
        }
    }
}

/// The listeners in the JSON that PowerShell's `Get-NetTCPConnection`
/// printed (`contents`, trimmed): none when it is not a JSON array.
pub open spec fn windows_listeners(contents: Seq<char>) -> Seq<(u32, u16, Seq<char>)> {
    match json_listener_fields(trim(contents)) {
        Some(fs) => complete_listeners(fs),
        None => seq![],
    }
}

/// The complete listener records among `fields`, in order.
pub fn listeners_from_fields(fields: &Vec<ListenerFields>) -> (r: Vec<ListeningSocket>)
    ensures
        sockets_view(r@) == complete_listeners(fields@.map_values(|f: ListenerFields| fields_view(f))),
{
    let ghost fv = fields@.map_values(|f: ListenerFields| fields_view(f));
    let mut out: Vec<ListeningSocket> = Vec::new();
    let mut i: usize = 0;
    while i < fields.len()
        invariant
            i <= fields.len(),
            fv == fields@.map_values(|f: ListenerFields| fields_view(f)),
            sockets_view(out@) == complete_listeners(fv.subrange(0, i as int)),
        decreases fields.len() - i,
    {
        assert(fv.subrange(0, i + 1).drop_last() =~= fv.subrange(0, i as int));
        assert(fv.subrange(0, i + 1).last() == fields_view(fields@[i as int]));
        let f = &fields[i];
        match (f.pid, f.port, &f.address) {
            (Some(pid), Some(port), Some(address)) => {
                let ghost before = sockets_view(out@);
                out.push(ListeningSocket { pid: pid as u32, port: port as u16, address: address.clone() });
                assert(sockets_view(out@) =~= before.push((pid as u32, port as u16, address@)));
            },
            _ => {},
        }
        i += 1;
    }
    assert(fv.subrange(0, fields.len() as int) =~= fv);
    out
}

/// Reads the listeners out of the JSON table printed on Windows.
pub fn parse_windows_listener_json(contents: &str) -> (r: Vec<ListeningSocket>)
    ensures
        sockets_view(r@) == windows_listeners(contents@),
{
    let text = trim_string(contents);
    match read_listener_json(text.as_str()) {
        Some(fields) => listeners_from_fields(&fields),
        None => Vec::new(),
    }
}

} // verus!
