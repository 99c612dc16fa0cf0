//! The user unit of systemd that runs mihomo, and the `systemctl` calls that drive it.
use vstd::prelude::*;
use crate::paths::Paths;
use crate::sorting::views;
use crate::text::{chars_of, contains_char, push_char, trim, trimmed};

verus! {

/// The name of the unit.
pub open spec fn unit_name() -> Seq<char> {
    "mihomo-cli.service"@
}

/// Why a unit operation failed.
#[derive(Debug)]
pub enum SystemdError {
    /// `systemctl` with these arguments exited unsuccessfully.
    Failed(Vec<String>),
    /// `which` found no binary of this name.
    BinaryNotFound(String),
}

/// `s` with every `"` preceded by a backslash.
pub open spec fn escape_quotes(s: Seq<char>) -> Seq<char>
    decreases s.len(),
{
    if s.len() == 0 {
        Seq::empty()
    } else {
        (if s[0] == '"' {
            seq!['\\', '"']
        } else {
            seq![s[0]]
        }) + escape_quotes(s.drop_first())
    }
}

/// `s` in double quotes, its own double quotes escaped.
pub open spec fn quoted(s: Seq<char>) -> Seq<char> {
    seq!['"'] + escape_quotes(s) + seq!['"']
}

/// Undoes `escape_quotes`: a backslash before a `"` is dropped.
pub open spec fn unescape_quotes(s: Seq<char>) -> Seq<char>
    decreases s.len(),
{
    if s.len() == 0 {
        Seq::empty()
    } else if s.len() >= 2 && s[0] == '\\' && s[1] == '"' {
        seq!['"'] + unescape_quotes(s.skip(2))
    } else {
        seq![s[0]] + unescape_quotes(s.drop_first())
    }
}

proof fn lemma_escape_quotes_push(s: Seq<char>, c: char)
    ensures
        escape_quotes(s.push(c)) == escape_quotes(s) + (if c == '"' {
            seq!['\\', '"']
        } else {
            seq![c]
        }),
    decreases s.len(),
{
    if s.len() == 0 {
        assert(s.push(c).drop_first() =~= Seq::<char>::empty());
        assert(escape_quotes(s.push(c).drop_first()) == Seq::<char>::empty());
        assert(escape_quotes(s) == Seq::<char>::empty());
        assert(escape_quotes(s.push(c)) =~= escape_quotes(s) + (if c == '"' {
            seq!['\\', '"']
        } else {
            seq![c]
        }));
    } else {
        assert(s.push(c).drop_first() =~= s.drop_first().push(c));
        lemma_escape_quotes_push(s.drop_first(), c);
        assert(escape_quotes(s.push(c)) =~= escape_quotes(s) + (if c == '"' {
            seq!['\\', '"']
        } else {
            seq![c]
        }));
    }
}

/// Escaping loses nothing: unescaping gives back the string, so a quoted path
/// names exactly the path it was made from.
pub proof fn lemma_escape_round_trip(s: Seq<char>)
    ensures
        unescape_quotes(escape_quotes(s)) == s,
    decreases s.len(),
{
    if s.len() > 0 {
        lemma_escape_round_trip(s.drop_first());
        let rest = escape_quotes(s.drop_first());
        let e = escape_quotes(s);
        if s[0] == '"' {
            assert(e == seq!['\\', '"'] + rest);
            assert(e.skip(2) =~= rest);
            assert(unescape_quotes(e) =~= seq!['"'] + s.drop_first());
        } else {
            assert(e == seq![s[0]] + rest);
            assert(e.drop_first() =~= rest);
            if s[0] == '\\' && e.len() >= 2 && e[1] == '"' {
                // the next character of the escaped text is the escape of a quote,
                // whose backslash comes first.
                if s.drop_first().len() > 0 {
                    if s.drop_first()[0] == '"' {
                        assert(rest[0] == '\\');
                    } else {
                        assert(rest[0] == s.drop_first()[0]);
                    }
                }
                assert(false);
            }
            assert(unescape_quotes(e) =~= seq![s[0]] + s.drop_first());
        }
        assert(s =~= seq![s[0]] + s.drop_first());
    }
}

/// Quotes a path for the `ExecStart=` line.
pub fn shell_escape(s: &str) -> (r: String)
    ensures
        r@ == quoted(s@),
{
    let cs = chars_of(s);
    let mut out = String::new();
    push_char(&mut out, '"');
    let mut i: usize = 0;
    while i < cs.len()
        invariant
            i <= cs@.len(),
            cs@ == s@,
            out@ == seq!['"'] + escape_quotes(s@.take(i as int)),
        decreases cs@.len() - i,
    {
        let c = cs[i];
        if c == '"' {
            push_char(&mut out, '\\');
            push_char(&mut out, '"');
        } else {
            push_char(&mut out, c);
        }
        proof {
            lemma_escape_quotes_push(s@.take(i as int), c);
            assert(s@.take(i + 1) =~= s@.take(i as int).push(c));
        }
        i = i + 1;
    }
    push_char(&mut out, '"');
    proof {
        assert(s@.take(cs@.len() as int) =~= s@);
    }
    out
}

/// The unit file that runs `mihomo` in working directory `run_dir` with configuration
/// `config`.
pub open spec fn unit_file(mihomo: Seq<char>, run_dir: Seq<char>, config: Seq<char>) -> Seq<char> {
    "[Unit]\nDescription=mihomo (mihomo-cli)\nAfter=network-online.target\nWants=network-online.target\n\n[Service]\nType=simple\nExecStart="@
        + quoted(mihomo) + " -d "@ + quoted(run_dir) + " -f "@ + quoted(config)
        + "\nRestart=on-failure\nRestartSec=2\nLimitNOFILE=1048576\n\n[Install]\nWantedBy=default.target\n"@
}

/// Writes out `unit_file`.
pub fn unit_file_text(mihomo: &str, run_dir: &str, config: &str) -> (r: String)
    ensures
        r@ == unit_file(mihomo@, run_dir@, config@),
{
    let mut s =
        "[Unit]\nDescription=mihomo (mihomo-cli)\nAfter=network-online.target\nWants=network-online.target\n\n[Service]\nType=simple\nExecStart=".to_string();
    s.append(shell_escape(mihomo).as_str());
    s.append(" -d ");
    s.append(shell_escape(run_dir).as_str());
    s.append(" -f ");
    s.append(shell_escape(config).as_str());
    s.append(
        "\nRestart=on-failure\nRestartSec=2\nLimitNOFILE=1048576\n\n[Install]\nWantedBy=default.target\n",
    );
    s
}

/// The unit for the layout `paths`, running the binary at `mihomo` with the working
/// directory `run/` and the configuration `runtime/current.yaml`.
pub fn unit_content(paths: &Paths, mihomo: &str) -> (r: String)
    ensures
        r@ == unit_file(
            mihomo@,
            crate::paths::path_join(paths.root@, "run"@),
            crate::paths::path_join(crate::paths::path_join(paths.root@, "runtime"@), "current.yaml"@),
        ),
{
    let run_dir = paths.run_dir();
    let config = paths.current_yaml();
    unit_file_text(mihomo, run_dir.as_str(), config.as_str())
}

/// How the binary named in the settings is found.
#[derive(Debug)]
pub enum BinLookup {
    /// The name is a path; it is used as it is.
    Path(String),
    /// The name is looked up with `which`.
    Which,
}

/// A name with a `/` is a path; any other is looked up with `which`.
pub fn resolve_bin(name: &str) -> (r: BinLookup)
    ensures
        name@.contains('/') ==> (r matches BinLookup::Path(p) && p@ == name@),
        !name@.contains('/') ==> r is Which,
{
    if contains_char(name, '/') {
        BinLookup::Path(name.to_string())
    } else {
        BinLookup::Which
    }
}

/// The binary that `which name` reported: its output without surrounding white space,
/// or an error when `which` failed.
pub fn resolved_by_which(name: &str, success: bool, stdout: &str) -> (r: Result<String, SystemdError>)
    ensures
        success ==> (r matches Ok(p) && p@ == trimmed(stdout@)),
        !success ==> (r matches Err(SystemdError::BinaryNotFound(n)) && n@ == name@),
{
    if success {
        Ok(trim(stdout))
    } else {
        Err(SystemdError::BinaryNotFound(name.to_string()))
    }
}

fn unit_name_string() -> (r: String)
    ensures
        r@ == unit_name(),
{
    "mihomo-cli.service".to_string()
}

/// Arguments of `systemctl` that reload the units of the user.
pub fn daemon_reload() -> (r: Vec<String>)
    ensures
        views(r@) == seq!["--user"@, "daemon-reload"@],
{
    let mut v = Vec::new();
    v.push("--user".to_string());
    v.push("daemon-reload".to_string());
    proof {
        assert(views(v@) =~= seq!["--user"@, "daemon-reload"@]);
    }
    v
}

/// Arguments of `systemctl` that enable the unit and start it now.
pub fn enable_start() -> (r: Vec<String>)
    ensures
        views(r@) == seq!["--user"@, "enable"@, "--now"@, unit_name()],
{
    let mut v = Vec::new();
    v.push("--user".to_string());
    v.push("enable".to_string());
    v.push("--now".to_string());
    v.push(unit_name_string());
    proof {
        assert(views(v@) =~= seq!["--user"@, "enable"@, "--now"@, unit_name()]);
    }
    v
}

/// Arguments of `systemctl` that stop the unit.
pub fn stop() -> (r: Vec<String>)
    ensures
        views(r@) == seq!["--user"@, "stop"@, unit_name()],
{
    let mut v = Vec::new();
    v.push("--user".to_string());
    v.push("stop".to_string());
    v.push(unit_name_string());
    proof {
        assert(views(v@) =~= seq!["--user"@, "stop"@, unit_name()]);
    }
    v
}

/// Arguments of `systemctl` that restart the unit.
pub fn restart() -> (r: Vec<String>)
    ensures
        views(r@) == seq!["--user"@, "restart"@, unit_name()],
{
    let mut v = Vec::new();
    v.push("--user".to_string());
    v.push("restart".to_string());
    v.push(unit_name_string());
    proof {
        assert(views(v@) =~= seq!["--user"@, "restart"@, unit_name()]);
    }
    v
}

/// Arguments of `systemctl` that ask, quietly, whether the unit is active.
pub fn is_active_query() -> (r: Vec<String>)
    ensures
        views(r@) == seq!["--user"@, "is-active"@, "--quiet"@, unit_name()],
{
    let mut v = Vec::new();
    v.push("--user".to_string());
    v.push("is-active".to_string());
    v.push("--quiet".to_string());
    v.push(unit_name_string());
    proof {
        assert(views(v@) =~= seq!["--user"@, "is-active"@, "--quiet"@, unit_name()]);
    }
    v
}

/// Arguments of `systemctl` that show the status of the unit without a pager.
pub fn status_query() -> (r: Vec<String>)
    ensures
        views(r@) == seq!["--user"@, "status"@, unit_name(), "--no-pager"@],
{
    let mut v = Vec::new();
    v.push("--user".to_string());
    v.push("status".to_string());
    v.push(unit_name_string());
    v.push("--no-pager".to_string());
    proof {
        assert(views(v@) =~= seq!["--user"@, "status"@, unit_name(), "--no-pager"@]);
    }
    v
}

/// The outcome of running `systemctl` with `args`: an error unless it exited successfully.
pub fn systemctl_outcome(args: Vec<String>, success: bool) -> (r: Result<(), SystemdError>)
    ensures
        success ==> r is Ok,
        !success ==> (r matches Err(SystemdError::Failed(a)) && a@ == args@),
{
    if success {
        Ok(())
    } else {
        Err(SystemdError::Failed(args))
    }
}

/// Whether the unit file must be written: only when it does not exist yet.
pub fn ensure_unit_exists(unit_exists: bool) -> (must_write: bool)
    ensures
        must_write == !unit_exists,
{
    !unit_exists
}

} // verus!
