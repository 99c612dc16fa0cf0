//! The decisions of the command line: which names are accepted, which step each
//! command takes in which situation, and what it reports.
use vstd::prelude::*;
use crate::intent::{Intent, opt_view};
use crate::json::{
    JsonValue, as_array, as_str, field, opt_val, spec_as_array, spec_as_str, spec_field,
};
use crate::sorting::views;
use crate::text::{chars_of, decimal, decimal_string, pad_left, pad_left_string, str_eq};

verus! {

/// Why a command refuses to go on.
#[derive(Debug)]
pub enum CommandError {
    /// A profile name must be `[A-Za-z0-9_-]+`.
    InvalidName,
    /// mihomo is not running, so there is nothing to reload.
    NotRunning,
    /// There is no profile of this name.
    ProfileNotFound(String),
}

/// The characters a profile name may hold.
pub open spec fn is_name_char(c: char) -> bool {
    ||| 'a' <= c <= 'z'
    ||| 'A' <= c <= 'Z'
    ||| '0' <= c <= '9'
    ||| c == '-'
    ||| c == '_'
}

/// A profile name: not empty, and only `[A-Za-z0-9_-]`.
pub open spec fn is_valid_name(s: Seq<char>) -> bool {
    s.len() > 0 && forall|i: int| 0 <= i < s.len() ==> is_name_char(#[trigger] s[i])
}

/// A profile name is valid exactly when it is not empty and each of its characters is
/// an ASCII letter, an ASCII digit, `-` or `_`, whatever its length.
pub proof fn lemma_valid_name_exactly(s: Seq<char>)
    ensures
        is_valid_name(s) <==> (s.len() > 0 && forall|i: int|
            0 <= i < s.len() ==> {
                let c = #[trigger] s[i];
                ('a' <= c && c <= 'z') || ('A' <= c && c <= 'Z') || ('0' <= c && c <= '9') || c
                    == '-' || c == '_'
            }),
{
}

/// Valid names have no length limit: one allowed character is a valid name, and a
/// valid name followed by an allowed character is still valid.
pub proof fn lemma_valid_name_grows(s: Seq<char>, c: char)
    requires
        ('a' <= c && c <= 'z') || ('A' <= c && c <= 'Z') || ('0' <= c && c <= '9') || c == '-' || c
            == '_',
    ensures
        is_valid_name(seq![c]),
        is_valid_name(s) ==> is_valid_name(s.push(c)),
{
    if is_valid_name(s) {
        assert forall|i: int| 0 <= i < s.push(c).len() implies is_name_char(#[trigger] s.push(c)[i]) by {
            if i < s.len() {
                assert(s.push(c)[i] == s[i]);
            }
        }
    }
}

/// Accepts exactly the valid profile names.
pub fn validate_name(name: &str) -> (r: Result<(), CommandError>)
    ensures
        is_valid_name(name@) ==> r is Ok,
        !is_valid_name(name@) ==> r matches Err(CommandError::InvalidName),
{
    let cs = chars_of(name);
    if cs.len() == 0 {
        return Err(CommandError::InvalidName);
    }
    let mut i: usize = 0;
    while i < cs.len()
        invariant
            i <= cs@.len(),
            cs@ == name@,
            forall|k: int| 0 <= k < i ==> is_name_char(#[trigger] cs@[k]),
        decreases cs@.len() - i,
    {
        let c = cs[i];
        if !(('a' <= c && c <= 'z') || ('A' <= c && c <= 'Z') || ('0' <= c && c <= '9') || c == '-'
            || c == '_') {
            return Err(CommandError::InvalidName);
        }
        i = i + 1;
    }
    Ok(())
}

/// `mm tun on|off`: TUN is on exactly for `on`.
pub fn tun_setting(state: &str) -> (r: bool)
    ensures
        r == (state@ == "on"@),
{
    str_eq(state, "on")
}

/// `mm sub add`: an existing profile keeps everything but its subscription, which
/// becomes `url`; otherwise the profile is new, following `url`.
pub fn intent_for_sub_add(existing: Option<Intent>, url: &str) -> (r: Intent)
    ensures
        opt_view(r.subscription) == Some(url@),
        match existing {
            Some(i) => r.mixed_port == i.mixed_port && r.tun == i.tun && r.nodes == i.nodes,
            None => r.mixed_port is None && r.tun && r.nodes@.len() == 0,
        },
{
    match existing {
        Some(mut i) => {
            i.subscription = Some(url.to_string());
            i
        },
        None => Intent::new_with_sub(url),
    }
}

/// The mark of a listed profile: `*` for the active one.
pub open spec fn active_mark(name: Seq<char>, active: Option<Seq<char>>) -> Seq<char> {
    if active == Some(name) {
        "*"@
    } else {
        " "@
    }
}

fn mark(name: &str, active: Option<&str>) -> (r: String)
    ensures
        r@ == active_mark(
            name@,
            match active {
                Some(a) => Some(a@),
                None => None,
            },
        ),
{
    match active {
        Some(a) => if str_eq(a, name) {
            "*".to_string()
        } else {
            " ".to_string()
        },
        None => " ".to_string(),
    }
}

/// The content of an optional string slice.
pub open spec fn opt_str(o: Option<&str>) -> Option<Seq<char>> {
    match o {
        Some(s) => Some(s@),
        None => None,
    }
}

/// `mm sub list`: `<mark> <name>\t<url>` for a profile that follows a subscription.
pub fn sub_list_line(name: &str, active: Option<&str>, intent: &Intent) -> (r: Option<String>)
    ensures
        match opt_view(intent.subscription) {
            Some(url) => r matches Some(l) && l@ == active_mark(name@, opt_str(active)) + " "@
                + name@ + "\t"@ + url,
            None => r is None,
        },
{
    match &intent.subscription {
        Some(url) => {
            let mut l = mark(name, active);
            l.append(" ");
            l.append(name);
            l.append("\t");
            l.append(url.as_str());
            Some(l)
        },
        None => None,
    }
}

/// `mm profile list`: `<mark> <name>\t<sub|local>\t<tun|notun>`.
pub fn profile_list_line(name: &str, active: Option<&str>, intent: &Intent) -> (r: String)
    ensures
        r@ == active_mark(name@, opt_str(active)) + " "@ + name@ + "\t"@ + (if intent.subscription
            is Some {
            "sub"@
        } else {
            "local"@
        }) + "\t"@ + (if intent.tun {
            "tun"@
        } else {
            "notun"@
        }),
{
    let mut l = mark(name, active);
    l.append(" ");
    l.append(name);
    l.append("\t");
    if intent.subscription.is_some() {
        l.append("sub");
    } else {
        l.append("local");
    }
    l.append("\t");
    if intent.tun {
        l.append("tun");
    } else {
        l.append("notun");
    }
    l
}

/// `mm sub update [name]`: the named profile, or every profile.
pub fn sub_update_targets(name: Option<&str>, all: Vec<String>) -> (r: Vec<String>)
    ensures
        match name {
            Some(n) => views(r@) == seq![n@],
            None => r@ == all@,
        },
{
    match name {
        Some(n) => {
            let mut v = Vec::new();
            v.push(n.to_string());
            proof {
                assert(views(v@) =~= seq![n@]);
            }
            v
        },
        None => all,
    }
}

/// After `mm sub update [name]`, the active profile is reloaded when every profile
/// was updated or the named one is the active one.
pub fn reload_after_update(name: Option<&str>, active: Option<&str>) -> (r: bool)
    ensures
        r == (active is Some && (name is None || opt_str(name) == opt_str(active))),
{
    match active {
        None => false,
        Some(a) => match name {
            None => true,
            Some(n) => str_eq(n, a),
        },
    }
}

/// How a regenerated configuration is put in force.
#[derive(Debug, Clone, Copy, PartialEq, Eq, Structural)]
pub enum ApplyStep {
    /// The controller answers: it is told to reload.
    ApiReload,
    /// The controller does not answer but the service runs: it is restarted.
    Restart,
    /// Nothing runs.
    NotRunning,
}

/// `mm reload`: through the controller when it answers, else by restarting a running
/// service; with nothing running it is an error.
pub fn reload_step(api_up: bool, service_active: bool) -> (r: Result<ApplyStep, CommandError>)
    ensures
        api_up ==> r matches Ok(ApplyStep::ApiReload),
        !api_up && service_active ==> r matches Ok(ApplyStep::Restart),
        !api_up && !service_active ==> r matches Err(CommandError::NotRunning),
{
    if api_up {
        Ok(ApplyStep::ApiReload)
    } else if service_active {
        Ok(ApplyStep::Restart)
    } else {
        Err(CommandError::NotRunning)
    }
}

/// `mm profile use`: the profile must exist.
pub fn profile_present(name: &str, exists: bool) -> (r: Result<(), CommandError>)
    ensures
        exists ==> r is Ok,
        !exists ==> (r matches Err(CommandError::ProfileNotFound(n)) && n@ == name@),
{
    if exists {
        Ok(())
    } else {
        Err(CommandError::ProfileNotFound(name.to_string()))
    }
}

/// `mm profile use`: with the service running, through the controller when it answers,
/// else by a restart; with the service stopped nothing is done.
pub fn profile_use_step(service_active: bool, api_up: bool) -> (r: ApplyStep)
    ensures
        service_active && api_up ==> r == ApplyStep::ApiReload,
        service_active && !api_up ==> r == ApplyStep::Restart,
        !service_active ==> r == ApplyStep::NotRunning,
{
    if service_active {
        if api_up {
            ApplyStep::ApiReload
        } else {
            ApplyStep::Restart
        }
    } else {
        ApplyStep::NotRunning
    }
}

/// How `mm up` starts mihomo.
#[derive(Debug, Clone, Copy, PartialEq, Eq, Structural)]
pub enum UpStep {
    Restart,
    EnableStart,
}

/// `mm up`: a running service is restarted, a stopped one enabled and started.
pub fn up_step(service_active: bool) -> (r: UpStep)
    ensures
        service_active ==> r == UpStep::Restart,
        !service_active ==> r == UpStep::EnableStart,
{
    if service_active {
        UpStep::Restart
    } else {
        UpStep::EnableStart
    }
}

/// How many times `mm up` asks the controller for its version, 100 ms apart,
/// before it leaves it be.
pub const API_WAIT_ATTEMPTS: u32 = 20;

/// What `mm up` does after asking the controller for its version.
#[derive(Debug, Clone, Copy, PartialEq, Eq, Structural)]
pub enum WaitStep {
    /// The controller answered: stop waiting.
    Done,
    /// Sleep 100 ms, then ask again.
    SleepThenAsk,
    /// Sleep 100 ms, then stop waiting: that was the last attempt.
    SleepThenStop,
}

/// After attempt `attempt` (counted from 0): done when the controller answered;
/// otherwise a pause, and another attempt while fewer than `API_WAIT_ATTEMPTS` were made.
pub fn api_wait_step(attempt: u32, api_up: bool) -> (r: WaitStep)
    ensures
        api_up ==> r == WaitStep::Done,
        !api_up && attempt + 1 < API_WAIT_ATTEMPTS ==> r == WaitStep::SleepThenAsk,
        !api_up && attempt + 1 >= API_WAIT_ATTEMPTS ==> r == WaitStep::SleepThenStop,
{
    if api_up {
        WaitStep::Done
    } else if attempt < API_WAIT_ATTEMPTS - 1 {
        WaitStep::SleepThenAsk
    } else {
        WaitStep::SleepThenStop
    }
}

/// `mm init`: the default settings are written only when there are none yet.
pub fn init_writes_config(config_exists: bool) -> (r: bool)
    ensures
        r == !config_exists,
{
    !config_exists
}

/// `mm sub update`: the subscription to download for a profile; a profile without one
/// is passed over.
pub fn update_source(intent: &Intent) -> (r: Option<String>)
    ensures
        opt_view(r) == opt_view(intent.subscription),
{
    match &intent.subscription {
        Some(url) => Some(url.clone()),
        None => None,
    }
}

/// Which profile `mm profile gen` generates.
#[derive(Debug)]
pub enum GenTarget {
    /// The profile named on the command line.
    Named(String),
    /// The active profile.
    Active,
}

/// `mm profile gen [name]`: the named profile, else the active one.
pub fn gen_target(name: Option<&str>) -> (r: GenTarget)
    ensures
        match name {
            Some(n) => r matches GenTarget::Named(m) && m@ == n@,
            None => r is Active,
        },
{
    match name {
        Some(n) => GenTarget::Named(n.to_string()),
        None => GenTarget::Active,
    }
}

/// `mm status`: the line naming the active profile.
pub fn status_active_line(active: Option<&str>) -> (r: String)
    ensures
        r@ == "active:  "@ + match active {
            Some(a) => a@,
            None => "(none)"@,
        },
{
    let mut l = "active:  ".to_string();
    match active {
        Some(a) => l.append(a),
        None => l.append("(none)"),
    }
    l
}

/// `mm status`: the line telling whether the service runs.
pub fn status_service_line(service_active: bool) -> (r: String)
    ensures
        r@ == "service: "@ + (if service_active {
            "active"@
        } else {
            "inactive"@
        }),
{
    let mut l = "service: ".to_string();
    if service_active {
        l.append("active");
    } else {
        l.append("inactive");
    }
    l
}

/// The `PROXY` group in an answer to `GET /proxies`.
pub open spec fn proxy_group(proxies: JsonValue) -> Option<JsonValue> {
    spec_field(spec_field(Some(proxies), "proxies"@), "PROXY"@)
}

/// The node that the `PROXY` group has selected, if the answer names one.
pub open spec fn selected_node(proxies: JsonValue) -> Option<Seq<char>> {
    spec_as_str(spec_field(proxy_group(proxies), "now"@))
}

/// The members of the `PROXY` group, or none.
pub open spec fn group_members(proxies: JsonValue) -> Seq<JsonValue> {
    match spec_as_array(spec_field(proxy_group(proxies), "all"@)) {
        Some(a) => a,
        None => Seq::empty(),
    }
}

/// The name of a member, or `?`.
pub open spec fn member_name(m: JsonValue) -> Seq<char> {
    match spec_as_str(Some(m)) {
        Some(s) => s,
        None => "?"@,
    }
}

fn member_name_string(m: &JsonValue) -> (r: String)
    ensures
        r@ == member_name(*m),
{
    match as_str(Some(m)) {
        Some(s) => s.clone(),
        None => "?".to_string(),
    }
}

fn group_of(proxies: &JsonValue) -> (r: Option<&JsonValue>)
    ensures
        opt_val(r) == proxy_group(*proxies),
{
    field(field(Some(proxies), "proxies"), "PROXY")
}

/// `mm status`: the node the `PROXY` group has selected.
pub fn status_node(proxies: &JsonValue) -> (r: Option<String>)
    ensures
        match selected_node(*proxies) {
            Some(s) => r matches Some(n) && n@ == s,
            None => r is None,
        },
{
    match as_str(field(group_of(proxies), "now")) {
        Some(s) => Some(s.clone()),
        None => None,
    }
}

/// A line of `mm node list`: `*` before the selected node.
pub open spec fn node_line(name: Seq<char>, now: Seq<char>) -> Seq<char> {
    (if name == now {
        "*"@
    } else {
        " "@
    }) + " "@ + name
}

/// `mm node list`: a line for every member of the `PROXY` group.
pub fn node_list_lines(proxies: &JsonValue) -> (r: Vec<String>)
    ensures
        views(r@) == group_members(*proxies).map_values(
            |m: JsonValue|
                node_line(
                    member_name(m),
                    match selected_node(*proxies) {
                        Some(s) => s,
                        None => "?"@,
                    },
                ),
        ),
{
    let group = group_of(proxies);
    let now = match as_str(field(group, "now")) {
        Some(s) => s.clone(),
        None => "?".to_string(),
    };
    let ghost now_v = match selected_node(*proxies) {
        Some(s) => s,
        None => "?"@,
    };
    let mut lines: Vec<String> = Vec::new();
    match as_array(field(group, "all")) {
        Some(all) => {
            let mut i: usize = 0;
            while i < all.len()
                invariant
                    i <= all@.len(),
                    all@ == group_members(*proxies),
                    now@ == now_v,
                    views(lines@) == all@.take(i as int).map_values(
                        |m: JsonValue| node_line(member_name(m), now_v),
                    ),
                decreases all@.len() - i,
            {
                let name = member_name_string(&all[i]);
                let mut l = if str_eq(name.as_str(), now.as_str()) {
                    "*".to_string()
                } else {
                    " ".to_string()
                };
                l.append(" ");
                l.append(name.as_str());
                let ghost before = lines@;
                lines.push(l);
                proof {
                    assert(all@.take(i + 1) =~= all@.take(i as int).push(all@[i as int]));
                    assert(views(lines@) =~= views(before).push(l@));
                    assert(all@.take(i + 1).map_values(
                        |m: JsonValue| node_line(member_name(m), now_v),
                    ) =~= all@.take(i as int).map_values(
                        |m: JsonValue| node_line(member_name(m), now_v),
                    ).push(node_line(member_name(all@[i as int]), now_v)));
                }
                i = i + 1;
            }
            proof {
                assert(all@.take(all@.len() as int) =~= all@);
            }
        },
        None => {
            proof {
                assert(views(lines@) =~= group_members(*proxies).map_values(
                    |m: JsonValue| node_line(member_name(m), now_v),
                ));
            }
        },
    }
    lines
}

/// Whether a member is tested by `mm node delay`: not the built-in `DIRECT` and `REJECT`.
pub open spec fn is_delay_target(name: Seq<char>) -> bool {
    name != "DIRECT"@ && name != "REJECT"@
}

/// The names of the members to test, in order.
pub open spec fn delay_targets_of(members: Seq<JsonValue>) -> Seq<Seq<char>>
    decreases members.len(),
{
    if members.len() == 0 {
        Seq::empty()
    } else {
        let rest = delay_targets_of(members.drop_last());
        let n = member_name(members.last());
        if is_delay_target(n) {
            rest.push(n)
        } else {
            rest
        }
    }
}

/// The members to test are the names of all members, in order, with every `DIRECT`
/// and `REJECT` left out and nothing else left out.
pub proof fn lemma_delay_targets_filter(members: Seq<JsonValue>)
    ensures
        delay_targets_of(members) == members.map_values(|m: JsonValue| member_name(m)).filter(
            |x: Seq<char>| x != "DIRECT"@ && x != "REJECT"@,
        ),
    decreases members.len(),
{
    reveal(Seq::filter);
    let names = members.map_values(|m: JsonValue| member_name(m));
    if members.len() > 0 {
        lemma_delay_targets_filter(members.drop_last());
        assert(names.drop_last() =~= members.drop_last().map_values(|m: JsonValue| member_name(m)));
        assert(names.last() == member_name(members.last()));
    } else {
        assert(names =~= Seq::<Seq<char>>::empty());
    }
}

/// `mm node delay`: the members of the `PROXY` group to test.
pub fn delay_targets(proxies: &JsonValue) -> (r: Vec<String>)
    ensures
        views(r@) == delay_targets_of(group_members(*proxies)),
{
    let mut out: Vec<String> = Vec::new();
    match as_array(field(group_of(proxies), "all")) {
        Some(all) => {
            let mut i: usize = 0;
            while i < all.len()
                invariant
                    i <= all@.len(),
                    views(out@) == delay_targets_of(all@.take(i as int)),
                decreases all@.len() - i,
            {
                let name = member_name_string(&all[i]);
                let ghost before = out@;
                proof {
                    assert(all@.take(i + 1).drop_last() =~= all@.take(i as int));
                }
                if !str_eq(name.as_str(), "DIRECT") && !str_eq(name.as_str(), "REJECT") {
                    out.push(name);
                    proof {
                        assert(views(out@) =~= views(before).push(member_name(all@[i as int])));
                    }
                }
                i = i + 1;
            }
            proof {
                assert(all@.take(all@.len() as int) =~= all@);
            }
        },
        None => {},
    }
    out
}

/// `mm node delay`: the line of a member that answered in `ms` milliseconds.
pub fn delay_line(ms: u64, name: &str) -> (r: String)
    ensures
        r@ == pad_left(decimal(ms as nat), 5) + " ms  "@ + name@,
{
    let d = decimal_string(ms);
    let mut l = pad_left_string(d.as_str(), 5);
    l.append(" ms  ");
    l.append(name);
    l
}

/// `mm node delay`: the line of a member whose test failed.
pub fn delay_error_line(name: &str) -> (r: String)
    ensures
        r@ == "  err     "@ + name@,
{
    let mut l = "  err     ".to_string();
    l.append(name);
    l
}

} // verus!
