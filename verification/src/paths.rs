//! The layout of the manager's files under its configuration directory.
use vstd::prelude::*;
use crate::sorting::{is_sorted, sort_strings, views};
use crate::text::{
    chars_of, string_from_chars, str_eq, trim, trimmed, trim_start, trim_end, is_white_space,
};
use crate::commands::{is_valid_name, is_name_char};

verus! {

broadcast use vstd::seq_lib::group_to_multiset_ensures;

/// `base` joined with `part` as `Path::join` does on Unix: an absolute `part` replaces
/// `base`; otherwise `part` follows `base`, with a `/` between them unless `base` is
/// empty or already ends with one.
pub open spec fn path_join(base: Seq<char>, part: Seq<char>) -> Seq<char> {
    if part.len() > 0 && part[0] == '/' {
        part
    } else if base.len() == 0 || base.last() == '/' {
        base + part
    } else {
        base + seq!['/'] + part
    }
}

/// Joins two paths as `path_join` says.
pub fn join(base: &str, part: &str) -> (r: String)
    ensures
        r@ == path_join(base@, part@),
{
    let b = chars_of(base);
    let p = chars_of(part);
    if p.len() > 0 && p[0] == '/' {
        return part.to_string();
    }
    let mut out = base.to_string();
    if !(b.len() == 0 || b[b.len() - 1] == '/') {
        out.append("/");
        proof {
            reveal_strlit("/");
            assert("/"@ =~= seq!['/']);
        }
    }
    out.append(part);
    out
}

/// Joins `base`, `dir` and `file`.
fn join3(base: &str, dir: &str, file: &str) -> (r: String)
    ensures
        r@ == path_join(path_join(base@, dir@), file@),
{
    let d = join(base, dir);
    join(d.as_str(), file)
}

/// `name` followed by `suffix`.
fn with_suffix(name: &str, suffix: &str) -> (r: String)
    ensures
        r@ == name@ + suffix@,
{
    let mut s = name.to_string();
    s.append(suffix);
    s
}

/// Why the layout cannot be used.
#[derive(Debug, Clone, Copy, PartialEq, Eq, Structural)]
pub enum PathsError {
    /// The system names no configuration directory.
    NoConfigDir,
    /// No profile has been made active yet.
    NoActiveProfile,
}

/// The files of the manager, under `root`.
#[derive(Debug)]
pub struct Paths {
    pub root: String,
}

/// The stem of a file name whose extension is `toml`: the name has a non-empty part
/// before its last dot, and `toml` after it.
pub open spec fn toml_stem(f: Seq<char>) -> Option<Seq<char>> {
    if f.len() > 5 && f.subrange(f.len() - 5, f.len() as int) == ".toml"@ {
        Some(f.subrange(0, f.len() - 5))
    } else {
        None
    }
}

/// The stems of the `toml` files among `fs`, in order.
pub open spec fn toml_stems(fs: Seq<Seq<char>>) -> Seq<Seq<char>>
    decreases fs.len(),
{
    if fs.len() == 0 {
        Seq::empty()
    } else {
        let rest = toml_stems(fs.drop_last());
        match toml_stem(fs.last()) {
            Some(s) => rest.push(s),
            None => rest,
        }
    }
}

/// Decides `toml_stem`.
pub fn toml_file_stem(f: &str) -> (r: Option<String>)
    ensures
        match r {
            Some(s) => toml_stem(f@) == Some(s@),
            None => toml_stem(f@) is None,
        },
{
    let cs = chars_of(f);
    let n = cs.len();
    if n > 5 {
        let ext = string_from_chars(&cs, n - 5, n);
        if str_eq(ext.as_str(), ".toml") {
            return Some(string_from_chars(&cs, 0, n - 5));
        }
    }
    None
}

impl Paths {
    /// The layout under `<config_dir>/mihomo-cli`, where `config_dir` is the system's
    /// configuration directory, if it names one.
    pub fn discover(config_dir: Option<&str>) -> (r: Result<Paths, PathsError>)
        ensures
            match config_dir {
                Some(d) => r matches Ok(p) && p.root@ == path_join(d@, "mihomo-cli"@),
                None => r == Err::<Paths, PathsError>(PathsError::NoConfigDir),
            },
    {
        match config_dir {
            Some(d) => Ok(Paths { root: join(d, "mihomo-cli") }),
            None => Err(PathsError::NoConfigDir),
        }
    }

    /// The directories that `ensure_layout` creates, in order.
    pub fn layout_dirs(&self) -> (r: Vec<String>)
        ensures
            views(r@) == seq![
                path_join(self.root@, "profiles"@),
                path_join(self.root@, "runtime"@),
                path_join(self.root@, "subs"@),
                path_join(self.root@, "run"@),
                path_join(self.root@, "run/providers"@),
                path_join(self.root@, "run/ruleset"@),
            ],
    {
        let mut v: Vec<String> = Vec::new();
        v.push(join(self.root.as_str(), "profiles"));
        v.push(join(self.root.as_str(), "runtime"));
        v.push(join(self.root.as_str(), "subs"));
        v.push(join(self.root.as_str(), "run"));
        v.push(join(self.root.as_str(), "run/providers"));
        v.push(join(self.root.as_str(), "run/ruleset"));
        proof {
            assert(views(v@) =~= seq![
                path_join(self.root@, "profiles"@),
                path_join(self.root@, "runtime"@),
                path_join(self.root@, "subs"@),
                path_join(self.root@, "run"@),
                path_join(self.root@, "run/providers"@),
                path_join(self.root@, "run/ruleset"@),
            ]);
        }
        v
    }

    /// `config.toml`: the global settings.
    pub fn config_toml(&self) -> (r: String)
        ensures
            r@ == path_join(self.root@, "config.toml"@),
    {
        join(self.root.as_str(), "config.toml")
    }

    /// `active`: the name of the active profile.
    pub fn active_file(&self) -> (r: String)
        ensures
            r@ == path_join(self.root@, "active"@),
    {
        join(self.root.as_str(), "active")
    }

    /// `profiles/`: the profiles.
    pub fn profiles_dir(&self) -> (r: String)
        ensures
            r@ == path_join(self.root@, "profiles"@),
    {
        join(self.root.as_str(), "profiles")
    }

    /// `profiles/<name>.toml`: the intent of profile `name`.
    pub fn profile_intent(&self, name: &str) -> (r: String)
        ensures
            r@ == path_join(path_join(self.root@, "profiles"@), name@ + ".toml"@),
    {
        let f = with_suffix(name, ".toml");
        join3(self.root.as_str(), "profiles", f.as_str())
    }

    /// `profiles/<name>.rules.yaml`: the rules that replace the default ones for `name`.
    pub fn profile_rules(&self, name: &str) -> (r: String)
        ensures
            r@ == path_join(path_join(self.root@, "profiles"@), name@ + ".rules.yaml"@),
    {
        let f = with_suffix(name, ".rules.yaml");
        join3(self.root.as_str(), "profiles", f.as_str())
    }

    /// `runtime/<name>.yaml`: the configuration generated for profile `name`.
    pub fn runtime_yaml(&self, name: &str) -> (r: String)
        ensures
            r@ == path_join(path_join(self.root@, "runtime"@), name@ + ".yaml"@),
    {
        let f = with_suffix(name, ".yaml");
        join3(self.root.as_str(), "runtime", f.as_str())
    }

    /// `runtime/current.yaml`: the configuration that mihomo runs with.
    pub fn current_yaml(&self) -> (r: String)
        ensures
            r@ == path_join(path_join(self.root@, "runtime"@), "current.yaml"@),
    {
        join3(self.root.as_str(), "runtime", "current.yaml")
    }

    /// `subs/<name>.yaml`: the cached subscription of profile `name`.
    pub fn sub_cache(&self, name: &str) -> (r: String)
        ensures
            r@ == path_join(path_join(self.root@, "subs"@), name@ + ".yaml"@),
    {
        let f = with_suffix(name, ".yaml");
        join3(self.root.as_str(), "subs", f.as_str())
    }

    /// `run/`: the working directory of mihomo.
    pub fn run_dir(&self) -> (r: String)
        ensures
            r@ == path_join(self.root@, "run"@),
    {
        join(self.root.as_str(), "run")
    }

    /// The user unit of systemd that runs mihomo, under the system's configuration
    /// directory `config_dir`.
    pub fn unit_path(&self, config_dir: &str) -> (r: String)
        ensures
            r@ == path_join(config_dir@, "systemd/user/mihomo-cli.service"@),
    {
        join(config_dir, "systemd/user/mihomo-cli.service")
    }

    /// The name of the active profile, from the contents of the `active` file
    /// (`None` when there is no such file): the contents without surrounding white space.
    pub fn read_active(contents: Option<&str>) -> (r: Result<String, PathsError>)
        ensures
            match contents {
                Some(c) => r matches Ok(name) && name@ == trimmed(c@),
                None => r == Err::<String, PathsError>(PathsError::NoActiveProfile),
            },
    {
        match contents {
            Some(c) => Ok(trim(c)),
            None => Err(PathsError::NoActiveProfile),
        }
    }

    /// What `set_active` writes into the `active` file: the name and a line feed.
    pub fn active_contents(name: &str) -> (r: String)
        ensures
            r@ == name@ + "\n"@,
    {
        with_suffix(name, "\n")
    }

    /// The profiles, given the names of the files in the profiles directory: the stems
    /// of the `toml` files, sorted.
    pub fn list_profiles(file_names: &Vec<String>) -> (r: Vec<String>)
        ensures
            views(r@).to_multiset() == toml_stems(views(file_names@)).to_multiset(),
            is_sorted(views(r@)),
    {
        let mut names: Vec<String> = Vec::new();
        let mut i: usize = 0;
        while i < file_names.len()
            invariant
                i <= file_names@.len(),
                views(names@) == toml_stems(views(file_names@.take(i as int))),
            decreases file_names@.len() - i,
        {
            let ghost before = names@;
            let stem = toml_file_stem(file_names[i].as_str());
            proof {
                assert(views(file_names@.take(i + 1)).drop_last() =~= views(
                    file_names@.take(i as int),
                ));
                assert(views(file_names@.take(i + 1)).last() == file_names@[i as int]@);
            }
            match stem {
                Some(s) => {
                    names.push(s);
                    proof {
                        assert(views(names@) =~= views(before).push(s@));
                    }
                },
                None => {},
            }
            i = i + 1;
        }
        proof {
            assert(file_names@.take(file_names@.len() as int) =~= file_names@);
        }
        sort_strings(names)
    }
}

/// The active profile reads back as written: for a name without surrounding white space,
/// the contents that `active_contents` writes give that name to `read_active`.
pub proof fn lemma_active_round_trip(name: Seq<char>)
    requires
        name.len() > 0 ==> !is_white_space(name[0]) && !is_white_space(name.last()),
    ensures
        trimmed(name + "\n"@) == name,
{
    reveal_strlit("\n");
    let s = name + "\n"@;
    assert(is_white_space('\n'));
    if name.len() == 0 {
        assert(s =~= seq!['\n']);
        assert(trim_start(s.drop_first()) == s.drop_first());
        assert(s.drop_first() =~= Seq::<char>::empty());
        assert(trim_end(Seq::<char>::empty()) == Seq::<char>::empty());
    } else {
        assert(s[0] == name[0]);
        assert(trim_start(s) == s);
        assert(s.last() == '\n');
        assert(s.drop_last() =~= name);
        assert(trim_end(name) == name);
    }
}

/// Valid profile names have no surrounding white space, so they read back as written.
pub proof fn lemma_valid_name_round_trip(name: Seq<char>)
    requires
        is_valid_name(name),
    ensures
        trimmed(name + "\n"@) == name,
{
    assert(is_name_char(name[0]));
    assert(is_name_char(name.last()));
    lemma_active_round_trip(name);
}

/// A profile file is listed: when the profiles directory holds `<name>.toml` for a
/// non-empty `name`, `name` is among the stems that `list_profiles` sorts; and every
/// listed stem comes from such a file.
pub proof fn lemma_profile_listed(fs: Seq<Seq<char>>, name: Seq<char>)
    requires
        name.len() > 0,
    ensures
        fs.contains(name + ".toml"@) ==> toml_stems(fs).contains(name),
        toml_stems(fs).contains(name) ==> fs.contains(name + ".toml"@),
    decreases fs.len(),
{
    reveal_strlit(".toml");
    let f = name + ".toml"@;
    assert(toml_stem(f) == Some(name)) by {
        assert(f.subrange(f.len() - 5, f.len() as int) =~= ".toml"@);
        assert(f.subrange(0, f.len() - 5) =~= name);
    }
    if fs.len() > 0 {
        lemma_profile_listed(fs.drop_last(), name);
        let rest = toml_stems(fs.drop_last());
        if fs.contains(f) {
            let i = choose|i: int| 0 <= i < fs.len() && fs[i] == f;
            if i < fs.len() - 1 {
                assert(fs.drop_last()[i] == f);
                let j = choose|j: int| 0 <= j < rest.len() && rest[j] == name;
                match toml_stem(fs.last()) {
                    Some(s2) => assert(rest.push(s2)[j] == name),
                    None => assert(toml_stems(fs)[j] == name),
                }
            } else {
                assert(fs.last() == f);
                assert(toml_stems(fs) == rest.push(name));
                assert(toml_stems(fs)[rest.len() as int] == name);
            }
        }
        if toml_stems(fs).contains(name) {
            if toml_stem(fs.last()) == Some(name) && !rest.contains(name) {
                let g = fs.last();
                assert(g.subrange(0, g.len() - 5) == name);
                assert(g =~= name + ".toml"@);
                assert(fs[fs.len() - 1] == f);
            } else {
                if !rest.contains(name) {
                    let j = choose|j: int| 0 <= j < toml_stems(fs).len() && toml_stems(fs)[j] == name;
                    match toml_stem(fs.last()) {
                        Some(s2) => assert(j == rest.len() || rest[j] == name),
                        None => assert(rest[j] == name),
                    }
                }
                let k = choose|k: int| 0 <= k < fs.drop_last().len() && fs.drop_last()[k] == f;
                assert(fs[k] == f);
            }
        }
    }
}

/// A valid profile name keeps its files inside the profiles directory: the path of its
/// intent is the directory, a `/`, and `<name>.toml`, which has no `/` of its own.
pub proof fn lemma_valid_name_stays_in_dir(dir: Seq<char>, name: Seq<char>)
    requires
        is_valid_name(name),
        dir.len() > 0,
        dir.last() != '/',
    ensures
        path_join(dir, name + ".toml"@) == dir + seq!['/'] + name + ".toml"@,
        !(name + ".toml"@).contains('/'),
{
    reveal_strlit(".toml");
    let f = name + ".toml"@;
    assert(is_name_char(name[0]));
    assert(f[0] == name[0]);
    assert forall|i: int| 0 <= i < f.len() implies f[i] != '/' by {
        if i < name.len() {
            assert(is_name_char(name[i]));
        }
    }
    assert(dir + seq!['/'] + f =~= dir + seq!['/'] + name + ".toml"@);
}

} // verus!
