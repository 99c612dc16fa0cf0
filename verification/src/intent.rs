//! The configuration model: the global settings of the manager, the short
//! per-profile intent, and the manual nodes that it lists.
use vstd::prelude::*;
use crate::text::{push_char, chars_of, str_eq};
use crate::sorting::keys_in_order;
use crate::tomlval::{toml_well_formed, TomlValue, TomlView, toml_to_yaml, toml_to_yaml_spec, toml_table_view, toml_view};
use crate::yaml::{
    Dict, YamlValue, YamlView, dict_insert, mapping_insert, yaml_dict_view, yaml_list_view,
    yaml_view, keys_unique, lemma_dict_insert_keeps,
};

verus! {

/// Global settings of the manager.
#[derive(Debug)]
pub struct GlobalConfig {
    pub mihomo_bin: String,
    pub controller: String,
    pub secret: String,
    pub mixed_port: u16,
}

/// The binary that runs mihomo, unless the settings name another.
pub fn default_mihomo_bin() -> (r: String)
    ensures
        r@ == "mihomo"@,
{
    "mihomo".to_string()
}

/// The address of the mihomo controller, unless the settings name another.
pub fn default_controller() -> (r: String)
    ensures
        r@ == "127.0.0.1:9090"@,
{
    "127.0.0.1:9090".to_string()
}

/// The mixed (HTTP and SOCKS) port, unless the settings name another.
pub fn default_mixed_port() -> (r: u16)
    ensures
        r == 7897,
{
    7897
}

/// A profile uses TUN unless it says otherwise.
pub fn default_true() -> (r: bool)
    ensures
        r,
{
    true
}

impl Default for GlobalConfig {
    fn default() -> (r: Self)
        ensures
            r.mihomo_bin@ == "mihomo"@,
            r.controller@ == "127.0.0.1:9090"@,
            r.secret@ == Seq::<char>::empty(),
            r.mixed_port == 7897,
    {
        GlobalConfig {
            mihomo_bin: default_mihomo_bin(),
            controller: default_controller(),
            secret: String::new(),
            mixed_port: default_mixed_port(),
        }
    }
}

/// A manual node of a profile. `extra` holds the other mihomo fields of the node
/// (`uuid`, `cipher`, ...), in strictly increasing key order (`Node::well_formed`).
#[derive(Debug)]
pub struct Node {
    pub name: String,
    pub node_type: String,
    pub server: String,
    pub port: u16,
    pub password: Option<String>,
    pub sni: Option<String>,
    pub skip_cert_verify: Option<bool>,
    pub udp: Option<bool>,
    pub up: Option<String>,
    pub down: Option<String>,
    pub alpn: Option<Vec<String>>,
    pub pin_sha256: Option<String>,
    pub extra: Vec<(String, TomlValue)>,
}

/// The intent of a profile: the short, user-facing description from which
/// the full mihomo configuration is generated.
#[derive(Debug)]
pub struct Intent {
    pub subscription: Option<String>,
    pub mixed_port: Option<u16>,
    pub tun: bool,
    pub nodes: Vec<Node>,
}

/// The content of an optional string.
pub open spec fn opt_view(o: Option<String>) -> Option<Seq<char>> {
    match o {
        Some(s) => Some(s@),
        None => None,
    }
}

impl Intent {
    /// A profile that follows the subscription at `url`, with TUN on and no manual nodes.
    pub fn new_with_sub(url: &str) -> (r: Intent)
        ensures
            opt_view(r.subscription) == Some(url@),
            r.mixed_port is None,
            r.tun,
            r.nodes@.len() == 0,
    {
        Intent { subscription: Some(url.to_string()), mixed_port: None, tun: true, nodes: Vec::new() }
    }
}

/// Whether node `n` sets key `k` from its own fields: `name`, `type`, `server` and `port`
/// always, each optional field when it is present. An extra field never takes such a key;
/// any other key passes through.
pub open spec fn key_is_set(n: Node, k: Seq<char>) -> bool {
    let r = key_rank(k);
    if r <= 3 {
        true
    } else if r == 4 {
        n.password is Some
    } else if r == 5 {
        n.sni is Some
    } else if r == 6 {
        n.skip_cert_verify is Some
    } else if r == 7 {
        n.udp is Some
    } else if r == 8 {
        n.up is Some
    } else if r == 9 {
        n.down is Some
    } else if r == 10 {
        n.alpn is Some
    } else if r == 11 {
        n.pin_sha256 is Some
    } else {
        false
    }
}

/// `k` with every `_` replaced by `-`.
pub open spec fn dashed(k: Seq<char>) -> Seq<char> {
    k.map_values(|c: char| if c == '_' { '-' } else { c })
}

/// The entry for an optional string field.
pub open spec fn str_entry(k: Seq<char>, v: Option<String>) -> Dict {
    match v {
        Some(s) => seq![(k, YamlView::Str(s@))],
        None => Seq::empty(),
    }
}

/// The entry for an optional boolean field.
pub open spec fn bool_entry(k: Seq<char>, v: Option<bool>) -> Dict {
    match v {
        Some(b) => seq![(k, YamlView::Bool(b))],
        None => Seq::empty(),
    }
}

/// The entry for the optional ALPN list.
pub open spec fn alpn_entry(v: Option<Vec<String>>) -> Dict {
    match v {
        Some(a) => seq![("alpn"@, YamlView::List(a@.map_values(|s: String| YamlView::Str(s@))))],
        None => Seq::empty(),
    }
}

/// The entries that a node's own fields give, in the order mihomo expects them.
pub open spec fn node_base_dict(n: Node) -> Dict {
    seq![
        ("name"@, YamlView::Str(n.name@)),
        ("type"@, YamlView::Str(n.node_type@)),
        ("server"@, YamlView::Str(n.server@)),
        ("port"@, YamlView::Int(n.port as int)),
    ] + str_entry("password"@, n.password) + str_entry("sni"@, n.sni) + bool_entry(
        "skip-cert-verify"@,
        n.skip_cert_verify,
    ) + bool_entry("udp"@, n.udp) + str_entry("up"@, n.up) + str_entry("down"@, n.down)
        + alpn_entry(n.alpn) + str_entry("pinSHA256"@, n.pin_sha256)
}

/// `d` after inserting the extra fields of `n` in order: each under its dashed key,
/// converted to YAML, unless `n` sets that key from its own fields.
pub open spec fn add_extras(n: Node, d: Dict, extra: Seq<(Seq<char>, TomlView)>) -> Dict
    decreases extra.len(),
{
    if extra.len() == 0 {
        d
    } else {
        let prev = add_extras(n, d, extra.drop_last());
        let key = dashed(extra.last().0);
        if key_is_set(n, key) {
            prev
        } else {
            dict_insert(prev, key, toml_to_yaml_spec(extra.last().1))
        }
    }
}

/// The YAML mapping of a node, as a `proxies:` entry of mihomo.
pub open spec fn node_yaml(n: Node) -> YamlView {
    YamlView::Dict(add_extras(n, node_base_dict(n), toml_table_view(n.extra@)))
}

fn push_str_entry(entries: &mut Vec<(String, YamlValue)>, key: &str, v: &Option<String>)
    ensures
        yaml_dict_view(final(entries)@) == yaml_dict_view(old(entries)@) + str_entry(key@, *v),
{
    let ghost d = yaml_dict_view(entries@);
    if let Some(s) = v {
        entries.push((key.to_string(), YamlValue::String(s.clone())));
        proof {
            assert(yaml_dict_view(entries@) =~= d + str_entry(key@, *v));
        }
    } else {
        proof {
            assert(yaml_dict_view(entries@) =~= d + str_entry(key@, *v));
        }
    }
}

fn push_bool_entry(entries: &mut Vec<(String, YamlValue)>, key: &str, v: Option<bool>)
    ensures
        yaml_dict_view(final(entries)@) == yaml_dict_view(old(entries)@) + bool_entry(key@, v),
{
    let ghost d = yaml_dict_view(entries@);
    if let Some(b) = v {
        entries.push((key.to_string(), YamlValue::Bool(b)));
        proof {
            assert(yaml_dict_view(entries@) =~= d + bool_entry(key@, v));
        }
    } else {
        proof {
            assert(yaml_dict_view(entries@) =~= d + bool_entry(key@, v));
        }
    }
}

/// Replaces every `_` in `k` by `-`.
pub fn dashed_key(k: &str) -> (r: String)
    ensures
        r@ == dashed(k@),
{
    let cs = chars_of(k);
    let mut out = String::new();
    let mut i: usize = 0;
    while i < cs.len()
        invariant
            i <= cs@.len(),
            cs@ == k@,
            out@ == dashed(k@.take(i as int)),
        decreases cs@.len() - i,
    {
        let c = cs[i];
        if c == '_' {
            push_char(&mut out, '-');
        } else {
            push_char(&mut out, c);
        }
        proof {
            assert(dashed(k@.take(i + 1)) =~= dashed(k@.take(i as int)).push(
                if c == '_' {
                    '-'
                } else {
                    c
                },
            ));
        }
        i = i + 1;
    }
    proof {
        assert(k@.take(cs@.len() as int) =~= k@);
    }
    out
}

impl Node {
    /// The extra fields are in strictly increasing key order, and well formed.
    pub open spec fn well_formed(self) -> bool {
        keys_in_order(self.extra@) && forall|i: int|
            0 <= i < self.extra@.len() ==> #[trigger] toml_well_formed(self.extra@[i].1)
    }

    /// Whether this node sets key `k` from its own fields.
    pub fn sets_key(&self, k: &str) -> (r: bool)
        ensures
            r == key_is_set(*self, k@),
    {
        proof {
            lemma_key_ranks();
        }
        if str_eq(k, "name") || str_eq(k, "type") || str_eq(k, "server") || str_eq(k, "port") {
            true
        } else if str_eq(k, "password") {
            self.password.is_some()
        } else if str_eq(k, "sni") {
            self.sni.is_some()
        } else if str_eq(k, "skip-cert-verify") {
            self.skip_cert_verify.is_some()
        } else if str_eq(k, "udp") {
            self.udp.is_some()
        } else if str_eq(k, "up") {
            self.up.is_some()
        } else if str_eq(k, "down") {
            self.down.is_some()
        } else if str_eq(k, "alpn") {
            self.alpn.is_some()
        } else if str_eq(k, "pinSHA256") {
            self.pin_sha256.is_some()
        } else {
            false
        }
    }

    /// The YAML mapping of this node, suitable as a `proxies:` entry of mihomo.
    pub fn to_yaml_value(&self) -> (r: YamlValue)
        requires
            self.well_formed(),
        ensures
            yaml_view(r) == node_yaml(*self),
    {
        let mut entries: Vec<(String, YamlValue)> = Vec::new();
        entries.push(("name".to_string(), YamlValue::String(self.name.clone())));
        entries.push(("type".to_string(), YamlValue::String(self.node_type.clone())));
        entries.push(("server".to_string(), YamlValue::String(self.server.clone())));
        entries.push(("port".to_string(), YamlValue::Int(self.port as i64)));
        proof {
            assert(yaml_dict_view(entries@) =~= seq![
                ("name"@, YamlView::Str(self.name@)),
                ("type"@, YamlView::Str(self.node_type@)),
                ("server"@, YamlView::Str(self.server@)),
                ("port"@, YamlView::Int(self.port as int)),
            ]);
        }
        push_str_entry(&mut entries, "password", &self.password);
        push_str_entry(&mut entries, "sni", &self.sni);
        push_bool_entry(&mut entries, "skip-cert-verify", self.skip_cert_verify);
        push_bool_entry(&mut entries, "udp", self.udp);
        push_str_entry(&mut entries, "up", &self.up);
        push_str_entry(&mut entries, "down", &self.down);
        let ghost before_alpn = yaml_dict_view(entries@);
        if let Some(a) = &self.alpn {
            let mut items: Vec<YamlValue> = Vec::new();
            let mut i: usize = 0;
            while i < a.len()
                invariant
                    i <= a@.len(),
                    yaml_list_view(items@) == a@.take(i as int).map_values(
                        |s: String| YamlView::Str(s@),
                    ),
                decreases a@.len() - i,
            {
                let ghost prev = items@;
                items.push(YamlValue::String(a[i].clone()));
                proof {
                    assert(yaml_list_view(items@) =~= yaml_list_view(prev).push(
                        YamlView::Str(a@[i as int]@),
                    ));
                    assert(a@.take(i + 1) =~= a@.take(i as int).push(a@[i as int]));
                    assert(a@.take(i + 1).map_values(|s: String| YamlView::Str(s@)) =~= a@.take(
                        i as int,
                    ).map_values(|s: String| YamlView::Str(s@)).push(YamlView::Str(a@[i as int]@)));
                }
                i = i + 1;
            }
            proof {
                assert(a@.take(a@.len() as int) =~= a@);
            }
            entries.push(("alpn".to_string(), YamlValue::Sequence(items)));
        }
        proof {
            assert(yaml_dict_view(entries@) =~= before_alpn + alpn_entry(self.alpn));
        }
        push_str_entry(&mut entries, "pinSHA256", &self.pin_sha256);
        proof {
            assert(yaml_dict_view(entries@) =~= node_base_dict(*self));
        }
        let ghost base = node_base_dict(*self);
        let ghost ev = toml_table_view(self.extra@);
        let mut i: usize = 0;
        while i < self.extra.len()
            invariant
                i <= self.extra@.len(),
                self.well_formed(),
                ev == toml_table_view(self.extra@),
                yaml_dict_view(entries@) == add_extras(*self, base, ev.take(i as int)),
            decreases self.extra@.len() - i,
        {
            let key = dashed_key(self.extra[i].0.as_str());
            proof {
                let pre = ev.take(i + 1);
                assert(pre.drop_last() =~= ev.take(i as int));
                assert(pre.last() == ev[i as int]);
            }
            if !self.sets_key(key.as_str()) {
                assert(toml_well_formed(self.extra@[i as int].1));
                let y = toml_to_yaml(&self.extra[i].1);
                mapping_insert(&mut entries, key, y);
            }
            i = i + 1;
        }
        proof {
            assert(ev.take(self.extra@.len() as int) =~= ev);
        }
        YamlValue::Mapping(entries)
    }
}

/// The position of a known key in the order of a node's own fields.
pub open spec fn key_rank(k: Seq<char>) -> int {
    if k == "name"@ {
        0
    } else if k == "type"@ {
        1
    } else if k == "server"@ {
        2
    } else if k == "port"@ {
        3
    } else if k == "password"@ {
        4
    } else if k == "sni"@ {
        5
    } else if k == "skip-cert-verify"@ {
        6
    } else if k == "udp"@ {
        7
    } else if k == "up"@ {
        8
    } else if k == "down"@ {
        9
    } else if k == "alpn"@ {
        10
    } else if k == "pinSHA256"@ {
        11
    } else {
        12
    }
}

proof fn lemma_key_ranks()
    ensures
        key_rank("name"@) == 0,
        key_rank("type"@) == 1,
        key_rank("server"@) == 2,
        key_rank("port"@) == 3,
        key_rank("password"@) == 4,
        key_rank("sni"@) == 5,
        key_rank("skip-cert-verify"@) == 6,
        key_rank("udp"@) == 7,
        key_rank("up"@) == 8,
        key_rank("down"@) == 9,
        key_rank("alpn"@) == 10,
        key_rank("pinSHA256"@) == 11,
{
    reveal_strlit("name");
    reveal_strlit("type");
    reveal_strlit("server");
    reveal_strlit("port");
    reveal_strlit("password");
    reveal_strlit("sni");
    reveal_strlit("skip-cert-verify");
    reveal_strlit("udp");
    reveal_strlit("up");
    reveal_strlit("down");
    reveal_strlit("alpn");
    reveal_strlit("pinSHA256");
    assert("name"@.len() == 4);
    assert("type"@.len() == 4);
    assert("server"@.len() == 6);
    assert("port"@.len() == 4);
    assert("password"@.len() == 8);
    assert("sni"@.len() == 3);
    assert("skip-cert-verify"@.len() == 16);
    assert("udp"@.len() == 3);
    assert("up"@.len() == 2);
    assert("down"@.len() == 4);
    assert("alpn"@.len() == 4);
    assert("pinSHA256"@.len() == 9);
    assert("type"@[0] != "name"@[0]);
    assert("port"@[0] != "name"@[0] && "port"@[0] != "type"@[0]);
    assert("udp"@[0] != "sni"@[0]);
    assert("down"@[0] != "name"@[0] && "down"@[0] != "type"@[0] && "down"@[0] != "port"@[0]);
    assert("alpn"@[0] != "name"@[0] && "alpn"@[0] != "type"@[0] && "alpn"@[0] != "port"@[0]
        && "alpn"@[0] != "down"@[0]);
}

/// Every key in `d` ranks below `r`.
pub open spec fn ranks_below(d: Dict, r: int) -> bool {
    forall|i: int| 0 <= i < d.len() ==> key_rank(#[trigger] d[i].0) < r
}

/// Every key in `d` is one that `n` sets.
pub open spec fn all_set(n: Node, d: Dict) -> bool {
    forall|i: int| 0 <= i < d.len() ==> key_is_set(n, #[trigger] d[i].0)
}

/// The keys of `d` come in strictly increasing rank.
pub open spec fn ranks_increasing(d: Dict) -> bool {
    forall|i: int, j: int| 0 <= i < j < d.len() ==> key_rank(#[trigger] d[i].0) < key_rank(
        #[trigger] d[j].0,
    )
}

proof fn lemma_add_ranked(n: Node, d: Dict, c: Dict, k: Seq<char>)
    requires
        keys_unique(d),
        ranks_below(d, key_rank(k)),
        ranks_increasing(d),
        all_set(n, d),
        c.len() == 0 || (c.len() == 1 && c[0].0 == k && key_is_set(n, k)),
    ensures
        keys_unique(d + c),
        ranks_below(d + c, key_rank(k) + 1),
        ranks_increasing(d + c),
        all_set(n, d + c),
{
    assert forall|i: int, j: int| 0 <= i < j < (d + c).len() implies key_rank(#[trigger] (d + c)[i].0)
        < key_rank(#[trigger] (d + c)[j].0) by {
        if j >= d.len() {
            assert((d + c)[j].0 == k);
            assert((d + c)[i] == d[i]);
        } else {
            assert((d + c)[i] == d[i]);
            assert((d + c)[j] == d[j]);
        }
    }
    assert forall|i: int| 0 <= i < (d + c).len() implies key_is_set(n, #[trigger] (d + c)[i].0) by {
        if i >= d.len() {
            assert((d + c)[i].0 == k);
        } else {
            assert((d + c)[i] == d[i]);
        }
    }
    let e = d + c;
    assert forall|i: int, j: int| 0 <= i < j < e.len() implies e[i].0 != e[j].0 by {
        if j >= d.len() {
            assert(e[j].0 == k);
            assert(key_rank(e[i].0) < key_rank(k));
        }
    }
    assert forall|i: int| 0 <= i < e.len() implies key_rank(#[trigger] e[i].0) < key_rank(k) + 1 by {
        if i >= d.len() {
            assert(e[i].0 == k);
        }
    }
}

/// The keys of a node's own fields are keys the node sets, each at most once.
pub proof fn lemma_node_base_keys(n: Node)
    ensures
        keys_unique(node_base_dict(n)),
        all_set(n, node_base_dict(n)),
        ranks_increasing(node_base_dict(n)),
        ranks_below(node_base_dict(n), 12),
        node_base_dict(n).len() == own_field_count(n),
{
    lemma_key_ranks();
    let d0 = seq![
        ("name"@, YamlView::Str(n.name@)),
        ("type"@, YamlView::Str(n.node_type@)),
        ("server"@, YamlView::Str(n.server@)),
        ("port"@, YamlView::Int(n.port as int)),
    ];
    let d1 = d0 + str_entry("password"@, n.password);
    let d2 = d1 + str_entry("sni"@, n.sni);
    let d3 = d2 + bool_entry("skip-cert-verify"@, n.skip_cert_verify);
    let d4 = d3 + bool_entry("udp"@, n.udp);
    let d5 = d4 + str_entry("up"@, n.up);
    let d6 = d5 + str_entry("down"@, n.down);
    let d7 = d6 + alpn_entry(n.alpn);
    let d8 = d7 + str_entry("pinSHA256"@, n.pin_sha256);
    assert(keys_unique(d0));
    assert(ranks_below(d0, 4));
    assert(ranks_increasing(d0));
    assert(all_set(n, d0));
    lemma_add_ranked(n, d0, str_entry("password"@, n.password), "password"@);
    lemma_add_ranked(n, d1, str_entry("sni"@, n.sni), "sni"@);
    lemma_add_ranked(n, d2, bool_entry("skip-cert-verify"@, n.skip_cert_verify), "skip-cert-verify"@);
    lemma_add_ranked(n, d3, bool_entry("udp"@, n.udp), "udp"@);
    lemma_add_ranked(n, d4, str_entry("up"@, n.up), "up"@);
    lemma_add_ranked(n, d5, str_entry("down"@, n.down), "down"@);
    lemma_add_ranked(n, d6, alpn_entry(n.alpn), "alpn"@);
    lemma_add_ranked(n, d7, str_entry("pinSHA256"@, n.pin_sha256), "pinSHA256"@);
    assert(d8 == node_base_dict(n));
}

proof fn lemma_dict_insert_other(d: Dict, k: Seq<char>, v: YamlView, i: int)
    requires
        0 <= i < d.len(),
        d[i].0 != k,
    ensures
        dict_insert(d, k, v).len() >= d.len(),
        dict_insert(d, k, v)[i] == d[i],
{
    crate::yaml::lemma_dict_insert_shape(d, k, v);
}

/// A node's own fields win: the extra fields never replace or move them, and the
/// mapping of a node has each key once.
pub proof fn lemma_node_fields_win(n: Node)
    ensures
        ({
            let base = node_base_dict(n);
            let d = add_extras(n, base, toml_table_view(n.extra@));
            &&& d.len() >= base.len()
            &&& d.take(base.len() as int) == base
            &&& keys_unique(d)
        }),
{
    lemma_node_base_keys(n);
    lemma_extras_keep_base(n, node_base_dict(n), toml_table_view(n.extra@));
    let base = node_base_dict(n);
    let d = add_extras(n, base, toml_table_view(n.extra@));
    assert(d.take(base.len() as int) =~= base);
}

proof fn lemma_extras_keep_base(n: Node, base: Dict, extra: Seq<(Seq<char>, TomlView)>)
    requires
        keys_unique(base),
        all_set(n, base),
    ensures
        add_extras(n, base, extra).len() >= base.len(),
        forall|i: int| 0 <= i < base.len() ==> #[trigger] add_extras(n, base, extra)[i] == base[i],
        keys_unique(add_extras(n, base, extra)),
    decreases extra.len(),
{
    if extra.len() > 0 {
        lemma_extras_keep_base(n, base, extra.drop_last());
        let prev = add_extras(n, base, extra.drop_last());
        let key = dashed(extra.last().0);
        if !key_is_set(n, key) {
            let v = toml_to_yaml_spec(extra.last().1);
            lemma_dict_insert_keeps(prev, key, v);
            assert forall|i: int| 0 <= i < base.len() implies #[trigger] add_extras(n, base, extra)[i]
                == base[i] by {
                assert(prev[i] == base[i]);
                assert(key_is_set(n, base[i].0));
                lemma_dict_insert_other(prev, key, v, i);
            }
        }
    }
}

/// How many entries a node's own fields give: `name`, `type`, `server`, `port`, and
/// one for each optional field that is present.
pub open spec fn own_field_count(n: Node) -> int {
    4 + (if n.password is Some { 1int } else { 0 }) + (if n.sni is Some { 1int } else { 0 }) + (
    if n.skip_cert_verify is Some {
        1int
    } else {
        0
    }) + (if n.udp is Some { 1int } else { 0 }) + (if n.up is Some { 1int } else { 0 }) + (
    if n.down is Some {
        1int
    } else {
        0
    }) + (if n.alpn is Some { 1int } else { 0 }) + (if n.pin_sha256 is Some { 1int } else { 0 })
}

/// The own fields of a node come first in its mapping, one entry each, in mihomo's
/// order: `name`, `type`, `server`, `port`, then `password`, `sni`, `skip-cert-verify`,
/// `udp`, `up`, `down`, `alpn`, `pinSHA256` as far as present (the order of
/// `key_rank`); the extra fields follow.
pub proof fn lemma_node_yaml_order(n: Node)
    ensures
        node_yaml(n) matches YamlView::Dict(d) && {
            &&& d.len() >= own_field_count(n)
            &&& forall|i: int, j: int|
                0 <= i < j < own_field_count(n) ==> key_rank(#[trigger] d[i].0) < key_rank(
                    #[trigger] d[j].0,
                )
            &&& forall|i: int| 0 <= i < own_field_count(n) ==> key_rank(#[trigger] d[i].0) < 12
        },
{
    lemma_node_fields_win(n);
    lemma_node_base_keys(n);
    let base = node_base_dict(n);
    let d = add_extras(n, base, toml_table_view(n.extra@));
    assert forall|i: int| 0 <= i < base.len() implies d[i] == base[i] by {
        assert(d.take(base.len() as int)[i] == d[i]);
    }
    assert forall|i: int, j: int| 0 <= i < j < own_field_count(n) implies key_rank(
        #[trigger] d[i].0,
    ) < key_rank(#[trigger] d[j].0) by {
        assert(d[i] == base[i]);
        assert(d[j] == base[j]);
    }
    assert forall|i: int| 0 <= i < own_field_count(n) implies key_rank(#[trigger] d[i].0) < 12 by {
        assert(d[i] == base[i]);
    }
}

/// The entry for each of a node's own fields, where it appears in the node's mapping:
/// `name`, `type`, `server` and `port` come first, in that order, and each optional
/// field that is present appears under its own key with its own value.
pub proof fn lemma_node_yaml_fields(n: Node)
    ensures
        node_yaml(n) matches YamlView::Dict(d) && {
            &&& d.len() >= 4
            &&& d[0] == ("name"@, YamlView::Str(n.name@))
            &&& d[1] == ("type"@, YamlView::Str(n.node_type@))
            &&& d[2] == ("server"@, YamlView::Str(n.server@))
            &&& d[3] == ("port"@, YamlView::Int(n.port as int))
            &&& n.password matches Some(s) ==> d.contains(("password"@, YamlView::Str(s@)))
            &&& n.sni matches Some(s) ==> d.contains(("sni"@, YamlView::Str(s@)))
            &&& n.skip_cert_verify matches Some(b) ==> d.contains(("skip-cert-verify"@, YamlView::Bool(b)))
            &&& n.udp matches Some(b) ==> d.contains(("udp"@, YamlView::Bool(b)))
            &&& n.up matches Some(s) ==> d.contains(("up"@, YamlView::Str(s@)))
            &&& n.down matches Some(s) ==> d.contains(("down"@, YamlView::Str(s@)))
            &&& n.alpn matches Some(a) ==> d.contains(
                ("alpn"@, YamlView::List(a@.map_values(|s: String| YamlView::Str(s@)))),
            )
            &&& n.pin_sha256 matches Some(s) ==> d.contains(("pinSHA256"@, YamlView::Str(s@)))
            &&& keys_unique(d)
        },
{
    lemma_node_fields_win(n);
    let base = node_base_dict(n);
    let d = add_extras(n, base, toml_table_view(n.extra@));
    let d0 = seq![
        ("name"@, YamlView::Str(n.name@)),
        ("type"@, YamlView::Str(n.node_type@)),
        ("server"@, YamlView::Str(n.server@)),
        ("port"@, YamlView::Int(n.port as int)),
    ];
    let e1 = str_entry("password"@, n.password);
    let e2 = str_entry("sni"@, n.sni);
    let e3 = bool_entry("skip-cert-verify"@, n.skip_cert_verify);
    let e4 = bool_entry("udp"@, n.udp);
    let e5 = str_entry("up"@, n.up);
    let e6 = str_entry("down"@, n.down);
    let e7 = alpn_entry(n.alpn);
    let e8 = str_entry("pinSHA256"@, n.pin_sha256);
    let d1 = d0 + e1;
    let d2 = d1 + e2;
    let d3 = d2 + e3;
    let d4 = d3 + e4;
    let d5 = d4 + e5;
    let d6 = d5 + e6;
    let d7 = d6 + e7;
    let d8 = d7 + e8;
    assert(d8 == base);
    assert forall|i: int| 0 <= i < base.len() implies d[i] == base[i] by {
        assert(d.take(base.len() as int)[i] == d[i]);
    }
    assert(d[0] == base[0]);
    assert(d[1] == base[1]);
    assert(d[2] == base[2]);
    assert(d[3] == base[3]);
    if n.password is Some {
        let i = d0.len() as int;
        assert(base[i] == e1[0]);
        assert(d[i] == base[i]);
    }
    if n.sni is Some {
        let i = d1.len() as int;
        assert(base[i] == e2[0]);
        assert(d[i] == base[i]);
    }
    if n.skip_cert_verify is Some {
        let i = d2.len() as int;
        assert(base[i] == e3[0]);
        assert(d[i] == base[i]);
    }
    if n.udp is Some {
        let i = d3.len() as int;
        assert(base[i] == e4[0]);
        assert(d[i] == base[i]);
    }
    if n.up is Some {
        let i = d4.len() as int;
        assert(base[i] == e5[0]);
        assert(d[i] == base[i]);
    }
    if n.down is Some {
        let i = d5.len() as int;
        assert(base[i] == e6[0]);
        assert(d[i] == base[i]);
    }
    if n.alpn is Some {
        let i = d6.len() as int;
        assert(base[i] == e7[0]);
        assert(d[i] == base[i]);
    }
    if n.pin_sha256 is Some {
        let i = d7.len() as int;
        assert(base[i] == e8[0]);
        assert(d[i] == base[i]);
    }
}

/// An extra field whose dashed key no own field of the node sets, and that no other
/// extra field shares, appears in the node's mapping under its dashed key, holding its
/// value converted to YAML.
pub proof fn lemma_node_yaml_extra(n: Node, i: int)
    requires
        0 <= i < n.extra@.len(),
        !key_is_set(n, dashed(n.extra@[i].0@)),
        forall|j: int|
            0 <= j < n.extra@.len() && j != i ==> dashed(#[trigger] n.extra@[j].0@) != dashed(
                n.extra@[i].0@,
            ),
    ensures
        node_yaml(n) matches YamlView::Dict(d) && d.contains(
            (dashed(n.extra@[i].0@), toml_to_yaml_spec(toml_view(n.extra@[i].1))),
        ),
{
    lemma_node_base_keys(n);
    let ev = toml_table_view(n.extra@);
    assert(ev[i] == (n.extra@[i].0@, toml_view(n.extra@[i].1)));
    assert forall|j: int| 0 <= j < ev.len() && j != i implies dashed(#[trigger] ev[j].0) != dashed(
        ev[i].0,
    ) by {
        assert(ev[j].0 == n.extra@[j].0@);
    }
    lemma_add_extras_has(n, node_base_dict(n), ev, i);
}

proof fn lemma_add_extras_has(n: Node, base: Dict, extra: Seq<(Seq<char>, TomlView)>, i: int)
    requires
        keys_unique(base),
        all_set(n, base),
        0 <= i < extra.len(),
        !key_is_set(n, dashed(extra[i].0)),
        forall|j: int|
            0 <= j < extra.len() && j != i ==> dashed(#[trigger] extra[j].0) != dashed(extra[i].0),
    ensures
        add_extras(n, base, extra).contains((dashed(extra[i].0), toml_to_yaml_spec(extra[i].1))),
    decreases extra.len(),
{
    let k = dashed(extra[i].0);
    let v = toml_to_yaml_spec(extra[i].1);
    let pre = extra.drop_last();
    let prev = add_extras(n, base, pre);
    lemma_extras_keep_base(n, base, pre);
    let last = extra.len() - 1;
    if i == last {
        crate::yaml::lemma_dict_insert_shape(prev, k, v);
        let r = dict_insert(prev, k, v);
        if crate::yaml::dict_has(prev, k) {
            let idx = choose|idx: int|
                0 <= idx < prev.len() && prev[idx].0 == k && (forall|j: int|
                    0 <= j < idx ==> prev[j].0 != k) && dict_insert(prev, k, v) == prev.update(
                    idx,
                    (k, v),
                );
            assert(r[idx] == (k, v));
        } else {
            assert(r[prev.len() as int] == (k, v));
        }
    } else {
        assert forall|j: int| 0 <= j < pre.len() && j != i implies dashed(#[trigger] pre[j].0)
            != dashed(pre[i].0) by {
            assert(pre[j] == extra[j]);
        }
        assert(pre[i] == extra[i]);
        lemma_add_extras_has(n, base, pre, i);
        let idx = choose|idx: int| 0 <= idx < prev.len() && prev[idx] == (k, v);
        let kl = dashed(extra.last().0);
        if !key_is_set(n, kl) {
            assert(kl != k);
            lemma_dict_insert_keeps(prev, kl, toml_to_yaml_spec(extra.last().1));
            assert(add_extras(n, base, extra)[idx] == prev[idx]);
        } else {
            assert(add_extras(n, base, extra)[idx] == prev[idx]);
        }
    }
}

} // verus!
