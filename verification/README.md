# mm — mihomo manager

A thin command line that replaces a GUI front end of the mihomo proxy:
profiles, subscriptions, TUN on/off, node selection, and a `systemd --user`
unit that runs mihomo.

The library in `src/` is verified with Verus; `app/` is the command line around it.

## Layout

| Module | What it holds |
|--------|---------------|
| `src/intent.rs` | global settings, the per-profile intent, manual nodes and their YAML for mihomo |
| `src/tomlval.rs`, `src/yaml.rs`, `src/json.rs` | models of the TOML, YAML and JSON values the manager reads and writes |
| `src/paths.rs` | the files under `~/.config/mihomo-cli/`, the active profile, the list of profiles |
| `src/sorting.rs` | the order of strings and a sort by it |
| `src/api.rs` | requests to the mihomo controller and what is read in its answers |
| `src/sub.rs` | the check of a downloaded subscription |
| `src/systemd.rs` | the unit file and the `systemctl` arguments |
| `src/commands.rs` | the decisions and report lines of each command |
| `src/text.rs` | string helpers (trim, decimal, padding) |
| `app/` | argument parsing, files, HTTP, processes |

The template that turns an intent into the full runtime configuration of mihomo
is not part of this crate; the commands that need it report so.

## Values of TOML, YAML and JSON

The logic reads and builds documents, so their values are held in the library's own
types (`TomlValue`, `YamlValue`, `JsonValue`), whose contents Verus can see, rather
than in `toml::Value`, `serde_yaml::Value` and `serde_json::Value`:

- those enums are opaque to Verus (their maps are private fields of outside types),
  and they hold floats, which verified code cannot hold; a float is kept here as the
  bits of its `f64`;
- a table, mapping or object is a `Vec` of key–value pairs. A parsed document gives
  them with distinct keys in increasing order (`toml::Table` and `serde_json::Map`
  are `BTreeMap`s; the extra fields of a node, a `BTreeMap<String, toml::Value>`,
  likewise). That order is stated as well-formedness (`toml_well_formed`,
  `json_well_formed`, `Node::well_formed`) and required by the conversions whose
  output order depends on it (`toml_to_yaml`, `Node::to_yaml_value`). A YAML mapping
  keeps insertion order, as `serde_yaml::Mapping` does, and inserting an existing key
  replaces its value in place (`yaml::mapping_insert`);
- `app/` converts between these types and the outside crates' values when it reads
  or writes a file or an HTTP body.

A downloaded subscription is checked on `serde_yaml`'s own values (`src/sub.rs`),
since it is only inspected and, for a bare list, wrapped and written out again.
