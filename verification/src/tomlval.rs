//! A model of the TOML values that a profile may carry for a node beyond its
//! known fields, and their conversion into YAML.
use vstd::prelude::*;
use crate::sorting::{keys_in_order, lemma_keys_in_order_distinct};
use crate::yaml::{Dict, YamlValue, YamlView, dict_insert, mapping_insert, yaml_dict_view, yaml_list_view, yaml_view};

verus! {

/// A TOML value. A floating-point number is given by its IEEE-754 bits, a date-time
/// by its TOML text. A table holds its entries in strictly increasing key order, as a
/// TOML table does (`toml_well_formed`).
#[derive(Debug)]
pub enum TomlValue {
    String(String),
    Integer(i64),
    FloatBits(u64),
    Boolean(bool),
    Datetime(String),
    Array(Vec<TomlValue>),
    Table(Vec<(String, TomlValue)>),
}

/// The mathematical content of a `TomlValue`.
pub enum TomlView {
    Str(Seq<char>),
    Integer(int),
    FloatBits(u64),
    Boolean(bool),
    Datetime(Seq<char>),
    Array(Seq<TomlView>),
    Table(Seq<(Seq<char>, TomlView)>),
}

pub open spec fn toml_list_view(s: Seq<TomlValue>) -> Seq<TomlView>
    decreases s,
{
    Seq::new(
        s.len(),
        |i: int|
            if 0 <= i < s.len() {
                toml_view(s[i])
            } else {
                TomlView::Boolean(false)
            },
    )
}

pub open spec fn toml_table_view(s: Seq<(String, TomlValue)>) -> Seq<(Seq<char>, TomlView)>
    decreases s,
{
    Seq::new(
        s.len(),
        |i: int|
            if 0 <= i < s.len() {
                (s[i].0@, toml_view(s[i].1))
            } else {
                (Seq::empty(), TomlView::Boolean(false))
            },
    )
}

/// The content of `v`.
pub open spec fn toml_view(v: TomlValue) -> TomlView
    decreases v,
{
    match v {
        TomlValue::String(s) => TomlView::Str(s@),
        TomlValue::Integer(i) => TomlView::Integer(i as int),
        TomlValue::FloatBits(b) => TomlView::FloatBits(b),
        TomlValue::Boolean(b) => TomlView::Boolean(b),
        TomlValue::Datetime(s) => TomlView::Datetime(s@),
        TomlValue::Array(items) => TomlView::Array(toml_list_view(items@)),
        TomlValue::Table(entries) => TomlView::Table(toml_table_view(entries@)),
    }
}

impl View for TomlValue {
    type V = TomlView;

    open spec fn view(&self) -> TomlView {
        toml_view(*self)
    }
}

/// The YAML for a TOML value: scalars map to scalars (a date-time to its text),
/// an array to a sequence, a table to a mapping built by inserting its entries in order.
pub open spec fn toml_to_yaml_spec(t: TomlView) -> YamlView
    decreases t, 0nat,
{
    match t {
        TomlView::Str(s) => YamlView::Str(s),
        TomlView::Integer(i) => YamlView::Int(i),
        TomlView::FloatBits(b) => YamlView::FloatBits(b),
        TomlView::Boolean(b) => YamlView::Bool(b),
        TomlView::Datetime(s) => YamlView::Str(s),
        TomlView::Array(items) => YamlView::List(array_to_list(items)),
        TomlView::Table(entries) => YamlView::Dict(table_to_dict(entries)),
    }
}

/// The converted items of an array, in order.
pub open spec fn array_to_list(items: Seq<TomlView>) -> Seq<YamlView>
    decreases items, 1nat,
{
    Seq::new(
        items.len(),
        |i: int|
            if 0 <= i < items.len() {
                toml_to_yaml_spec(items[i])
            } else {
                YamlView::Bool(false)
            },
    )
}

/// The mapping obtained by inserting the converted entries of a table, in order.
pub open spec fn table_to_dict(entries: Seq<(Seq<char>, TomlView)>) -> Dict
    decreases entries, 1nat,
{
    if entries.len() == 0 {
        Seq::empty()
    } else {
        let last = entries[entries.len() - 1];
        dict_insert(
            table_to_dict(entries.subrange(0, entries.len() - 1)),
            last.0,
            toml_to_yaml_spec(last.1),
        )
    }
}

/// Converts a TOML value (whose tables have their keys in order, as a parsed
/// document gives them) into YAML.
pub fn toml_to_yaml(v: &TomlValue) -> (r: YamlValue)
    requires
        toml_well_formed(*v),
    ensures
        yaml_view(r) == toml_to_yaml_spec(toml_view(*v)),
    decreases v,
{
    match v {
        TomlValue::String(s) => {
            let c = s.clone();
            assert(c@ == s@);
            assert(toml_view(*v) == TomlView::Str(s@));
            assert(yaml_view(YamlValue::String(c)) == YamlView::Str(c@));
            YamlValue::String(c)
        },
        TomlValue::Integer(i) => YamlValue::Int(*i),
        TomlValue::FloatBits(b) => YamlValue::FloatBits(*b),
        TomlValue::Boolean(b) => YamlValue::Bool(*b),
        TomlValue::Datetime(d) => {
            let c = d.clone();
            assert(c@ == d@);
            YamlValue::String(c)
        },
        TomlValue::Array(items) => {
            proof {
                lemma_well_formed_items(*v, *items);
            }
            let mut out: Vec<YamlValue> = Vec::new();
            let mut i: usize = 0;
            while i < items.len()
                invariant
                    i <= items@.len(),
                    *v == TomlValue::Array(*items),
                    forall|j: int| 0 <= j < items@.len() ==> #[trigger] toml_well_formed(items@[j]),
                    out@.len() == i,
                    forall|j: int|
                        0 <= j < i ==> yaml_view(#[trigger] out@[j]) == toml_to_yaml_spec(
                            toml_view(items@[j]),
                        ),
                decreases items@.len() - i,
            {
                proof {
                    assert(decreases_to!(*v => v->Array_0));
                    assert(decreases_to!(*items => items@));
                    assert(decreases_to!(items@ => items@[i as int]));
                    assert(decreases_to!(*v => items@[i as int]));
                }
                assert(toml_well_formed(items@[i as int]));
                let y = toml_to_yaml(&items[i]);
                out.push(y);
                i = i + 1;
            }
            proof {
                let tv = toml_list_view(items@);
                assert(yaml_list_view(out@) =~= array_to_list(tv));
            }
            assert(yaml_view(YamlValue::Sequence(out)) == toml_to_yaml_spec(toml_view(*v)));
            YamlValue::Sequence(out)
        },
        TomlValue::Table(entries) => {
            proof {
                lemma_well_formed_entries(*v, *entries);
            }
            let mut out: Vec<(String, YamlValue)> = Vec::new();
            let mut i: usize = 0;
            let ghost tv = toml_table_view(entries@);
            while i < entries.len()
                invariant
                    i <= entries@.len(),
                    *v == TomlValue::Table(*entries),
                    forall|j: int|
                        0 <= j < entries@.len() ==> #[trigger] toml_well_formed(entries@[j].1),
                    tv == toml_table_view(entries@),
                    yaml_dict_view(out@) == table_to_dict(tv.subrange(0, i as int)),
                decreases entries@.len() - i,
            {
                proof {
                    assert(decreases_to!(*v => v->Table_0));
                    assert(decreases_to!(*entries => entries@));
                    assert(decreases_to!(entries@ => entries@[i as int]));
                    assert(decreases_to!(entries@[i as int] => entries@[i as int].1));
                    assert(decreases_to!(*v => entries@[i as int].1));
                }
                assert(toml_well_formed(entries@[i as int].1));
                let y = toml_to_yaml(&entries[i].1);
                let k = entries[i].0.clone();
                mapping_insert(&mut out, k, y);
                proof {
                    let pre = tv.subrange(0, i + 1);
                    assert(pre.subrange(0, pre.len() - 1) =~= tv.subrange(0, i as int));
                    assert(pre[pre.len() - 1] == tv[i as int]);
                }
                i = i + 1;
            }
            proof {
                assert(tv.subrange(0, entries@.len() as int) =~= tv);
            }
            assert(yaml_view(YamlValue::Mapping(out)) == toml_to_yaml_spec(toml_view(*v)));
            YamlValue::Mapping(out)
        },
    }
}

/// Every table in `v`, however deep, has its keys in strictly increasing order.
pub open spec fn toml_well_formed(v: TomlValue) -> bool
    decreases v,
{
    match v {
        TomlValue::Array(items) => forall|i: int|
            0 <= i < items@.len() ==> toml_well_formed(#[trigger] items@[i]),
        TomlValue::Table(entries) => keys_in_order(entries@) && forall|i: int|
            0 <= i < entries@.len() ==> toml_well_formed(#[trigger] entries@[i].1),
        _ => true,
    }
}

/// The items of a well-formed array are well formed.
proof fn lemma_well_formed_items(v: TomlValue, items: Vec<TomlValue>)
    requires
        toml_well_formed(v),
        v == TomlValue::Array(items),
    ensures
        forall|j: int| 0 <= j < items@.len() ==> #[trigger] toml_well_formed(items@[j]),
{
    assert forall|j: int| 0 <= j < items@.len() implies #[trigger] toml_well_formed(items@[j]) by {
        assert(decreases_to!(v => v->Array_0));
        assert(decreases_to!(items => items@));
        assert(decreases_to!(items@ => items@[j]));
        assert(decreases_to!(v => items@[j]));
    }
}

/// The values of a well-formed table are well formed.
proof fn lemma_well_formed_entries(v: TomlValue, entries: Vec<(String, TomlValue)>)
    requires
        toml_well_formed(v),
        v == TomlValue::Table(entries),
    ensures
        forall|j: int| 0 <= j < entries@.len() ==> #[trigger] toml_well_formed(entries@[j].1),
{
}

/// A table with distinct keys converts into a mapping with the same keys in the same
/// order, each holding its own converted value: no entry replaces another.
pub proof fn lemma_distinct_table_keys(entries: Seq<(Seq<char>, TomlView)>)
    requires
        forall|i: int, j: int| 0 <= i < j < entries.len() ==> entries[i].0 != entries[j].0,
    ensures
        table_to_dict(entries).len() == entries.len(),
        forall|i: int| 0 <= i < entries.len() ==> #[trigger] table_to_dict(entries)[i].0 == entries[i].0,
        forall|i: int|
            0 <= i < entries.len() ==> #[trigger] table_to_dict(entries)[i] == (
                entries[i].0,
                toml_to_yaml_spec(entries[i].1),
            ),
    decreases entries.len(),
{
    if entries.len() > 0 {
        let n = entries.len() - 1;
        let pre = entries.subrange(0, n as int);
        lemma_distinct_table_keys(pre);
        let prev = table_to_dict(pre);
        let k = entries[n as int].0;
        assert(!crate::yaml::dict_has(prev, k)) by {
            if crate::yaml::dict_has(prev, k) {
                let j = choose|j: int| 0 <= j < prev.len() && prev[j].0 == k;
                assert(pre[j] == entries[j]);
            }
        }
        crate::yaml::lemma_dict_insert_shape(prev, k, toml_to_yaml_spec(entries[n as int].1));
        assert forall|i: int| 0 <= i < entries.len() implies #[trigger] table_to_dict(entries)[i] == (
            entries[i].0,
            toml_to_yaml_spec(entries[i].1),
        ) by {
            if i < n {
                assert(pre[i] == entries[i]);
                assert(table_to_dict(pre)[i] == (pre[i].0, toml_to_yaml_spec(pre[i].1)));
            }
        }
    }
}

/// What converting a TOML value into YAML gives, case by case: a string or a
/// date-time becomes that text, an integer that integer, a float the same bits, a
/// boolean that boolean; an array becomes a sequence of the same length whose `i`-th
/// item is the conversion of the `i`-th item; a table with distinct keys becomes a
/// mapping of the same length whose `i`-th entry is the `i`-th key with its converted
/// value.
pub proof fn lemma_toml_to_yaml_shape(t: TomlView)
    ensures
        t matches TomlView::Str(s) ==> toml_to_yaml_spec(t) == YamlView::Str(s),
        t matches TomlView::Datetime(s) ==> toml_to_yaml_spec(t) == YamlView::Str(s),
        t matches TomlView::Integer(i) ==> toml_to_yaml_spec(t) == YamlView::Int(i),
        t matches TomlView::FloatBits(b) ==> toml_to_yaml_spec(t) == YamlView::FloatBits(b),
        t matches TomlView::Boolean(b) ==> toml_to_yaml_spec(t) == YamlView::Bool(b),
        t matches TomlView::Array(items) ==> (toml_to_yaml_spec(t) matches YamlView::List(ys)
            && ys.len() == items.len() && forall|i: int|
            0 <= i < items.len() ==> #[trigger] ys[i] == toml_to_yaml_spec(items[i])),
        t matches TomlView::Table(entries) ==> ((forall|i: int, j: int|
            0 <= i < j < entries.len() ==> entries[i].0 != entries[j].0) ==> (toml_to_yaml_spec(
            t,
        ) matches YamlView::Dict(d) && d.len() == entries.len() && forall|i: int|
            0 <= i < entries.len() ==> #[trigger] d[i] == (
                entries[i].0,
                toml_to_yaml_spec(entries[i].1),
            ))),
{
    match t {
        TomlView::Table(entries) => {
            if forall|i: int, j: int| 0 <= i < j < entries.len() ==> entries[i].0 != entries[j].0 {
                lemma_distinct_table_keys(entries);
            }
        },
        _ => {},
    }
}

/// A well-formed table converts into a mapping with the same keys in the same order.
pub proof fn lemma_well_formed_table_keys(entries: Seq<(String, TomlValue)>)
    requires
        keys_in_order(entries),
    ensures
        table_to_dict(toml_table_view(entries)).len() == entries.len(),
        forall|i: int|
            0 <= i < entries.len() ==> #[trigger] table_to_dict(toml_table_view(entries))[i].0
                == entries[i].0@,
{
    let tv = toml_table_view(entries);
    assert forall|i: int, j: int| 0 <= i < j < tv.len() implies tv[i].0 != tv[j].0 by {
        lemma_keys_in_order_distinct(entries, i, j);
    }
    lemma_distinct_table_keys(tv);
}

} // verus!
