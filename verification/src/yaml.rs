//! A model of the YAML values that the manager writes into the configuration
//! of mihomo, with the insertion rule of a YAML mapping.
use vstd::prelude::*;
use crate::text::str_eq;

verus! {

/// A YAML value. Mapping entries keep their insertion order, as a YAML mapping does;
/// a floating-point number is given by its IEEE-754 bits.
#[derive(Debug)]
pub enum YamlValue {
    Bool(bool),
    Int(i64),
    FloatBits(u64),
    String(String),
    Sequence(Vec<YamlValue>),
    Mapping(Vec<(String, YamlValue)>),
}

/// The mathematical content of a `YamlValue`.
pub enum YamlView {
    Bool(bool),
    Int(int),
    FloatBits(u64),
    Str(Seq<char>),
    List(Seq<YamlView>),
    Dict(Seq<(Seq<char>, YamlView)>),
}

/// The entries of a YAML mapping, by content.
pub type Dict = Seq<(Seq<char>, YamlView)>;

pub open spec fn yaml_list_view(s: Seq<YamlValue>) -> Seq<YamlView>
    decreases s,
{
    Seq::new(
        s.len(),
        |i: int|
            if 0 <= i < s.len() {
                yaml_view(s[i])
            } else {
                YamlView::Bool(false)
            },
    )
}

pub open spec fn yaml_dict_view(s: Seq<(String, YamlValue)>) -> Dict
    decreases s,
{
    Seq::new(
        s.len(),
        |i: int|
            if 0 <= i < s.len() {
                (s[i].0@, yaml_view(s[i].1))
            } else {
                (Seq::empty(), YamlView::Bool(false))
            },
    )
}

/// The content of `v`.
pub open spec fn yaml_view(v: YamlValue) -> YamlView
    decreases v,
{
    match v {
        YamlValue::Bool(b) => YamlView::Bool(b),
        YamlValue::Int(i) => YamlView::Int(i as int),
        YamlValue::FloatBits(b) => YamlView::FloatBits(b),
        YamlValue::String(s) => YamlView::Str(s@),
        YamlValue::Sequence(items) => YamlView::List(yaml_list_view(items@)),
        YamlValue::Mapping(entries) => YamlView::Dict(yaml_dict_view(entries@)),
    }
}

impl View for YamlValue {
    type V = YamlView;

    open spec fn view(&self) -> YamlView {
        yaml_view(*self)
    }
}

/// Inserting `(k, v)` into a mapping: an entry with key `k` gets the new value
/// in its place; otherwise the entry goes at the end.
pub open spec fn dict_insert(d: Dict, k: Seq<char>, v: YamlView) -> Dict
    decreases d.len(),
{
    if d.len() == 0 {
        seq![(k, v)]
    } else if d[0].0 == k {
        seq![(d[0].0, v)] + d.drop_first()
    } else {
        seq![d[0]] + dict_insert(d.drop_first(), k, v)
    }
}

/// The keys of `d`, in order.
pub open spec fn dict_keys(d: Dict) -> Seq<Seq<char>> {
    d.map_values(|e: (Seq<char>, YamlView)| e.0)
}

/// No key occurs twice in `d`.
pub open spec fn keys_unique(d: Dict) -> bool {
    forall|i: int, j: int| 0 <= i < j < d.len() ==> d[i].0 != d[j].0
}

/// Whether `d` has an entry with key `k`.
pub open spec fn dict_has(d: Dict, k: Seq<char>) -> bool {
    exists|i: int| 0 <= i < d.len() && d[i].0 == k
}

/// `dict_insert` passes over the entries before the first one with key `k`.
pub proof fn lemma_dict_insert_split(d: Dict, k: Seq<char>, v: YamlView, i: int)
    requires
        0 <= i <= d.len(),
        forall|j: int| 0 <= j < i ==> d[j].0 != k,
    ensures
        dict_insert(d, k, v) == d.take(i) + dict_insert(d.skip(i), k, v),
    decreases i,
{
    if i == 0 {
        assert(d.take(0) + dict_insert(d.skip(0), k, v) =~= dict_insert(d, k, v)) by {
            assert(d.skip(0) =~= d);
        }
    } else {
        let t = d.drop_first();
        assert forall|j: int| 0 <= j < i - 1 implies t[j].0 != k by {
            assert(t[j] == d[j + 1]);
        }
        lemma_dict_insert_split(t, k, v, i - 1);
        assert(t.skip(i - 1) =~= d.skip(i));
        assert(d.take(i) =~= seq![d[0]] + t.take(i - 1));
        assert(dict_insert(d, k, v) == seq![d[0]] + dict_insert(t, k, v));
    }
}

/// Inserting a new key appends; inserting a present key replaces its value in place.
pub proof fn lemma_dict_insert_shape(d: Dict, k: Seq<char>, v: YamlView)
    ensures
        dict_has(d, k) ==> exists|i: int|
            0 <= i < d.len() && d[i].0 == k && (forall|j: int| 0 <= j < i ==> d[j].0 != k)
                && dict_insert(d, k, v) == d.update(i, (k, v)),
        !dict_has(d, k) ==> dict_insert(d, k, v) == d.push((k, v)),
    decreases d.len(),
{
    if d.len() == 0 {
        assert(seq![(k, v)] =~= d.push((k, v)));
    } else {
        let t = d.drop_first();
        lemma_dict_insert_shape(t, k, v);
        if d[0].0 == k {
            assert(dict_insert(d, k, v) =~= d.update(0, (k, v)));
        } else {
            if dict_has(d, k) {
                let i0 = choose|i: int| 0 <= i < d.len() && d[i].0 == k;
                assert(t[i0 - 1].0 == k);
                assert(dict_has(t, k));
                let i = choose|i: int|
                    0 <= i < t.len() && t[i].0 == k && (forall|j: int| 0 <= j < i ==> t[j].0 != k)
                        && dict_insert(t, k, v) == t.update(i, (k, v));
                assert(dict_insert(d, k, v) =~= d.update(i + 1, (k, v)));
                assert forall|j: int| 0 <= j < i + 1 implies d[j].0 != k by {
                    if j > 0 {
                        assert(d[j] == t[j - 1]);
                    }
                }
            } else {
                assert forall|i: int| 0 <= i < t.len() implies t[i].0 != k by {
                    assert(t[i] == d[i + 1]);
                }
                assert(!dict_has(t, k));
                assert(dict_insert(d, k, v) =~= d.push((k, v)));
            }
        }
    }
}

/// Insertion keeps the keys of a mapping unique, and keeps every entry with another key.
pub proof fn lemma_dict_insert_keeps(d: Dict, k: Seq<char>, v: YamlView)
    requires
        keys_unique(d),
    ensures
        keys_unique(dict_insert(d, k, v)),
        dict_has(dict_insert(d, k, v), k),
        forall|i: int| 0 <= i < d.len() && d[i].0 != k ==> #[trigger] dict_insert(d, k, v)[i] == d[i],
        dict_insert(d, k, v).len() >= d.len(),
        forall|k2: Seq<char>| dict_has(d, k2) ==> dict_has(dict_insert(d, k, v), k2),
{
    lemma_dict_insert_shape(d, k, v);
    let r = dict_insert(d, k, v);
    if dict_has(d, k) {
        let i = choose|i: int|
            0 <= i < d.len() && d[i].0 == k && (forall|j: int| 0 <= j < i ==> d[j].0 != k)
                && dict_insert(d, k, v) == d.update(i, (k, v));
        assert(r[i].0 == k);
        assert forall|k2: Seq<char>| dict_has(d, k2) implies dict_has(r, k2) by {
            let j = choose|j: int| 0 <= j < d.len() && d[j].0 == k2;
            assert(r[j].0 == k2);
        }
    } else {
        assert(r[d.len() as int].0 == k);
        assert forall|k2: Seq<char>| dict_has(d, k2) implies dict_has(r, k2) by {
            let j = choose|j: int| 0 <= j < d.len() && d[j].0 == k2;
            assert(r[j].0 == k2);
        }
    }
}

/// Inserts `(key, value)` into the entries of a mapping, with the rule of `dict_insert`.
pub fn mapping_insert(entries: &mut Vec<(String, YamlValue)>, key: String, value: YamlValue)
    ensures
        yaml_dict_view(final(entries)@) == dict_insert(
            yaml_dict_view(old(entries)@),
            key@,
            yaml_view(value),
        ),
{
    let ghost d = yaml_dict_view(entries@);
    let mut i: usize = 0;
    while i < entries.len()
        invariant
            i <= entries@.len(),
            d == yaml_dict_view(entries@),
            d == yaml_dict_view(old(entries)@),
            d.len() == entries@.len(),
            forall|j: int| 0 <= j < i ==> d[j].0 != key@,
        decreases entries@.len() - i,
    {
        if str_eq(entries[i].0.as_str(), key.as_str()) {
            proof {
                lemma_dict_insert_split(d, key@, yaml_view(value), i as int);
                assert(d[i as int].0 == key@);
                assert(dict_insert(d.skip(i as int), key@, yaml_view(value)) =~= seq![
                    (d[i as int].0, yaml_view(value)),
                ] + d.skip(i + 1));
            }
            let (k, _old) = entries.remove(i);
            entries.insert(i, (k, value));
            proof {
                assert(yaml_dict_view(entries@) =~= d.take(i as int) + seq![
                    (d[i as int].0, yaml_view(value)),
                ] + d.skip(i + 1));
            }
            return ;
        }
        i = i + 1;
    }
    proof {
        lemma_dict_insert_split(d, key@, yaml_view(value), i as int);
        assert(d.skip(i as int).len() == 0);
        assert(d.take(i as int) =~= d);
    }
    entries.push((key, value));
    proof {
        assert(yaml_dict_view(entries@) =~= d + seq![(key@, yaml_view(value))]);
    }
}

} // verus!
