//! Checking a downloaded subscription (Clash / mihomo YAML) before it is cached.
use vstd::prelude::*;

verus! {

/// A YAML document as parsed by `serde_yaml`.
#[verifier::external_type_specification]
#[verifier::external_body]
pub struct ExYamlDocument(serde_yaml::Value);

/// A YAML mapping of `serde_yaml`.
#[verifier::external_type_specification]
#[verifier::external_body]
pub struct ExYamlMapping(serde_yaml::Mapping);

/// An error of `serde_yaml`.
#[verifier::external_type_specification]
#[verifier::external_body]
pub struct ExYamlError(serde_yaml::Error);

/// The strings that are keys of a YAML mapping (keys of other kinds are not counted).
pub uninterp spec fn yaml_string_keys(m: serde_yaml::Mapping) -> Set<Seq<char>>;

/// The list stored under the string key `key` of a YAML mapping: `Some(items)` when
/// the value there is a sequence of these items, `None` when the key is absent or
/// holds something else.
pub uninterp spec fn yaml_list_at(m: serde_yaml::Mapping, key: Seq<char>) -> Option<Seq<serde_yaml::Value>>;

/// What the top level of a parsed YAML document is: a mapping with these string
/// keys, a sequence of these items, or anything else (a tagged value included).
pub enum YamlTopView {
    Mapping(Set<Seq<char>>),
    Sequence(Seq<serde_yaml::Value>),
    Other,
}

/// The top level of the document that `serde_yaml::from_str` parses `text` into,
/// or `None` when the text does not parse (a function of the text alone).
pub uninterp spec fn yaml_text_top(text: Seq<char>) -> Option<YamlTopView>;

/// The text that `serde_yaml::to_string` writes for the document whose top level is
/// the mapping `m`, or `None` when it returns an error (a function of `m` alone).
pub uninterp spec fn yaml_emit(m: serde_yaml::Mapping) -> Option<Seq<char>>;

/// A parsed YAML document, split by its top level.
pub enum YamlDocument {
    Mapping(serde_yaml::Mapping),
    Sequence(Vec<serde_yaml::Value>),
    Other(serde_yaml::Value),
}

/// The top level of a split document.
pub open spec fn document_top(d: YamlDocument) -> YamlTopView {
    match d {
        YamlDocument::Mapping(m) => YamlTopView::Mapping(yaml_string_keys(m)),
        YamlDocument::Sequence(items) => YamlTopView::Sequence(items@),
        YamlDocument::Other(_) => YamlTopView::Other,
    }
}

/// `serde_yaml::from_str` into a `serde_yaml::Value`, whose variants are then told
/// apart (mapping, sequence, anything else): it succeeds exactly on the texts that
/// parse, and the top level is the one `yaml_text_top` names.
#[verifier::external_body]
fn yaml_parse(text: &str) -> (r: Result<YamlDocument, serde_yaml::Error>)
    ensures
        r is Ok <==> yaml_text_top(text@) is Some,
        r matches Ok(d) ==> Some(document_top(d)) == yaml_text_top(text@),
{
    match serde_yaml::from_str::<serde_yaml::Value>(text) {
        Ok(serde_yaml::Value::Mapping(m)) => Ok(YamlDocument::Mapping(m)),
        Ok(serde_yaml::Value::Sequence(items)) => Ok(YamlDocument::Sequence(items)),
        Ok(other) => Ok(YamlDocument::Other(other)),
        Err(e) => Err(e),
    }
}

/// `serde_yaml::Mapping::contains_key` with the string key `key`: whether `key`
/// is among the string keys.
#[verifier::external_body]
fn yaml_has_key(m: &serde_yaml::Mapping, key: &str) -> (r: bool)
    ensures
        r == yaml_string_keys(*m).contains(key@),
{
    m.contains_key(&serde_yaml::Value::String(key.to_string()))
}

/// `serde_yaml::Mapping::new`: an empty mapping, with no string key and no list.
#[verifier::external_body]
fn yaml_mapping_new() -> (m: serde_yaml::Mapping)
    ensures
        yaml_string_keys(m) == Set::<Seq<char>>::empty(),
        forall|k: Seq<char>| #[trigger] yaml_list_at(m, k) is None,
{
    serde_yaml::Mapping::new()
}

/// `serde_yaml::Mapping::insert` of the sequence `items` under the string key `key`:
/// the string keys gain `key`, the list under `key` is `items` (an earlier value
/// there is replaced), and the lists under the other keys stay as they were.
#[verifier::external_body]
fn yaml_mapping_insert_list(m: &mut serde_yaml::Mapping, key: &str, items: Vec<serde_yaml::Value>)
    ensures
        yaml_string_keys(*final(m)) == yaml_string_keys(*old(m)).insert(key@),
        yaml_list_at(*final(m), key@) == Some(items@),
        forall|k: Seq<char>|
            k != key@ ==> #[trigger] yaml_list_at(*final(m), k) == yaml_list_at(*old(m), k),
{
    m.insert(serde_yaml::Value::String(key.to_string()), serde_yaml::Value::Sequence(items));
}

/// `serde_yaml::to_string` of the document whose top level is the mapping `m`:
/// it succeeds exactly when `yaml_emit` names a text, and gives that text.
#[verifier::external_body]
fn yaml_to_string(m: serde_yaml::Mapping) -> (r: Result<String, serde_yaml::Error>)
    ensures
        r is Ok <==> yaml_emit(m) is Some,
        r matches Ok(s) ==> yaml_emit(m) == Some(s@),
{
    serde_yaml::to_string(&serde_yaml::Value::Mapping(m))
}

/// What the check sees of a subscription's top level.
#[derive(Debug, Clone, Copy, PartialEq, Eq, Structural)]
pub enum SubscriptionShape {
    /// A mapping, and whether it has the keys `proxies`, `proxy-providers`, `Proxy`.
    Mapping { proxies: bool, proxy_providers: bool, legacy_proxy: bool },
    /// A sequence of this many items (a bare list of proxies).
    Sequence { len: usize },
    /// Anything else.
    Other,
}

/// How an accepted subscription is cached.
#[derive(Debug, Clone, Copy, PartialEq, Eq, Structural)]
pub enum SubscriptionForm {
    /// The text as downloaded.
    AsIs,
    /// A bare list, cached as `{proxies: <list>}` for mihomo's file provider.
    WrapList,
}

/// Why a subscription is refused.
#[derive(Debug)]
pub enum SubError {
    /// The text is not YAML.
    NotYaml(serde_yaml::Error),
    /// The YAML has no proxies and no proxy providers.
    NoProxies,
    /// The normalised document could not be written out.
    Serialize(serde_yaml::Error),
}

/// The form a subscription of shape `s` is cached in, if it is accepted.
pub open spec fn subscription_form(s: SubscriptionShape) -> Option<SubscriptionForm> {
    match s {
        SubscriptionShape::Mapping { proxies, proxy_providers, legacy_proxy } => if proxies
            || proxy_providers || legacy_proxy {
            Some(SubscriptionForm::AsIs)
        } else {
            None
        },
        SubscriptionShape::Sequence { len } => if len > 0 {
            Some(SubscriptionForm::WrapList)
        } else {
            None
        },
        SubscriptionShape::Other => None,
    }
}

/// Accepts a mapping that has `proxies`, `proxy-providers` or (old style) `Proxy`,
/// and a non-empty bare list, which is to be wrapped.
pub fn check_subscription(shape: SubscriptionShape) -> (r: Result<SubscriptionForm, SubError>)
    ensures
        match subscription_form(shape) {
            Some(f) => r matches Ok(g) && g == f,
            None => r matches Err(SubError::NoProxies),
        },
{
    match shape {
        SubscriptionShape::Mapping { proxies, proxy_providers, legacy_proxy } => {
            if proxies || proxy_providers || legacy_proxy {
                Ok(SubscriptionForm::AsIs)
            } else {
                Err(SubError::NoProxies)
            }
        },
        SubscriptionShape::Sequence { len } => {
            if len > 0 {
                Ok(SubscriptionForm::WrapList)
            } else {
                Err(SubError::NoProxies)
            }
        },
        SubscriptionShape::Other => Err(SubError::NoProxies),
    }
}

/// The form a subscription whose top level is `t` is cached in, if it is accepted.
pub open spec fn top_form(t: YamlTopView) -> Option<SubscriptionForm> {
    match t {
        YamlTopView::Mapping(keys) => if keys.contains("proxies"@) || keys.contains(
            "proxy-providers"@,
        ) || keys.contains("Proxy"@) {
            Some(SubscriptionForm::AsIs)
        } else {
            None
        },
        YamlTopView::Sequence(items) => if items.len() > 0 {
            Some(SubscriptionForm::WrapList)
        } else {
            None
        },
        YamlTopView::Other => None,
    }
}

/// Which subscriptions are accepted, and how each is cached: any non-empty bare list,
/// one item included, is wrapped; an empty list is refused; a mapping is kept as it
/// came exactly when one of its string keys is `proxies`, `proxy-providers` or `Proxy`,
/// and refused otherwise; anything else is refused.
pub proof fn lemma_accepted_forms(t: YamlTopView)
    ensures
        t matches YamlTopView::Sequence(items) ==> (items.len() > 0 <==> top_form(t) == Some(
            SubscriptionForm::WrapList,
        )) && (items.len() == 0 <==> top_form(t) is None),
        t matches YamlTopView::Mapping(keys) ==> ((keys.contains("proxies"@) || keys.contains(
            "proxy-providers"@,
        ) || keys.contains("Proxy"@)) <==> top_form(t) == Some(SubscriptionForm::AsIs)) && (
        top_form(t) is Some ==> top_form(t) == Some(SubscriptionForm::AsIs)),
        t is Other ==> top_form(t) is None,
{
}

/// The same acceptance, by the shape that `check_subscription` reads: a sequence of
/// any positive length is wrapped, a mapping with one of the three keys is kept.
pub proof fn lemma_shape_forms(s: SubscriptionShape)
    ensures
        s matches SubscriptionShape::Sequence { len } ==> (len > 0 <==> subscription_form(s)
            == Some(SubscriptionForm::WrapList)) && (len == 0 <==> subscription_form(s) is None),
        s matches SubscriptionShape::Mapping { proxies, proxy_providers, legacy_proxy } ==> ((
        proxies || proxy_providers || legacy_proxy) <==> subscription_form(s) == Some(
            SubscriptionForm::AsIs,
        )) && (subscription_form(s) is Some ==> subscription_form(s) == Some(
            SubscriptionForm::AsIs,
        )),
        s is Other ==> subscription_form(s) is None,
{
}

/// `r` is the outcome of writing out a mapping whose only string key is `proxies`,
/// holding the list `items`: the text `serde_yaml` writes for it, or the error it
/// returns, exactly as `yaml_emit` names them.
pub open spec fn wrapped_outcome(items: Seq<serde_yaml::Value>, r: Result<String, SubError>) -> bool {
    exists|m: serde_yaml::Mapping|
        #![trigger yaml_emit(m)]
        {
            &&& yaml_string_keys(m) == set!["proxies"@]
            &&& yaml_list_at(m, "proxies"@) == Some(items)
            &&& match r {
                Ok(out) => yaml_emit(m) == Some(out@),
                Err(SubError::Serialize(_)) => yaml_emit(m) is None,
                Err(_) => false,
            }
        }
}

/// The text to cache for a downloaded subscription `body`: refused when it is not YAML;
/// the body itself when it is a mapping with `proxies`, `proxy-providers` or `Proxy`;
/// `{proxies: <list>}` written out by `serde_yaml` when it is a non-empty bare list;
/// refused otherwise.
pub fn prepare_subscription(body: String) -> (r: Result<String, SubError>)
    ensures
        match yaml_text_top(body@) {
            None => r matches Err(SubError::NotYaml(_)),
            Some(t) => match top_form(t) {
                Some(SubscriptionForm::AsIs) => r matches Ok(out) && out@ == body@,
                Some(SubscriptionForm::WrapList) => t matches YamlTopView::Sequence(items)
                    && wrapped_outcome(items, r),
                None => r matches Err(SubError::NoProxies),
            },
        },
{
    let doc = match yaml_parse(body.as_str()) {
        Ok(d) => d,
        Err(e) => return Err(SubError::NotYaml(e)),
    };
    let ghost top = document_top(doc);
    let (shape, items) = match doc {
        YamlDocument::Mapping(m) => (
            SubscriptionShape::Mapping {
                proxies: yaml_has_key(&m, "proxies"),
                proxy_providers: yaml_has_key(&m, "proxy-providers"),
                legacy_proxy: yaml_has_key(&m, "Proxy"),
            },
            None,
        ),
        YamlDocument::Sequence(items) => {
            let len = items.len();
            (SubscriptionShape::Sequence { len }, Some(items))
        },
        YamlDocument::Other(_) => (SubscriptionShape::Other, None),
    };
    proof {
        assert(subscription_form(shape) == top_form(top));
        assert(items matches Some(v) ==> top == YamlTopView::Sequence(v@));
    }
    match check_subscription(shape) {
        Err(e) => Err(e),
        Ok(SubscriptionForm::AsIs) => Ok(body),
        Ok(SubscriptionForm::WrapList) => {
            let list = match items {
                Some(items) => items,
                None => {
                    proof {
                        assert(false);
                    }
                    return Err(SubError::NoProxies);
                },
            };
            let ghost list_view = list@;
            let mut m = yaml_mapping_new();
            yaml_mapping_insert_list(&mut m, "proxies", list);
            let ghost wrapped = m;
            proof {
                assert(yaml_string_keys(wrapped) == set!["proxies"@]);
            }
            let r = match yaml_to_string(m) {
                Ok(s) => Ok(s),
                Err(e) => Err(SubError::Serialize(e)),
            };
            proof {
                assert(wrapped_outcome(list_view, r));
            }
            r
        },
    }
}

} // verus!
