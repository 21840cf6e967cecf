//! The raw configuration document: a generic attribute tree handed over by
//! the YAML parser, interpreted into namespace trees.
//!
//! A document is a mapping with a tree under `defaults` and a tree under
//! `machines`. Within a tree node, the reserved label `$` holds the node's
//! own record fields (`ip`, `port`, `user`, `pass`, `identity`); every other
//! key names a child node.
use vstd::prelude::*;

use yaml_rust::Yaml;

use crate::assemble::{assemble, spec_apply, ConfigResult};
use crate::error::ConfigError;
use crate::record::{opt_config_view, opt_str_view, ConfigView, MachineConfig};
use crate::strings::str_eq;
use crate::tree::{
    first_bad_label, flat_of, kids_view, labels_ok, tree_view, NamespaceTree, TreeView,
};

verus! {

/// One node of a parsed attribute document, holding exactly what the
/// interpretation below reads: text, integers, nested mappings, nothing.
#[derive(Debug)]
pub enum DocNode {
    /// An empty value.
    Null,
    /// A text scalar.
    Text(String),
    /// An integer scalar.
    Number(i64),
    /// A mapping from keys to nested nodes, in document order.
    Mapping(Vec<(DocNode, DocNode)>),
    /// Any other value: it neither carries record fields nor children.
    Other,
}

#[verifier::external_type_specification]
#[verifier::external_body]
/// The parser's document type, opaque to the rest of the crate.
pub struct ExYaml(Yaml);

/// What parsing a text yields: the first document, carried over as a
/// `DocNode`, or nothing when the text does not parse or holds no document.
/// The parse depends on the text alone, so its result bears a name; nothing
/// is claimed about which node a given text yields.
pub uninterp spec fn parsed_doc_of(s: Seq<char>) -> Option<DocNode>;

/// Relies on yaml_rust::YamlLoader::load_from_str: parse the text, take the
/// first document if the text parses and holds one, and carry it over as a
/// `DocNode`. The parse is a function of the text alone.
#[verifier::external_body]
fn parse_document_node(text: &str) -> (r: Option<DocNode>)
    ensures
        r == parsed_doc_of(text@),
{
    match yaml_rust::YamlLoader::load_from_str(text) {
        Ok(docs) => docs.into_iter().next().map(|d| yaml_to_node(&d)),
        Err(_) => None,
    }
}

/// Relies on the shape of yaml_rust::Yaml: every variant is carried over one
/// for one — null, strings and integers keep their value, a hash becomes the
/// pair list of its entries in order, converted recursively, and every other
/// variant is marked `Other`. It does the conversion step of the parse
/// wrapper below, which is its only caller.
#[verifier::external_body]
fn yaml_to_node(y: &Yaml) -> (r: DocNode) {
    match y {
        Yaml::Null => DocNode::Null,
        Yaml::String(s) => DocNode::Text(s.clone()),
        Yaml::Integer(i) => DocNode::Number(*i),
        Yaml::Hash(h) => DocNode::Mapping(
            h.iter().map(|(k, v)| (yaml_to_node(k), yaml_to_node(v))).collect(),
        ),
        _ => DocNode::Other,
    }
}

/// The text of a mapping key, when the key is a text node.
pub open spec fn key_text(k: DocNode) -> Seq<char> {
    match k {
        DocNode::Text(s) => s@,
        _ => Seq::empty(),
    }
}

/// The value filed under a text key in a pair list; with several equal keys,
/// the last entry wins.
pub open spec fn find_value(pairs: Seq<(DocNode, DocNode)>, key: Seq<char>) -> Option<DocNode>
    decreases pairs.len(),
{
    if pairs.len() == 0 {
        None
    } else if pairs.last().0 is Text && key_text(pairs.last().0) == key {
        Some(pairs.last().1)
    } else {
        find_value(pairs.drop_last(), key)
    }
}

/// A node is well-keyed when, in it and every node below it, each mapping
/// key is text and no key repeats.
pub open spec fn node_ok(n: DocNode) -> bool
    decreases n,
{
    match n {
        DocNode::Mapping(pairs) => pairs_ok(pairs@),
        _ => true,
    }
}

/// A pair list is well-keyed when every key is text and never seen before
/// in the list, and every child value — every value but the one under the
/// record marker `$`, which is only read for its fields — is itself
/// well-keyed.
pub open spec fn pairs_ok(pairs: Seq<(DocNode, DocNode)>) -> bool
    decreases pairs,
{
    if pairs.len() == 0 {
        true
    } else {
        &&& pairs_ok(pairs.drop_last())
        &&& pairs.last().0 is Text
        &&& find_value(pairs.drop_last(), key_text(pairs.last().0)) is None
        &&& (key_text(pairs.last().0) == "$"@ || node_ok(pairs.last().1))
    }
}

/// The text a node supplies for a record field: set only for a text scalar.
pub open spec fn text_of(n: DocNode) -> Option<Seq<char>> {
    match n {
        DocNode::Text(s) => Some(s@),
        _ => None,
    }
}

/// The port a node supplies: set only for an integer scalar within the
/// port range 0 to 65535. An integer outside that range names no port and
/// leaves the field unset; it is never wrapped to fit.
pub open spec fn port_of(n: DocNode) -> Option<u16> {
    match n {
        DocNode::Number(i) => if 0 <= i <= 65535 {
            Some(i as u16)
        } else {
            None
        },
        _ => None,
    }
}

/// The record described by a node's own-values mapping: each field comes
/// from the equally named key, when its value has the field's kind; any
/// other shape of node describes the empty record.
pub open spec fn spec_record_of(n: DocNode) -> ConfigView {
    match n {
        DocNode::Mapping(pairs) => ConfigView {
            ip: spec_text_field(pairs@, "ip"@),
            port: match find_value(pairs@, "port"@) {
                Some(v) => port_of(v),
                None => None,
            },
            user: spec_text_field(pairs@, "user"@),
            pass: spec_text_field(pairs@, "pass"@),
            identity: spec_text_field(pairs@, "identity"@),
        },
        _ => ConfigView { ip: None, port: None, user: None, pass: None, identity: None },
    }
}

/// The text filed under `key`, when the entry is there and is text.
pub open spec fn spec_text_field(pairs: Seq<(DocNode, DocNode)>, key: Seq<char>) -> Option<
    Seq<char>,
> {
    match find_value(pairs, key) {
        Some(v) => text_of(v),
        None => None,
    }
}

/// The namespace tree a well-keyed node describes: the `$` entry, if any,
/// gives the node's own record, and every other entry a child under its key.
pub open spec fn spec_tree_of(n: DocNode) -> TreeView
    decreases n,
{
    match n {
        DocNode::Mapping(pairs) => TreeView {
            own: match find_value(pairs@, "$"@) {
                Some(v) => Some(spec_record_of(v)),
                None => None,
            },
            kids: kids_of(pairs@),
        },
        _ => TreeView { own: None, kids: Seq::empty() },
    }
}

/// The children described by a pair list: one per text key other than `$`,
/// in order.
pub open spec fn kids_of(pairs: Seq<(DocNode, DocNode)>) -> Seq<(Seq<char>, TreeView)>
    decreases pairs,
{
    if pairs.len() == 0 {
        Seq::empty()
    } else {
        let rest = kids_of(pairs.drop_last());
        if pairs.last().0 is Text && key_text(pairs.last().0) != "$"@ {
            rest.push((key_text(pairs.last().0), spec_tree_of(pairs.last().1)))
        } else {
            rest
        }
    }
}

proof fn lemma_pairs_ok_prefix(pairs: Seq<(DocNode, DocNode)>, m: int)
    requires
        pairs_ok(pairs),
        0 <= m <= pairs.len(),
    ensures
        pairs_ok(pairs.take(m)),
    decreases pairs.len(),
{
    if m == pairs.len() {
        assert(pairs.take(m) =~= pairs);
    } else if pairs.len() > 0 {
        assert(pairs.take(m) =~= pairs.drop_last().take(m));
        lemma_pairs_ok_prefix(pairs.drop_last(), m);
    }
}

proof fn lemma_kids_of_keys(pairs: Seq<(DocNode, DocNode)>, l: Seq<char>)
    requires
        l != "$"@,
    ensures
        (exists|j: int| 0 <= j < kids_of(pairs).len() && (#[trigger] kids_of(pairs)[j]).0 == l)
            <==> find_value(pairs, l) is Some,
    decreases pairs.len(),
{
    if pairs.len() > 0 {
        lemma_kids_of_keys(pairs.drop_last(), l);
        let rest = kids_of(pairs.drop_last());
        let all = kids_of(pairs);
        if pairs.last().0 is Text && key_text(pairs.last().0) != "$"@ {
            assert(all == rest.push((key_text(pairs.last().0), spec_tree_of(pairs.last().1))));
            if key_text(pairs.last().0) == l {
                assert(all[all.len() - 1].0 == l);
            } else {
                assert(forall|j: int| 0 <= j < rest.len() ==> all[j] == #[trigger] rest[j]);
                if exists|j: int| 0 <= j < all.len() && (#[trigger] all[j]).0 == l {
                    let j = choose|j: int| 0 <= j < all.len() && (#[trigger] all[j]).0 == l;
                    assert(j < rest.len());
                    assert(rest[j].0 == l);
                }
                if exists|j: int| 0 <= j < rest.len() && (#[trigger] rest[j]).0 == l {
                    let j = choose|j: int| 0 <= j < rest.len() && (#[trigger] rest[j]).0 == l;
                    assert(all[j].0 == l);
                }
            }
        } else {
            assert(all == rest);
        }
    }
}

/// Owned text of a node, when it is a text scalar.
fn text_opt(v: &DocNode) -> (r: Option<String>)
    ensures
        opt_str_view(r) == text_of(*v),
{
    match v {
        DocNode::Text(s) => Some(s.clone()),
        _ => None,
    }
}

/// The port carried by a node: an integer scalar in the port range, and
/// nothing else.
fn port_opt(v: &DocNode) -> (r: Option<u16>)
    ensures
        r == port_of(*v),
{
    match v {
        DocNode::Number(i) => {
            if 0 <= *i && *i <= 65535 {
                Some(*i as u16)
            } else {
                None
            }
        },
        _ => None,
    }
}

/// Extract machine values from a node: the record under a `$` entry.
///
/// # Arguments
///
/// * `data` - Document node holding the record's fields
///
pub fn extract_machine_values(data: &DocNode) -> (r: MachineConfig)
    ensures
        r@ == spec_record_of(*data),
{
    match data {
        DocNode::Mapping(pairs) => {
            let mut config = MachineConfig::default();
            let mut i: usize = 0;
            while i < pairs.len()
                invariant
                    i <= pairs@.len(),
                    opt_str_view(config.ip) == spec_text_field(pairs@.take(i as int), "ip"@),
                    config.port == (match find_value(pairs@.take(i as int), "port"@) {
                        Some(v) => port_of(v),
                        None => None::<u16>,
                    }),
                    opt_str_view(config.user) == spec_text_field(pairs@.take(i as int), "user"@),
                    opt_str_view(config.pass) == spec_text_field(pairs@.take(i as int), "pass"@),
                    opt_str_view(config.identity) == spec_text_field(
                        pairs@.take(i as int),
                        "identity"@,
                    ),
                decreases pairs@.len() - i,
            {
                proof {
                    assert(pairs@.take(i + 1 as int).drop_last() =~= pairs@.take(i as int));
                    assert(pairs@.take(i + 1 as int).last() == pairs@[i as int]);
                }
                let (k, v) = &pairs[i];
                match k {
                    DocNode::Text(s) => {
                        if str_eq(s.as_str(), "ip") {
                            config.ip = text_opt(v);
                        }
                        if str_eq(s.as_str(), "port") {
                            config.port = port_opt(v);
                        }
                        if str_eq(s.as_str(), "user") {
                            config.user = text_opt(v);
                        }
                        if str_eq(s.as_str(), "pass") {
                            config.pass = text_opt(v);
                        }
                        if str_eq(s.as_str(), "identity") {
                            config.identity = text_opt(v);
                        }
                    },
                    _ => {},
                }
                i += 1;
            }
            proof {
                assert(pairs@.take(pairs@.len() as int) =~= pairs@);
            }
            config
        },
        _ => MachineConfig::default(),
    }
}

/// Whether a child under `label` was already gathered.
fn contains_label(children: &Vec<(String, NamespaceTree)>, label: &str) -> (r: bool)
    ensures
        r == exists|j: int| 0 <= j < children@.len() && (#[trigger] children@[j]).0@ == label@,
{
    let mut i: usize = 0;
    while i < children.len()
        invariant
            i <= children@.len(),
            forall|j: int| 0 <= j < i ==> (#[trigger] children@[j]).0@ != label@,
        decreases children@.len() - i,
    {
        if str_eq(children[i].0.as_str(), label) {
            return true;
        }
        i += 1;
    }
    false
}

/// Whether the gathered own record matches the `$` entries seen so far.
spec fn own_matches(own: Option<MachineConfig>, pairs: Seq<(DocNode, DocNode)>) -> bool {
    opt_config_view(own) == (match find_value(pairs, "$"@) {
        Some(v) => Some(spec_record_of(v)),
        None => None::<ConfigView>,
    })
}

/// Interpret a well-keyed document node as a namespace tree: the `$` entry
/// gives the node's own record, every other entry a child under its key.
/// A node whose mapping repeats a key, or keys an entry with anything but
/// text, is rejected as malformed.
pub fn tree_from_node(node: &DocNode) -> (r: Result<NamespaceTree, ConfigError>)
    ensures
        match r {
            Ok(t) => node_ok(*node) && t@ == spec_tree_of(*node),
            Err(e) => !node_ok(*node) && e == ConfigError::MalformedDocument,
        },
    decreases *node,
{
    match node {
        DocNode::Mapping(pairs) => {
            let mut own: Option<MachineConfig> = None;
            let mut children: Vec<(String, NamespaceTree)> = Vec::new();
            let mut i: usize = 0;
            proof {
                assert(pairs@.take(0) =~= Seq::<(DocNode, DocNode)>::empty());
                assert(children@ =~= Seq::<(String, NamespaceTree)>::empty());
            }
            while i < pairs.len()
                invariant
                    *node is Mapping,
                    node->Mapping_0@ == pairs@,
                    i <= pairs@.len(),
                    pairs_ok(pairs@.take(i as int)),
                    kids_view(children@) == kids_of(pairs@.take(i as int)),
                    own_matches(own, pairs@.take(i as int)),
                decreases pairs@.len() - i,
            {
                let ghost prefix = pairs@.take(i as int);
                let ghost next = pairs@.take(i + 1 as int);
                proof {
                    assert(next.drop_last() =~= prefix);
                    assert(next.last() == pairs@[i as int]);
                    assert(*node is Mapping);
                    assert(node->Mapping_0@ == pairs@);
                    assert(node_ok(*node) == pairs_ok(pairs@));
                }
                let k = &pairs[i].0;
                let v = &pairs[i].1;
                let label = match k {
                    DocNode::Text(s) => s,
                    _ => {
                        proof {
                            if node_ok(*node) {
                                lemma_pairs_ok_prefix(pairs@, i + 1 as int);
                                assert(pairs_ok(next));
                                assert(next.last().0 is Text);
                                assert(false);
                            }
                        }
                        return Err(ConfigError::MalformedDocument);
                    },
                };
                proof {
                    assert(pairs@[i as int].0 is Text);
                    assert(key_text(pairs@[i as int].0) == label@);
                }
                if str_eq(label.as_str(), "$") {
                    if own.is_some() {
                        proof {
                            assert(find_value(prefix, "$"@) is Some);
                            if node_ok(*node) {
                                lemma_pairs_ok_prefix(pairs@, i + 1 as int);
                                assert(pairs_ok(next));
                                assert(find_value(prefix, key_text(next.last().0)) is None);
                                assert(false);
                            }
                        }
                        return Err(ConfigError::MalformedDocument);
                    }
                    own = Some(extract_machine_values(v));
                    proof {
                        assert(key_text(next.last().0) == "$"@);
                        assert(pairs_ok(next));
                        assert(kids_of(next) == kids_of(prefix));
                        assert(find_value(next, "$"@) == Some(pairs@[i as int].1));
                        assert(own_matches(own, next));
                    }
                } else {
                    if contains_label(&children, label.as_str()) {
                        proof {
                            crate::tree::lemma_kids_view_elems(children@);
                            lemma_kids_of_keys(prefix, label@);
                            let j = choose|j: int|
                                0 <= j < children@.len() && (#[trigger] children@[j]).0@
                                    == label@;
                            assert(kids_view(children@)[j].0 == label@);
                            assert((#[trigger] kids_of(prefix)[j]).0 == label@);
                            assert(find_value(prefix, label@) is Some);
                            if node_ok(*node) {
                                lemma_pairs_ok_prefix(pairs@, i + 1 as int);
                                assert(pairs_ok(next));
                                assert(key_text(next.last().0) == label@);
                                assert(find_value(prefix, label@) is None);
                                assert(false);
                            }
                        }
                        return Err(ConfigError::MalformedDocument);
                    }
                    proof {
                        assert(decreases_to!(*node => node->Mapping_0@[i as int].1));
                    }
                    let sub = match tree_from_node(v) {
                        Ok(t) => t,
                        Err(e) => {
                            proof {
                                if node_ok(*node) {
                                    lemma_pairs_ok_prefix(pairs@, i + 1 as int);
                                    assert(pairs_ok(next));
                                    assert(key_text(next.last().0) == label@);
                                    assert(label@ != "$"@);
                                    assert(node_ok(pairs@[i as int].1));
                                    assert(false);
                                }
                            }
                            return Err(e);
                        },
                    };
                    proof {
                        crate::tree::lemma_kids_view_elems(children@);
                        lemma_kids_of_keys(prefix, label@);
                        assert forall|j: int|
                            0 <= j < kids_of(prefix).len() implies (#[trigger] kids_of(
                            prefix,
                        )[j]).0 != label@ by {
                            assert(children@[j].0@ != label@);
                        }
                        assert(find_value(prefix, label@) is None);
                    }
                    let ghost children_before = children@;
                    children.push((label.clone(), sub));
                    proof {
                        assert(children@.drop_last() =~= children_before);
                        assert(children@.last().0@ == label@);
                        assert(children@.last().1 == sub);
                        assert(kids_view(children@) == kids_view(children_before).push(
                            (label@, tree_view(sub)),
                        ));
                        assert(tree_view(sub) == sub@);
                        assert(key_text(next.last().0) == label@);
                        assert(kids_of(next) == kids_of(prefix).push(
                            (label@, spec_tree_of(pairs@[i as int].1)),
                        ));
                        assert(kids_view(children@) == kids_of(next));
                        assert(pairs_ok(next));
                        assert(find_value(next, "$"@) == find_value(prefix, "$"@));
                        assert(own_matches(own, next));
                    }
                }
                i += 1;
            }
            proof {
                assert(pairs@.take(pairs@.len() as int) =~= pairs@);
            }
            Ok(NamespaceTree { own_record: own, children })
        },
        _ => {
            let t = NamespaceTree { own_record: None, children: Vec::new() };
            proof {
                assert(t.children@ =~= Seq::<(String, NamespaceTree)>::empty());
            }
            Ok(t)
        },
    }
}

/// The two subtrees a well-shaped document carries: the values under its
/// `defaults` and `machines` keys.
pub open spec fn doc_trees(doc: DocNode) -> Option<(DocNode, DocNode)> {
    match doc {
        DocNode::Mapping(pairs) => match (
            find_value(pairs@, "defaults"@),
            find_value(pairs@, "machines"@),
        ) {
            (Some(d), Some(m)) => Some((d, m)),
            _ => None,
        },
        _ => None,
    }
}

/// What loading yields for a given document: the assembled result when the
/// document is well-shaped and every label clean, and the precise error
/// otherwise.
pub open spec fn load_result_matches(doc: DocNode, r: Result<ConfigResult, ConfigError>) -> bool {
    match doc_trees(doc) {
        None => r == Err::<ConfigResult, ConfigError>(ConfigError::MalformedDocument),
        Some(trees) => {
            if !node_ok(trees.0) || !node_ok(trees.1) {
                r == Err::<ConfigResult, ConfigError>(ConfigError::MalformedDocument)
            } else {
                let dt = spec_tree_of(trees.0);
                let mt = spec_tree_of(trees.1);
                match r {
                    Ok(cr) => {
                        &&& labels_ok(dt)
                        &&& labels_ok(mt)
                        &&& cr.default_values.wf()
                        &&& cr.machine_values.wf()
                        &&& cr.default_values@ == flat_of(dt, Seq::empty())
                        &&& cr.machine_values@ == spec_apply(
                            flat_of(mt, Seq::empty()),
                            flat_of(dt, Seq::empty()),
                        )
                    },
                    Err(e) => {
                        ||| (!labels_ok(dt) && (e matches ConfigError::InvalidNamespace(l)
                            && first_bad_label(dt) == Some(l@)))
                        ||| (labels_ok(dt) && !labels_ok(mt) && (
                        e matches ConfigError::InvalidNamespace(l) && first_bad_label(mt) == Some(
                            l@,
                        )))
                    },
                }
            }
        },
    }
}

/// The value filed under a text key, scanning the pair list.
fn find_in_pairs<'a>(pairs: &'a Vec<(DocNode, DocNode)>, key: &str) -> (r: Option<&'a DocNode>)
    ensures
        match r {
            Some(v) => find_value(pairs@, key@) == Some(*v),
            None => find_value(pairs@, key@) is None,
        },
{
    let mut i: usize = pairs.len();
    proof {
        assert(pairs@.take(pairs@.len() as int) =~= pairs@);
    }
    while i > 0
        invariant
            i <= pairs@.len(),
            find_value(pairs@, key@) == find_value(pairs@.take(i as int), key@),
        decreases i,
    {
        i -= 1;
        proof {
            assert(pairs@.take(i + 1 as int).drop_last() =~= pairs@.take(i as int));
            assert(pairs@.take(i + 1 as int).last() == pairs@[i as int]);
        }
        match &pairs[i].0 {
            DocNode::Text(s) => {
                if str_eq(s.as_str(), key) {
                    return Some(&pairs[i].1);
                }
            },
            _ => {},
        }
    }
    None
}

/// Load a configuration from an already parsed document: find the two
/// subtrees, interpret each as a namespace tree, and assemble them.
pub fn load_configuration_document(doc: &DocNode) -> (r: Result<ConfigResult, ConfigError>)
    ensures
        load_result_matches(*doc, r),
{
    match doc {
        DocNode::Mapping(pairs) => {
            let d_node = match find_in_pairs(pairs, "defaults") {
                Some(n) => n,
                None => {
                    return Err(ConfigError::MalformedDocument);
                },
            };
            let m_node = match find_in_pairs(pairs, "machines") {
                Some(n) => n,
                None => {
                    return Err(ConfigError::MalformedDocument);
                },
            };
            let d_tree = match tree_from_node(d_node) {
                Ok(t) => t,
                Err(e) => {
                    return Err(e);
                },
            };
            let m_tree = match tree_from_node(m_node) {
                Ok(t) => t,
                Err(e) => {
                    return Err(e);
                },
            };
            assemble(&d_tree, &m_tree)
        },
        _ => Err(ConfigError::MalformedDocument),
    }
}

/// Load a configuration from a string.
///
/// The string is handed to the YAML parser; text that yields no document is
/// a malformed-document error, and otherwise the result is exactly what
/// loading the parsed document yields.
///
/// # Arguments
///
/// * `contents` - Contents string
///
pub fn load_configuration_string(contents: &str) -> (r: Result<ConfigResult, ConfigError>)
    ensures
        (match parsed_doc_of(contents@) {
            Some(doc) => load_result_matches(doc, r),
            None => r == Err::<ConfigResult, ConfigError>(ConfigError::MalformedDocument),
        }),
        r matches Ok(cr) ==> cr.default_values.wf() && cr.machine_values.wf(),
{
    match parse_document_node(contents) {
        Some(node) => load_configuration_document(&node),
        None => Err(ConfigError::MalformedDocument),
    }
}

} // verus!
