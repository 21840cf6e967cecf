//! Assembly of the final per-machine profiles: flatten the two subtrees,
//! resolve the default chain for every machine, and merge the machine's own
//! record on top.
use vstd::prelude::*;

use crate::config_map::ConfigMap;
use crate::error::ConfigError;
use crate::record::{spec_merge, ConfigView};
use crate::resolve::{fetch_default_values_for_name, resolve_of};
use crate::tree::{first_bad_label, flat_of, flatten, labels_ok, NamespaceTree};

verus! {

/// Configuration result: the flattened, unresolved default tree (kept for
/// introspection), and the fully resolved profile of every declared machine.
#[derive(Debug)]
pub struct ConfigResult {
    /// Default values for machines
    pub default_values: ConfigMap,
    /// Actual machine values
    pub machine_values: ConfigMap,
}

/// The profile a machine ends with: its own record merged on top of its
/// resolved default, or its own record alone when no default applies
/// anywhere along the chain.
pub open spec fn apply_one(
    d: Map<Seq<char>, ConfigView>,
    name: Seq<char>,
    own: ConfigView,
) -> ConfigView {
    match resolve_of(d, name) {
        Some(def) => spec_merge(def, own),
        None => own,
    }
}

/// The machine map with defaults applied: same machines, each record
/// replaced by its final profile.
pub open spec fn spec_apply(
    m: Map<Seq<char>, ConfigView>,
    d: Map<Seq<char>, ConfigView>,
) -> Map<Seq<char>, ConfigView> {
    Map::new(|k: Seq<char>| m.contains_key(k), |k: Seq<char>| apply_one(d, k, m[k]))
}

/// Apply machine configurations on machine map: every machine keeps its
/// place, and its record becomes its own values merged over the default
/// chain resolved for its name.
///
/// # Arguments
///
/// * `machine_map` - Machine configuration map
/// * `default_map` - Default configuration map
///
pub fn apply_machine_configurations(machine_map: &ConfigMap, default_map: &ConfigMap) -> (r:
    ConfigMap)
    requires
        machine_map.wf(),
        default_map.wf(),
    ensures
        r.wf(),
        r@ == spec_apply(machine_map@, default_map@),
{
    let mut applied = ConfigMap::new();
    let keys = machine_map.keys();
    let mut i: usize = 0;
    while i < keys.len()
        invariant
            machine_map.wf(),
            default_map.wf(),
            applied.wf(),
            i <= keys@.len(),
            forall|j: int| 0 <= j < keys@.len() ==> machine_map@.contains_key(
                (#[trigger] keys@[j])@,
            ),
            forall|k: Seq<char>| machine_map@.contains_key(k) ==> exists|j: int|
                0 <= j < keys@.len() && (#[trigger] keys@[j])@ == k,
            forall|k: Seq<char>| applied@.contains_key(k) <==> exists|j: int|
                0 <= j < i && (#[trigger] keys@[j])@ == k,
            forall|k: Seq<char>| #[trigger] applied@.contains_key(k) ==> machine_map@.contains_key(
                k,
            ) && applied@[k] == apply_one(default_map@, k, machine_map@[k]),
        decreases keys@.len() - i,
    {
        let key = &keys[i];
        let default_config = fetch_default_values_for_name(key.as_str(), default_map);
        let machine_config = machine_map.get(key.as_str()).unwrap();
        let applied_config = match default_config {
            Some(x) => x.merge(machine_config),
            None => machine_config.clone(),
        };
        applied.insert(key.clone(), applied_config);
        proof {
            assert forall|k: Seq<char>| applied@.contains_key(k) implies exists|j: int|
                0 <= j < i + 1 && (#[trigger] keys@[j])@ == k by {
                if k == keys@[i as int]@ {
                    assert(keys@[i as int]@ == k);
                } else {
                    let j = choose|j: int| 0 <= j < i && (#[trigger] keys@[j])@ == k;
                    assert(keys@[j]@ == k);
                }
            }
        }
        i += 1;
    }
    proof {
        assert forall|k: Seq<char>| machine_map@.contains_key(k) implies applied@.contains_key(
            k,
        ) by {
            let j = choose|j: int| 0 <= j < keys@.len() && (#[trigger] keys@[j])@ == k;
        }
        assert(applied@ =~= spec_apply(machine_map@, default_map@));
    }
    applied
}

/// Assemble the defaults subtree and the machines subtree into the final
/// result: flatten both from the root path, then give every machine its
/// resolved profile. Any offending label in either subtree aborts the whole
/// assembly — the defaults subtree is examined first.
pub fn assemble(defaults_tree: &NamespaceTree, machines_tree: &NamespaceTree) -> (r: Result<
    ConfigResult,
    ConfigError,
>)
    ensures
        match r {
            Ok(cr) => {
                &&& labels_ok(defaults_tree@)
                &&& labels_ok(machines_tree@)
                &&& cr.default_values.wf()
                &&& cr.machine_values.wf()
                &&& cr.default_values@ == flat_of(defaults_tree@, Seq::empty())
                &&& cr.machine_values@ == spec_apply(
                    flat_of(machines_tree@, Seq::empty()),
                    flat_of(defaults_tree@, Seq::empty()),
                )
            },
            Err(e) => {
                ||| (!labels_ok(defaults_tree@) && (e matches ConfigError::InvalidNamespace(l)
                    && first_bad_label(defaults_tree@) == Some(l@)))
                ||| (labels_ok(defaults_tree@) && !labels_ok(machines_tree@) && (
                e matches ConfigError::InvalidNamespace(l) && first_bad_label(machines_tree@)
                    == Some(l@)))
            },
        },
{
    proof {
        reveal_strlit("");
        assert(""@ =~= Seq::<char>::empty());
    }
    let default_map = match flatten(defaults_tree, "") {
        Ok(m) => m,
        Err(e) => {
            return Err(e);
        },
    };
    let machine_map = match flatten(machines_tree, "") {
        Ok(m) => m,
        Err(e) => {
            return Err(e);
        },
    };
    let machine_values = apply_machine_configurations(&machine_map, &default_map);
    Ok(ConfigResult { default_values: default_map, machine_values })
}

} // verus!
