//! The connection record: five independently optional fields, and the
//! field-wise override operator used everywhere else in the crate.
use vstd::prelude::*;

use crate::digits::{dec_digits, port_string};

verus! {

/// Contains a machine configuration. Every field may be left unset, and an
/// unset field means something: the merge and resolution rules treat it as
/// "no opinion", never as a concrete value.
#[derive(Debug, PartialEq)]
pub struct MachineConfig {
    /// IP to use
    pub ip: Option<String>,
    /// Port to use
    pub port: Option<u16>,
    /// Username to use
    pub user: Option<String>,
    /// Password to use
    pub pass: Option<String>,
    /// Identity key to use
    pub identity: Option<String>,
}

/// Mathematical model of a machine configuration.
pub ghost struct ConfigView {
    /// IP to use
    pub ip: Option<Seq<char>>,
    /// Port to use
    pub port: Option<u16>,
    /// Username to use
    pub user: Option<Seq<char>>,
    /// Password to use
    pub pass: Option<Seq<char>>,
    /// Identity key to use
    pub identity: Option<Seq<char>>,
}

/// Model of an optional machine configuration.
pub open spec fn opt_config_view(o: Option<MachineConfig>) -> Option<ConfigView> {
    match o {
        Some(c) => Some(c@),
        None => None,
    }
}

/// Model of an optional owned string.
pub open spec fn opt_str_view(o: Option<String>) -> Option<Seq<char>> {
    match o {
        Some(s) => Some(s@),
        None => None,
    }
}

impl View for MachineConfig {
    type V = ConfigView;

    open spec fn view(&self) -> ConfigView {
        ConfigView {
            ip: opt_str_view(self.ip),
            port: self.port,
            user: opt_str_view(self.user),
            pass: opt_str_view(self.pass),
            identity: opt_str_view(self.identity),
        }
    }
}

/// The record with every field unset.
pub open spec fn empty_config() -> ConfigView {
    ConfigView { ip: None, port: None, user: None, pass: None, identity: None }
}

/// Field-wise override: wherever `over` sets a field, its value wins;
/// everywhere else the field keeps `base`'s value.
pub open spec fn spec_merge(base: ConfigView, over: ConfigView) -> ConfigView {
    ConfigView {
        ip: if over.ip is Some { over.ip } else { base.ip },
        port: if over.port is Some { over.port } else { base.port },
        user: if over.user is Some { over.user } else { base.user },
        pass: if over.pass is Some { over.pass } else { base.pass },
        identity: if over.identity is Some { over.identity } else { base.identity },
    }
}

/// Owned copy of an optional string, for building merged records.
fn dup_opt_str(o: &Option<String>) -> (r: Option<String>)
    ensures
        r == *o,
{
    match o {
        Some(s) => Some(s.clone()),
        None => None,
    }
}

/// The field taken by a merge of optional strings: the override if set, else the base.
fn pick_str(base: &Option<String>, over: &Option<String>) -> (r: Option<String>)
    ensures
        opt_str_view(r) == (if opt_str_view(*over) is Some {
            opt_str_view(*over)
        } else {
            opt_str_view(*base)
        }),
{
    match over {
        Some(s) => Some(s.clone()),
        None => dup_opt_str(base),
    }
}

impl Clone for MachineConfig {
    /// An exact copy, field by field.
    fn clone(&self) -> (r: Self)
        ensures
            r == *self,
    {
        MachineConfig {
            ip: dup_opt_str(&self.ip),
            port: self.port,
            user: dup_opt_str(&self.user),
            pass: dup_opt_str(&self.pass),
            identity: dup_opt_str(&self.identity),
        }
    }
}

impl Default for MachineConfig {
    /// The record with every field unset.
    fn default() -> (r: Self)
        ensures
            r@ == empty_config(),
    {
        MachineConfig { ip: None, port: None, user: None, pass: None, identity: None }
    }
}

impl MachineConfig {
    /// Merge two configurations together: `other`'s explicit fields override
    /// this record's, field by field.
    ///
    /// # Arguments
    ///
    /// * `other` - Other machine config to use
    ///
    pub fn merge(&self, other: &MachineConfig) -> (r: MachineConfig)
        ensures
            r@ == spec_merge(self@, other@),
    {
        MachineConfig {
            ip: pick_str(&self.ip, &other.ip),
            port: if other.port.is_some() {
                other.port
            } else {
                self.port
            },
            user: pick_str(&self.user, &other.user),
            pass: pick_str(&self.pass, &other.pass),
            identity: pick_str(&self.identity, &other.identity),
        }
    }
}

/// The lines describing a record: a heading naming the machine, then one
/// line per set field. The password's value appears nowhere; a fixed mask
/// only marks that one is set.
pub open spec fn spec_info_lines(c: ConfigView, machine: Seq<char>) -> Seq<Seq<char>> {
    seq!["Configuration for `"@ + machine + "`:"@] + (match c.ip {
        Some(x) => seq!["  IP: "@ + x],
        None => Seq::empty(),
    }) + (match c.port {
        Some(p) => seq!["  Port: "@ + dec_digits(p as int)],
        None => Seq::empty(),
    }) + (match c.user {
        Some(x) => seq!["  User: "@ + x],
        None => Seq::empty(),
    }) + (match c.pass {
        Some(_) => seq!["  Pass: *******"@],
        None => Seq::empty(),
    }) + (match c.identity {
        Some(x) => seq!["  Identity: "@ + x],
        None => Seq::empty(),
    })
}

impl MachineConfig {
    /// The lines shown for this machine: the heading, then one line per set
    /// field, with the password always substituted by a fixed mask.
    ///
    /// # Arguments
    ///
    /// * `machine` - Machine name
    ///
    pub fn info_lines(&self, machine: &str) -> (r: Vec<String>)
        ensures
            r.deep_view() == spec_info_lines(self@, machine@),
    {
        let ghost g1 = seq!["Configuration for `"@ + machine@ + "`:"@];
        let ghost g2 = g1 + (match self@.ip {
            Some(x) => seq!["  IP: "@ + x],
            None => Seq::empty(),
        });
        let ghost g3 = g2 + (match self@.port {
            Some(p) => seq!["  Port: "@ + dec_digits(p as int)],
            None => Seq::empty(),
        });
        let ghost g4 = g3 + (match self@.user {
            Some(x) => seq!["  User: "@ + x],
            None => Seq::empty(),
        });
        let ghost g5 = g4 + (match self@.pass {
            Some(_) => seq!["  Pass: *******"@],
            None => Seq::empty(),
        });
        let mut lines: Vec<String> = Vec::new();
        lines.push("Configuration for `".to_owned().concat(machine).concat("`:"));
        proof {
            assert(lines.deep_view() =~= g1);
        }
        match &self.ip {
            Some(x) => lines.push("  IP: ".to_owned().concat(x.as_str())),
            None => {},
        }
        proof {
            assert(lines.deep_view() =~= g2);
        }
        match self.port {
            Some(p) => lines.push("  Port: ".to_owned().concat(port_string(p).as_str())),
            None => {},
        }
        proof {
            assert(lines.deep_view() =~= g3);
        }
        match &self.user {
            Some(x) => lines.push("  User: ".to_owned().concat(x.as_str())),
            None => {},
        }
        proof {
            assert(lines.deep_view() =~= g4);
        }
        match &self.pass {
            Some(_) => lines.push("  Pass: *******".to_owned()),
            None => {},
        }
        proof {
            assert(lines.deep_view() =~= g5);
        }
        match &self.identity {
            Some(x) => lines.push("  Identity: ".to_owned().concat(x.as_str())),
            None => {},
        }
        proof {
            assert(lines.deep_view() =~= spec_info_lines(self@, machine@));
        }
        lines
    }
}

/// The password's value never shows: two records that agree on everything
/// but the password's value — one set wherever the other is — describe the
/// same lines, whatever the two passwords are.
pub proof fn lemma_info_masks_secret(a: ConfigView, b: ConfigView, machine: Seq<char>)
    requires
        a.ip == b.ip,
        a.port == b.port,
        a.user == b.user,
        a.identity == b.identity,
        a.pass is Some <==> b.pass is Some,
    ensures
        spec_info_lines(a, machine) == spec_info_lines(b, machine),
{
}

/// Selector for one of the five record fields.
pub ghost enum Field {
    /// The IP field.
    Ip,
    /// The port field.
    Port,
    /// The username field.
    User,
    /// The password field.
    Pass,
    /// The identity-key field.
    Identity,
}

/// The value a set field carries: text, or the port number.
pub ghost enum FieldValue {
    /// A string-valued field.
    Text(Seq<char>),
    /// The numeric port field.
    Number(u16),
}

/// The chosen field of a record, when set.
pub open spec fn field_of(c: ConfigView, f: Field) -> Option<FieldValue> {
    match f {
        Field::Ip => match c.ip {
            Some(s) => Some(FieldValue::Text(s)),
            None => None,
        },
        Field::Port => match c.port {
            Some(p) => Some(FieldValue::Number(p)),
            None => None,
        },
        Field::User => match c.user {
            Some(s) => Some(FieldValue::Text(s)),
            None => None,
        },
        Field::Pass => match c.pass {
            Some(s) => Some(FieldValue::Text(s)),
            None => None,
        },
        Field::Identity => match c.identity {
            Some(s) => Some(FieldValue::Text(s)),
            None => None,
        },
    }
}

/// Merge acts on every field independently: a merged field is the
/// override's when the override sets it, and the base's otherwise.
pub proof fn lemma_merge_field(a: ConfigView, b: ConfigView, f: Field)
    ensures
        field_of(spec_merge(a, b), f) == (if field_of(b, f) is Some {
            field_of(b, f)
        } else {
            field_of(a, f)
        }),
{
}

/// Merging the same override twice changes nothing: applying `b` on top of
/// `a` gives the same record as applying that result on top of `a` again.
pub proof fn lemma_merge_idempotent(a: ConfigView, b: ConfigView)
    ensures
        spec_merge(a, spec_merge(a, b)) == spec_merge(a, b),
{
}

/// Merge is right-biased: wherever the override sets a field, the merged
/// record carries the override's value.
pub proof fn lemma_merge_right_biased(a: ConfigView, b: ConfigView)
    ensures
        b.ip is Some ==> spec_merge(a, b).ip == b.ip,
        b.port is Some ==> spec_merge(a, b).port == b.port,
        b.user is Some ==> spec_merge(a, b).user == b.user,
        b.pass is Some ==> spec_merge(a, b).pass == b.pass,
        b.identity is Some ==> spec_merge(a, b).identity == b.identity,
{
}

} // verus!
