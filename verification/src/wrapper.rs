//! Command lines for the external tools: every argument list is computed
//! and pinned down here; running the commands is a caller's business.
use vstd::prelude::*;

use crate::digits::{dec_digits, port_string};
use crate::record::{ConfigView, MachineConfig};

verus! {

/// SSH Copy direction
pub enum ScpDirection {
    /// Push direction (host -> machine)
    Push,
    /// Pull direction (machine -> host)
    Pull,
}

/// The port argument: the configured port in decimal, or 22 when unset.
pub open spec fn spec_port_arg(port: Option<u16>) -> Seq<char> {
    match port {
        Some(p) => dec_digits(p as int),
        None => dec_digits(22),
    }
}

/// The identity-file arguments: the identity flag and path when an identity
/// key is configured, nothing otherwise.
pub open spec fn spec_identity_args(c: ConfigView) -> Seq<Seq<char>> {
    match c.identity {
        Some(id) => seq!["-i"@, id],
        None => Seq::empty(),
    }
}

/// A remote file location: the host, qualified as `user@host` when a user
/// is configured, then the path behind a colon.
pub open spec fn spec_remote_path(c: ConfigView, path: Seq<char>) -> Seq<char> {
    match c.user {
        Some(u) => u + seq!['@'] + c.ip->0 + seq![':'] + path,
        None => c.ip->0 + seq![':'] + path,
    }
}

/// The full scp argument list: program name, identity arguments, the port
/// flag, then source and destination with the machine's side qualified as a
/// remote location.
pub open spec fn spec_scp_args(
    c: ConfigView,
    source: Seq<char>,
    destination: Seq<char>,
    direction: ScpDirection,
) -> Seq<Seq<char>> {
    let transfer = match direction {
        ScpDirection::Push => seq![source, spec_remote_path(c, destination)],
        ScpDirection::Pull => seq![spec_remote_path(c, source), destination],
    };
    seq!["scp"@] + spec_identity_args(c) + seq!["-P"@, spec_port_arg(c.port)] + transfer
}

/// The full ssh argument list: program name, identity arguments, the port
/// flag, the host — qualified by the explicit user if one is given, else by
/// the configured user if any — and the tmux command when asked for.
pub open spec fn spec_ssh_args(
    c: ConfigView,
    user: Option<Seq<char>>,
    tmux: bool,
) -> Seq<Seq<char>> {
    let name = match user {
        Some(u) => Some(u),
        None => c.user,
    };
    let host = match name {
        Some(u) => u + seq!['@'] + c.ip->0,
        None => c.ip->0,
    };
    seq!["ssh"@] + spec_identity_args(c) + seq!["-p"@, spec_port_arg(c.port)] + seq![host] + (
    if tmux {
        seq!["tmux attach || tmux new"@]
    } else {
        Seq::empty()
    })
}

/// Model of an optional borrowed string.
pub open spec fn opt_ref_view(o: Option<&str>) -> Option<Seq<char>> {
    match o {
        Some(s) => Some(s@),
        None => None,
    }
}

/// Ping a machine: the argument list of the ping command.
///
/// # Arguments
///
/// * `ip` - Machine IP
///
pub fn ping(ip: &str) -> (r: Vec<String>)
    ensures
        r.deep_view() == seq!["ping"@, ip@],
{
    let mut args: Vec<String> = Vec::new();
    args.push("ping".to_owned());
    args.push(ip.to_owned());
    proof {
        assert(args.deep_view() =~= seq!["ping"@, ip@]);
    }
    args
}

/// The identity and port arguments shared by scp and ssh.
fn push_common_args(args: &mut Vec<String>, config: &MachineConfig, port_flag: &str)
    ensures
        final(args).deep_view() == old(args).deep_view() + spec_identity_args(config@) + seq![
            port_flag@,
            spec_port_arg(config@.port),
        ],
{
    match &config.identity {
        Some(id) => {
            args.push("-i".to_owned());
            args.push(id.clone());
        },
        None => {},
    }
    args.push(port_flag.to_owned());
    match config.port {
        Some(p) => {
            args.push(port_string(p));
        },
        None => {
            args.push(port_string(22));
        },
    }
    proof {
        assert(args.deep_view() =~= old(args).deep_view() + spec_identity_args(config@) + seq![
            port_flag@,
            spec_port_arg(config@.port),
        ]);
    }
}

/// The remote location of a path on the machine, `user@host:path` or
/// `host:path`.
fn remote_path(config: &MachineConfig, path: &str) -> (r: String)
    requires
        config@.ip is Some,
    ensures
        r@ == spec_remote_path(config@, path@),
{
    proof {
        reveal_strlit("@");
        reveal_strlit(":");
        assert("@"@ =~= seq!['@']);
        assert(":"@ =~= seq![':']);
    }
    let host = match &config.user {
        Some(u) => {
            let r = u.clone().concat("@");
            r
        },
        None => String::new(),
    };
    let ip = match &config.ip {
        Some(ip) => ip.clone(),
        None => String::new(),
    };
    let r = host.concat(ip.as_str()).concat(":").concat(path);
    proof {
        assert(r@ =~= spec_remote_path(config@, path@));
    }
    r
}

/// Copy a file from machine to host, or the other way: the argument list of
/// the scp command.
///
/// # Arguments
///
/// * `config` - Machine configuration
/// * `source` - Source path
/// * `destination` - Destination path
/// * `direction` - Copy direction
///
pub fn scp(config: &MachineConfig, source: &str, destination: &str, direction: ScpDirection) -> (r:
    Vec<String>)
    requires
        config@.ip is Some,
    ensures
        r.deep_view() == spec_scp_args(config@, source@, destination@, direction),
{
    let mut args: Vec<String> = Vec::new();
    args.push("scp".to_owned());
    proof {
        assert(args.deep_view() =~= seq!["scp"@]);
    }
    push_common_args(&mut args, config, "-P");
    proof {
        assert(args.deep_view() =~= seq!["scp"@] + spec_identity_args(config@) + seq![
            "-P"@,
            spec_port_arg(config@.port),
        ]);
    }
    match direction {
        ScpDirection::Push => {
            args.push(source.to_owned());
            args.push(remote_path(config, destination));
            proof {
                assert(args.deep_view() =~= spec_scp_args(
                    config@,
                    source@,
                    destination@,
                    direction,
                ));
            }
        },
        ScpDirection::Pull => {
            args.push(remote_path(config, source));
            args.push(destination.to_owned());
            proof {
                assert(args.deep_view() =~= spec_scp_args(
                    config@,
                    source@,
                    destination@,
                    direction,
                ));
            }
        },
    }
    args
}

/// Connect to a machine: the argument list of the ssh command.
///
/// # Arguments
///
/// * `config` - Machine configuration
/// * `user` - Username overriding the configured one
/// * `tmux` - Attach to or open a `tmux` session
///
pub fn ssh(config: &MachineConfig, user: Option<&str>, tmux: bool) -> (r: Vec<String>)
    requires
        config@.ip is Some,
    ensures
        r.deep_view() == spec_ssh_args(config@, opt_ref_view(user), tmux),
{
    proof {
        reveal_strlit("@");
        assert("@"@ =~= seq!['@']);
    }
    let mut args: Vec<String> = Vec::new();
    args.push("ssh".to_owned());
    proof {
        assert(args.deep_view() =~= seq!["ssh"@]);
    }
    push_common_args(&mut args, config, "-p");
    proof {
        assert(args.deep_view() =~= seq!["ssh"@] + spec_identity_args(config@) + seq![
            "-p"@,
            spec_port_arg(config@.port),
        ]);
    }
    let name = match user {
        Some(u) => Some(u.to_owned()),
        None => match &config.user {
            Some(u) => Some(u.clone()),
            None => None,
        },
    };
    let ip = match &config.ip {
        Some(ip) => ip.clone(),
        None => String::new(),
    };
    let host = match name {
        Some(u) => u.concat("@").concat(ip.as_str()),
        None => ip,
    };
    args.push(host);
    if tmux {
        args.push("tmux attach || tmux new".to_owned());
        proof {
            assert(args.deep_view() =~= spec_ssh_args(config@, opt_ref_view(user), tmux));
        }
    } else {
        proof {
            assert(args.deep_view() =~= spec_ssh_args(config@, opt_ref_view(user), tmux));
        }
    }
    args
}

} // verus!
