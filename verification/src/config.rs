//! Configuration of an IPC process: operating mode, addressing, enrollment
//! timing, routing and RIB persistence, plus the validation rules each
//! mode imposes.  Reading a configuration file or the command line happens
//! outside this crate; the parsed values are validated here.

use vstd::prelude::*;
use crate::strutil::str_eq;

verus! {

broadcast use vstd::seq_lib::group_seq_lib_default, vstd::seq::group_seq_axioms, vstd::std_specs::vec::group_vec_axioms;

/// How the process participates in the DIF.
#[derive(Debug, Clone, Copy, PartialEq, Eq, Structural)]
pub enum IpcpMode {
    /// First process of the DIF: static address, owns the address pool.
    Bootstrap,
    /// Joins an existing DIF by enrolling with a bootstrap.
    Member,
    /// Runs the local walkthrough without networking.
    Demo,
}

impl IpcpMode {
    /// The mode's configuration name.
    pub fn to_string(&self) -> (r: String)
        ensures
            match self {
                IpcpMode::Bootstrap => r@ == "bootstrap"@,
                IpcpMode::Member => r@ == "member"@,
                IpcpMode::Demo => r@ == "demo"@,
            },
    {
        let mut s = String::new();
        match self {
            IpcpMode::Bootstrap => s.append("bootstrap"),
            IpcpMode::Member => s.append("member"),
            IpcpMode::Demo => s.append("demo"),
        }
        s
    }

    /// Parses a mode name; fails on anything but the three mode names.
    pub fn parse_mode(s: &str) -> (r: Result<IpcpMode, String>)
        ensures
            match r {
                Ok(m) => (s@ == "bootstrap"@ ==> m == IpcpMode::Bootstrap) && (s@ == "member"@
                    ==> m == IpcpMode::Member) && (s@ == "demo"@ ==> m == IpcpMode::Demo),
                Err(_) => s@ != "bootstrap"@ && s@ != "member"@ && s@ != "demo"@,
            },
    {
        proof {
            reveal_strlit("bootstrap");
            reveal_strlit("member");
            reveal_strlit("demo");
            assert("bootstrap"@.len() == 9);
            assert("member"@.len() == 6);
            assert("demo"@.len() == 4);
        }
        if str_eq(s, "bootstrap") {
            Ok(IpcpMode::Bootstrap)
        } else if str_eq(s, "member") {
            Ok(IpcpMode::Member)
        } else if str_eq(s, "demo") {
            Ok(IpcpMode::Demo)
        } else {
            let mut msg = String::new();
            msg.append("Invalid mode: ");
            msg.append(s);
            msg.append(". Use 'bootstrap', 'member', or 'demo'");
            Err(msg)
        }
    }
}

impl core::str::FromStr for IpcpMode {
    type Err = String;

    fn from_str(s: &str) -> Result<IpcpMode, String> {
        IpcpMode::parse_mode(s)
    }
}

/// One bootstrap peer a member may enroll with.
#[derive(Debug, Clone)]
pub struct BootstrapPeer {
    /// The peer's socket address (`host:port`).
    pub address: String,
    /// The peer's RINA address, when known.
    pub rina_addr: Option<u64>,
}

/// One statically configured route.
#[derive(Debug, Clone)]
pub struct StaticRoute {
    /// Destination RINA address.
    pub destination: u64,
    /// Next-hop socket address (`host:port`).
    pub next_hop_address: String,
    /// Next-hop RINA address.
    pub next_hop_rina_addr: u64,
}

/// The complete, validated configuration of one IPC process.
#[derive(Debug)]
pub struct IpcpConfiguration {
    /// The process name.
    pub name: String,
    /// Its operating mode.
    pub mode: IpcpMode,
    /// The DIF it belongs to or joins.
    pub dif_name: String,
    /// Its static address (bootstrap mode).
    pub address: Option<u64>,
    /// The socket to bind (`host:port`); empty in demo mode.
    pub bind_address: String,
    /// Socket addresses of bootstrap peers (member mode).
    pub bootstrap_peers: Vec<String>,
    /// First address of the assignment pool (bootstrap mode).
    pub address_pool_start: u64,
    /// Last address of the assignment pool (bootstrap mode).
    pub address_pool_end: u64,
    /// Seconds allowed for one enrollment attempt.
    pub enrollment_timeout_secs: u64,
    /// How many enrollment attempts before giving up.
    pub enrollment_max_retries: u32,
    /// First retry backoff in milliseconds.
    pub enrollment_initial_backoff_ms: u64,
    /// Statically configured routes.
    pub static_routes: Vec<StaticRoute>,
    /// Whether dynamic routes are persisted.
    pub enable_route_persistence: bool,
    /// Path of the dynamic-route snapshot file.
    pub route_snapshot_path: String,
    /// TTL of dynamic routes in seconds; 0 never expires.
    pub route_ttl_seconds: u64,
    /// Seconds between route snapshots; 0 disables them.
    pub route_snapshot_interval_seconds: u64,
    /// Whether the RIB is persisted.
    pub enable_rib_persistence: bool,
    /// Path of the RIB snapshot file.
    pub rib_snapshot_path: String,
    /// Seconds between RIB snapshots; 0 disables them.
    pub rib_snapshot_interval_seconds: u64,
    /// How many changes the RIB change log retains.
    pub change_log_size: usize,
    /// Seconds between member RIB synchronizations; 0 disables them.
    pub rib_sync_interval_secs: u64,
}

impl IpcpConfiguration {
    /// The rules each mode imposes: a bootstrap needs an address and a
    /// bind address; a member needs a bind address and at least one
    /// bootstrap peer; the demo needs nothing.
    pub fn validate(&self) -> (r: Result<(), String>)
        ensures
            match self.mode {
                IpcpMode::Bootstrap => r is Ok <==> self.address is Some && self.bind_address@.len()
                    > 0,
                IpcpMode::Member => r is Ok <==> self.bootstrap_peers@.len() > 0
                    && self.bind_address@.len() > 0,
                IpcpMode::Demo => r is Ok,
            },
    {
        match self.mode {
            IpcpMode::Bootstrap => {
                let has_addr = match self.address {
                    Some(_) => true,
                    None => false,
                };
                if !has_addr {
                    let mut msg = String::new();
                    msg.append("Bootstrap mode requires an address");
                    return Err(msg);
                }
                if self.bind_address.as_str().unicode_len() == 0 {
                    let mut msg = String::new();
                    msg.append("Bootstrap mode requires a bind address");
                    return Err(msg);
                }
                Ok(())
            },
            IpcpMode::Member => {
                if self.bootstrap_peers.len() == 0 {
                    let mut msg = String::new();
                    msg.append("Member mode requires at least one bootstrap peer");
                    return Err(msg);
                }
                if self.bind_address.as_str().unicode_len() == 0 {
                    let mut msg = String::new();
                    msg.append("Member mode requires a bind address");
                    return Err(msg);
                }
                Ok(())
            },
            IpcpMode::Demo => Ok(()),
        }
    }
}

} // verus!
