//! The IPC process: one node of the DIF, tying the subsystems together and
//! tracking the process lifecycle.

use vstd::prelude::*;
use crate::cdap::CdapSession;
use crate::directory::Directory;
use crate::efcp::Efcp;
use crate::enrollment::EnrollmentManager;
use crate::fal::FlowAllocator;
use crate::rib::Rib;
use crate::rmt::Rmt;

verus! {

/// Lifecycle of the process.
#[derive(Debug, Clone, PartialEq, Eq)]
pub enum IpcpState {
    /// Starting up.
    Initializing,
    /// Ready but not yet enrolled.
    Ready,
    /// Enrolling in a DIF.
    Enrolling,
    /// Enrolled and forwarding.
    Operational,
    /// Shutting down.
    ShuttingDown,
    /// Shut down; cannot be restarted.
    Shutdown,
    /// Broken, with the reason.
    Error(String),
}

/// Model of the lifecycle state.
pub enum IpcpStateModel {
    Initializing,
    Ready,
    Enrolling,
    Operational,
    ShuttingDown,
    Shutdown,
    Error(Seq<char>),
}

impl View for IpcpState {
    type V = IpcpStateModel;

    open spec fn view(&self) -> IpcpStateModel {
        match self {
            IpcpState::Initializing => IpcpStateModel::Initializing,
            IpcpState::Ready => IpcpStateModel::Ready,
            IpcpState::Enrolling => IpcpStateModel::Enrolling,
            IpcpState::Operational => IpcpStateModel::Operational,
            IpcpState::ShuttingDown => IpcpStateModel::ShuttingDown,
            IpcpState::Shutdown => IpcpStateModel::Shutdown,
            IpcpState::Error(e) => IpcpStateModel::Error(e@),
        }
    }
}

/// One complete IPC process: its identity and every subsystem it owns.
/// The network socket itself lives outside this crate; the subsystems here
/// work on decoded values.
#[derive(Debug)]
pub struct IpcProcess {
    /// The process name.
    pub name: Option<String>,
    /// Its address in the DIF; `None` before assignment.
    pub address: Option<u64>,
    /// The DIF it belongs to.
    pub dif_name: Option<String>,
    /// Lifecycle state.
    pub state: IpcpState,
    /// The object store.
    pub rib: Rib,
    /// The control-plane session.
    pub cdap: CdapSession,
    /// Per-flow transport.
    pub efcp: Efcp,
    /// PDU forwarding.
    pub rmt: Rmt,
    /// Flow allocation.
    pub fal: FlowAllocator,
    /// Name resolution.
    pub directory: Directory,
    /// The join protocol.
    pub enrollment: EnrollmentManager,
}

impl IpcProcess {
    /// A process with no name and no address, still initializing.
    pub fn new() -> (r: Self)
        ensures
            r.name is None,
            r.address is None,
            r.dif_name is None,
            r.state@ is Initializing,
    {
        let rib = Rib::new();
        IpcProcess {
            name: None,
            address: None,
            dif_name: None,
            state: IpcpState::Initializing,
            cdap: CdapSession::new(Rib::new()),
            efcp: Efcp::new(),
            rmt: Rmt::new(0),
            fal: FlowAllocator::new(),
            directory: Directory::new(),
            enrollment: EnrollmentManager::new(Rib::new(), 0),
            rib,
        }
    }

    /// A named process at a known address, ready to run.
    pub fn with_name_and_address(name: String, address: u64) -> (r: Self)
        ensures
            r.name matches Some(n) && n@ == name@,
            r.address == Some(address),
            r.dif_name is None,
            r.state@ is Ready,
    {
        let rib = Rib::new();
        let mut copy = String::new();
        copy.append(name.as_str());
        IpcProcess {
            name: Some(copy),
            address: Some(address),
            dif_name: None,
            state: IpcpState::Ready,
            cdap: CdapSession::new(Rib::new()),
            efcp: Efcp::new(),
            rmt: Rmt::new(address),
            fal: FlowAllocator::new(),
            directory: Directory::new(),
            enrollment: EnrollmentManager::new(Rib::new(), address),
            rib,
        }
    }

    /// A named process without an address yet.
    pub fn with_name(name: String) -> (r: Self)
        ensures
            r.name matches Some(n) && n@ == name@,
            r.address == Some(0u64),
            r.state@ is Ready,
    {
        Self::with_name_and_address(name, 0)
    }

    /// Gives the process an address, re-keying the forwarding task.
    pub fn set_address(&mut self, address: u64)
        ensures
            final(self).address == Some(address),
            final(self).name == old(self).name,
            final(self).state == old(self).state,
    {
        self.address = Some(address);
        self.rmt = Rmt::new(address);
    }

    /// Names the DIF this process belongs to.
    pub fn set_dif_name(&mut self, dif_name: String)
        ensures
            final(self).dif_name matches Some(d) && d@ == dif_name@,
            final(self).name == old(self).name,
            final(self).address == old(self).address,
            final(self).state == old(self).state,
    {
        self.dif_name = Some(dif_name);
    }

    /// Moves the process to a new lifecycle state.
    pub fn set_state(&mut self, state: IpcpState)
        ensures
            final(self).state == state,
            final(self).name == old(self).name,
            final(self).address == old(self).address,
            final(self).dif_name == old(self).dif_name,
    {
        self.state = state;
    }

    /// True exactly when operational.
    pub fn is_operational(&self) -> (r: bool)
        ensures
            r == (self.state@ is Operational),
    {
        match self.state {
            IpcpState::Operational => true,
            _ => false,
        }
    }

    /// True exactly when the enrollment subsystem reports membership.
    pub fn is_enrolled(&self) -> (r: bool)
        ensures
            r == (self.enrollment@.state is Enrolled),
    {
        self.enrollment.is_enrolled()
    }

    /// Starts the process; fails exactly after a shutdown.
    pub fn start(&mut self) -> (r: Result<(), String>)
        ensures
            match r {
                Ok(_) => !(old(self).state@ is Shutdown) && final(self).state@ is Ready,
                Err(_) => old(self).state@ is Shutdown && final(self).state == old(self).state,
            },
            final(self).name == old(self).name,
            final(self).address == old(self).address,
    {
        match self.state {
            IpcpState::Shutdown => {
                let mut msg = String::new();
                msg.append("Cannot start a shutdown IPCP");
                Err(msg)
            },
            _ => {
                self.state = IpcpState::Ready;
                Ok(())
            },
        }
    }

    /// Shuts the process down.
    pub fn shutdown(&mut self) -> (r: Result<(), String>)
        ensures
            r is Ok,
            final(self).state@ is Shutdown,
            final(self).name == old(self).name,
            final(self).address == old(self).address,
    {
        self.state = IpcpState::ShuttingDown;
        self.state = IpcpState::Shutdown;
        Ok(())
    }
}

impl Default for IpcProcess {
    /// A process with no name and no address.
    fn default() -> (r: Self)
        ensures
            r.name is None,
            r.address is None,
            r.state@ is Initializing,
    {
        Self::new()
    }
}

} // verus!
