//! The records that the provider's commands are written from.

use vstd::prelude::*;
use crate::utils::types::{CidrIP, Ipv4Address};

verus! {

/// What holds for the whole deployment.
#[derive(Debug)]
pub struct Globals {
    pub location: String,
    pub resource_group: String,
    pub has_stub_network: bool,
}

/// The virtual network. It has one prefix; its subnets divide it.
#[derive(Debug)]
pub struct Vnet {
    pub name: String,
    pub address_prefixes: CidrIP,
}

/// A subnet of the virtual network, with its one prefix.
#[derive(Debug)]
pub struct Subnet {
    pub name: String,
    pub address_prefixes: CidrIP,
}

/// A network interface of a machine. The provider picks the public address
/// of an interface that has one.
#[derive(Debug)]
pub struct Nic {
    pub name: String,
    pub vnet: String,
    pub subnet: String,
    pub private_ip_address: Ipv4Address,
    pub has_public_ip_address: bool,
}

/// A network interface as plain values.
pub struct NicView {
    pub name: Seq<char>,
    pub vnet: Seq<char>,
    pub subnet: Seq<char>,
    pub private_ip_address: Ipv4Address,
    pub has_public_ip_address: bool,
}

impl View for Nic {
    type V = NicView;

    open spec fn view(&self) -> NicView {
        NicView {
            name: self.name@,
            vnet: self.vnet@,
            subnet: self.subnet@,
            private_ip_address: self.private_ip_address,
            has_public_ip_address: self.has_public_ip_address,
        }
    }
}

impl Nic {
    /// The interface of a machine that is connected to no other: it has a
    /// public address.
    pub fn new_with_public_ip(name: String, vnet: String, subnet: String, private_ip: Ipv4Address) -> (r:
        Self)
        ensures
            r@ == (NicView {
                name: name@,
                vnet: vnet@,
                subnet: subnet@,
                private_ip_address: private_ip,
                has_public_ip_address: true,
            }),
    {
        Nic { name, vnet, subnet, private_ip_address: private_ip, has_public_ip_address: true }
    }

    /// A copy of the interface.
    pub fn duplicate(&self) -> (r: Self)
        ensures
            r@ == self@,
    {
        Nic {
            name: self.name.clone(),
            vnet: self.vnet.clone(),
            subnet: self.subnet.clone(),
            private_ip_address: self.private_ip_address,
            has_public_ip_address: self.has_public_ip_address,
        }
    }
}

/// The interfaces as plain values.
pub open spec fn nic_views(nics: Seq<Nic>) -> Seq<NicView> {
    Seq::new(nics.len(), |i: int| nics[i]@)
}

/// Every interface with a public address stands before every interface
/// without one.
pub open spec fn public_first(nics: Seq<NicView>) -> bool {
    forall|i: int, j: int|
        0 <= i < j < nics.len() && (#[trigger] nics[j]).has_public_ip_address ==> (
        #[trigger] nics[i]).has_public_ip_address
}

/// A machine as the provider creates it.
#[derive(Debug)]
pub struct Vm {
    pub name: String,
    pub nics: Vec<Nic>,
    pub image: String,
    pub size: String,
    pub admin_username: String,
    pub admin_password: String,
    pub authentication_type: String,
    pub custom_script: String,
}

/// The whole deployment: the virtual network, its subnets and the machines.
#[derive(Debug)]
pub struct WholeSystem {
    pub global_config: Globals,
    pub vnet: Vnet,
    pub subnets: Vec<Subnet>,
    pub vms: Vec<Vm>,
}

} // verus!
