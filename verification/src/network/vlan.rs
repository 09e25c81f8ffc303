//! VLAN interfaces.

use crate::network::bridge::ip;
use crate::shell::{invoke, slices, Invocation};
use crate::text::{decimal, push_decimal};
use vstd::prelude::*;
use vstd::string::*;

verus! {

/// Creates and deletes VLAN interfaces.
#[derive(Debug, Clone, Copy, PartialEq, Eq, Structural)]
pub struct VlanManager;

/// The name of a VLAN interface: the one that was asked for, or the
/// parent's name, a dot and the number of the VLAN.
pub open spec fn vlan_name_of(parent: Seq<char>, vlan_id: u16, name: Option<Seq<char>>) -> Seq<char> {
    match name {
        Some(n) => n,
        None => parent + "."@ + decimal(vlan_id as nat),
    }
}

impl VlanManager {
    /// The name of the VLAN interface `vlan_id` on `parent`.
    pub fn vlan_name(parent: &str, vlan_id: u16, name: Option<&str>) -> (out: String)
        ensures
            out@ == vlan_name_of(
                parent@,
                vlan_id,
                match name {
                    Some(n) => Some(n@),
                    None => None,
                },
            ),
    {
        match name {
            Some(n) => String::from_str(n),
            None => {
                let mut out = String::from_str(parent);
                out.append(".");
                push_decimal(&mut out, vlan_id as u64);
                out
            },
        }
    }

    /// The commands that create the VLAN interface `vlan_name` for
    /// `vlan_id` on `parent`: the link is added, then brought up.
    pub fn create_commands(parent: &str, vlan_id: u16, vlan_name: &str) -> (commands: (Invocation, Invocation))
        ensures
            commands.0@ == ip(
                seq![
                    "link"@,
                    "add"@,
                    "link"@,
                    parent@,
                    "name"@,
                    vlan_name@,
                    "type"@,
                    "vlan"@,
                    "id"@,
                    decimal(vlan_id as nat),
                ],
            ),
            commands.1@ == ip(seq!["link"@, "set"@, vlan_name@, "up"@]),
    {
        let mut id = String::new();
        push_decimal(&mut id, vlan_id as u64);
        assert(id@ =~= decimal(vlan_id as nat));
        let add = ["link", "add", "link", parent, "name", vlan_name, "type", "vlan", "id", id.as_str()];
        assert(slices(add@) =~= seq![
            "link"@,
            "add"@,
            "link"@,
            parent@,
            "name"@,
            vlan_name@,
            "type"@,
            "vlan"@,
            "id"@,
            decimal(vlan_id as nat),
        ]);
        let up = ["link", "set", vlan_name, "up"];
        assert(slices(up@) =~= seq!["link"@, "set"@, vlan_name@, "up"@]);
        (invoke("ip", add.as_slice()), invoke("ip", up.as_slice()))
    }

    /// The command that deletes the VLAN interface `name`.
    pub fn delete_command(name: &str) -> (command: Invocation)
        ensures
            command@ == ip(seq!["link"@, "delete"@, name@]),
    {
        let list = ["link", "delete", name];
        let command = invoke("ip", list.as_slice());
        assert(slices(list@) =~= seq!["link"@, "delete"@, name@]);
        command
    }
}

} // verus!
