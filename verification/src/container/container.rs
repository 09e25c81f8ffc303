//! The commands that manage containers and the records of containers.

use crate::models::container::{Container, ContainerConfig, ContainerStatus};
use crate::shell::{owned, slices};
use crate::sys::{is_random_id, new_id, now_millis};
use crate::text::{equal, texts};
use vstd::prelude::*;
use vstd::string::*;

verus! {

/// Creates, starts, stops and deletes containers.
#[derive(Debug, Clone, Copy, PartialEq, Eq, Structural)]
pub struct ContainerManager;

/// The status that the name of a state stands for; a name that is not
/// known stands for an error.
pub open spec fn status_of(state: Seq<char>) -> ContainerStatus {
    if state == "running"@ {
        ContainerStatus::Running
    } else if state == "stopped"@ {
        ContainerStatus::Stopped
    } else if state == "starting"@ {
        ContainerStatus::Starting
    } else if state == "stopping"@ {
        ContainerStatus::Stopping
    } else if state == "frozen"@ {
        ContainerStatus::Frozen
    } else {
        ContainerStatus::Error
    }
}

/// What is known of a container of which only the name is known: it is
/// stopped, made from an unknown template, without limits, and its root file
/// system is in its directory below `root`.
pub open spec fn is_placeholder(c: Container, root: Seq<char>, name: Seq<char>, status: ContainerStatus) -> bool {
    &&& c.name@ == name
    &&& c.status == status
    &&& c.template@ == "unknown"@
    &&& c.node_id is None
    &&& c.created_at == c.updated_at
    &&& c.config.cpu_limit is None
    &&& c.config.memory_limit is None
    &&& c.config.disk_limit is None
    &&& c.config.network_interfaces@.len() == 0
    &&& c.config.rootfs_path@ == root + "/"@ + name + "/rootfs"@
    &&& c.config.environment@.len() == 0
}

impl ContainerStatus {
    /// The status that the name of a state stands for.
    pub fn from_state(state: &str) -> (status: ContainerStatus)
        ensures
            status == status_of(state@),
    {
        if equal(state, "running") {
            ContainerStatus::Running
        } else if equal(state, "stopped") {
            ContainerStatus::Stopped
        } else if equal(state, "starting") {
            ContainerStatus::Starting
        } else if equal(state, "stopping") {
            ContainerStatus::Stopping
        } else if equal(state, "frozen") {
            ContainerStatus::Frozen
        } else {
            ContainerStatus::Error
        }
    }
}

impl ContainerManager {
    /// The arguments that create the container `name` from `template`.
    pub fn create_args(name: &str, template: &str) -> (args: Vec<String>)
        ensures
            texts(args@) == seq!["create"@, name@, "-t"@, template@],
    {
        let list = ["create", name, "-t", template];
        let args = owned(list.as_slice());
        assert(slices(list@) =~= seq!["create"@, name@, "-t"@, template@]);
        args
    }

    /// The arguments that start the container `name`.
    pub fn start_args(name: &str) -> (args: Vec<String>)
        ensures
            texts(args@) == seq!["start"@, name@],
    {
        let list = ["start", name];
        let args = owned(list.as_slice());
        assert(slices(list@) =~= seq!["start"@, name@]);
        args
    }

    /// The arguments that stop the container `name`.
    pub fn stop_args(name: &str) -> (args: Vec<String>)
        ensures
            texts(args@) == seq!["stop"@, name@],
    {
        let list = ["stop", name];
        let args = owned(list.as_slice());
        assert(slices(list@) =~= seq!["stop"@, name@]);
        args
    }

    /// The arguments that delete the container `name`, running or not.
    pub fn delete_args(name: &str) -> (args: Vec<String>)
        ensures
            texts(args@) == seq!["destroy"@, "-f"@, name@],
    {
        let list = ["destroy", "-f", name];
        let args = owned(list.as_slice());
        assert(slices(list@) =~= seq!["destroy"@, "-f"@, name@]);
        args
    }

    /// The record of a container that was just created from `template`
    /// with `config`, at `now` and with the given identifier: it is stopped
    /// and runs on no node yet.
    pub fn created_with(id: u128, now: i64, name: String, template: String, config: ContainerConfig) -> (container:
        Container)
        ensures
            container == (Container {
                id,
                name,
                status: ContainerStatus::Stopped,
                template,
                node_id: None,
                created_at: now,
                updated_at: now,
                config,
            }),
    {
        Container {
            id,
            name,
            status: ContainerStatus::Stopped,
            template,
            node_id: None,
            created_at: now,
            updated_at: now,
            config,
        }
    }

    /// The record of a container that was just created, with a fresh
    /// identifier and the present time.
    pub fn created(name: String, template: String, config: ContainerConfig) -> (container: Container)
        ensures
            is_random_id(container.id),
            container.name == name,
            container.status == ContainerStatus::Stopped,
            container.template == template,
            container.node_id is None,
            container.created_at == container.updated_at,
            container.config == config,
    {
        let id = new_id();
        let now = now_millis();
        ContainerManager::created_with(id, now, name, template, config)
    }

    /// What is known of a container of which only the name and the status
    /// are known, with the given identifier and time: see
    /// [`is_placeholder`].
    pub fn placeholder_with(id: u128, now: i64, lxc_root: &str, name: &str, status: ContainerStatus) -> (container:
        Container)
        ensures
            container.id == id,
            container.created_at == now,
            is_placeholder(container, lxc_root@, name@, status),
    {
        let mut rootfs_path = String::from_str(lxc_root);
        rootfs_path.append("/");
        rootfs_path.append(name);
        rootfs_path.append("/rootfs");
        Container {
            id,
            name: String::from_str(name),
            status,
            template: String::from_str("unknown"),
            node_id: None,
            created_at: now,
            updated_at: now,
            config: ContainerConfig {
                cpu_limit: None,
                memory_limit: None,
                disk_limit: None,
                network_interfaces: Vec::new(),
                rootfs_path,
                environment: Vec::new(),
            },
        }
    }

    /// What is known of a container of which only the name and the status
    /// are known, with a fresh identifier and the present time.
    pub fn placeholder(lxc_root: &str, name: &str, status: ContainerStatus) -> (container: Container)
        ensures
            is_random_id(container.id),
            is_placeholder(container, lxc_root@, name@, status),
    {
        ContainerManager::placeholder_with(new_id(), now_millis(), lxc_root, name, status)
    }
}

} // verus!
