//! The configuration file of a container.

use crate::models::container::{ContainerConfig, ContainerNetworkInterface};
use crate::text::{decimal, push_decimal};
use vstd::prelude::*;
use vstd::string::*;

verus! {

/// Writes the configuration files of containers.
#[derive(Debug, Clone, Copy, PartialEq, Eq, Structural)]
pub struct LxcConfig;

/// The lines every configuration starts with: the name, the architecture
/// and the place of the root file system below `root`.
pub open spec fn head_text(root: Seq<char>, name: Seq<char>) -> Seq<char> {
    "lxc.uts.name = "@ + name + "\n"@ + "lxc.arch = arm64\n"@ + "lxc.rootfs.path = dir:\n"@
        + "lxc.rootfs.path = "@ + root + "/"@ + name + "/rootfs\n"@
}

/// The line that gives the container its processors: the first
/// `cpu_limit` of them.
pub open spec fn cpu_text(cpu_limit: Option<u32>) -> Seq<char> {
    match cpu_limit {
        Some(n) => "lxc.cgroup2.cpuset.cpus = 0-"@ + decimal((n - 1) as nat) + "\n"@,
        None => Seq::empty(),
    }
}

/// The line that limits the memory of the container.
pub open spec fn memory_text(memory_limit: Option<u64>) -> Seq<char> {
    match memory_limit {
        Some(n) => "lxc.cgroup2.memory.max = "@ + decimal(n as nat) + "\n"@,
        None => Seq::empty(),
    }
}

/// One line about the network interface with the number `index`.
pub open spec fn net_line(index: nat, key: Seq<char>, value: Seq<char>) -> Seq<char> {
    "lxc.net."@ + decimal(index) + key + value + "\n"@
}

/// The lines about the network interface with the number `index`.
pub open spec fn interface_text(index: nat, interface: ContainerNetworkInterface) -> Seq<char> {
    net_line(index, ".type = "@, "veth"@) + net_line(index, ".link = "@, interface.bridge@) + net_line(
        index,
        ".name = "@,
        interface.name@,
    ) + match interface.mac {
        Some(mac) => net_line(index, ".hwaddr = "@, mac@),
        None => Seq::empty(),
    }
}

/// The lines about the first `count` network interfaces.
pub open spec fn interfaces_text(interfaces: Seq<ContainerNetworkInterface>, count: nat) -> Seq<char>
    decreases count,
{
    if count == 0 || count > interfaces.len() {
        Seq::empty()
    } else {
        interfaces_text(interfaces, (count - 1) as nat) + interface_text(
            (count - 1) as nat,
            interfaces[count - 1],
        )
    }
}

/// The lines about the first `count` variables of the environment.
pub open spec fn environment_text(environment: Seq<(String, String)>, count: nat) -> Seq<char>
    decreases count,
{
    if count == 0 || count > environment.len() {
        Seq::empty()
    } else {
        environment_text(environment, (count - 1) as nat) + "lxc.environment = "@ + environment[count
            - 1].0@ + "="@ + environment[count - 1].1@ + "\n"@
    }
}

/// The configuration file of the container `name` below `root`.
pub open spec fn config_text(root: Seq<char>, name: Seq<char>, config: ContainerConfig) -> Seq<char> {
    head_text(root, name) + cpu_text(config.cpu_limit) + memory_text(config.memory_limit) + interfaces_text(
        config.network_interfaces@,
        config.network_interfaces@.len(),
    ) + environment_text(config.environment@, config.environment@.len())
}

/// Appends one line about a network interface.
fn push_net_line(out: &mut String, index: usize, key: &str, value: &str)
    ensures
        final(out)@ == old(out)@ + net_line(index as nat, key@, value@),
{
    let ghost before = out@;
    out.append("lxc.net.");
    push_decimal(out, index as u64);
    out.append(key);
    out.append(value);
    out.append("\n");
    assert(out@ =~= before + net_line(index as nat, key@, value@));
}

/// Appends the lines about one network interface.
fn push_interface(out: &mut String, index: usize, interface: &ContainerNetworkInterface)
    ensures
        final(out)@ == old(out)@ + interface_text(index as nat, *interface),
{
    let ghost before = out@;
    push_net_line(out, index, ".type = ", "veth");
    push_net_line(out, index, ".link = ", interface.bridge.as_str());
    push_net_line(out, index, ".name = ", interface.name.as_str());
    match &interface.mac {
        Some(mac) => {
            push_net_line(out, index, ".hwaddr = ", mac.as_str());
        },
        None => {},
    }
    assert(out@ =~= before + interface_text(index as nat, *interface));
}

/// Appends the first lines of a configuration.
fn push_head(out: &mut String, root: &str, name: &str)
    ensures
        final(out)@ == old(out)@ + head_text(root@, name@),
{
    let ghost before = out@;
    out.append("lxc.uts.name = ");
    out.append(name);
    out.append("\n");
    out.append("lxc.arch = arm64\n");
    out.append("lxc.rootfs.path = dir:\n");
    out.append("lxc.rootfs.path = ");
    out.append(root);
    out.append("/");
    out.append(name);
    out.append("/rootfs\n");
    assert(out@ =~= before + head_text(root@, name@));
}

/// Appends the lines about the limits of a container.
fn push_limits(out: &mut String, config: &ContainerConfig)
    requires
        config.cpu_limit != Some(0u32),
    ensures
        final(out)@ == old(out)@ + cpu_text(config.cpu_limit) + memory_text(config.memory_limit),
{
    let ghost before = out@;
    match config.cpu_limit {
        Some(n) => {
            out.append("lxc.cgroup2.cpuset.cpus = 0-");
            push_decimal(out, (n - 1) as u64);
            out.append("\n");
        },
        None => {},
    }
    assert(out@ =~= before + cpu_text(config.cpu_limit));
    let ghost middle = out@;
    match config.memory_limit {
        Some(n) => {
            out.append("lxc.cgroup2.memory.max = ");
            push_decimal(out, n);
            out.append("\n");
        },
        None => {},
    }
    assert(out@ =~= middle + memory_text(config.memory_limit));
}

impl LxcConfig {
    /// Writes the configuration file of the container `name`, whose
    /// directory is below `lxc_root`. A limit of no processors at all cannot
    /// be written.
    pub fn generate(lxc_root: &str, name: &str, config: &ContainerConfig) -> (text: String)
        requires
            config.cpu_limit != Some(0u32),
        ensures
            text@ == config_text(lxc_root@, name@, *config),
    {
        let mut out = String::new();
        push_head(&mut out, lxc_root, name);
        push_limits(&mut out, config);
        assert(out@ =~= head_text(lxc_root@, name@) + cpu_text(config.cpu_limit) + memory_text(
            config.memory_limit,
        ));
        let ghost base = out@;
        let mut i: usize = 0;
        assert(out@ =~= base + interfaces_text(config.network_interfaces@, 0));
        while i < config.network_interfaces.len()
            invariant
                i <= config.network_interfaces.len(),
                out@ == base + interfaces_text(config.network_interfaces@, i as nat),
            decreases config.network_interfaces.len() - i,
        {
            push_interface(&mut out, i, &config.network_interfaces[i]);
            assert(out@ =~= base + interfaces_text(config.network_interfaces@, (i + 1) as nat));
            i = i + 1;
        }
        let ghost middle = out@;
        let mut k: usize = 0;
        assert(out@ =~= middle + environment_text(config.environment@, 0));
        while k < config.environment.len()
            invariant
                k <= config.environment.len(),
                out@ == middle + environment_text(config.environment@, k as nat),
            decreases config.environment.len() - k,
        {
            let ghost before = out@;
            out.append("lxc.environment = ");
            out.append(config.environment[k].0.as_str());
            out.append("=");
            out.append(config.environment[k].1.as_str());
            out.append("\n");
            assert(out@ =~= middle + environment_text(config.environment@, (k + 1) as nat));
            k = k + 1;
        }
        out
    }
}

} // verus!
