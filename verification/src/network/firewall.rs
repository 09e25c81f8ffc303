//! Rules of the firewall.

use crate::shell::{Invocation, InvocationView};
use crate::text::texts;
use vstd::prelude::*;
use vstd::string::*;

verus! {

/// Adds and deletes rules of the firewall.
#[derive(Debug, Clone, Copy, PartialEq, Eq, Structural)]
pub struct FirewallManager;

/// The `iptables` tool, asked to do `action` with `rule` in `chain`.
pub open spec fn iptables(action: Seq<char>, chain: Seq<char>, rule: Seq<Seq<char>>) -> InvocationView {
    InvocationView { program: "iptables"@, args: seq![action, chain] + rule }
}

/// The rule that lets through what comes in (`-i`) or goes out (`-o`) by
/// `interface`.
pub open spec fn accept_rule(direction: Seq<char>, interface: Seq<char>) -> Seq<Seq<char>> {
    seq![direction, interface, "-j"@, "ACCEPT"@]
}

impl FirewallManager {
    /// The command for `action` with `rule` in `chain`.
    fn command(action: &str, chain: &str, rule: &Vec<String>) -> (command: Invocation)
        ensures
            command@ == iptables(action@, chain@, texts(rule@)),
    {
        let mut args: Vec<String> = Vec::new();
        args.push(String::from_str(action));
        args.push(String::from_str(chain));
        let ghost head = texts(args@);
        assert(head =~= seq![action@, chain@]);
        let mut i: usize = 0;
        assert(texts(args@) =~= head + texts(rule@).take(0));
        while i < rule.len()
            invariant
                i <= rule.len(),
                texts(args@) == head + texts(rule@).take(i as int),
            decreases rule.len() - i,
        {
            let ghost before = texts(args@);
            let item = rule[i].clone();
            args.push(item);
            assert(texts(args@) =~= before.push(rule@[i as int]@));
            assert(texts(rule@).take(i + 1) =~= texts(rule@).take(i as int).push(rule@[i as int]@));
            i = i + 1;
        }
        assert(texts(rule@).take(i as int) =~= texts(rule@));
        Invocation { program: String::from_str("iptables"), args }
    }

    /// The command that appends `rule` to `chain`.
    pub fn add_rule_command(chain: &str, rule: &Vec<String>) -> (command: Invocation)
        ensures
            command@ == iptables("-A"@, chain@, texts(rule@)),
    {
        FirewallManager::command("-A", chain, rule)
    }

    /// The command that deletes `rule` from `chain`.
    pub fn delete_rule_command(chain: &str, rule: &Vec<String>) -> (command: Invocation)
        ensures
            command@ == iptables("-D"@, chain@, texts(rule@)),
    {
        FirewallManager::command("-D", chain, rule)
    }

    /// The rule that lets through what passes `interface` in the given
    /// direction.
    fn accept(direction: &str, interface: &str) -> (rule: Vec<String>)
        ensures
            texts(rule@) == accept_rule(direction@, interface@),
    {
        let mut rule: Vec<String> = Vec::new();
        rule.push(String::from_str(direction));
        rule.push(String::from_str(interface));
        rule.push(String::from_str("-j"));
        rule.push(String::from_str("ACCEPT"));
        assert(texts(rule@) =~= accept_rule(direction@, interface@));
        rule
    }

    /// The commands that let the traffic of a container's interface
    /// through: first what comes in by it, then what goes out.
    pub fn allow_container_interface(interface: &str) -> (commands: (Invocation, Invocation))
        ensures
            commands.0@ == iptables("-A"@, "FORWARD"@, accept_rule("-i"@, interface@)),
            commands.1@ == iptables("-A"@, "FORWARD"@, accept_rule("-o"@, interface@)),
    {
        let incoming = FirewallManager::accept("-i", interface);
        let outgoing = FirewallManager::accept("-o", interface);
        (
            FirewallManager::add_rule_command("FORWARD", &incoming),
            FirewallManager::add_rule_command("FORWARD", &outgoing),
        )
    }

    /// The commands that stop letting the traffic of a container's
    /// interface through.
    pub fn block_container_interface(interface: &str) -> (commands: (Invocation, Invocation))
        ensures
            commands.0@ == iptables("-D"@, "FORWARD"@, accept_rule("-i"@, interface@)),
            commands.1@ == iptables("-D"@, "FORWARD"@, accept_rule("-o"@, interface@)),
    {
        let incoming = FirewallManager::accept("-i", interface);
        let outgoing = FirewallManager::accept("-o", interface);
        (
            FirewallManager::delete_rule_command("FORWARD", &incoming),
            FirewallManager::delete_rule_command("FORWARD", &outgoing),
        )
    }
}

} // verus!
