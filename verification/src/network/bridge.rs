//! Bridges.

use crate::models::network::{Bridge, CreateBridgeRequest};
use crate::shell::{invoke, slices, steps_view, Invocation, InvocationView, Step, StepView};
use crate::text::{first_word, first_word_of, lines, lines_of, texts};
use vstd::prelude::*;
use vstd::string::*;

verus! {

/// Creates and deletes bridges and puts interfaces on them.
#[derive(Debug, Clone, Copy, PartialEq, Eq, Structural)]
pub struct BridgeManager;

/// The `ip` tool with the given arguments.
pub open spec fn ip(args: Seq<Seq<char>>) -> InvocationView {
    InvocationView { program: "ip"@, args }
}

/// A step that the plan cannot go on without.
pub open spec fn needed(invocation: InvocationView) -> StepView {
    StepView { invocation, must_succeed: true }
}

/// A step whose failure is only noted.
pub open spec fn tried(invocation: InvocationView) -> StepView {
    StepView { invocation, must_succeed: false }
}

/// What creates a bridge: the link is added, the spanning tree protocol is
/// switched on where it is wanted (a failure of this is only noted), the link
/// is brought up, and it is given its address where it has one.
pub open spec fn create_steps(name: Seq<char>, ip_address: Option<Seq<char>>, stp_enabled: bool) -> Seq<StepView> {
    seq![needed(ip(seq!["link"@, "add"@, "name"@, name, "type"@, "bridge"@]))] + if stp_enabled {
        seq![tried(ip(seq!["link"@, "set"@, name, "type"@, "bridge"@, "stp"@, "on"@]))]
    } else {
        Seq::<StepView>::empty()
    } + seq![needed(ip(seq!["link"@, "set"@, name, "up"@]))] + match ip_address {
        Some(a) => seq![needed(ip(seq!["addr"@, "add"@, a, "dev"@, name]))],
        None => Seq::<StepView>::empty(),
    }
}

/// The names on the lines of a list of links: the first word of every
/// line that has one.
pub open spec fn links_on(lines: Seq<Seq<char>>) -> Seq<Seq<char>>
    decreases lines.len(),
{
    if lines.len() == 0 {
        Seq::empty()
    } else if first_word_of(lines.last()).len() > 0 {
        links_on(lines.drop_last()).push(first_word_of(lines.last()))
    } else {
        links_on(lines.drop_last())
    }
}

/// Adds a step to a plan.
fn push_step(plan: &mut Vec<Step>, invocation: Invocation, must_succeed: bool)
    ensures
        steps_view(final(plan)@) == steps_view(old(plan)@) + seq![
            StepView { invocation: invocation@, must_succeed },
        ],
{
    let ghost before = steps_view(plan@);
    plan.push(Step { invocation, must_succeed });
    assert(steps_view(plan@) =~= before + seq![StepView { invocation: invocation@, must_succeed }]);
}

impl BridgeManager {
    /// The command that tells, by whether it succeeds, whether the bridge
    /// `name` is there.
    pub fn exists_command(name: &str) -> (command: Invocation)
        ensures
            command@ == ip(seq!["link"@, "show"@, name@]),
    {
        let list = ["link", "show", name];
        let command = invoke("ip", list.as_slice());
        assert(slices(list@) =~= seq!["link"@, "show"@, name@]);
        command
    }

    /// What creates the bridge that `request` asks for: see
    /// [`create_steps`].
    pub fn create_plan(request: &CreateBridgeRequest) -> (plan: Vec<Step>)
        ensures
            steps_view(plan@) == create_steps(
                request.name@,
                match request.ip_address {
                    Some(a) => Some(a@),
                    None => None,
                },
                request.stp_enabled,
            ),
    {
        let name = request.name.as_str();
        let mut plan: Vec<Step> = Vec::new();
        assert(steps_view(plan@) =~= Seq::<StepView>::empty());
        let add = ["link", "add", "name", name, "type", "bridge"];
        assert(slices(add@) =~= seq!["link"@, "add"@, "name"@, name@, "type"@, "bridge"@]);
        push_step(&mut plan, invoke("ip", add.as_slice()), true);
        if request.stp_enabled {
            let stp = ["link", "set", name, "type", "bridge", "stp", "on"];
            assert(slices(stp@) =~= seq!["link"@, "set"@, name@, "type"@, "bridge"@, "stp"@, "on"@]);
            push_step(&mut plan, invoke("ip", stp.as_slice()), false);
        }
        let up = ["link", "set", name, "up"];
        assert(slices(up@) =~= seq!["link"@, "set"@, name@, "up"@]);
        push_step(&mut plan, invoke("ip", up.as_slice()), true);
        match &request.ip_address {
            Some(a) => {
                let addr = ["addr", "add", a.as_str(), "dev", name];
                assert(slices(addr@) =~= seq!["addr"@, "add"@, a@, "dev"@, name@]);
                push_step(&mut plan, invoke("ip", addr.as_slice()), true);
            },
            None => {},
        }
        assert(steps_view(plan@) =~= create_steps(
            request.name@,
            match request.ip_address {
                Some(a) => Some(a@),
                None => None,
            },
            request.stp_enabled,
        ));
        plan
    }

    /// The record of the bridge that `request` asked for, once it is
    /// created: no interface is on it yet.
    pub fn created(request: CreateBridgeRequest) -> (bridge: Bridge)
        ensures
            bridge.name == request.name,
            bridge.interfaces@.len() == 0,
            bridge.ip_address == request.ip_address,
            bridge.stp_enabled == request.stp_enabled,
    {
        Bridge {
            name: request.name,
            interfaces: Vec::new(),
            ip_address: request.ip_address,
            stp_enabled: request.stp_enabled,
        }
    }

    /// What deletes the bridge `name`: the link is brought down (a failure
    /// of this is only noted) and deleted.
    pub fn delete_plan(name: &str) -> (plan: Vec<Step>)
        ensures
            steps_view(plan@) == seq![
                tried(ip(seq!["link"@, "set"@, name@, "down"@])),
                needed(ip(seq!["link"@, "delete"@, name@])),
            ],
    {
        let mut plan: Vec<Step> = Vec::new();
        assert(steps_view(plan@) =~= Seq::<StepView>::empty());
        let down = ["link", "set", name, "down"];
        assert(slices(down@) =~= seq!["link"@, "set"@, name@, "down"@]);
        push_step(&mut plan, invoke("ip", down.as_slice()), false);
        let delete = ["link", "delete", name];
        assert(slices(delete@) =~= seq!["link"@, "delete"@, name@]);
        push_step(&mut plan, invoke("ip", delete.as_slice()), true);
        assert(steps_view(plan@) =~= seq![
            tried(ip(seq!["link"@, "set"@, name@, "down"@])),
            needed(ip(seq!["link"@, "delete"@, name@])),
        ]);
        plan
    }

    /// The command that lists the bridges, one on each line.
    pub fn list_command() -> (command: Invocation)
        ensures
            command@ == ip(seq!["-br"@, "link"@, "show"@, "type"@, "bridge"@]),
    {
        let list = ["-br", "link", "show", "type", "bridge"];
        let command = invoke("ip", list.as_slice());
        assert(slices(list@) =~= seq!["-br"@, "link"@, "show"@, "type"@, "bridge"@]);
        command
    }

    /// The names of the bridges that a list of them holds.
    pub fn parse_list(output: &str) -> (names: Vec<String>)
        ensures
            texts(names@) == links_on(lines_of(output@)),
    {
        let all = lines(output);
        let mut names: Vec<String> = Vec::new();
        let mut i: usize = 0;
        assert(texts(all@).take(0) =~= Seq::<Seq<char>>::empty());
        assert(texts(names@) =~= Seq::<Seq<char>>::empty());
        while i < all.len()
            invariant
                i <= all.len(),
                texts(names@) == links_on(texts(all@).take(i as int)),
            decreases all.len() - i,
        {
            let ghost before = texts(names@);
            proof {
                assert(texts(all@).take(i + 1).drop_last() =~= texts(all@).take(i as int));
                assert(texts(all@).take(i + 1).last() == all@[i as int]@);
            }
            match first_word(all[i].as_str()) {
                Some(name) => {
                    let ghost text = name@;
                    names.push(name);
                    assert(texts(names@) =~= before.push(text));
                },
                None => {},
            }
            i = i + 1;
        }
        assert(texts(all@).take(i as int) =~= texts(all@));
        names
    }

    /// The command that puts `interface` on `bridge`.
    pub fn add_interface_command(bridge: &str, interface: &str) -> (command: Invocation)
        ensures
            command@ == ip(seq!["link"@, "set"@, interface@, "master"@, bridge@]),
    {
        let list = ["link", "set", interface, "master", bridge];
        let command = invoke("ip", list.as_slice());
        assert(slices(list@) =~= seq!["link"@, "set"@, interface@, "master"@, bridge@]);
        command
    }

    /// The command that takes `interface` off the bridge it is on.
    pub fn remove_interface_command(interface: &str) -> (command: Invocation)
        ensures
            command@ == ip(seq!["link"@, "set"@, interface@, "nomaster"@]),
    {
        let list = ["link", "set", interface, "nomaster"];
        let command = invoke("ip", list.as_slice());
        assert(slices(list@) =~= seq!["link"@, "set"@, interface@, "nomaster"@]);
        command
    }
}

} // verus!
