//! The code abstraction of a clusterfile module: its name and its steps, each
//! a list of commands.

use vstd::prelude::*;

use crate::arena::{NodeId, ParseArena};
use crate::parse::{NodeData, NodeDataView, NodeType};
use crate::render::ArenaView;

verus! {

pub struct FallbackCommand {
    pub command: String,
}

pub struct Command {
    pub command: String,
    pub fallback: Option<FallbackCommand>,
}

pub enum Expression {
    Module(Module),
    Command(Command),
}

pub struct Step {
    pub commands: Vec<Command>,
}

/// Code abstraction for a module.
pub struct Module {
    pub name: String,
    pub steps: Vec<Step>,
}

/// The command texts of the steps, step after step, in order.
pub open spec fn all_commands(steps: Seq<Step>) -> Seq<Seq<char>>
    decreases steps.len(),
{
    if steps.len() == 0 {
        Seq::empty()
    } else {
        all_commands(steps.drop_last()) + steps.last().commands@.map_values(
            |c: Command| c.command@,
        )
    }
}

/// The command text a node carries: its value, or nothing.
pub open spec fn node_command(d: NodeDataView) -> Seq<char> {
    match d.value {
        Some(v) => v,
        None => Seq::empty(),
    }
}

/// The command texts of the command nodes among `ids`, in order.
pub open spec fn commands_under(a: ArenaView, ids: Seq<nat>) -> Seq<Seq<char>>
    decreases ids.len(),
{
    if ids.len() == 0 {
        Seq::empty()
    } else {
        let rest = commands_under(a, ids.drop_last());
        let d = a[ids.last() as int].data;
        if d.node_type == NodeType::Command {
            rest.push(node_command(d))
        } else {
            rest
        }
    }
}

/// The command texts of a step.
pub open spec fn step_commands(step: Step) -> Seq<Seq<char>> {
    step.commands@.map_values(|c: Command| c.command@)
}

/// Whether a parse arena can be made a module: it has a root that carries
/// the module's name, the children of the root are nodes of it, and so are
/// their children.
pub open spec fn module_arena_ok(arena: ArenaView) -> bool {
    &&& arena.len() > 0
    &&& arena[0].data.value is Some
    &&& forall|k: int| 0 <= k < arena[0].children.len() ==> #[trigger] arena[0].children[k] < arena.len()
    &&& forall|k: int, q: int|
        0 <= k < arena[0].children.len() && 0 <= q < arena[arena[0].children[k] as int].children.len()
            ==> #[trigger] arena[arena[0].children[k] as int].children[q] < arena.len()
}

/// The commands of one step node: a command for each command node below it,
/// in order, without fallback.
fn step_of(arena: &ParseArena<NodeData>, id: NodeId) -> (st: Step)
    requires
        id@ < arena@.len(),
        forall|q: int| 0 <= q < arena@[id@ as int].children.len() ==> #[trigger] arena@[id@ as int].children[q] < arena@.len(),
    ensures
        step_commands(st) == commands_under(arena@, arena@[id@ as int].children),
        forall|j: int| 0 <= j < st.commands@.len() ==> (#[trigger] st.commands@[j]).fallback is None,
{
    let node = arena.get_node(&id);
    let ghost kids = arena@[id@ as int].children;
    let mut commands: Vec<Command> = Vec::new();
    let mut q: usize = 0;
    while q < node.children.len()
        invariant
            node@ == arena@[id@ as int],
            kids == node@.children,
            q <= kids.len(),
            forall|t: int| 0 <= t < kids.len() ==> #[trigger] kids[t] < arena@.len(),
            commands@.map_values(|c: Command| c.command@) == commands_under(arena@, kids.subrange(0, q as int)),
            forall|j: int| 0 <= j < commands@.len() ==> (#[trigger] commands@[j]).fallback is None,
        decreases kids.len() - q,
    {
        let c = node.children[q];
        assert(c@ == kids[q as int]);
        let child = arena.get_node(&c);
        proof {
            assert(kids.subrange(0, q + 1).drop_last() =~= kids.subrange(0, q as int));
            assert(kids.subrange(0, q + 1).last() == kids[q as int]);
        }
        match child.data.node_type {
            NodeType::Command => {
                let text = match &child.data.value {
                    Some(v) => v.clone(),
                    None => String::new(),
                };
                let ghost before = commands@;
                commands.push(Command { command: text, fallback: None });
                proof {
                    assert(commands@.map_values(|c: Command| c.command@) =~= before.map_values(
                        |c: Command| c.command@,
                    ).push(text@));
                }
            },
            _ => {},
        }
        q = q + 1;
    }
    proof {
        assert(kids.subrange(0, q as int) =~= kids);
    }
    Step { commands }
}

impl Module {
    /// Will build the module that a parsed clusterfile describes: its name is
    /// the value of the root; each child of the root is a step, holding a
    /// command for each command node below it, in order. `arguments` are not
    /// used.
    pub fn from_arena(arena: &ParseArena<NodeData>, arguments: Vec<String>) -> (m: Module)
        requires
            module_arena_ok(arena@),
        ensures
            m.name@ == arena@[0].data.value->Some_0,
            m.steps@.len() == arena@[0].children.len(),
            forall|i: int|
                0 <= i < m.steps@.len() ==> step_commands(#[trigger] m.steps@[i]) == commands_under(
                    arena@,
                    arena@[arena@[0].children[i] as int].children,
                ),
            forall|i: int, j: int|
                0 <= i < m.steps@.len() && 0 <= j < m.steps@[i].commands@.len()
                    ==> (#[trigger] m.steps@[i].commands@[j]).fallback is None,
    {
        let root = arena.root().unwrap();
        let name = match &root.data.value {
            Some(v) => v.clone(),
            None => String::new(),
        };
        let ghost kids = arena@[0].children;
        let mut steps: Vec<Step> = Vec::new();
        let mut i: usize = 0;
        while i < root.children.len()
            invariant
                root@ == arena@[0],
                kids == root@.children,
                module_arena_ok(arena@),
                i <= kids.len(),
                steps@.len() == i,
                forall|t: int|
                    0 <= t < i ==> step_commands(#[trigger] steps@[t]) == commands_under(
                        arena@,
                        arena@[kids[t] as int].children,
                    ),
                forall|t: int, j: int|
                    0 <= t < i && 0 <= j < steps@[t].commands@.len()
                        ==> (#[trigger] steps@[t].commands@[j]).fallback is None,
            decreases kids.len() - i,
        {
            let c = root.children[i];
            assert(c@ == kids[i as int]);
            assert(c@ < arena@.len());
            assert forall|q: int| 0 <= q < arena@[c@ as int].children.len() implies #[trigger] arena@[c@ as int].children[q]
                < arena@.len() by {
                assert(arena@[arena@[0].children[i as int] as int].children[q] < arena@.len());
            }
            let st = step_of(arena, c);
            steps.push(st);
            i = i + 1;
        }
        Module { steps, name }
    }

    /// The commands of all steps, in the order they are run.
    pub fn commands(&self) -> (cmds: Vec<String>)
        ensures
            cmds@.map_values(|c: String| c@) == all_commands(self.steps@),
    {
        let mut cmds: Vec<String> = Vec::new();
        let mut i: usize = 0;
        while i < self.steps.len()
            invariant
                i <= self.steps@.len(),
                cmds@.map_values(|c: String| c@) == all_commands(self.steps@.subrange(0, i as int)),
            decreases self.steps@.len() - i,
        {
            let step = &self.steps[i];
            let ghost before = cmds@.map_values(|c: String| c@);
            let mut j: usize = 0;
            while j < step.commands.len()
                invariant
                    j <= step.commands@.len(),
                    cmds@.map_values(|c: String| c@) == before + step.commands@.subrange(
                        0,
                        j as int,
                    ).map_values(|c: Command| c.command@),
                decreases step.commands@.len() - j,
            {
                let ghost old_map = cmds@.map_values(|c: String| c@);
                let cl = step.commands[j].command.clone();
                cmds.push(cl);
                proof {
                    assert(cmds@.map_values(|c: String| c@) =~= old_map.push(cl@));
                    assert(step.commands@.subrange(0, j + 1).map_values(|c: Command| c.command@)
                        =~= step.commands@.subrange(0, j as int).map_values(
                        |c: Command| c.command@,
                    ).push(step.commands@[j as int].command@));
                    assert(cmds@.map_values(|c: String| c@) =~= before + step.commands@.subrange(
                        0,
                        j + 1,
                    ).map_values(|c: Command| c.command@));
                }
                j = j + 1;
            }
            proof {
                let s = self.steps@.subrange(0, i + 1);
                assert(s.drop_last() =~= self.steps@.subrange(0, i as int));
                assert(step.commands@.subrange(0, j as int) =~= step.commands@);
            }
            i = i + 1;
        }
        proof {
            assert(self.steps@.subrange(0, i as int) =~= self.steps@);
        }
        cmds
    }
}

} // verus!
