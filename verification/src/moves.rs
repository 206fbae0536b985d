use crate::pos::BlockPos;
use vstd::prelude::*;

verus! {

/// How an edge decides that the agent has arrived at its target. The
/// closed set of rules can grow with the movement generators; the core
/// defines the default rule.
#[derive(Clone, Copy, PartialEq, Eq, Structural, Debug)]
pub enum ReachedRule {
    /// The voxel containing the agent must equal the target voxel exactly.
    ExactVoxel,
}

/// The movement behavior attached to one candidate edge. The behaviors are
/// stateless and may be shared by arbitrarily many edges: everything they
/// act on arrives through the per-tick context values.
#[derive(Clone, Copy, PartialEq, Eq, Structural, Debug)]
pub struct MoveData {
    /// When the edge counts as reached.
    pub reached: ReachedRule,
}

/// One candidate transition handed to the external graph search: the voxel
/// the move leads to, and the behavior that carries it out.
#[derive(Clone, Copy, PartialEq, Eq, Structural, Debug)]
pub struct Edge {
    pub target: BlockPos,
    pub data: MoveData,
}

/// The per-tick facts a reached-predicate may read: the edge's target, the
/// last node reached, and the voxel currently containing the agent.
#[derive(Clone, Copy, PartialEq, Eq, Structural, Debug)]
pub struct IsReachedCtx {
    /// The node that the agent is trying to reach.
    pub target: BlockPos,
    /// The last node that the agent reached.
    pub start: BlockPos,
    /// The voxel containing the agent's current position.
    pub position: BlockPos,
}

impl MoveData {
    /// The default movement behavior: an edge is reached on exact voxel
    /// equality.
    pub fn default_data() -> (r: MoveData)
        ensures
            r == (MoveData { reached: ReachedRule::ExactVoxel }),
    {
        MoveData { reached: ReachedRule::ExactVoxel }
    }

    /// Evaluate this edge's reached rule.
    pub fn is_reached(&self, ctx: IsReachedCtx) -> (r: bool)
        ensures
            self.reached == ReachedRule::ExactVoxel ==> r == (ctx.position == ctx.target),
    {
        match self.reached {
            ReachedRule::ExactVoxel => default_is_reached(ctx),
        }
    }
}

/// Whether the agent is at the node and should start going to the next
/// one: true exactly when the voxel containing the agent is the target.
pub fn default_is_reached(ctx: IsReachedCtx) -> (r: bool)
    ensures
        r == (ctx.position == ctx.target),
{
    ctx.position == ctx.target
}

/// Append one generator's contribution to the outgoing edge list, keeping
/// the order: concatenation defines no priority, only a deterministic
/// output order for reproducible search traces.
pub fn append_edges(out: &mut Vec<Edge>, contribution: &Vec<Edge>)
    ensures
        final(out)@ == old(out)@ + contribution@,
{
    let n: usize = contribution.len();
    let mut i: usize = 0;
    while i < n
        invariant
            n == contribution@.len(),
            i <= n,
            out@ == old(out)@ + contribution@.subrange(0, i as int),
        decreases n - i,
    {
        out.push(contribution[i]);
        proof {
            assert(out@ =~= old(out)@ + contribution@.subrange(0, i as int + 1));
        }
        i = i + 1;
    }
    proof {
        assert(out@ =~= old(out)@ + contribution@);
    }
}

} // verus!
