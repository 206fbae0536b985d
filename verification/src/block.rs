use vstd::prelude::*;

verus! {

/// How much of its voxel a block's collision shape occupies.
#[derive(Clone, Copy, PartialEq, Eq, Structural, Debug)]
pub enum CollisionShape {
    /// No collision boxes at all.
    Empty,
    /// Some collision boxes, but not the whole voxel.
    Partial,
    /// The collision shape fills the whole voxel.
    Full,
}

/// One raw block state, reduced to the facts the movement queries read:
/// whether it is air, its collision shape, and the water-related exceptions
/// that make an empty-shaped block still count as an obstacle. The full
/// block catalog that maps a game's block ids to these facts is supplied by
/// the surrounding application.
#[derive(Clone, Copy, PartialEq, Eq, Structural, Debug)]
pub struct BlockState {
    /// Whether this state is an air block.
    pub air: bool,
    /// The block's collision shape.
    pub shape: CollisionShape,
    /// Whether this state is a water source or flowing water.
    pub water: bool,
    /// Whether this state has the waterlogged property set.
    pub waterlogged: bool,
    /// Whether this state is a submerged plant that stands in water without
    /// being flagged as waterlogged.
    pub submerged_plant: bool,
}

impl BlockState {
    /// An air block.
    pub fn air() -> (r: BlockState)
        ensures
            r == BlockState::spec_air(),
    {
        BlockState {
            air: true,
            shape: CollisionShape::Empty,
            water: false,
            waterlogged: false,
            submerged_plant: false,
        }
    }

    pub open spec fn spec_air() -> BlockState {
        BlockState {
            air: true,
            shape: CollisionShape::Empty,
            water: false,
            waterlogged: false,
            submerged_plant: false,
        }
    }

    /// A plain full-cube block, such as stone.
    pub fn full_cube() -> (r: BlockState)
        ensures
            r == BlockState::spec_full_cube(),
    {
        BlockState {
            air: false,
            shape: CollisionShape::Full,
            water: false,
            waterlogged: false,
            submerged_plant: false,
        }
    }

    pub open spec fn spec_full_cube() -> BlockState {
        BlockState {
            air: false,
            shape: CollisionShape::Full,
            water: false,
            waterlogged: false,
            submerged_plant: false,
        }
    }

    /// A water source block.
    pub fn water() -> (r: BlockState)
        ensures
            r == (BlockState {
                air: false,
                shape: CollisionShape::Empty,
                water: true,
                waterlogged: false,
                submerged_plant: false,
            }),
    {
        BlockState {
            air: false,
            shape: CollisionShape::Empty,
            water: true,
            waterlogged: false,
            submerged_plant: false,
        }
    }
}

/// Whether an agent's body may occupy the voxel holding this block: air is
/// always passable; any block with a non-empty collision shape is not; and
/// water, waterlogged blocks and submerged plants are treated as obstacles
/// even though their collision shape is empty.
pub open spec fn spec_block_passable(b: BlockState) -> bool {
    if b.air {
        true
    } else if b.shape != CollisionShape::Empty {
        false
    } else {
        !b.water && !b.waterlogged && !b.submerged_plant
    }
}

/// Whether this block presents a full collision surface that an agent can
/// stand on: never for air, otherwise exactly when its shape fills the voxel.
pub open spec fn spec_block_solid(b: BlockState) -> bool {
    !b.air && b.shape == CollisionShape::Full
}

/// The fail-safe reading of an optional block: a voxel with no data (an
/// unloaded chunk or a position outside the stored sections) is never
/// passable and never solid.
pub open spec fn spec_opt_passable(b: Option<BlockState>) -> bool {
    match b {
        Some(b) => spec_block_passable(b),
        None => false,
    }
}

pub open spec fn spec_opt_solid(b: Option<BlockState>) -> bool {
    match b {
        Some(b) => spec_block_solid(b),
        None => false,
    }
}

/// Classify a block as passable by itself, without any world context.
pub fn block_passable(b: BlockState) -> (r: bool)
    ensures
        r == spec_block_passable(b),
{
    if b.air {
        return true;
    }
    if !matches!(b.shape, CollisionShape::Empty) {
        return false;
    }
    if b.water {
        return false;
    }
    if b.waterlogged {
        return false;
    }
    if b.submerged_plant {
        return false;
    }
    true
}

/// Classify a block as solid, without any world context.
pub fn block_solid(b: BlockState) -> (r: bool)
    ensures
        r == spec_block_solid(b),
{
    if b.air {
        return false;
    }
    matches!(b.shape, CollisionShape::Full)
}

} // verus!
