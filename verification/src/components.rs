use std::collections::HashMap;
use vstd::prelude::*;

verus! {

/// How much room something takes up in a cell. The sizes are ordered
/// `Nothing < Small < Medium < Large`.
#[derive(Debug, Clone, Copy, PartialEq, Eq, PartialOrd, Structural)]
pub enum EntitySize {
    Nothing,
    Small,
    Medium,
    Large,
}

impl EntitySize {
    /// Position of the size in the ordering, starting at zero.
    pub open spec fn spec_rank(self) -> int {
        match self {
            EntitySize::Nothing => 0,
            EntitySize::Small => 1,
            EntitySize::Medium => 2,
            EntitySize::Large => 3,
        }
    }

    /// `self` is strictly smaller than `limit`.
    pub open spec fn spec_below(self, limit: EntitySize) -> bool {
        self.spec_rank() < limit.spec_rank()
    }

    /// Position of the size in the ordering, as a machine integer.
    pub fn rank(self) -> (r: u8)
        ensures
            r == self.spec_rank(),
    {
        match self {
            EntitySize::Nothing => 0,
            EntitySize::Small => 1,
            EntitySize::Medium => 2,
            EntitySize::Large => 3,
        }
    }

    /// Decides whether `self` is strictly smaller than `limit`.
    #[verifier::when_used_as_spec(spec_below)]
    pub fn below(self, limit: EntitySize) -> (r: bool)
        ensures
            r == self.spec_below(limit),
    {
        self.rank() < limit.rank()
    }
}

/// Where an entity stands on the map and how it is drawn.
#[derive(Debug, Clone, Copy, PartialEq, Eq, Structural)]
pub struct Render {
    pub size: EntitySize,
    pub index: usize,
    pub visible: bool,
    pub reper_char: char,
}

/// The entity, if any, that a selection points at.
#[derive(Debug, Clone, Copy, PartialEq, Eq, Structural)]
pub struct Selected {
    pub entity: Option<usize>,
}

/// The ways in which an entity can be steered.
#[derive(Debug, Clone, Copy, PartialEq, Eq, Structural)]
pub enum AiType {
    Basic,
}

/// Marks an entity as steered by the game.
#[derive(Debug, Clone, Copy, PartialEq, Eq, Structural)]
pub struct Ai {
    pub ai_type: AiType,
}

/// What an entity is called.
#[derive(Debug)]
pub struct Name {
    pub value: String,
}

/// The points of health an entity holds, and the most it can hold.
#[derive(Debug, Clone, Copy, PartialEq, Eq, Structural)]
pub struct Health {
    pub max_value: isize,
    pub cur_value: isize,
}

/// Every component table of a scene, each keyed by entity identifier.
pub struct ComponentStore {
    pub health: HashMap<usize, Health>,
    pub render: HashMap<usize, Render>,
    pub selected: HashMap<usize, Selected>,
    pub name: HashMap<usize, Name>,
    pub ai: HashMap<usize, Ai>,
}

impl ComponentStore {
    /// No table holds any entry.
    pub open spec fn is_empty(&self) -> bool {
        &&& self.health@ == Map::<usize, Health>::empty()
        &&& self.render@ == Map::<usize, Render>::empty()
        &&& self.selected@ == Map::<usize, Selected>::empty()
        &&& self.name@ == Map::<usize, Name>::empty()
        &&& self.ai@ == Map::<usize, Ai>::empty()
    }
}

impl Default for ComponentStore {
    fn default() -> (r: Self)
        ensures
            r.is_empty(),
    {
        Self {
            health: HashMap::new(),
            render: HashMap::new(),
            selected: HashMap::new(),
            name: HashMap::new(),
            ai: HashMap::new(),
        }
    }
}

} // verus!
