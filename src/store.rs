use vstd::prelude::*;

use crate::components::{at, solid, Entity, Position};

verus! {

/// Whether entity `i` of `ents` is movable and stands on cell `c`.
pub open spec fn movable_on(ents: Seq<Entity>, i: int, c: (int, int)) -> bool {
    0 <= i < ents.len() && ents[i].movable && at(ents[i].position, c)
}

/// Whether entity `i` of `ents` is immovable and stands on cell `c`.
pub open spec fn immovable_on(ents: Seq<Entity>, i: int, c: (int, int)) -> bool {
    0 <= i < ents.len() && ents[i].immovable && at(ents[i].position, c)
}

pub open spec fn movable_at(ents: Seq<Entity>, c: (int, int)) -> bool {
    exists|i: int| movable_on(ents, i, c)
}

pub open spec fn immovable_at(ents: Seq<Entity>, c: (int, int)) -> bool {
    exists|i: int| immovable_on(ents, i, c)
}

/// At rest, no two entities that take part in collisions share a cell.
pub open spec fn solids_apart(ents: Seq<Entity>) -> bool {
    forall|i: int, j: int|
        #![trigger ents[i], ents[j]]
        0 <= i < ents.len() && 0 <= j < ents.len() && i != j && solid(ents[i]) && solid(ents[j])
            ==> !(ents[i].position.x == ents[j].position.x && ents[i].position.y
            == ents[j].position.y)
}

/// Whether `i` is the first player entity of `ents`.
pub open spec fn is_first_player(ents: Seq<Entity>, i: int) -> bool {
    0 <= i < ents.len() && ents[i].player && forall|j: int| 0 <= j < i ==> !(#[trigger] ents[j].player)
}

pub open spec fn has_player(ents: Seq<Entity>) -> bool {
    exists|i: int| 0 <= i < ents.len() && (#[trigger] ents[i]).player
}

/// Every box spot has a box on its cell.
pub open spec fn all_spots_covered(ents: Seq<Entity>) -> bool {
    forall|i: int|
        0 <= i < ents.len() && (#[trigger] ents[i]).box_spot ==> exists|j: int|
            0 <= j < ents.len() && (#[trigger] ents[j]).is_box && ents[j].position.x
                == ents[i].position.x && ents[j].position.y == ents[i].position.y
}

/// Every entity of a level, identified by its index.
pub struct Store {
    pub entities: Vec<Entity>,
}

impl View for Store {
    type V = Seq<Entity>;

    open spec fn view(&self) -> Seq<Entity> {
        self.entities@
    }
}

impl Store {
    pub open spec fn wf(&self) -> bool {
        solids_apart(self@)
    }

    /// An empty store.
    pub fn new() -> (r: Store)
        ensures
            r@ == Seq::<Entity>::empty(),
            r.wf(),
    {
        Store { entities: Vec::new() }
    }

    /// Adds an entity and returns its identifier.
    pub fn add(&mut self, e: Entity) -> (id: usize)
        ensures
            final(self)@ == old(self)@.push(e),
            id == old(self)@.len(),
    {
        let id = self.entities.len();
        self.entities.push(e);
        id
    }

    /// The movable entity standing on `(x, y)`, if any.
    pub fn movable_at(&self, x: u8, y: u8) -> (r: Option<usize>)
        ensures
            match r {
                Some(i) => movable_on(self@, i as int, (x as int, y as int)),
                None => !movable_at(self@, (x as int, y as int)),
            },
    {
        let mut i: usize = 0;
        while i < self.entities.len()
            invariant
                i <= self@.len(),
                forall|j: int| 0 <= j < i ==> !movable_on(self@, j, (x as int, y as int)),
            decreases self@.len() - i,
        {
            let e = self.entities[i];
            if e.movable && e.position.x == x && e.position.y == y {
                return Some(i);
            }
            i = i + 1;
        }
        None
    }

    /// The immovable entity standing on `(x, y)`, if any.
    pub fn immovable_at(&self, x: u8, y: u8) -> (r: Option<usize>)
        ensures
            match r {
                Some(i) => immovable_on(self@, i as int, (x as int, y as int)),
                None => !immovable_at(self@, (x as int, y as int)),
            },
    {
        let mut i: usize = 0;
        while i < self.entities.len()
            invariant
                i <= self@.len(),
                forall|j: int| 0 <= j < i ==> !immovable_on(self@, j, (x as int, y as int)),
            decreases self@.len() - i,
        {
            let e = self.entities[i];
            if e.immovable && e.position.x == x && e.position.y == y {
                return Some(i);
            }
            i = i + 1;
        }
        None
    }

    /// The first player entity, if there is one.
    pub fn player_index(&self) -> (r: Option<usize>)
        ensures
            match r {
                Some(i) => is_first_player(self@, i as int),
                None => !has_player(self@),
            },
    {
        let mut i: usize = 0;
        while i < self.entities.len()
            invariant
                i <= self@.len(),
                forall|j: int| 0 <= j < i ==> !(#[trigger] self@[j]).player,
            decreases self@.len() - i,
        {
            if self.entities[i].player {
                return Some(i);
            }
            i = i + 1;
        }
        None
    }

    /// Whether a box stands on `(x, y)`.
    fn box_at(&self, x: u8, y: u8) -> (r: bool)
        ensures
            r == exists|j: int|
                0 <= j < self@.len() && (#[trigger] self@[j]).is_box && self@[j].position.x == x
                    && self@[j].position.y == y,
    {
        let mut i: usize = 0;
        while i < self.entities.len()
            invariant
                i <= self@.len(),
                forall|j: int|
                    0 <= j < i ==> !((#[trigger] self@[j]).is_box && self@[j].position.x == x
                        && self@[j].position.y == y),
            decreases self@.len() - i,
        {
            let e = self.entities[i];
            if e.is_box && e.position.x == x && e.position.y == y {
                return true;
            }
            i = i + 1;
        }
        false
    }

    /// Whether every box spot is covered by a box: the level is solved.
    pub fn is_won(&self) -> (r: bool)
        ensures
            r == all_spots_covered(self@),
    {
        let mut i: usize = 0;
        while i < self.entities.len()
            invariant
                i <= self@.len(),
                forall|k: int|
                    0 <= k < i && (#[trigger] self@[k]).box_spot ==> exists|j: int|
                        0 <= j < self@.len() && (#[trigger] self@[j]).is_box && self@[j].position.x
                            == self@[k].position.x && self@[j].position.y == self@[k].position.y,
            decreases self@.len() - i,
        {
            let e = self.entities[i];
            if e.box_spot && !self.box_at(e.position.x, e.position.y) {
                return false;
            }
            i = i + 1;
        }
        true
    }
}

} // verus!
