//! Properties: their groups, rent schedules, improvement tiers and the
//! ownership record kept for each of them.

use vstd::prelude::*;

verus! {

/// The improvement tier of a property, which selects the rent entry that applies.
///
/// `Base` and `Monopoly` both carry no buildings. `House1` to `House4` stand for
/// that many houses, `Hotel` for one hotel.
#[derive(Clone, Copy, Debug, PartialEq, Eq, Structural)]
pub enum RentType {
    Base,
    Monopoly,
    House1,
    House2,
    House3,
    House4,
    Hotel,
}

impl RentType {
    /// The place of the tier in the order `Base < Monopoly < House1 < .. < Hotel`,
    /// counted from 0.
    pub open spec fn rank(self) -> int {
        match self {
            RentType::Base => 0,
            RentType::Monopoly => 1,
            RentType::House1 => 2,
            RentType::House2 => 3,
            RentType::House3 => 4,
            RentType::House4 => 5,
            RentType::Hotel => 6,
        }
    }

    /// The tier at a given place of the order; places outside `0..=6` are clamped.
    pub open spec fn of_rank(rank: int) -> RentType {
        if rank <= 0 {
            RentType::Base
        } else if rank == 1 {
            RentType::Monopoly
        } else if rank == 2 {
            RentType::House1
        } else if rank == 3 {
            RentType::House2
        } else if rank == 4 {
            RentType::House3
        } else if rank == 5 {
            RentType::House4
        } else {
            RentType::Hotel
        }
    }

    /// The next tier up; `Hotel` stays `Hotel`.
    pub open spec fn upgraded(self) -> RentType {
        RentType::of_rank(self.rank() + 1)
    }

    /// The next tier down; `Base` stays `Base`.
    pub open spec fn downgraded(self) -> RentType {
        RentType::of_rank(self.rank() - 1)
    }

    /// How many building levels stand on the property: one per house, five for a hotel.
    /// This is the number of times a building can be sold from it.
    pub open spec fn buildings(self) -> int {
        if self.rank() >= 2 {
            self.rank() - 1
        } else {
            0
        }
    }

    /// Houses taken from the bank's supply by this tier.
    pub open spec fn houses(self) -> int {
        if 2 <= self.rank() <= 5 {
            self.rank() - 1
        } else {
            0
        }
    }

    /// Hotels taken from the bank's supply by this tier.
    pub open spec fn hotels(self) -> int {
        if self == RentType::Hotel {
            1
        } else {
            0
        }
    }

    /// Moves one tier down, stopping at `Base`.
    pub fn downgrade(&mut self)
        ensures
            *final(self) == old(self).downgraded(),
    {
        match self {
            RentType::Base => *self = RentType::Base,
            RentType::Monopoly => *self = RentType::Base,
            RentType::House1 => *self = RentType::Monopoly,
            RentType::House2 => *self = RentType::House1,
            RentType::House3 => *self = RentType::House2,
            RentType::House4 => *self = RentType::House3,
            RentType::Hotel => *self = RentType::House4,
        }
    }

    /// Moves one tier up, stopping at `Hotel`.
    pub fn upgrade(&mut self)
        ensures
            *final(self) == old(self).upgraded(),
    {
        match self {
            RentType::Base => *self = RentType::Monopoly,
            RentType::Monopoly => *self = RentType::House1,
            RentType::House1 => *self = RentType::House2,
            RentType::House2 => *self = RentType::House3,
            RentType::House3 => *self = RentType::House4,
            RentType::House4 => *self = RentType::Hotel,
            RentType::Hotel => *self = RentType::Hotel,
        }
    }

    /// Whether at least one building stands on the property.
    pub fn has_houses(&self) -> (b: bool)
        ensures
            b == (self.buildings() > 0),
            b == (self.rank() >= 2),
    {
        match self {
            RentType::Base => false,
            RentType::Monopoly => false,
            RentType::House1 => true,
            RentType::House2 => true,
            RentType::House3 => true,
            RentType::House4 => true,
            RentType::Hotel => true,
        }
    }

    /// Whether the tier is the monopoly tier or above.
    pub fn has_monopoly(&self) -> (b: bool)
        ensures
            b == (self.rank() >= 1),
    {
        match self {
            RentType::Base => false,
            RentType::Monopoly => true,
            RentType::House1 => true,
            RentType::House2 => true,
            RentType::House3 => true,
            RentType::House4 => true,
            RentType::Hotel => true,
        }
    }

    /// Houses taken from the bank's supply by this tier.
    pub fn house_count(&self) -> (n: u32)
        ensures
            n == self.houses(),
    {
        match self {
            RentType::House1 => 1,
            RentType::House2 => 2,
            RentType::House3 => 3,
            RentType::House4 => 4,
            _ => 0,
        }
    }

    /// Hotels taken from the bank's supply by this tier.
    pub fn hotel_count(&self) -> (n: u32)
        ensures
            n == self.hotels(),
    {
        match self {
            RentType::Hotel => 1,
            _ => 0,
        }
    }
}

/// The groups that a property can belong to: eight colours of streets,
/// the railroads and the utilities.
#[derive(Clone, Copy, Debug, PartialEq, Eq, Structural)]
pub enum PropertyGroup {
    Brown,
    LightBlue,
    Pink,
    Orange,
    Red,
    Yellow,
    Green,
    DarkBlue,
    Railroad,
    Utility,
}

impl PropertyGroup {
    /// Whether the group is one of the eight colours, on which houses can be built.
    pub open spec fn is_street(self) -> bool {
        self != PropertyGroup::Railroad && self != PropertyGroup::Utility
    }

    /// Whether the group is one of the eight colours.
    pub fn is_colour(&self) -> (b: bool)
        ensures
            b == self.is_street(),
    {
        match self {
            PropertyGroup::Railroad => false,
            PropertyGroup::Utility => false,
            _ => true,
        }
    }
}

/// The rent schedule of a property.
#[derive(Clone, Copy, Debug, PartialEq, Eq, Structural)]
pub enum Rent {
    /// A street: one entry for each improvement tier.
    Property {
        base: u32,
        monopoly: u32,
        house1: u32,
        house2: u32,
        house3: u32,
        house4: u32,
        hotel: u32,
    },
    /// A railroad: one entry for each number of railroads that the owner holds.
    Railroad { owned1: u32, owned2: u32, owned3: u32, owned4: u32 },
    /// A utility: the factor by which the dice total is multiplied, for an owner
    /// of one utility (`base`) and of both (`monopoly`).
    Utility { base: u32, monopoly: u32 },
}

impl Rent {
    /// The rent owed by a visitor.
    ///
    /// `tier` is the tier that applies to a street, `owned` the number of
    /// properties of the group that the owner holds, `dice` the total of the
    /// roll that brought the visitor.
    pub open spec fn due(self, tier: RentType, owned: int, dice: int) -> int {
        match self {
            Rent::Property { base, monopoly, house1, house2, house3, house4, hotel } => match tier {
                RentType::Base => base as int,
                RentType::Monopoly => monopoly as int,
                RentType::House1 => house1 as int,
                RentType::House2 => house2 as int,
                RentType::House3 => house3 as int,
                RentType::House4 => house4 as int,
                RentType::Hotel => hotel as int,
            },
            Rent::Railroad { owned1, owned2, owned3, owned4 } => if owned <= 1 {
                owned1 as int
            } else if owned == 2 {
                owned2 as int
            } else if owned == 3 {
                owned3 as int
            } else {
                owned4 as int
            },
            Rent::Utility { base, monopoly } => if owned <= 1 {
                dice * base
            } else {
                dice * monopoly
            },
        }
    }

    /// Computes the rent owed by a visitor.
    pub fn amount(&self, tier: RentType, owned: usize, dice: u8) -> (rent: i64)
        ensures
            rent == self.due(tier, owned as int, dice as int),
            0 <= rent <= 255 * 0xffff_ffff,
    {
        match *self {
            Rent::Property { base, monopoly, house1, house2, house3, house4, hotel } => match tier {
                RentType::Base => base as i64,
                RentType::Monopoly => monopoly as i64,
                RentType::House1 => house1 as i64,
                RentType::House2 => house2 as i64,
                RentType::House3 => house3 as i64,
                RentType::House4 => house4 as i64,
                RentType::Hotel => hotel as i64,
            },
            Rent::Railroad { owned1, owned2, owned3, owned4 } => if owned <= 1 {
                owned1 as i64
            } else if owned == 2 {
                owned2 as i64
            } else if owned == 3 {
                owned3 as i64
            } else {
                owned4 as i64
            },
            Rent::Utility { base, monopoly } => {
                let factor: i64 = if owned <= 1 {
                    base as i64
                } else {
                    monopoly as i64
                };
                assert(0 <= (dice as int) * factor <= 255 * 0xffff_ffff) by (nonlinear_arith)
                    requires
                        0 <= dice <= 255,
                        0 <= factor <= 0xffff_ffff,
                ;
                (dice as i64) * factor
            },
        }
    }
}

/// A property that can be bought, built on, mortgaged and auctioned.
#[derive(Clone, Copy, Debug)]
pub struct Property {
    /// Name of the property.
    pub name: &'static str,
    /// The group that the property belongs to.
    pub group: PropertyGroup,
    /// The amount a player pays the bank to own the property.
    pub price: u32,
    /// The amount a player receives for mortgaging the property.
    pub mortgage: u32,
    /// The cost of one building on the property, if it can be built on.
    pub building: Option<u32>,
    /// The amounts that visitors pay.
    pub rent: Rent,
}

impl Property {
    /// The rent schedule has the shape that the group calls for, and only
    /// streets can be built on.
    pub open spec fn wf(self) -> bool {
        &&& self.group.is_street() <==> self.rent is Property
        &&& self.group == PropertyGroup::Railroad <==> self.rent is Railroad
        &&& self.group == PropertyGroup::Utility <==> self.rent is Utility
        &&& self.group.is_street() <==> self.building is Some
    }

    /// Checks the property: see [`Property::wf`].
    pub fn is_valid(&self) -> (ok: bool)
        ensures
            ok == self.wf(),
    {
        let street = self.group.is_colour();
        match self.rent {
            Rent::Property { .. } => street && self.building.is_some(),
            Rent::Railroad { .. } => self.group == PropertyGroup::Railroad
                && self.building.is_none(),
            Rent::Utility { .. } => self.group == PropertyGroup::Utility && self.building.is_none(),
        }
    }

    /// What the bank pays for one building sold back: half its cost.
    pub open spec fn resale(self) -> int {
        match self.building {
            Some(cost) => cost as int / 2,
            None => 0,
        }
    }

    /// What lifting the mortgage costs: the mortgage value and a tenth of it as interest.
    pub open spec fn redemption(self) -> int {
        self.mortgage as int + self.mortgage as int / 10
    }
}

/// Who holds a property, and in what condition.
#[derive(Clone, Copy, Debug, PartialEq, Eq, Structural)]
pub enum PropertyState {
    /// The bank holds the property; it can be bought.
    Unowned,
    /// A player holds the property and collects rent on it.
    Owned { player: usize, level: RentType },
    /// A player holds the property but has mortgaged it; no rent is due.
    Mortgaged { player: usize },
}

impl PropertyState {
    /// The holder of the property, if a player holds it.
    pub open spec fn owner(self) -> Option<usize> {
        match self {
            PropertyState::Unowned => None,
            PropertyState::Owned { player, .. } => Some(player),
            PropertyState::Mortgaged { player } => Some(player),
        }
    }

    /// The building levels that stand on the property.
    pub open spec fn buildings(self) -> int {
        match self {
            PropertyState::Owned { level, .. } => level.buildings(),
            _ => 0,
        }
    }

    /// Houses that the property takes from the bank's supply.
    pub open spec fn houses(self) -> int {
        match self {
            PropertyState::Owned { level, .. } => level.houses(),
            _ => 0,
        }
    }

    /// Hotels that the property takes from the bank's supply.
    pub open spec fn hotels(self) -> int {
        match self {
            PropertyState::Owned { level, .. } => level.hotels(),
            _ => 0,
        }
    }

    /// The holder of the property, if a player holds it.
    pub fn holder(&self) -> (o: Option<usize>)
        ensures
            o == self.owner(),
    {
        match *self {
            PropertyState::Unowned => None,
            PropertyState::Owned { player, .. } => Some(player),
            PropertyState::Mortgaged { player } => Some(player),
        }
    }
}

} // verus!
