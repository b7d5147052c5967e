//! The board: forty cells in a fixed order, and the standard table of them.

use vstd::prelude::*;
use crate::property::{Property, PropertyGroup, Rent};

verus! {

/// The number of cells on the board.
pub const NUM_SPACES: usize = 40;

/// The cell where every player starts.
pub const GO: usize = 0;

/// The jail, for inmates and visitors alike.
pub const JAIL: usize = 10;

/// The cell whose visitor collects the kitty.
pub const FREE_PARKING: usize = 20;

/// The cell that sends its visitor to jail.
pub const GO_TO_JAIL: usize = 30;

/// A cell of the board.
#[derive(Clone, Copy, Debug)]
pub enum Space {
    /// The starting cell. Passing it or landing on it earns the bonus.
    Go,
    /// The visitor draws a community chest card.
    CommunityChest,
    /// Income and luxury taxes, with the amount that the visitor pays into the kitty.
    Tax(u32),
    /// The visitor draws a chance card.
    Chance,
    /// The jail. A player who lands here is only visiting.
    Jail,
    /// The visitor collects everything that taxes and fines have put into the kitty.
    FreeParking,
    /// The visitor goes to jail.
    GoToJail,
    /// A property.
    Property(Property),
}

/// A street of the standard table. The mortgage value is half the price.
pub open spec fn street(
    name: &'static str,
    group: PropertyGroup,
    price: u32,
    building: u32,
    base: u32,
    monopoly: u32,
    house1: u32,
    house2: u32,
    house3: u32,
    house4: u32,
    hotel: u32,
) -> Space {
    Space::Property(
        Property {
            name,
            group,
            price,
            mortgage: (price / 2) as u32,
            building: Some(building),
            rent: Rent::Property { base, monopoly, house1, house2, house3, house4, hotel },
        },
    )
}

/// A railroad of the standard table.
pub open spec fn railroad(name: &'static str) -> Space {
    Space::Property(
        Property {
            name,
            group: PropertyGroup::Railroad,
            price: 200,
            mortgage: 100,
            building: None,
            rent: Rent::Railroad { owned1: 25, owned2: 50, owned3: 100, owned4: 200 },
        },
    )
}

/// A utility of the standard table.
pub open spec fn utility(name: &'static str) -> Space {
    Space::Property(
        Property {
            name,
            group: PropertyGroup::Utility,
            price: 150,
            mortgage: 75,
            building: None,
            rent: Rent::Utility { base: 4, monopoly: 10 },
        },
    )
}

/// The cell at each index of the standard board.
pub open spec fn standard_space(index: usize) -> Space {
    match index {
        0 => Space::Go,
        1 => street(
            "Mediterranean Avenue", PropertyGroup::Brown, 60, 50, 2, 4, 10, 30, 90, 160, 250,
        ),
        2 => Space::CommunityChest,
        3 => street("Baltic Avenue", PropertyGroup::Brown, 60, 50, 4, 8, 20, 60, 180, 320, 450),
        4 => Space::Tax(200),
        5 => railroad("Reading Railroad"),
        6 => street(
            "Oriental Avenue", PropertyGroup::LightBlue, 100, 50, 6, 12, 30, 90, 270, 400, 550,
        ),
        7 => Space::Chance,
        8 => street(
            "Vermont Avenue", PropertyGroup::LightBlue, 100, 50, 6, 12, 30, 90, 270, 400, 550,
        ),
        9 => street(
            "Connecticut Avenue", PropertyGroup::LightBlue, 120, 50, 8, 16, 40, 100, 300, 450, 600,
        ),
        10 => Space::Jail,
        11 => street(
            "St. Charles Place", PropertyGroup::Pink, 140, 100, 10, 20, 50, 150, 450, 625, 750,
        ),
        12 => utility("Electric Company"),
        13 => street(
            "States Avenue", PropertyGroup::Pink, 140, 100, 10, 20, 50, 150, 450, 625, 750,
        ),
        14 => street(
            "Virginia Avenue", PropertyGroup::Pink, 160, 100, 12, 24, 60, 180, 500, 700, 900,
        ),
        15 => railroad("Pennsylvania Railroad"),
        16 => street(
            "St. James Place", PropertyGroup::Orange, 180, 100, 14, 28, 70, 200, 550, 750, 950,
        ),
        17 => Space::CommunityChest,
        18 => street(
            "Tennessee Avenue", PropertyGroup::Orange, 180, 100, 14, 28, 70, 200, 550, 750, 950,
        ),
        19 => street(
            "New York Avenue", PropertyGroup::Orange, 200, 100, 16, 32, 80, 220, 600, 800, 1000,
        ),
        20 => Space::FreeParking,
        21 => street(
            "Kentucky Avenue", PropertyGroup::Red, 220, 150, 18, 36, 90, 250, 700, 875, 1050,
        ),
        22 => Space::Chance,
        23 => street(
            "Indiana Avenue", PropertyGroup::Red, 220, 150, 18, 36, 90, 250, 700, 875, 1050,
        ),
        24 => street(
            "Illinois Avenue", PropertyGroup::Red, 240, 150, 20, 40, 100, 300, 750, 925, 1100,
        ),
        25 => railroad("B. & O. Railroad"),
        26 => street(
            "Atlantic Avenue", PropertyGroup::Yellow, 260, 150, 22, 44, 110, 330, 800, 975, 1150,
        ),
        27 => street(
            "Ventnor Avenue", PropertyGroup::Yellow, 260, 150, 22, 44, 110, 330, 800, 975, 1150,
        ),
        28 => utility("Water Works"),
        29 => street(
            "Marvin Gardens", PropertyGroup::Yellow, 280, 150, 24, 48, 120, 360, 850, 1025, 1200,
        ),
        30 => Space::GoToJail,
        31 => street(
            "Pacific Avenue", PropertyGroup::Green, 300, 200, 26, 52, 130, 390, 900, 1100, 1275,
        ),
        32 => street(
            "North Carolina Avenue", PropertyGroup::Green, 300, 200, 26, 52, 130, 390, 900, 1100, 1275,
        ),
        33 => Space::CommunityChest,
        34 => street(
            "Pennsylvania Avenue", PropertyGroup::Green, 320, 200, 28, 56, 150, 450, 1000, 1200, 1400,
        ),
        35 => railroad("Short Line"),
        36 => Space::Chance,
        37 => street(
            "Park Place", PropertyGroup::DarkBlue, 350, 200, 35, 70, 175, 500, 1100, 1300, 1500,
        ),
        38 => Space::Tax(100),
        39 => street(
            "Boardwalk", PropertyGroup::DarkBlue, 400, 200, 50, 100, 200, 600, 1400, 1700, 2000,
        ),
        _ => Space::Go,
    }
}

/// The standard board as a sequence of its forty cells.
pub open spec fn standard_board() -> Seq<Space> {
    Seq::new(NUM_SPACES as nat, |i: int| standard_space(i as usize))
}

/// Whether `space` may stand at `index`: the four corner cells stand in their
/// places and nowhere else, and a property is well formed.
pub open spec fn space_fits(space: Space, index: int) -> bool {
    &&& space is Go <==> index == GO
    &&& space is Jail <==> index == JAIL
    &&& space is FreeParking <==> index == FREE_PARKING
    &&& space is GoToJail <==> index == GO_TO_JAIL
    &&& space matches Space::Property(property) ==> property.wf()
}

/// What every board must satisfy: forty cells, each fit for its place.
pub open spec fn board_wf(spaces: Seq<Space>) -> bool {
    &&& spaces.len() == NUM_SPACES
    &&& forall|i: int| 0 <= i < spaces.len() ==> space_fits(#[trigger] spaces[i], i)
}

fn street_space(
    name: &'static str,
    group: PropertyGroup,
    price: u32,
    building: u32,
    base: u32,
    monopoly: u32,
    house1: u32,
    house2: u32,
    house3: u32,
    house4: u32,
    hotel: u32,
) -> (s: Space)
    ensures
        s == street(
            name,
            group,
            price,
            building,
            base,
            monopoly,
            house1,
            house2,
            house3,
            house4,
            hotel,
        ),
{
    Space::Property(
        Property {
            name,
            group,
            price,
            mortgage: price / 2,
            building: Some(building),
            rent: Rent::Property { base, monopoly, house1, house2, house3, house4, hotel },
        },
    )
}

fn railroad_space(name: &'static str) -> (s: Space)
    ensures
        s == railroad(name),
{
    Space::Property(
        Property {
            name,
            group: PropertyGroup::Railroad,
            price: 200,
            mortgage: 100,
            building: None,
            rent: Rent::Railroad { owned1: 25, owned2: 50, owned3: 100, owned4: 200 },
        },
    )
}

fn utility_space(name: &'static str) -> (s: Space)
    ensures
        s == utility(name),
{
    Space::Property(
        Property {
            name,
            group: PropertyGroup::Utility,
            price: 150,
            mortgage: 75,
            building: None,
            rent: Rent::Utility { base: 4, monopoly: 10 },
        },
    )
}

/// The cell at each index of the standard board.
pub fn standard_space_at(index: usize) -> (s: Space)
    requires
        index < NUM_SPACES,
    ensures
        s == standard_space(index),
{
    match index {
        0 => Space::Go,
        1 => street_space(
            "Mediterranean Avenue", PropertyGroup::Brown, 60, 50, 2, 4, 10, 30, 90, 160, 250,
        ),
        2 => Space::CommunityChest,
        3 => street_space(
            "Baltic Avenue", PropertyGroup::Brown, 60, 50, 4, 8, 20, 60, 180, 320, 450,
        ),
        4 => Space::Tax(200),
        5 => railroad_space("Reading Railroad"),
        6 => street_space(
            "Oriental Avenue", PropertyGroup::LightBlue, 100, 50, 6, 12, 30, 90, 270, 400, 550,
        ),
        7 => Space::Chance,
        8 => street_space(
            "Vermont Avenue", PropertyGroup::LightBlue, 100, 50, 6, 12, 30, 90, 270, 400, 550,
        ),
        9 => street_space(
            "Connecticut Avenue", PropertyGroup::LightBlue, 120, 50, 8, 16, 40, 100, 300, 450, 600,
        ),
        10 => Space::Jail,
        11 => street_space(
            "St. Charles Place", PropertyGroup::Pink, 140, 100, 10, 20, 50, 150, 450, 625, 750,
        ),
        12 => utility_space("Electric Company"),
        13 => street_space(
            "States Avenue", PropertyGroup::Pink, 140, 100, 10, 20, 50, 150, 450, 625, 750,
        ),
        14 => street_space(
            "Virginia Avenue", PropertyGroup::Pink, 160, 100, 12, 24, 60, 180, 500, 700, 900,
        ),
        15 => railroad_space("Pennsylvania Railroad"),
        16 => street_space(
            "St. James Place", PropertyGroup::Orange, 180, 100, 14, 28, 70, 200, 550, 750, 950,
        ),
        17 => Space::CommunityChest,
        18 => street_space(
            "Tennessee Avenue", PropertyGroup::Orange, 180, 100, 14, 28, 70, 200, 550, 750, 950,
        ),
        19 => street_space(
            "New York Avenue", PropertyGroup::Orange, 200, 100, 16, 32, 80, 220, 600, 800, 1000,
        ),
        20 => Space::FreeParking,
        21 => street_space(
            "Kentucky Avenue", PropertyGroup::Red, 220, 150, 18, 36, 90, 250, 700, 875, 1050,
        ),
        22 => Space::Chance,
        23 => street_space(
            "Indiana Avenue", PropertyGroup::Red, 220, 150, 18, 36, 90, 250, 700, 875, 1050,
        ),
        24 => street_space(
            "Illinois Avenue", PropertyGroup::Red, 240, 150, 20, 40, 100, 300, 750, 925, 1100,
        ),
        25 => railroad_space("B. & O. Railroad"),
        26 => street_space(
            "Atlantic Avenue", PropertyGroup::Yellow, 260, 150, 22, 44, 110, 330, 800, 975, 1150,
        ),
        27 => street_space(
            "Ventnor Avenue", PropertyGroup::Yellow, 260, 150, 22, 44, 110, 330, 800, 975, 1150,
        ),
        28 => utility_space("Water Works"),
        29 => street_space(
            "Marvin Gardens", PropertyGroup::Yellow, 280, 150, 24, 48, 120, 360, 850, 1025, 1200,
        ),
        30 => Space::GoToJail,
        31 => street_space(
            "Pacific Avenue", PropertyGroup::Green, 300, 200, 26, 52, 130, 390, 900, 1100, 1275,
        ),
        32 => street_space(
            "North Carolina Avenue", PropertyGroup::Green, 300, 200, 26, 52, 130, 390, 900, 1100, 1275,
        ),
        33 => Space::CommunityChest,
        34 => street_space(
            "Pennsylvania Avenue", PropertyGroup::Green, 320, 200, 28, 56, 150, 450, 1000, 1200, 1400,
        ),
        35 => railroad_space("Short Line"),
        36 => Space::Chance,
        37 => street_space(
            "Park Place", PropertyGroup::DarkBlue, 350, 200, 35, 70, 175, 500, 1100, 1300, 1500,
        ),
        38 => Space::Tax(100),
        39 => street_space(
            "Boardwalk", PropertyGroup::DarkBlue, 400, 200, 50, 100, 200, 600, 1400, 1700, 2000,
        ),
        _ => Space::Go,
    }
}

/// The board: its cells in the order in which the players pass them.
#[derive(Clone, Debug)]
pub struct Board(pub Vec<Space>);

impl Board {
    /// The board is well formed: see [`board_wf`].
    pub open spec fn wf(&self) -> bool {
        board_wf(self.0@)
    }

    /// The standard board.
    pub fn new() -> (board: Board)
        ensures
            board.0@ == standard_board(),
            board.wf(),
    {
        let mut spaces: Vec<Space> = Vec::with_capacity(NUM_SPACES);
        let mut index: usize = 0;
        while index < NUM_SPACES
            invariant
                index <= NUM_SPACES,
                spaces@.len() == index,
                forall|i: int| 0 <= i < index ==> spaces@[i] == standard_space(i as usize),
            decreases NUM_SPACES - index,
        {
            spaces.push(standard_space_at(index));
            index += 1;
        }
        proof {
            assert(spaces@ =~= standard_board());
            lemma_standard_board_wf();
        }
        Board(spaces)
    }
}

impl Space {
    /// Whether the cell may stand at `index`: see [`space_fits`].
    pub fn fits(&self, index: usize) -> (ok: bool)
        ensures
            ok == space_fits(*self, index as int),
    {
        match self {
            Space::Go => index == GO,
            Space::Jail => index == JAIL,
            Space::FreeParking => index == FREE_PARKING,
            Space::GoToJail => index == GO_TO_JAIL,
            Space::Property(property) => property.is_valid() && index != GO && index != JAIL
                && index != FREE_PARKING && index != GO_TO_JAIL,
            _ => index != GO && index != JAIL && index != FREE_PARKING && index != GO_TO_JAIL,
        }
    }
}

impl Board {
    /// Checks the board: see [`board_wf`].
    pub fn is_valid(&self) -> (ok: bool)
        ensures
            ok == self.wf(),
    {
        if self.0.len() != NUM_SPACES {
            return false;
        }
        let mut index: usize = 0;
        while index < NUM_SPACES
            invariant
                index <= NUM_SPACES,
                self.0@.len() == NUM_SPACES,
                forall|i: int| 0 <= i < index ==> space_fits(#[trigger] self.0@[i], i),
            decreases NUM_SPACES - index,
        {
            if !self.0[index].fits(index) {
                return false;
            }
            index += 1;
        }
        true
    }
}

impl Default for Board {
    /// The standard board.
    fn default() -> (board: Board)
        ensures
            board.0@ == standard_board(),
            board.wf(),
    {
        Board::new()
    }
}

/// The standard board is well formed.
pub proof fn lemma_standard_board_wf()
    ensures
        board_wf(standard_board()),
{
    let spaces = standard_board();
    assert forall|i: int| 0 <= i < spaces.len() implies space_fits(#[trigger] spaces[i], i) by {
        lemma_standard_space_fits(i as usize);
    }
}

/// Each cell of the standard table is fit for its place.
proof fn lemma_standard_space_fits(i: usize)
    requires
        i < NUM_SPACES,
    ensures
        space_fits(standard_space(i), i as int),
{
}

} // verus!
