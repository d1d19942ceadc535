//! The nine blocks at hand and the one that is selected.
use vstd::prelude::*;

use crate::block::BlockID;

verus! {

/// Nine blocks at hand.
#[derive(Clone, Debug)]
pub struct Hotbar {
    pub items: [BlockID; 9],
    /// The selected slot, counted from zero.
    pub selected: usize,
}

/// The blocks at hand when a game begins.
pub open spec fn first_items() -> Seq<BlockID> {
    seq![
        BlockID(BlockID::STONE),
        BlockID(BlockID::DIRT),
        BlockID(BlockID::GRASS),
        BlockID(BlockID::SAND),
        BlockID(BlockID::WOOD),
        BlockID(BlockID::LEAVES),
        BlockID(BlockID::GLASS),
        BlockID(BlockID::WATER),
        BlockID(BlockID::STONE_BRICKS),
    ]
}

/// The short name of a block.
pub open spec fn label_of(id: BlockID) -> Seq<char> {
    if id.0 == BlockID::AIR {
        "AIR"@
    } else if id.0 == BlockID::STONE {
        "STONE"@
    } else if id.0 == BlockID::DIRT {
        "DIRT"@
    } else if id.0 == BlockID::GRASS {
        "GRASS"@
    } else if id.0 == BlockID::SAND {
        "SAND"@
    } else if id.0 == BlockID::WOOD {
        "WOOD"@
    } else if id.0 == BlockID::LEAVES {
        "LEAVES"@
    } else if id.0 == BlockID::GLASS {
        "GLASS"@
    } else if id.0 == BlockID::WATER {
        "WATER"@
    } else if id.0 == BlockID::STONE_BRICKS {
        "BRICK"@
    } else if id.0 == BlockID::BEDROCK {
        "BEDROCK"@
    } else {
        "???"@
    }
}

/// The slot next to another, around the nine.
pub open spec fn next_slot(slot: int, forward: bool) -> int {
    if forward {
        (slot + 1) % 9
    } else {
        (slot + 8) % 9
    }
}

/// The short name of a block.
pub fn block_label(id: BlockID) -> (r: &'static str)
    ensures
        r@ == label_of(id),
{
    let n: u16 = id.0;
    if n == BlockID::AIR {
        "AIR"
    } else if n == BlockID::STONE {
        "STONE"
    } else if n == BlockID::DIRT {
        "DIRT"
    } else if n == BlockID::GRASS {
        "GRASS"
    } else if n == BlockID::SAND {
        "SAND"
    } else if n == BlockID::WOOD {
        "WOOD"
    } else if n == BlockID::LEAVES {
        "LEAVES"
    } else if n == BlockID::GLASS {
        "GLASS"
    } else if n == BlockID::WATER {
        "WATER"
    } else if n == BlockID::STONE_BRICKS {
        "BRICK"
    } else if n == BlockID::BEDROCK {
        "BEDROCK"
    } else {
        "???"
    }
}

/// The colour that stands for a block: red, green and blue.
pub open spec fn swatch_of(id: BlockID) -> (u8, u8, u8) {
    if id.0 == BlockID::STONE {
        (118, 124, 124)
    } else if id.0 == BlockID::DIRT {
        (126, 89, 60)
    } else if id.0 == BlockID::GRASS {
        (78, 135, 72)
    } else if id.0 == BlockID::SAND {
        (205, 184, 125)
    } else if id.0 == BlockID::WOOD {
        (126, 84, 45)
    } else if id.0 == BlockID::LEAVES {
        (58, 124, 62)
    } else if id.0 == BlockID::GLASS {
        (164, 208, 224)
    } else if id.0 == BlockID::WATER {
        (58, 125, 172)
    } else if id.0 == BlockID::STONE_BRICKS {
        (112, 118, 116)
    } else if id.0 == BlockID::BEDROCK {
        (48, 52, 56)
    } else {
        (200, 52, 196)
    }
}

/// The colour that stands for a block: red, green and blue.
pub fn block_swatch(id: BlockID) -> (r: (u8, u8, u8))
    ensures
        r == swatch_of(id),
{
    let n: u16 = id.0;
    if n == BlockID::STONE {
        (118, 124, 124)
    } else if n == BlockID::DIRT {
        (126, 89, 60)
    } else if n == BlockID::GRASS {
        (78, 135, 72)
    } else if n == BlockID::SAND {
        (205, 184, 125)
    } else if n == BlockID::WOOD {
        (126, 84, 45)
    } else if n == BlockID::LEAVES {
        (58, 124, 62)
    } else if n == BlockID::GLASS {
        (164, 208, 224)
    } else if n == BlockID::WATER {
        (58, 125, 172)
    } else if n == BlockID::STONE_BRICKS {
        (112, 118, 116)
    } else if n == BlockID::BEDROCK {
        (48, 52, 56)
    } else {
        (200, 52, 196)
    }
}

/// Turning back after turning forward selects the same slot again.
pub proof fn law_turning_back(slot: int, forward: bool)
    requires
        0 <= slot < 9,
    ensures
        next_slot(next_slot(slot, forward), !forward) == slot,
        0 <= next_slot(slot, forward) < 9,
{
}

impl Default for Hotbar {
    fn default() -> (r: Hotbar)
        ensures
            r.items@ == first_items(),
            r.selected == 0,
    {
        let r = Hotbar {
            items: [
                BlockID(BlockID::STONE),
                BlockID(BlockID::DIRT),
                BlockID(BlockID::GRASS),
                BlockID(BlockID::SAND),
                BlockID(BlockID::WOOD),
                BlockID(BlockID::LEAVES),
                BlockID(BlockID::GLASS),
                BlockID(BlockID::WATER),
                BlockID(BlockID::STONE_BRICKS),
            ],
            selected: 0,
        };
        proof {
            assert(r.items@ =~= first_items());
        }
        r
    }
}

impl Hotbar {
    /// One of the nine slots is selected.
    pub open spec fn wf(self) -> bool {
        self.selected < 9
    }

    /// The selected block.
    pub fn current(&self) -> (r: BlockID)
        requires
            self.wf(),
        ensures
            r == self.items@[self.selected as int],
    {
        self.items[self.selected]
    }

    /// Selects a slot. A number that is no slot changes nothing.
    pub fn select(&mut self, idx: u8)
        ensures
            final(self).items == old(self).items,
            final(self).selected == (if idx < 9 {
                idx as usize
            } else {
                old(self).selected
            }),
    {
        if idx < 9 {
            self.selected = idx as usize;
        }
    }

    /// Selects the slot next to the selected one, around the nine.
    pub fn turn(&mut self, forward: bool)
        requires
            old(self).wf(),
        ensures
            final(self).wf(),
            final(self).items == old(self).items,
            final(self).selected == next_slot(old(self).selected as int, forward),
    {
        self.selected = if forward {
            (self.selected + 1) % 9
        } else {
            (self.selected + 8) % 9
        };
    }

    /// The short name of the selected block.
    pub fn current_label(&self) -> (r: &'static str)
        requires
            self.wf(),
        ensures
            r@ == label_of(self.items@[self.selected as int]),
    {
        block_label(self.current())
    }
}

/// Turning forward goes to the place on the right, turning back to the one on the left, and each
/// goes on at the other end.
pub proof fn law_turning_goes_round(slot: int)
    requires
        0 <= slot < 9,
    ensures
        slot < 8 ==> next_slot(slot, true) == slot + 1,
        next_slot(8, true) == 0,
        slot > 0 ==> next_slot(slot, false) == slot - 1,
        next_slot(0, false) == 8,
{
}

/// A full hotbar at the start holds nine different blocks, none of them air and none of them
/// bedrock.
pub proof fn law_the_hotbar_offers_different_blocks(i: int, j: int)
    requires
        0 <= i < j < 9,
    ensures
        first_items().len() == 9,
        first_items()[i] != first_items()[j],
        first_items()[i].0 != BlockID::AIR && first_items()[i].0 != BlockID::BEDROCK,
        first_items()[j].0 != BlockID::AIR && first_items()[j].0 != BlockID::BEDROCK,
{
}

/// Two kinds of block never share a name or a colour.
pub proof fn law_blocks_look_different(a: BlockID, b: BlockID)
    requires
        a.0 <= BlockID::BEDROCK,
        b.0 <= BlockID::BEDROCK,
        a.0 != b.0,
    ensures
        label_of(a) != label_of(b),
        swatch_of(a) != swatch_of(b),
{
    reveal_strlit("AIR");
    reveal_strlit("STONE");
    reveal_strlit("DIRT");
    reveal_strlit("GRASS");
    reveal_strlit("SAND");
    reveal_strlit("WOOD");
    reveal_strlit("LEAVES");
    reveal_strlit("GLASS");
    reveal_strlit("WATER");
    reveal_strlit("BRICK");
    reveal_strlit("BEDROCK");
    reveal_strlit("???");
    assert(label_of(a).len() != label_of(b).len() || label_of(a)[0] != label_of(b)[0]
        || label_of(a)[1] != label_of(b)[1]);
}

/// A block is written by its own name, bricks in short, and a block that nobody knows by question
/// marks.
pub proof fn law_labels_are_names(id: BlockID)
    ensures
        id.0 > BlockID::BEDROCK ==> label_of(id)[0] == '?',
        id.0 <= BlockID::BEDROCK ==> 'A' <= label_of(id)[0] <= 'Z' && 'A' <= label_of(id).last()
            <= 'Z',
        id.0 == BlockID::STONE <==> label_of(id).len() == 5 && label_of(id)[0] == 'S',
        id.0 == BlockID::SAND <==> label_of(id).len() == 4 && label_of(id)[0] == 'S',
        id.0 == BlockID::DIRT <==> label_of(id)[0] == 'D',
        id.0 == BlockID::LEAVES <==> label_of(id)[0] == 'L',
        id.0 == BlockID::GRASS <==> label_of(id)[0] == 'G' && label_of(id)[1] == 'R',
        id.0 == BlockID::GLASS <==> label_of(id)[0] == 'G' && label_of(id)[1] == 'L',
        id.0 == BlockID::WATER <==> label_of(id)[0] == 'W' && label_of(id)[1] == 'A',
        id.0 == BlockID::WOOD <==> label_of(id)[0] == 'W' && label_of(id)[1] == 'O',
        id.0 == BlockID::STONE_BRICKS <==> label_of(id)[0] == 'B' && label_of(id)[1] == 'R',
        id.0 == BlockID::BEDROCK <==> label_of(id)[0] == 'B' && label_of(id)[1] == 'E',
        id.0 == BlockID::AIR <==> label_of(id)[0] == 'A',
{
    reveal_strlit("AIR");
    reveal_strlit("STONE");
    reveal_strlit("DIRT");
    reveal_strlit("GRASS");
    reveal_strlit("SAND");
    reveal_strlit("WOOD");
    reveal_strlit("LEAVES");
    reveal_strlit("GLASS");
    reveal_strlit("WATER");
    reveal_strlit("BRICK");
    reveal_strlit("BEDROCK");
    reveal_strlit("???");
}

} // verus!
