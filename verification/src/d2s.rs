use vstd::prelude::*;
use vstd::utf8::{decode_utf8, valid_utf8};
use crate::cursor::{can_read, u16_at, u32_at, ByteCursor};
use crate::error::FormatError;
use crate::read_string::ReadString;

verus! {

/// How the character looks in the menu: a graphic and a tint for each body part.
#[derive(Clone, Copy, Debug, PartialEq, Eq)]
pub struct CharacterMenuAppearance {
    pub head: u8,
    pub torso: u8,
    pub legs: u8,
    pub arm_right: u8,
    pub arm_left: u8,
    pub hand_right: u8,
    pub hand_left: u8,
    pub shield: u8,
    pub shoulder_right: u8,
    pub shoulder_left: u8,
    pub reserved1: [u8; 6],
    pub head_tint: u8,
    pub torso_tint: u8,
    pub legs_tint: u8,
    pub arm_right_tint: u8,
    pub arm_left_tint: u8,
    pub hand_right_tint: u8,
    pub hand_left_tint: u8,
    pub shield_tint: u8,
    pub shoulder_right_tint: u8,
    pub shoulder_left_tint: u8,
    pub reserved2: [u8; 6],
}

impl CharacterMenuAppearance {
    /// The length of the record in bytes.
    pub open spec fn len() -> int {
        32
    }

    /// Whether the record is the one that `b` holds at offset `p`, field
    /// behind field, least significant byte first.
    pub open spec fn stored_at(self, b: Seq<u8>, p: int) -> bool {
        &&& self.head == b[p]
        &&& self.torso == b[p + 1]
        &&& self.legs == b[p + 2]
        &&& self.arm_right == b[p + 3]
        &&& self.arm_left == b[p + 4]
        &&& self.hand_right == b[p + 5]
        &&& self.hand_left == b[p + 6]
        &&& self.shield == b[p + 7]
        &&& self.shoulder_right == b[p + 8]
        &&& self.shoulder_left == b[p + 9]
        &&& self.reserved1@ == b.subrange(p + 10, p + 16)
        &&& self.head_tint == b[p + 16]
        &&& self.torso_tint == b[p + 17]
        &&& self.legs_tint == b[p + 18]
        &&& self.arm_right_tint == b[p + 19]
        &&& self.arm_left_tint == b[p + 20]
        &&& self.hand_right_tint == b[p + 21]
        &&& self.hand_left_tint == b[p + 22]
        &&& self.shield_tint == b[p + 23]
        &&& self.shoulder_right_tint == b[p + 24]
        &&& self.shoulder_left_tint == b[p + 25]
        &&& self.reserved2@ == b.subrange(p + 26, p + 32)
    }

    /// Whether the record is the default one.
    pub open spec fn is_default(self) -> bool {
        &&& self.head == 0xFF
        &&& self.torso == 0xFF
        &&& self.legs == 0xFF
        &&& self.arm_right == 0xFF
        &&& self.arm_left == 0xFF
        &&& self.hand_right == 0xFF
        &&& self.hand_left == 0xFF
        &&& self.shield == 0xFF
        &&& self.shoulder_right == 0xFF
        &&& self.shoulder_left == 0xFF
        &&& forall|k: int| 0 <= k < 6 ==> #[trigger] self.reserved1@[k] == 0xFF
        &&& self.head_tint == 0xFF
        &&& self.torso_tint == 0xFF
        &&& self.legs_tint == 0xFF
        &&& self.arm_right_tint == 0xFF
        &&& self.arm_left_tint == 0xFF
        &&& self.hand_right_tint == 0xFF
        &&& self.hand_left_tint == 0xFF
        &&& self.shield_tint == 0xFF
        &&& self.shoulder_right_tint == 0xFF
        &&& self.shoulder_left_tint == 0xFF
        &&& forall|k: int| 0 <= k < 6 ==> #[trigger] self.reserved2@[k] == 0xFF
    }

    /// Reads the record at the cursor.
    pub fn from(cur: &mut ByteCursor) -> (r: Result<CharacterMenuAppearance, FormatError>)
        ensures
            final(cur).bytes() == old(cur).bytes(),
            can_read(old(cur).bytes(), old(cur).pos() as int, Self::len()) ==> r is Ok
                && r->Ok_0.stored_at(old(cur).bytes(), old(cur).pos() as int) && final(cur).pos()
                == old(cur).pos() + Self::len(),
            !can_read(old(cur).bytes(), old(cur).pos() as int, Self::len()) ==> r == Err::<
                CharacterMenuAppearance,
                FormatError,
            >(FormatError::Truncated) && final(cur).pos() == old(cur).pos(),
    {
        let ghost b = cur.bytes();
        let ghost p = cur.pos() as int;
        if cur.remaining() < 32 {
            return Err(FormatError::Truncated);
        }
        let head: u8 = cur.read_u8()?;
        let torso: u8 = cur.read_u8()?;
        let legs: u8 = cur.read_u8()?;
        let arm_right: u8 = cur.read_u8()?;
        let arm_left: u8 = cur.read_u8()?;
        let hand_right: u8 = cur.read_u8()?;
        let hand_left: u8 = cur.read_u8()?;
        let shield: u8 = cur.read_u8()?;
        let shoulder_right: u8 = cur.read_u8()?;
        let shoulder_left: u8 = cur.read_u8()?;
        let mut reserved1: [u8; 6] = [0u8;6];
        let mut i: usize = 0;
        while i < 6
            invariant
                cur.bytes() == b,
                can_read(b, p, Self::len()),
                0 <= i <= 6,
                cur.pos() == p + 10 + 1 * i,
                forall|k: int| 0 <= k < i ==> reserved1@[k] == b[p + 10 + k],
            decreases 6 - i,
        {
            let v: u8 = cur.read_u8()?;
            reserved1[i] = v;
            i = i + 1;
        }
        proof {
            assert(reserved1@ =~= b.subrange(p + 10, p + 16));
        }
        let head_tint: u8 = cur.read_u8()?;
        let torso_tint: u8 = cur.read_u8()?;
        let legs_tint: u8 = cur.read_u8()?;
        let arm_right_tint: u8 = cur.read_u8()?;
        let arm_left_tint: u8 = cur.read_u8()?;
        let hand_right_tint: u8 = cur.read_u8()?;
        let hand_left_tint: u8 = cur.read_u8()?;
        let shield_tint: u8 = cur.read_u8()?;
        let shoulder_right_tint: u8 = cur.read_u8()?;
        let shoulder_left_tint: u8 = cur.read_u8()?;
        let mut reserved2: [u8; 6] = [0u8;6];
        let mut i: usize = 0;
        while i < 6
            invariant
                cur.bytes() == b,
                can_read(b, p, Self::len()),
                0 <= i <= 6,
                cur.pos() == p + 26 + 1 * i,
                forall|k: int| 0 <= k < i ==> reserved2@[k] == b[p + 26 + k],
            decreases 6 - i,
        {
            let v: u8 = cur.read_u8()?;
            reserved2[i] = v;
            i = i + 1;
        }
        proof {
            assert(reserved2@ =~= b.subrange(p + 26, p + 32));
        }
        Ok(CharacterMenuAppearance { head, torso, legs, arm_right, arm_left, hand_right, hand_left, shield, shoulder_right, shoulder_left, reserved1, head_tint, torso_tint, legs_tint, arm_right_tint, arm_left_tint, hand_right_tint, hand_left_tint, shield_tint, shoulder_right_tint, shoulder_left_tint, reserved2 })
    }
}

impl Default for CharacterMenuAppearance {
    /// Every graphic and tint unset, which is stored as `0xFF`.
    fn default() -> (r: Self)
        ensures
            r.is_default(),
    {
        CharacterMenuAppearance {
            head: 0xFF,
            torso: 0xFF,
            legs: 0xFF,
            arm_right: 0xFF,
            arm_left: 0xFF,
            hand_right: 0xFF,
            hand_left: 0xFF,
            shield: 0xFF,
            shoulder_right: 0xFF,
            shoulder_left: 0xFF,
            reserved1: [0xFFu8; 6],
            head_tint: 0xFF,
            torso_tint: 0xFF,
            legs_tint: 0xFF,
            arm_right_tint: 0xFF,
            arm_left_tint: 0xFF,
            hand_right_tint: 0xFF,
            hand_left_tint: 0xFF,
            shield_tint: 0xFF,
            shoulder_right_tint: 0xFF,
            shoulder_left_tint: 0xFF,
            reserved2: [0xFFu8; 6],
        }
    }
}

/// The quests of act 1.
#[derive(Clone, Copy, Debug, PartialEq, Eq)]
pub struct Act1QuestStatus {
    pub introduced: u16,
    pub quest_1: u16,
    pub quest_2: u16,
    pub quest_3: u16,
    pub quest_4: u16,
    pub quest_5: u16,
    pub quest_6: u16,
    pub travelled_act2: u16,
}

impl Act1QuestStatus {
    /// The length of the record in bytes.
    pub open spec fn len() -> int {
        16
    }

    /// Whether the record is the one that `b` holds at offset `p`, field
    /// behind field, least significant byte first.
    pub open spec fn stored_at(self, b: Seq<u8>, p: int) -> bool {
        &&& self.introduced == u16_at(b, p)
        &&& self.quest_1 == u16_at(b, p + 2)
        &&& self.quest_2 == u16_at(b, p + 4)
        &&& self.quest_3 == u16_at(b, p + 6)
        &&& self.quest_4 == u16_at(b, p + 8)
        &&& self.quest_5 == u16_at(b, p + 10)
        &&& self.quest_6 == u16_at(b, p + 12)
        &&& self.travelled_act2 == u16_at(b, p + 14)
    }

    /// Whether the record is the default one.
    pub open spec fn is_default(self) -> bool {
        &&& self.introduced == 0
        &&& self.quest_1 == 0
        &&& self.quest_2 == 0
        &&& self.quest_3 == 0
        &&& self.quest_4 == 0
        &&& self.quest_5 == 0
        &&& self.quest_6 == 0
        &&& self.travelled_act2 == 0
    }

    /// Reads the record at the cursor.
    pub fn from(cur: &mut ByteCursor) -> (r: Result<Act1QuestStatus, FormatError>)
        ensures
            final(cur).bytes() == old(cur).bytes(),
            can_read(old(cur).bytes(), old(cur).pos() as int, Self::len()) ==> r is Ok
                && r->Ok_0.stored_at(old(cur).bytes(), old(cur).pos() as int) && final(cur).pos()
                == old(cur).pos() + Self::len(),
            !can_read(old(cur).bytes(), old(cur).pos() as int, Self::len()) ==> r == Err::<
                Act1QuestStatus,
                FormatError,
            >(FormatError::Truncated) && final(cur).pos() == old(cur).pos(),
    {
        if cur.remaining() < 16 {
            return Err(FormatError::Truncated);
        }
        let introduced: u16 = cur.read_u16()?;
        let quest_1: u16 = cur.read_u16()?;
        let quest_2: u16 = cur.read_u16()?;
        let quest_3: u16 = cur.read_u16()?;
        let quest_4: u16 = cur.read_u16()?;
        let quest_5: u16 = cur.read_u16()?;
        let quest_6: u16 = cur.read_u16()?;
        let travelled_act2: u16 = cur.read_u16()?;
        Ok(Act1QuestStatus { introduced, quest_1, quest_2, quest_3, quest_4, quest_5, quest_6, travelled_act2 })
    }
}

impl Default for Act1QuestStatus {
    fn default() -> (r: Self)
        ensures
            r.is_default(),
    {
        Act1QuestStatus {
            introduced: 0,
            quest_1: 0,
            quest_2: 0,
            quest_3: 0,
            quest_4: 0,
            quest_5: 0,
            quest_6: 0,
            travelled_act2: 0,
        }
    }
}

/// The quests of act 2.
#[derive(Clone, Copy, Debug, PartialEq, Eq)]
pub struct Act2QuestStatus {
    pub introduced: u16,
    pub quest_1: u16,
    pub quest_2: u16,
    pub quest_3: u16,
    pub quest_4: u16,
    pub quest_5: u16,
    pub quest_6: u16,
    pub travelled_act3: u16,
}

impl Act2QuestStatus {
    /// The length of the record in bytes.
    pub open spec fn len() -> int {
        16
    }

    /// Whether the record is the one that `b` holds at offset `p`, field
    /// behind field, least significant byte first.
    pub open spec fn stored_at(self, b: Seq<u8>, p: int) -> bool {
        &&& self.introduced == u16_at(b, p)
        &&& self.quest_1 == u16_at(b, p + 2)
        &&& self.quest_2 == u16_at(b, p + 4)
        &&& self.quest_3 == u16_at(b, p + 6)
        &&& self.quest_4 == u16_at(b, p + 8)
        &&& self.quest_5 == u16_at(b, p + 10)
        &&& self.quest_6 == u16_at(b, p + 12)
        &&& self.travelled_act3 == u16_at(b, p + 14)
    }

    /// Whether the record is the default one.
    pub open spec fn is_default(self) -> bool {
        &&& self.introduced == 0
        &&& self.quest_1 == 0
        &&& self.quest_2 == 0
        &&& self.quest_3 == 0
        &&& self.quest_4 == 0
        &&& self.quest_5 == 0
        &&& self.quest_6 == 0
        &&& self.travelled_act3 == 0
    }

    /// Reads the record at the cursor.
    pub fn from(cur: &mut ByteCursor) -> (r: Result<Act2QuestStatus, FormatError>)
        ensures
            final(cur).bytes() == old(cur).bytes(),
            can_read(old(cur).bytes(), old(cur).pos() as int, Self::len()) ==> r is Ok
                && r->Ok_0.stored_at(old(cur).bytes(), old(cur).pos() as int) && final(cur).pos()
                == old(cur).pos() + Self::len(),
            !can_read(old(cur).bytes(), old(cur).pos() as int, Self::len()) ==> r == Err::<
                Act2QuestStatus,
                FormatError,
            >(FormatError::Truncated) && final(cur).pos() == old(cur).pos(),
    {
        if cur.remaining() < 16 {
            return Err(FormatError::Truncated);
        }
        let introduced: u16 = cur.read_u16()?;
        let quest_1: u16 = cur.read_u16()?;
        let quest_2: u16 = cur.read_u16()?;
        let quest_3: u16 = cur.read_u16()?;
        let quest_4: u16 = cur.read_u16()?;
        let quest_5: u16 = cur.read_u16()?;
        let quest_6: u16 = cur.read_u16()?;
        let travelled_act3: u16 = cur.read_u16()?;
        Ok(Act2QuestStatus { introduced, quest_1, quest_2, quest_3, quest_4, quest_5, quest_6, travelled_act3 })
    }
}

impl Default for Act2QuestStatus {
    fn default() -> (r: Self)
        ensures
            r.is_default(),
    {
        Act2QuestStatus {
            introduced: 0,
            quest_1: 0,
            quest_2: 0,
            quest_3: 0,
            quest_4: 0,
            quest_5: 0,
            quest_6: 0,
            travelled_act3: 0,
        }
    }
}

/// The quests of act 3.
#[derive(Clone, Copy, Debug, PartialEq, Eq)]
pub struct Act3QuestStatus {
    pub introduced: u16,
    pub quest_1: u16,
    pub quest_2: u16,
    pub quest_3: u16,
    pub quest_4: u16,
    pub quest_5: u16,
    pub quest_6: u16,
    pub travelled_act4: u16,
}

impl Act3QuestStatus {
    /// The length of the record in bytes.
    pub open spec fn len() -> int {
        16
    }

    /// Whether the record is the one that `b` holds at offset `p`, field
    /// behind field, least significant byte first.
    pub open spec fn stored_at(self, b: Seq<u8>, p: int) -> bool {
        &&& self.introduced == u16_at(b, p)
        &&& self.quest_1 == u16_at(b, p + 2)
        &&& self.quest_2 == u16_at(b, p + 4)
        &&& self.quest_3 == u16_at(b, p + 6)
        &&& self.quest_4 == u16_at(b, p + 8)
        &&& self.quest_5 == u16_at(b, p + 10)
        &&& self.quest_6 == u16_at(b, p + 12)
        &&& self.travelled_act4 == u16_at(b, p + 14)
    }

    /// Whether the record is the default one.
    pub open spec fn is_default(self) -> bool {
        &&& self.introduced == 0
        &&& self.quest_1 == 0
        &&& self.quest_2 == 0
        &&& self.quest_3 == 0
        &&& self.quest_4 == 0
        &&& self.quest_5 == 0
        &&& self.quest_6 == 0
        &&& self.travelled_act4 == 0
    }

    /// Reads the record at the cursor.
    pub fn from(cur: &mut ByteCursor) -> (r: Result<Act3QuestStatus, FormatError>)
        ensures
            final(cur).bytes() == old(cur).bytes(),
            can_read(old(cur).bytes(), old(cur).pos() as int, Self::len()) ==> r is Ok
                && r->Ok_0.stored_at(old(cur).bytes(), old(cur).pos() as int) && final(cur).pos()
                == old(cur).pos() + Self::len(),
            !can_read(old(cur).bytes(), old(cur).pos() as int, Self::len()) ==> r == Err::<
                Act3QuestStatus,
                FormatError,
            >(FormatError::Truncated) && final(cur).pos() == old(cur).pos(),
    {
        if cur.remaining() < 16 {
            return Err(FormatError::Truncated);
        }
        let introduced: u16 = cur.read_u16()?;
        let quest_1: u16 = cur.read_u16()?;
        let quest_2: u16 = cur.read_u16()?;
        let quest_3: u16 = cur.read_u16()?;
        let quest_4: u16 = cur.read_u16()?;
        let quest_5: u16 = cur.read_u16()?;
        let quest_6: u16 = cur.read_u16()?;
        let travelled_act4: u16 = cur.read_u16()?;
        Ok(Act3QuestStatus { introduced, quest_1, quest_2, quest_3, quest_4, quest_5, quest_6, travelled_act4 })
    }
}

impl Default for Act3QuestStatus {
    fn default() -> (r: Self)
        ensures
            r.is_default(),
    {
        Act3QuestStatus {
            introduced: 0,
            quest_1: 0,
            quest_2: 0,
            quest_3: 0,
            quest_4: 0,
            quest_5: 0,
            quest_6: 0,
            travelled_act4: 0,
        }
    }
}

/// The quests of act 4.
#[derive(Clone, Copy, Debug, PartialEq, Eq)]
pub struct Act4QuestStatus {
    pub introduced: u16,
    pub quest_1: u16,
    pub quest_2: u16,
    pub quest_3: u16,
    pub travelled_act5: u16,
}

impl Act4QuestStatus {
    /// The length of the record in bytes.
    pub open spec fn len() -> int {
        10
    }

    /// Whether the record is the one that `b` holds at offset `p`, field
    /// behind field, least significant byte first.
    pub open spec fn stored_at(self, b: Seq<u8>, p: int) -> bool {
        &&& self.introduced == u16_at(b, p)
        &&& self.quest_1 == u16_at(b, p + 2)
        &&& self.quest_2 == u16_at(b, p + 4)
        &&& self.quest_3 == u16_at(b, p + 6)
        &&& self.travelled_act5 == u16_at(b, p + 8)
    }

    /// Whether the record is the default one.
    pub open spec fn is_default(self) -> bool {
        &&& self.introduced == 0
        &&& self.quest_1 == 0
        &&& self.quest_2 == 0
        &&& self.quest_3 == 0
        &&& self.travelled_act5 == 0
    }

    /// Reads the record at the cursor.
    pub fn from(cur: &mut ByteCursor) -> (r: Result<Act4QuestStatus, FormatError>)
        ensures
            final(cur).bytes() == old(cur).bytes(),
            can_read(old(cur).bytes(), old(cur).pos() as int, Self::len()) ==> r is Ok
                && r->Ok_0.stored_at(old(cur).bytes(), old(cur).pos() as int) && final(cur).pos()
                == old(cur).pos() + Self::len(),
            !can_read(old(cur).bytes(), old(cur).pos() as int, Self::len()) ==> r == Err::<
                Act4QuestStatus,
                FormatError,
            >(FormatError::Truncated) && final(cur).pos() == old(cur).pos(),
    {
        if cur.remaining() < 10 {
            return Err(FormatError::Truncated);
        }
        let introduced: u16 = cur.read_u16()?;
        let quest_1: u16 = cur.read_u16()?;
        let quest_2: u16 = cur.read_u16()?;
        let quest_3: u16 = cur.read_u16()?;
        let travelled_act5: u16 = cur.read_u16()?;
        Ok(Act4QuestStatus { introduced, quest_1, quest_2, quest_3, travelled_act5 })
    }
}

impl Default for Act4QuestStatus {
    fn default() -> (r: Self)
        ensures
            r.is_default(),
    {
        Act4QuestStatus {
            introduced: 0,
            quest_1: 0,
            quest_2: 0,
            quest_3: 0,
            travelled_act5: 0,
        }
    }
}

/// The quests of act 5.
#[derive(Clone, Copy, Debug, PartialEq, Eq)]
pub struct Act5QuestStatus {
    pub introduced: u16,
    pub unknown1: [u16; 3],
    pub unknown2: u16,
    pub unknown3: [u16; 2],
    pub quest_1: u16,
    pub quest_2: u16,
    pub quest_3: u16,
    pub quest_4: u16,
    pub quest_5: u16,
    pub quest_6: u16,
}

impl Act5QuestStatus {
    /// The length of the record in bytes.
    pub open spec fn len() -> int {
        26
    }

    /// Whether the record is the one that `b` holds at offset `p`, field
    /// behind field, least significant byte first.
    pub open spec fn stored_at(self, b: Seq<u8>, p: int) -> bool {
        &&& self.introduced == u16_at(b, p)
        &&& forall|k: int| 0 <= k < 3 ==> #[trigger] self.unknown1@[k] == u16_at(b, p + 2 + 2 * k)
        &&& self.unknown2 == u16_at(b, p + 8)
        &&& forall|k: int| 0 <= k < 2 ==> #[trigger] self.unknown3@[k] == u16_at(b, p + 10 + 2 * k)
        &&& self.quest_1 == u16_at(b, p + 14)
        &&& self.quest_2 == u16_at(b, p + 16)
        &&& self.quest_3 == u16_at(b, p + 18)
        &&& self.quest_4 == u16_at(b, p + 20)
        &&& self.quest_5 == u16_at(b, p + 22)
        &&& self.quest_6 == u16_at(b, p + 24)
    }

    /// Whether the record is the default one.
    pub open spec fn is_default(self) -> bool {
        &&& self.introduced == 0
        &&& forall|k: int| 0 <= k < 3 ==> #[trigger] self.unknown1@[k] == 0
        &&& self.unknown2 == 0
        &&& forall|k: int| 0 <= k < 2 ==> #[trigger] self.unknown3@[k] == 0
        &&& self.quest_1 == 0
        &&& self.quest_2 == 0
        &&& self.quest_3 == 0
        &&& self.quest_4 == 0
        &&& self.quest_5 == 0
        &&& self.quest_6 == 0
    }

    /// Reads the record at the cursor.
    pub fn from(cur: &mut ByteCursor) -> (r: Result<Act5QuestStatus, FormatError>)
        ensures
            final(cur).bytes() == old(cur).bytes(),
            can_read(old(cur).bytes(), old(cur).pos() as int, Self::len()) ==> r is Ok
                && r->Ok_0.stored_at(old(cur).bytes(), old(cur).pos() as int) && final(cur).pos()
                == old(cur).pos() + Self::len(),
            !can_read(old(cur).bytes(), old(cur).pos() as int, Self::len()) ==> r == Err::<
                Act5QuestStatus,
                FormatError,
            >(FormatError::Truncated) && final(cur).pos() == old(cur).pos(),
    {
        let ghost b = cur.bytes();
        let ghost p = cur.pos() as int;
        if cur.remaining() < 26 {
            return Err(FormatError::Truncated);
        }
        let introduced: u16 = cur.read_u16()?;
        let mut unknown1: [u16; 3] = [0u16;3];
        let mut i: usize = 0;
        while i < 3
            invariant
                cur.bytes() == b,
                can_read(b, p, Self::len()),
                0 <= i <= 3,
                cur.pos() == p + 2 + 2 * i,
                forall|k: int| 0 <= k < i ==> #[trigger] unknown1@[k] == u16_at(b, p + 2 + 2 * k),
            decreases 3 - i,
        {
            let v: u16 = cur.read_u16()?;
            unknown1[i] = v;
            i = i + 1;
        }
        let unknown2: u16 = cur.read_u16()?;
        let mut unknown3: [u16; 2] = [0u16;2];
        let mut i: usize = 0;
        while i < 2
            invariant
                cur.bytes() == b,
                can_read(b, p, Self::len()),
                0 <= i <= 2,
                cur.pos() == p + 10 + 2 * i,
                forall|k: int| 0 <= k < i ==> #[trigger] unknown3@[k] == u16_at(b, p + 10 + 2 * k),
            decreases 2 - i,
        {
            let v: u16 = cur.read_u16()?;
            unknown3[i] = v;
            i = i + 1;
        }
        let quest_1: u16 = cur.read_u16()?;
        let quest_2: u16 = cur.read_u16()?;
        let quest_3: u16 = cur.read_u16()?;
        let quest_4: u16 = cur.read_u16()?;
        let quest_5: u16 = cur.read_u16()?;
        let quest_6: u16 = cur.read_u16()?;
        Ok(Act5QuestStatus { introduced, unknown1, unknown2, unknown3, quest_1, quest_2, quest_3, quest_4, quest_5, quest_6 })
    }
}

impl Default for Act5QuestStatus {
    fn default() -> (r: Self)
        ensures
            r.is_default(),
    {
        Act5QuestStatus {
            introduced: 0,
            unknown1: [0u16; 3],
            unknown2: 0,
            unknown3: [0u16; 2],
            quest_1: 0,
            quest_2: 0,
            quest_3: 0,
            quest_4: 0,
            quest_5: 0,
            quest_6: 0,
        }
    }
}

/// The quests of the five acts at one difficulty.
#[derive(Clone, Copy, Debug, PartialEq, Eq)]
pub struct DifficultyQuestGroup {
    pub act_1: Act1QuestStatus,
    pub act_2: Act2QuestStatus,
    pub act_3: Act3QuestStatus,
    pub act_4: Act4QuestStatus,
    pub act_5: Act5QuestStatus,
    pub reserved: [u16; 7],
}

impl DifficultyQuestGroup {
    /// The length of the record in bytes.
    pub open spec fn len() -> int {
        98
    }

    /// Whether the record is the one that `b` holds at offset `p`, field
    /// behind field, least significant byte first.
    pub open spec fn stored_at(self, b: Seq<u8>, p: int) -> bool {
        &&& self.act_1.stored_at(b, p)
        &&& self.act_2.stored_at(b, p + 16)
        &&& self.act_3.stored_at(b, p + 32)
        &&& self.act_4.stored_at(b, p + 48)
        &&& self.act_5.stored_at(b, p + 58)
        &&& forall|k: int| 0 <= k < 7 ==> #[trigger] self.reserved@[k] == u16_at(b, p + 84 + 2 * k)
    }

    /// Whether the record is the default one.
    pub open spec fn is_default(self) -> bool {
        &&& self.act_1.is_default()
        &&& self.act_2.is_default()
        &&& self.act_3.is_default()
        &&& self.act_4.is_default()
        &&& self.act_5.is_default()
        &&& forall|k: int| 0 <= k < 7 ==> #[trigger] self.reserved@[k] == 0
    }

    /// Reads the record at the cursor.
    pub fn from(cur: &mut ByteCursor) -> (r: Result<DifficultyQuestGroup, FormatError>)
        ensures
            final(cur).bytes() == old(cur).bytes(),
            can_read(old(cur).bytes(), old(cur).pos() as int, Self::len()) ==> r is Ok
                && r->Ok_0.stored_at(old(cur).bytes(), old(cur).pos() as int) && final(cur).pos()
                == old(cur).pos() + Self::len(),
            !can_read(old(cur).bytes(), old(cur).pos() as int, Self::len()) ==> r == Err::<
                DifficultyQuestGroup,
                FormatError,
            >(FormatError::Truncated) && final(cur).pos() == old(cur).pos(),
    {
        let ghost b = cur.bytes();
        let ghost p = cur.pos() as int;
        if cur.remaining() < 98 {
            return Err(FormatError::Truncated);
        }
        let act_1: Act1QuestStatus = Act1QuestStatus::from(cur)?;
        let act_2: Act2QuestStatus = Act2QuestStatus::from(cur)?;
        let act_3: Act3QuestStatus = Act3QuestStatus::from(cur)?;
        let act_4: Act4QuestStatus = Act4QuestStatus::from(cur)?;
        let act_5: Act5QuestStatus = Act5QuestStatus::from(cur)?;
        let mut reserved: [u16; 7] = [0u16;7];
        let mut i: usize = 0;
        while i < 7
            invariant
                cur.bytes() == b,
                can_read(b, p, Self::len()),
                0 <= i <= 7,
                cur.pos() == p + 84 + 2 * i,
                forall|k: int| 0 <= k < i ==> #[trigger] reserved@[k] == u16_at(b, p + 84 + 2 * k),
            decreases 7 - i,
        {
            let v: u16 = cur.read_u16()?;
            reserved[i] = v;
            i = i + 1;
        }
        Ok(DifficultyQuestGroup { act_1, act_2, act_3, act_4, act_5, reserved })
    }
}

impl Default for DifficultyQuestGroup {
    fn default() -> (r: Self)
        ensures
            r.is_default(),
    {
        DifficultyQuestGroup {
            act_1: Act1QuestStatus::default(),
            act_2: Act2QuestStatus::default(),
            act_3: Act3QuestStatus::default(),
            act_4: Act4QuestStatus::default(),
            act_5: Act5QuestStatus::default(),
            reserved: [0u16; 7],
        }
    }
}

/// The quest section: its identifier and the quests at each difficulty.
#[derive(Clone, Copy, Debug, PartialEq, Eq)]
pub struct QuestStatus {
    pub identifier: [u8; 4],
    pub unknown: [u8; 6],
    pub normal: DifficultyQuestGroup,
    pub nightmare: DifficultyQuestGroup,
    pub hell: DifficultyQuestGroup,
}

impl QuestStatus {
    /// The length of the record in bytes.
    pub open spec fn len() -> int {
        304
    }

    /// Whether the record is the one that `b` holds at offset `p`, field
    /// behind field, least significant byte first.
    pub open spec fn stored_at(self, b: Seq<u8>, p: int) -> bool {
        &&& self.identifier@ == b.subrange(p, p + 4)
        &&& self.unknown@ == b.subrange(p + 4, p + 10)
        &&& self.normal.stored_at(b, p + 10)
        &&& self.nightmare.stored_at(b, p + 108)
        &&& self.hell.stored_at(b, p + 206)
    }

    /// Whether the record is the default one.
    pub open spec fn is_default(self) -> bool {
        &&& self.identifier@[0] == 0x57
        &&& self.identifier@[1] == 0x6F
        &&& self.identifier@[2] == 0x6F
        &&& self.identifier@[3] == 0x21
        &&& forall|k: int| 0 <= k < 6 ==> #[trigger] self.unknown@[k] == 0
        &&& self.normal.is_default()
        &&& self.nightmare.is_default()
        &&& self.hell.is_default()
    }

    /// Reads the record at the cursor.
    pub fn from(cur: &mut ByteCursor) -> (r: Result<QuestStatus, FormatError>)
        ensures
            final(cur).bytes() == old(cur).bytes(),
            can_read(old(cur).bytes(), old(cur).pos() as int, Self::len()) ==> r is Ok
                && r->Ok_0.stored_at(old(cur).bytes(), old(cur).pos() as int) && final(cur).pos()
                == old(cur).pos() + Self::len(),
            !can_read(old(cur).bytes(), old(cur).pos() as int, Self::len()) ==> r == Err::<
                QuestStatus,
                FormatError,
            >(FormatError::Truncated) && final(cur).pos() == old(cur).pos(),
    {
        let ghost b = cur.bytes();
        let ghost p = cur.pos() as int;
        if cur.remaining() < 304 {
            return Err(FormatError::Truncated);
        }
        let mut identifier: [u8; 4] = [0u8;4];
        let mut i: usize = 0;
        while i < 4
            invariant
                cur.bytes() == b,
                can_read(b, p, Self::len()),
                0 <= i <= 4,
                cur.pos() == p + 0 + 1 * i,
                forall|k: int| 0 <= k < i ==> identifier@[k] == b[p + 0 + k],
            decreases 4 - i,
        {
            let v: u8 = cur.read_u8()?;
            identifier[i] = v;
            i = i + 1;
        }
        proof {
            assert(identifier@ =~= b.subrange(p + 0, p + 4));
        }
        let mut unknown: [u8; 6] = [0u8;6];
        let mut i: usize = 0;
        while i < 6
            invariant
                cur.bytes() == b,
                can_read(b, p, Self::len()),
                0 <= i <= 6,
                cur.pos() == p + 4 + 1 * i,
                forall|k: int| 0 <= k < i ==> unknown@[k] == b[p + 4 + k],
            decreases 6 - i,
        {
            let v: u8 = cur.read_u8()?;
            unknown[i] = v;
            i = i + 1;
        }
        proof {
            assert(unknown@ =~= b.subrange(p + 4, p + 10));
        }
        let normal: DifficultyQuestGroup = DifficultyQuestGroup::from(cur)?;
        let nightmare: DifficultyQuestGroup = DifficultyQuestGroup::from(cur)?;
        let hell: DifficultyQuestGroup = DifficultyQuestGroup::from(cur)?;
        Ok(QuestStatus { identifier, unknown, normal, nightmare, hell })
    }
}

impl Default for QuestStatus {
    /// No quest touched, under the identifier `Woo!`.
    fn default() -> (r: Self)
        ensures
            r.is_default(),
    {
        QuestStatus {
            identifier: [0x57, 0x6F, 0x6F, 0x21],
            unknown: [0u8; 6],
            normal: DifficultyQuestGroup::default(),
            nightmare: DifficultyQuestGroup::default(),
            hell: DifficultyQuestGroup::default(),
        }
    }
}

/// The waypoints reached at one difficulty.
#[derive(Clone, Copy, Debug, PartialEq, Eq)]
pub struct ActWaypoints {
    pub unknown: [u8; 2],
    pub waypoints: [u8; 5],
    pub unknown2: [u8; 17],
}

impl ActWaypoints {
    /// The length of the record in bytes.
    pub open spec fn len() -> int {
        24
    }

    /// Whether the record is the one that `b` holds at offset `p`, field
    /// behind field, least significant byte first.
    pub open spec fn stored_at(self, b: Seq<u8>, p: int) -> bool {
        &&& self.unknown@ == b.subrange(p, p + 2)
        &&& self.waypoints@ == b.subrange(p + 2, p + 7)
        &&& self.unknown2@ == b.subrange(p + 7, p + 24)
    }

    /// Whether the record is the default one.
    pub open spec fn is_default(self) -> bool {
        &&& forall|k: int| 0 <= k < 2 ==> #[trigger] self.unknown@[k] == 0
        &&& forall|k: int| 0 <= k < 5 ==> #[trigger] self.waypoints@[k] == 0
        &&& forall|k: int| 0 <= k < 17 ==> #[trigger] self.unknown2@[k] == 0
    }

    /// Reads the record at the cursor.
    pub fn from(cur: &mut ByteCursor) -> (r: Result<ActWaypoints, FormatError>)
        ensures
            final(cur).bytes() == old(cur).bytes(),
            can_read(old(cur).bytes(), old(cur).pos() as int, Self::len()) ==> r is Ok
                && r->Ok_0.stored_at(old(cur).bytes(), old(cur).pos() as int) && final(cur).pos()
                == old(cur).pos() + Self::len(),
            !can_read(old(cur).bytes(), old(cur).pos() as int, Self::len()) ==> r == Err::<
                ActWaypoints,
                FormatError,
            >(FormatError::Truncated) && final(cur).pos() == old(cur).pos(),
    {
        let ghost b = cur.bytes();
        let ghost p = cur.pos() as int;
        if cur.remaining() < 24 {
            return Err(FormatError::Truncated);
        }
        let mut unknown: [u8; 2] = [0u8;2];
        let mut i: usize = 0;
        while i < 2
            invariant
                cur.bytes() == b,
                can_read(b, p, Self::len()),
                0 <= i <= 2,
                cur.pos() == p + 0 + 1 * i,
                forall|k: int| 0 <= k < i ==> unknown@[k] == b[p + 0 + k],
            decreases 2 - i,
        {
            let v: u8 = cur.read_u8()?;
            unknown[i] = v;
            i = i + 1;
        }
        proof {
            assert(unknown@ =~= b.subrange(p + 0, p + 2));
        }
        let mut waypoints: [u8; 5] = [0u8;5];
        let mut i: usize = 0;
        while i < 5
            invariant
                cur.bytes() == b,
                can_read(b, p, Self::len()),
                0 <= i <= 5,
                cur.pos() == p + 2 + 1 * i,
                forall|k: int| 0 <= k < i ==> waypoints@[k] == b[p + 2 + k],
            decreases 5 - i,
        {
            let v: u8 = cur.read_u8()?;
            waypoints[i] = v;
            i = i + 1;
        }
        proof {
            assert(waypoints@ =~= b.subrange(p + 2, p + 7));
        }
        let mut unknown2: [u8; 17] = [0u8;17];
        let mut i: usize = 0;
        while i < 17
            invariant
                cur.bytes() == b,
                can_read(b, p, Self::len()),
                0 <= i <= 17,
                cur.pos() == p + 7 + 1 * i,
                forall|k: int| 0 <= k < i ==> unknown2@[k] == b[p + 7 + k],
            decreases 17 - i,
        {
            let v: u8 = cur.read_u8()?;
            unknown2[i] = v;
            i = i + 1;
        }
        proof {
            assert(unknown2@ =~= b.subrange(p + 7, p + 24));
        }
        Ok(ActWaypoints { unknown, waypoints, unknown2 })
    }
}

impl Default for ActWaypoints {
    fn default() -> (r: Self)
        ensures
            r.is_default(),
    {
        ActWaypoints {
            unknown: [0u8; 2],
            waypoints: [0u8; 5],
            unknown2: [0u8; 17],
        }
    }
}

/// The waypoint section: its identifier and the waypoints at each difficulty.
#[derive(Clone, Copy, Debug, PartialEq, Eq)]
pub struct Waypoints {
    pub identifier: [u8; 2],
    pub unknown: u8,
    pub normal: ActWaypoints,
    pub nightmare: ActWaypoints,
    pub hell: ActWaypoints,
}

impl Waypoints {
    /// The length of the record in bytes.
    pub open spec fn len() -> int {
        75
    }

    /// Whether the record is the one that `b` holds at offset `p`, field
    /// behind field, least significant byte first.
    pub open spec fn stored_at(self, b: Seq<u8>, p: int) -> bool {
        &&& self.identifier@ == b.subrange(p, p + 2)
        &&& self.unknown == b[p + 2]
        &&& self.normal.stored_at(b, p + 3)
        &&& self.nightmare.stored_at(b, p + 27)
        &&& self.hell.stored_at(b, p + 51)
    }

    /// Whether the record is the default one.
    pub open spec fn is_default(self) -> bool {
        &&& forall|k: int| 0 <= k < 2 ==> #[trigger] self.identifier@[k] == 0
        &&& self.unknown == 0
        &&& self.normal.is_default()
        &&& self.nightmare.is_default()
        &&& self.hell.is_default()
    }

    /// Reads the record at the cursor.
    pub fn from(cur: &mut ByteCursor) -> (r: Result<Waypoints, FormatError>)
        ensures
            final(cur).bytes() == old(cur).bytes(),
            can_read(old(cur).bytes(), old(cur).pos() as int, Self::len()) ==> r is Ok
                && r->Ok_0.stored_at(old(cur).bytes(), old(cur).pos() as int) && final(cur).pos()
                == old(cur).pos() + Self::len(),
            !can_read(old(cur).bytes(), old(cur).pos() as int, Self::len()) ==> r == Err::<
                Waypoints,
                FormatError,
            >(FormatError::Truncated) && final(cur).pos() == old(cur).pos(),
    {
        let ghost b = cur.bytes();
        let ghost p = cur.pos() as int;
        if cur.remaining() < 75 {
            return Err(FormatError::Truncated);
        }
        let mut identifier: [u8; 2] = [0u8;2];
        let mut i: usize = 0;
        while i < 2
            invariant
                cur.bytes() == b,
                can_read(b, p, Self::len()),
                0 <= i <= 2,
                cur.pos() == p + 0 + 1 * i,
                forall|k: int| 0 <= k < i ==> identifier@[k] == b[p + 0 + k],
            decreases 2 - i,
        {
            let v: u8 = cur.read_u8()?;
            identifier[i] = v;
            i = i + 1;
        }
        proof {
            assert(identifier@ =~= b.subrange(p + 0, p + 2));
        }
        let unknown: u8 = cur.read_u8()?;
        let normal: ActWaypoints = ActWaypoints::from(cur)?;
        let nightmare: ActWaypoints = ActWaypoints::from(cur)?;
        let hell: ActWaypoints = ActWaypoints::from(cur)?;
        Ok(Waypoints { identifier, unknown, normal, nightmare, hell })
    }
}

impl Default for Waypoints {
    fn default() -> (r: Self)
        ensures
            r.is_default(),
    {
        Waypoints {
            identifier: [0u8; 2],
            unknown: 0,
            normal: ActWaypoints::default(),
            nightmare: ActWaypoints::default(),
            hell: ActWaypoints::default(),
        }
    }
}

/// A decoded D2S character save.
#[derive(Clone, Debug, PartialEq, Eq)]
pub struct D2s {
    pub version: u32,
    pub file_size: u32,
    pub checksum: u32,
    pub active_weapon_set: u32,
    pub character_name: String,
    pub character_status: u8,
    pub num_acts_beaten: u8,
    pub unknown1: u16,
    pub character_class: u8,
    pub unknown2: u16,
    pub character_menu_level: u8,
    pub unknown3: u32,
    pub timestamp: u32,
    pub unknown4: u32,
    pub hotkeys: [u32; 16],
    pub skill_left: u32,
    pub skill_right: u32,
    pub alternate_skill_left: u32,
    pub alternate_skill_right: u32,
    pub character_menu_appearance: CharacterMenuAppearance,
    pub difficulty_normal: u8,
    pub difficulty_nightmare: u8,
    pub difficulty_hell: u8,
    pub map_seed: u32,
    pub unknown6: u16,
    pub mercenary_dead: u16,
    pub mercenary_seed: u32,
    pub mercenary_name_index: u16,
    pub mercenary_type: u16,
    pub mercenary_exp: u32,
    pub unknown8: [u8; 144],
    pub quests: QuestStatus,
}

/// The value that the first four bytes of a save file hold.
pub open spec fn save_magic() -> u32 {
    0xAA55AA55
}

/// The offset of the quest section: the length of the fixed part of a save
/// file.
pub open spec fn quests_offset() -> int {
    335
}

/// The offset of the character's name.
pub open spec fn name_offset() -> int {
    20
}

/// The length of the field that holds the character's name.
pub open spec fn name_len() -> int {
    16
}

/// The bytes of the field that holds the character's name.
pub open spec fn name_bytes(b: Seq<u8>) -> Seq<u8> {
    b.subrange(name_offset(), name_offset() + name_len())
}

/// `String::from_utf8`: the text that `bytes` encode in UTF-8, and nothing
/// where they are no valid UTF-8.
#[verifier::external_body]
fn text_of_utf8(bytes: Vec<u8>) -> (r: Option<String>)
    ensures
        r is Some <==> valid_utf8(bytes@),
        r is Some ==> r->0@ == decode_utf8(bytes@),
{
    String::from_utf8(bytes).ok()
}

/// How decoding the save file `b` ends. A file that does not start with the
/// magic value, or whose name field is no valid UTF-8, is `Malformed`. A file
/// may end behind its fixed part; one that goes on holds the quest section.
pub open spec fn parse_outcome(b: Seq<u8>) -> Result<(), FormatError> {
    if !can_read(b, 0, 4) {
        Err(FormatError::Truncated)
    } else if u32_at(b, 0) != save_magic() {
        Err(FormatError::Malformed)
    } else if !can_read(b, 0, name_offset() + name_len()) {
        Err(FormatError::Truncated)
    } else if !valid_utf8(name_bytes(b)) {
        Err(FormatError::Malformed)
    } else if !can_read(b, 0, quests_offset()) {
        Err(FormatError::Truncated)
    } else if b.len() != quests_offset() && !can_read(b, quests_offset(), QuestStatus::len()) {
        Err(FormatError::Truncated)
    } else {
        Ok(())
    }
}

impl D2s {
    /// Whether the save is the one that the file `b` holds: the name is the
    /// text of the 16 bytes of its field, padding included, every other field
    /// is read at its offset, and the quests are the default ones where the
    /// file ends behind its fixed part.
    pub open spec fn stored_in(self, b: Seq<u8>) -> bool {
        &&& self.version == u32_at(b, 4)
        &&& self.file_size == u32_at(b, 8)
        &&& self.checksum == u32_at(b, 12)
        &&& self.active_weapon_set == u32_at(b, 16)
        &&& self.character_name@ == decode_utf8(name_bytes(b))
        &&& self.character_status == b[36]
        &&& self.num_acts_beaten == b[37]
        &&& self.unknown1 == u16_at(b, 38)
        &&& self.character_class == b[40]
        &&& self.unknown2 == u16_at(b, 41)
        &&& self.character_menu_level == b[43]
        &&& self.unknown3 == u32_at(b, 44)
        &&& self.timestamp == u32_at(b, 48)
        &&& self.unknown4 == u32_at(b, 52)
        &&& forall|k: int| 0 <= k < 16 ==> #[trigger] self.hotkeys@[k] == u32_at(b, 56 + 4 * k)
        &&& self.skill_left == u32_at(b, 120)
        &&& self.skill_right == u32_at(b, 124)
        &&& self.alternate_skill_left == u32_at(b, 128)
        &&& self.alternate_skill_right == u32_at(b, 132)
        &&& self.character_menu_appearance.stored_at(b, 136)
        &&& self.difficulty_normal == b[168]
        &&& self.difficulty_nightmare == b[169]
        &&& self.difficulty_hell == b[170]
        &&& self.map_seed == u32_at(b, 171)
        &&& self.unknown6 == u16_at(b, 175)
        &&& self.mercenary_dead == u16_at(b, 177)
        &&& self.mercenary_seed == u32_at(b, 179)
        &&& self.mercenary_name_index == u16_at(b, 183)
        &&& self.mercenary_type == u16_at(b, 185)
        &&& self.mercenary_exp == u32_at(b, 187)
        &&& self.unknown8@ == b.subrange(191, 335)
        &&& if b.len() == quests_offset() {
            self.quests.is_default()
        } else {
            self.quests.stored_at(b, quests_offset())
        }
    }

    /// Whether the save is the default one.
    pub open spec fn is_default(self) -> bool {
        &&& self.version == 96
        &&& self.file_size == 0
        &&& self.checksum == 0
        &&& self.active_weapon_set == 0
        &&& self.character_name@ == Seq::<char>::empty()
        &&& self.character_status == 0
        &&& self.num_acts_beaten == 0
        &&& self.unknown1 == 0
        &&& self.character_class == 0
        &&& self.unknown2 == 0
        &&& self.character_menu_level == 1
        &&& self.unknown3 == 0
        &&& self.timestamp == 0
        &&& self.unknown4 == 0
        &&& forall|k: int| 0 <= k < 16 ==> #[trigger] self.hotkeys@[k] == 0
        &&& self.skill_left == 0
        &&& self.skill_right == 0
        &&& self.alternate_skill_left == 0
        &&& self.alternate_skill_right == 0
        &&& self.character_menu_appearance.is_default()
        &&& self.difficulty_normal == 0
        &&& self.difficulty_nightmare == 0
        &&& self.difficulty_hell == 0
        &&& self.map_seed == 0
        &&& self.unknown6 == 0
        &&& self.mercenary_dead == 0
        &&& self.mercenary_seed == 0
        &&& self.mercenary_name_index == 0
        &&& self.mercenary_type == 0
        &&& self.mercenary_exp == 0
        &&& forall|k: int| 0 <= k < 144 ==> #[trigger] self.unknown8@[k] == 0
        &&& self.quests.is_default()
    }

    /// Decodes a D2S file.
    pub fn from(file_bytes: &[u8]) -> (r: Result<D2s, FormatError>)
        ensures
            match parse_outcome(file_bytes@) {
                Ok(_) => r is Ok && r->Ok_0.stored_in(file_bytes@),
                Err(e) => r == Err::<D2s, FormatError>(e),
            },
    {
        let ghost b = file_bytes@;
        let ghost p = 0int;
        let mut cur = ByteCursor::new(file_bytes);
        let magic_header: u32 = cur.read_u32()?;
        if magic_header != 0xAA55AA55 {
            return Err(FormatError::Malformed);
        }
        if cur.remaining() < 32 {
            return Err(FormatError::Truncated);
        }
        let version: u32 = cur.read_u32()?;
        let file_size: u32 = cur.read_u32()?;
        let checksum: u32 = cur.read_u32()?;
        let active_weapon_set: u32 = cur.read_u32()?;
        let raw_name: Vec<u8> = cur.read_bytes(16)?;
        let character_name: String = match text_of_utf8(raw_name) {
            Some(name) => name,
            None => {
                return Err(FormatError::Malformed);
            },
        };
        if cur.remaining() < 299 {
            return Err(FormatError::Truncated);
        }
        let character_status: u8 = cur.read_u8()?;
        let num_acts_beaten: u8 = cur.read_u8()?;
        let unknown1: u16 = cur.read_u16()?;
        let character_class: u8 = cur.read_u8()?;
        let unknown2: u16 = cur.read_u16()?;
        let character_menu_level: u8 = cur.read_u8()?;
        let unknown3: u32 = cur.read_u32()?;
        let timestamp: u32 = cur.read_u32()?;
        let unknown4: u32 = cur.read_u32()?;
        let mut hotkeys: [u32; 16] = [0u32;16];
        let mut i: usize = 0;
        while i < 16
            invariant
                cur.bytes() == b,
                can_read(b, 0, quests_offset()),
                p == 0,
                0 <= i <= 16,
                cur.pos() == p + 56 + 4 * i,
                forall|k: int| 0 <= k < i ==> #[trigger] hotkeys@[k] == u32_at(b, p + 56 + 4 * k),
            decreases 16 - i,
        {
            let v: u32 = cur.read_u32()?;
            hotkeys[i] = v;
            i = i + 1;
        }
        let skill_left: u32 = cur.read_u32()?;
        let skill_right: u32 = cur.read_u32()?;
        let alternate_skill_left: u32 = cur.read_u32()?;
        let alternate_skill_right: u32 = cur.read_u32()?;
        let character_menu_appearance: CharacterMenuAppearance = CharacterMenuAppearance::from(&mut cur)?;
        let difficulty_normal: u8 = cur.read_u8()?;
        let difficulty_nightmare: u8 = cur.read_u8()?;
        let difficulty_hell: u8 = cur.read_u8()?;
        let map_seed: u32 = cur.read_u32()?;
        let unknown6: u16 = cur.read_u16()?;
        let mercenary_dead: u16 = cur.read_u16()?;
        let mercenary_seed: u32 = cur.read_u32()?;
        let mercenary_name_index: u16 = cur.read_u16()?;
        let mercenary_type: u16 = cur.read_u16()?;
        let mercenary_exp: u32 = cur.read_u32()?;
        let mut unknown8: [u8; 144] = [0u8;144];
        let mut i: usize = 0;
        while i < 144
            invariant
                cur.bytes() == b,
                can_read(b, 0, quests_offset()),
                p == 0,
                0 <= i <= 144,
                cur.pos() == p + 191 + 1 * i,
                forall|k: int| 0 <= k < i ==> unknown8@[k] == b[p + 191 + k],
            decreases 144 - i,
        {
            let v: u8 = cur.read_u8()?;
            unknown8[i] = v;
            i = i + 1;
        }
        proof {
            assert(unknown8@ =~= b.subrange(p + 191, p + 335));
        }
        let quests: QuestStatus = if cur.is_at_end() {
            QuestStatus::default()
        } else {
            QuestStatus::from(&mut cur)?
        };
        Ok(
            D2s {
                version,
                file_size,
                checksum,
                active_weapon_set,
                character_name,
                character_status,
                num_acts_beaten,
                unknown1,
                character_class,
                unknown2,
                character_menu_level,
                unknown3,
                timestamp,
                unknown4,
                hotkeys,
                skill_left,
                skill_right,
                alternate_skill_left,
                alternate_skill_right,
                character_menu_appearance,
                difficulty_normal,
                difficulty_nightmare,
                difficulty_hell,
                map_seed,
                unknown6,
                mercenary_dead,
                mercenary_seed,
                mercenary_name_index,
                mercenary_type,
                mercenary_exp,
                unknown8,
                quests,
            },
        )
    }
}

impl Default for D2s {
    /// An empty save of version 96 for a character of level 1.
    fn default() -> (r: Self)
        ensures
            r.is_default(),
    {
        D2s {
            version: 96,
            file_size: 0,
            checksum: 0,
            active_weapon_set: 0,
            character_name: String::new(),
            character_status: 0,
            num_acts_beaten: 0,
            unknown1: 0,
            character_class: 0,
            unknown2: 0,
            character_menu_level: 1,
            unknown3: 0,
            timestamp: 0,
            unknown4: 0,
            hotkeys: [0u32; 16],
            skill_left: 0,
            skill_right: 0,
            alternate_skill_left: 0,
            alternate_skill_right: 0,
            character_menu_appearance: CharacterMenuAppearance::default(),
            difficulty_normal: 0,
            difficulty_nightmare: 0,
            difficulty_hell: 0,
            map_seed: 0,
            unknown6: 0,
            mercenary_dead: 0,
            mercenary_seed: 0,
            mercenary_name_index: 0,
            mercenary_type: 0,
            mercenary_exp: 0,
            unknown8: [0u8; 144],
            quests: QuestStatus::default(),
        }
    }
}

} // verus!
