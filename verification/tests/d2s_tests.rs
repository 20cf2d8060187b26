use d2fileformats::cursor::ByteCursor;
use d2fileformats::d2s::{
    Act4QuestStatus, Act5QuestStatus, ActWaypoints, CharacterMenuAppearance, D2s, QuestStatus,
    Waypoints,
};
use d2fileformats::error::FormatError;

/// A save of 335 bytes whose byte at offset `i` is `i % 251`, but for the
/// magic value and the name.
fn fixed_part() -> Vec<u8> {
    let mut b: Vec<u8> = (0..335u32).map(|i| (i % 251) as u8).collect();
    b[0..4].copy_from_slice(&0xAA55_AA55u32.to_le_bytes());
    b[20..36].copy_from_slice(b"Hero\0\0\0\0\0\0\0\0\0\0\0\0");
    b
}

fn u16_of(b: &[u8], at: usize) -> u16 {
    u16::from_le_bytes([b[at], b[at + 1]])
}

fn u32_of(b: &[u8], at: usize) -> u32 {
    u32::from_le_bytes([b[at], b[at + 1], b[at + 2], b[at + 3]])
}

#[test]
fn save_that_ends_behind_its_fixed_part() {
    let b = fixed_part();
    let save = D2s::from(&b).unwrap();
    assert_eq!(save.version, u32_of(&b, 4));
    assert_eq!(save.file_size, u32_of(&b, 8));
    assert_eq!(save.checksum, u32_of(&b, 12));
    assert_eq!(save.active_weapon_set, u32_of(&b, 16));
    assert_eq!(save.character_name, "Hero\0\0\0\0\0\0\0\0\0\0\0\0");
    assert_eq!(save.character_status, b[36]);
    assert_eq!(save.num_acts_beaten, b[37]);
    assert_eq!(save.unknown1, u16_of(&b, 38));
    assert_eq!(save.character_class, b[40]);
    assert_eq!(save.unknown2, u16_of(&b, 41));
    assert_eq!(save.character_menu_level, b[43]);
    assert_eq!(save.unknown3, u32_of(&b, 44));
    assert_eq!(save.timestamp, u32_of(&b, 48));
    assert_eq!(save.unknown4, u32_of(&b, 52));
    for k in 0..16 {
        assert_eq!(save.hotkeys[k], u32_of(&b, 56 + 4 * k));
    }
    assert_eq!(save.skill_left, u32_of(&b, 120));
    assert_eq!(save.skill_right, u32_of(&b, 124));
    assert_eq!(save.alternate_skill_left, u32_of(&b, 128));
    assert_eq!(save.alternate_skill_right, u32_of(&b, 132));
    assert_eq!(save.character_menu_appearance.head, b[136]);
    assert_eq!(save.character_menu_appearance.shoulder_left, b[145]);
    assert_eq!(save.character_menu_appearance.reserved1.to_vec(), b[146..152].to_vec());
    assert_eq!(save.character_menu_appearance.head_tint, b[152]);
    assert_eq!(save.character_menu_appearance.reserved2.to_vec(), b[162..168].to_vec());
    assert_eq!(save.difficulty_normal, b[168]);
    assert_eq!(save.difficulty_nightmare, b[169]);
    assert_eq!(save.difficulty_hell, b[170]);
    assert_eq!(save.map_seed, u32_of(&b, 171));
    assert_eq!(save.unknown6, u16_of(&b, 175));
    assert_eq!(save.mercenary_dead, u16_of(&b, 177));
    assert_eq!(save.mercenary_seed, u32_of(&b, 179));
    assert_eq!(save.mercenary_name_index, u16_of(&b, 183));
    assert_eq!(save.mercenary_type, u16_of(&b, 185));
    assert_eq!(save.mercenary_exp, u32_of(&b, 187));
    assert_eq!(save.unknown8.to_vec(), b[191..335].to_vec());
    assert_eq!(save.quests, QuestStatus::default());
    assert_eq!(save.quests.identifier, *b"Woo!");
}

#[test]
fn save_with_quests() {
    let mut b = fixed_part();
    let quests: Vec<u8> = (0..304u32).map(|i| (i * 3 % 256) as u8).collect();
    b.extend_from_slice(&quests);
    b.extend_from_slice(&[0xAB; 10]);
    let save = D2s::from(&b).unwrap();
    let q = &save.quests;
    assert_eq!(q.identifier.to_vec(), quests[0..4].to_vec());
    assert_eq!(q.unknown.to_vec(), quests[4..10].to_vec());
    assert_eq!(q.normal.act_1.introduced, u16_of(&quests, 10));
    assert_eq!(q.normal.act_1.travelled_act2, u16_of(&quests, 24));
    assert_eq!(q.normal.act_2.introduced, u16_of(&quests, 26));
    assert_eq!(q.normal.act_3.quest_6, u16_of(&quests, 42 + 12));
    assert_eq!(q.normal.act_4.travelled_act5, u16_of(&quests, 58 + 8));
    assert_eq!(q.normal.act_5.introduced, u16_of(&quests, 68));
    assert_eq!(q.normal.act_5.unknown1[2], u16_of(&quests, 74));
    assert_eq!(q.normal.act_5.unknown3[1], u16_of(&quests, 80));
    assert_eq!(q.normal.act_5.quest_6, u16_of(&quests, 92));
    assert_eq!(q.normal.reserved[0], u16_of(&quests, 94));
    assert_eq!(q.normal.reserved[6], u16_of(&quests, 106));
    assert_eq!(q.nightmare.act_1.introduced, u16_of(&quests, 108));
    assert_eq!(q.hell.act_1.introduced, u16_of(&quests, 206));
    assert_eq!(q.hell.reserved[6], u16_of(&quests, 302));
}

#[test]
fn save_without_the_magic_value_is_malformed() {
    let mut b = fixed_part();
    b[0] = 0x54;
    assert_eq!(D2s::from(&b).err(), Some(FormatError::Malformed));
    assert_eq!(D2s::from(&[0x54, 0xAA, 0x55, 0xAA]).err(), Some(FormatError::Malformed));
}

#[test]
fn name_that_is_no_utf8_is_malformed() {
    let mut b = fixed_part();
    b[22] = 0xFF;
    assert_eq!(D2s::from(&b).err(), Some(FormatError::Malformed));
    // Met before the end of a file that is also too short.
    assert_eq!(D2s::from(&b[..36]).err(), Some(FormatError::Malformed));
    let mut b = fixed_part();
    b[20..22].copy_from_slice(&[0xC3, 0xA9]);
    assert_eq!(D2s::from(&b).unwrap().character_name, "\u{e9}ro\0\0\0\0\0\0\0\0\0\0\0\0");
}

#[test]
fn short_saves_are_truncated() {
    let mut b = fixed_part();
    for len in [0, 3, 4, 35, 36, 334] {
        assert_eq!(D2s::from(&b[..len]).err(), Some(FormatError::Truncated), "length {}", len);
    }
    b.extend_from_slice(&[0u8; 303]);
    assert_eq!(D2s::from(&b).err(), Some(FormatError::Truncated));
    b.push(0);
    assert!(D2s::from(&b).is_ok());
}

#[test]
fn default_save() {
    let save = D2s::default();
    assert_eq!(save.version, 96);
    assert_eq!(save.character_menu_level, 1);
    assert_eq!(save.character_name, "");
    assert_eq!(save.hotkeys, [0u32; 16]);
    assert_eq!(save.unknown8, [0u8; 144]);
    assert_eq!(save.character_menu_appearance, CharacterMenuAppearance::default());
    assert_eq!(save.character_menu_appearance.head, 0xFF);
    assert_eq!(save.character_menu_appearance.reserved1, [0xFF; 6]);
    assert_eq!(save.character_menu_appearance.shoulder_left_tint, 0xFF);
    assert_eq!(save.quests.identifier, [b'W', b'o', b'o', b'!']);
    assert_eq!(save.quests.unknown, [0u8; 6]);
    assert_eq!(save.quests.hell.act_5.unknown1, [0u16; 3]);
    assert_eq!(save.quests.normal.act_4, Act4QuestStatus::default());
    assert_eq!(save.quests.normal.act_4.quest_3, 0);
}

#[test]
fn menu_appearance_record() {
    let bytes: Vec<u8> = (100..140).collect();
    let mut cur = ByteCursor::new(&bytes);
    cur.skip(3).unwrap();
    let a = CharacterMenuAppearance::from(&mut cur).unwrap();
    assert_eq!(cur.position(), 35);
    assert_eq!(
        [a.head, a.torso, a.legs, a.arm_right, a.arm_left, a.hand_right, a.hand_left, a.shield],
        [103, 104, 105, 106, 107, 108, 109, 110]
    );
    assert_eq!([a.shoulder_right, a.shoulder_left], [111, 112]);
    assert_eq!(a.reserved1, [113, 114, 115, 116, 117, 118]);
    assert_eq!(
        [a.head_tint, a.torso_tint, a.legs_tint, a.arm_right_tint, a.arm_left_tint],
        [119, 120, 121, 122, 123]
    );
    assert_eq!(
        [a.hand_right_tint, a.hand_left_tint, a.shield_tint, a.shoulder_right_tint, a.shoulder_left_tint],
        [124, 125, 126, 127, 128]
    );
    assert_eq!(a.reserved2, [129, 130, 131, 132, 133, 134]);
    assert_eq!(CharacterMenuAppearance::from(&mut cur).err(), Some(FormatError::Truncated));
    assert_eq!(cur.position(), 35);
}

#[test]
fn quest_record() {
    let bytes: Vec<u8> = (0..304u32).map(|i| (i % 256) as u8).collect();
    let mut cur = ByteCursor::new(&bytes);
    let q = QuestStatus::from(&mut cur).unwrap();
    assert_eq!(cur.position(), 304);
    assert_eq!(q.identifier, [0, 1, 2, 3]);
    assert_eq!(q.unknown, [4, 5, 6, 7, 8, 9]);
    assert_eq!(q.normal.act_1.introduced, 0x0B0A);
    assert_eq!(q.normal.act_1.quest_1, 0x0D0C);
    assert_eq!(q.nightmare.act_2.quest_2, u16_of(&bytes, 108 + 16 + 4));
    let mut cur = ByteCursor::new(&bytes[..303]);
    assert_eq!(QuestStatus::from(&mut cur).err(), Some(FormatError::Truncated));
}

#[test]
fn act_5_record() {
    let bytes: Vec<u8> = (1..=26).collect();
    let mut cur = ByteCursor::new(&bytes);
    let a = Act5QuestStatus::from(&mut cur).unwrap();
    assert_eq!(a.introduced, 0x0201);
    assert_eq!(a.unknown1, [0x0403, 0x0605, 0x0807]);
    assert_eq!(a.unknown2, 0x0A09);
    assert_eq!(a.unknown3, [0x0C0B, 0x0E0D]);
    assert_eq!(
        [a.quest_1, a.quest_2, a.quest_3, a.quest_4, a.quest_5, a.quest_6],
        [0x100F, 0x1211, 0x1413, 0x1615, 0x1817, 0x1A19]
    );
}

#[test]
fn waypoint_records() {
    let bytes: Vec<u8> = (0..75).collect();
    let mut cur = ByteCursor::new(&bytes);
    let w = Waypoints::from(&mut cur).unwrap();
    assert_eq!(cur.position(), 75);
    assert_eq!(w.identifier, [0, 1]);
    assert_eq!(w.unknown, 2);
    assert_eq!(w.normal.unknown, [3, 4]);
    assert_eq!(w.normal.waypoints, [5, 6, 7, 8, 9]);
    assert_eq!(w.normal.unknown2.to_vec(), (10..27).collect::<Vec<u8>>());
    assert_eq!(w.nightmare.unknown, [27, 28]);
    assert_eq!(w.hell.unknown, [51, 52]);
    assert_eq!(w.hell.unknown2[16], 74);
    let mut cur = ByteCursor::new(&bytes[..23]);
    assert_eq!(ActWaypoints::from(&mut cur).err(), Some(FormatError::Truncated));
    let mut cur = ByteCursor::new(&bytes[..74]);
    assert_eq!(Waypoints::from(&mut cur).err(), Some(FormatError::Truncated));
    assert_eq!(ActWaypoints::default().waypoints, [0u8; 5]);
    assert_eq!(Waypoints::default().identifier, [0u8; 2]);
}
