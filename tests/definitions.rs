use snad_stack::cells::{CellType, Palette};
use snad_stack::definitions::{
    Boolean, CellDefinitionLoader, CellDefinitions, LineDecodeError, RgbColor, SectionDecodeError,
    SectionInfo,
};

fn field(text: &str) -> SectionInfo<'_> {
    SectionInfo { text, section: 1, line: 0 }
}

#[test]
fn hex_colours_parse_in_either_case() {
    let c = RgbColor::from_hex(field("#FF8000")).ok().unwrap();
    assert_eq!(c.as_array(), [255, 128, 0]);
    let c = RgbColor::from_hex(field("#0a0B0c")).ok().unwrap();
    assert_eq!(c, RgbColor::from_array([10, 11, 12]));
}

#[test]
fn malformed_hex_colours_are_rejected() {
    for bad in ["FF8000", "#FF800", "#FF80000", "#GG0000", "#FF 000", "#éé0000", "#-10000", "#+F0000", "#+f+f+f", ""] {
        assert_eq!(
            RgbColor::from_hex(field(bad)),
            Err(SectionDecodeError::Hex { section: 1 }),
            "{bad}"
        );
    }
}

#[test]
fn colours_print_as_upper_hex() {
    assert_eq!(RgbColor::from_array([255, 10, 0]).to_hex(), "#FF0A00");
    assert_eq!(RgbColor::from_array([0, 0, 0]).to_hex(), "#000000");
}

#[test]
fn lerp_moves_part_of_the_way() {
    let a = RgbColor::from_array([0, 200, 100]);
    let b = RgbColor::from_array([128, 0, 100]);
    assert_eq!(a.lerp_fast(&b, 0), a);
    assert_eq!(a.lerp_fast(&b, 128), b);
    assert_eq!(a.lerp_fast(&b, 64).as_array(), [64, 100, 100]);
    assert_eq!(a.lerp_fast(&b, 1).as_array(), [1, 199, 100]);
}

#[test]
fn records_need_three_good_sections() {
    let d = CellDefinitions::new("sand,#DCB474,#CCA464", 3).ok().unwrap();
    assert_eq!(d.name, "sand");
    let (s, e) = d.color_ranges();
    assert_eq!(s.as_array(), [220, 180, 116]);
    assert_eq!(e.as_array(), [204, 164, 100]);
    assert_eq!(
        CellDefinitions::new("sand", 0).err(),
        Some(SectionDecodeError::NotEnoughSections { last_section: 0 })
    );
    assert_eq!(
        CellDefinitions::new("sand,#DCB474", 0).err(),
        Some(SectionDecodeError::NotEnoughSections { last_section: 0 })
    );
    assert_eq!(
        CellDefinitions::new("sand,#DCB47,#CCA464", 0).err(),
        Some(SectionDecodeError::Hex { section: 1 })
    );
    assert_eq!(
        CellDefinitions::new("a,#+f+f+f,#000000", 0).err(),
        Some(SectionDecodeError::Hex { section: 1 })
    );
    assert_eq!(
        CellDefinitions::new("sand,#DCB474,nope", 0).err(),
        Some(SectionDecodeError::Hex { section: 2 })
    );
}

fn lines(text: &[&str]) -> Vec<String> {
    text.iter().map(|s| s.to_string()).collect()
}

#[test]
fn table_loads_records_and_skips_comments() {
    let t = CellDefinitionLoader::from_memory(&lines(&[
        "# name,start,end",
        "sand,#DCB474,#CCA464",
        "water,#4C99F3,#68AFFD",
    ]))
    .ok()
    .unwrap();
    let defs = t.get();
    assert_eq!(defs.len(), 2);
    assert_eq!(defs[1].name, "water");
    assert_eq!(defs[1].rgb_start.as_array(), [76, 153, 243]);
}

#[test]
fn table_rejects_reserved_character_and_inconsistent_counts() {
    let r = CellDefinitionLoader::from_memory(&lines(&["sand,#DCB474,#CCA464", "wa;ter,#4C99F3,#68AFFD"]));
    assert_eq!(r.err(), Some(LineDecodeError::ContainsBadCharacter { line: 1, pos: 2 }));
    let r = CellDefinitionLoader::from_memory(&lines(&["sand,#DCB474,#CCA464", "water,#4C99F3,#68AFFD,x"]));
    assert_eq!(r.err(), Some(LineDecodeError::InconsistentSectionCount { line: 1 }));
    let r = CellDefinitionLoader::from_memory(&lines(&["# c", "sand,#DCB474,#CCXX64"]));
    assert_eq!(
        r.err(),
        Some(LineDecodeError::BadSection { error: SectionDecodeError::Hex { section: 2 }, line: 1 })
    );
    let r = CellDefinitionLoader::from_memory(&lines(&[]));
    assert_eq!(r.ok().map(|t| t.get().len()), Some(0));
}

#[test]
fn booleans_read_in_any_case() {
    let b = |t: &'static str| Boolean::from_string(SectionInfo { text: t, section: 4, line: 0 });
    assert_eq!(b("true"), Ok(Boolean::True));
    assert_eq!(b("TrUe"), Ok(Boolean::True));
    assert_eq!(b("FALSE"), Ok(Boolean::False));
    assert_eq!(b("yes"), Err(SectionDecodeError::Boolean { section: 4 }));
    assert_eq!(b("truee"), Err(SectionDecodeError::Boolean { section: 4 }));
    assert_eq!(b(""), Err(SectionDecodeError::Boolean { section: 4 }));
}

#[test]
fn names_join_with_semicolons() {
    let t = CellDefinitionLoader::from_memory(&lines(&["sand,#DCB474,#CCA464", "water,#4C99F3,#68AFFD"]))
        .ok()
        .unwrap();
    assert_eq!(t.name_array(), "sand;water;");
}

#[test]
fn palette_takes_table_colours_by_name() {
    let t = CellDefinitionLoader::from_memory(&lines(&[
        "sand,#010203,#040506",
        "mystery,#FFFFFF,#FFFFFF",
        "sand,#0A0B0C,#0D0E0F",
    ]))
    .ok()
    .unwrap();
    let p = Palette::from_table(&t);
    assert_eq!(p.ranges[2], [[10, 11, 12], [13, 14, 15]]);
    assert_eq!(p.ranges[3], CellType::Water.color());
    assert_eq!(Palette::standard().ranges[9], CellType::Stone.color());
}
