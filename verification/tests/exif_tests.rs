use fphoto_renamer_core::exif_reader::{
    find_field_value, find_fujifilm_film_simulation, json_value_to_string, map_fujifilm_film_mode,
    metadata_from_fields, metadata_from_record, normalize, normalize_film_simulation_from_saturation,
    normalize_film_simulation_name, parse_fujifilm_film_mode_code, parse_fujifilm_ifd_short_tag,
    pick_film_simulation_from_json, pick_json_string, read_exif_fields, read_exif_metadata,
    read_exif_metadata_with_exiftool, read_exif_metadata_with_kamadak, read_le_u16, read_le_u32,
    ExifField, TagEntry, TagValue,
};
use fphoto_renamer_core::metadata::{CaptureDate, PartialMetadata};

fn text(name: &str, value: &str) -> TagEntry {
    TagEntry { name: name.to_string(), value: TagValue::Text(value.to_string()) }
}

fn maker_note(code: u16) -> Vec<u8> {
    let mut note = vec![0u8; 26 + 2 + 12 + 4];
    note[0..8].copy_from_slice(b"FUJIFILM");
    note[8..12].copy_from_slice(&12u32.to_le_bytes());
    note[12..16].copy_from_slice(&26u32.to_le_bytes());
    note[26..28].copy_from_slice(&1u16.to_le_bytes());
    let entry = 28usize;
    note[entry..entry + 2].copy_from_slice(&0x1401u16.to_le_bytes());
    note[entry + 2..entry + 4].copy_from_slice(&3u16.to_le_bytes());
    note[entry + 4..entry + 8].copy_from_slice(&1u32.to_le_bytes());
    note[entry + 8..entry + 10].copy_from_slice(&code.to_le_bytes());
    note
}

#[test]
fn parse_fujifilm_film_mode_from_maker_note() {
    // Minimal Fujifilm MakerNote:
    // "FUJIFILM" + 0x0000000c + first IFD offset(0x1a)
    // IFD[1]: tag=0x1401(FilmMode), type=SHORT, count=1, value=0x0700(ETERNA)
    let mut note = vec![0u8; 26 + 2 + 12 + 4];
    note[0..8].copy_from_slice(b"FUJIFILM");
    note[8..12].copy_from_slice(&12u32.to_le_bytes());
    note[12..16].copy_from_slice(&26u32.to_le_bytes());
    note[26..28].copy_from_slice(&1u16.to_le_bytes());

    let entry = 28usize;
    note[entry..entry + 2].copy_from_slice(&0x1401u16.to_le_bytes());
    note[entry + 2..entry + 4].copy_from_slice(&3u16.to_le_bytes());
    note[entry + 4..entry + 8].copy_from_slice(&1u32.to_le_bytes());
    note[entry + 8..entry + 10].copy_from_slice(&0x0700u16.to_le_bytes());

    let code = parse_fujifilm_film_mode_code(&note);
    assert_eq!(code, Some(0x0700));
}

#[test]
fn map_fujifilm_film_mode_name() {
    assert_eq!(map_fujifilm_film_mode(0x000), Some("PROVIA"));
    assert_eq!(map_fujifilm_film_mode(0x700), Some("ETERNA"));
    assert_eq!(map_fujifilm_film_mode(0xB00), Some("REALA ACE"));
    assert_eq!(map_fujifilm_film_mode(0xFFFF), None);
}

#[test]
fn normalize_film_simulation_name_from_text() {
    assert_eq!(
        normalize_film_simulation_name("F0/Standard (Provia)", true).as_deref(),
        Some("PROVIA")
    );
    assert_eq!(
        normalize_film_simulation_name("Reala ACE", true).as_deref(),
        Some("REALA ACE")
    );
    assert_eq!(
        normalize_film_simulation_name("Aperture-priority AE", false),
        None
    );
}

#[test]
fn normalize_film_simulation_from_saturation_values() {
    assert_eq!(
        normalize_film_simulation_from_saturation("Acros").as_deref(),
        Some("ACROS")
    );
    assert_eq!(
        normalize_film_simulation_from_saturation("Acros Red Filter").as_deref(),
        Some("ACROS+ R FILTER")
    );
    assert_eq!(
        normalize_film_simulation_from_saturation("B&W Green Filter").as_deref(),
        Some("MONOCHROME+ G FILTER")
    );
    assert_eq!(
        normalize_film_simulation_from_saturation("B&W Sepia").as_deref(),
        Some("SEPIA")
    );
    assert_eq!(
        normalize_film_simulation_from_saturation("Monochrome +R").as_deref(),
        Some("MONOCHROME+ R FILTER")
    );
    assert_eq!(normalize_film_simulation_from_saturation("+2 (high)"), None);
}

#[test]
fn pick_film_simulation_prefers_saturation_over_film_mode() {
    let json = vec![
        text("Saturation", "Acros Red Filter"),
        text("FilmMode", "F0/Standard (Provia)"),
    ];
    assert_eq!(
        pick_film_simulation_from_json(&json).as_deref(),
        Some("ACROS+ R FILTER")
    );
}

#[test]
fn pick_film_simulation_uses_film_mode_when_saturation_not_bw_family() {
    let json = vec![
        text("Saturation", "+2 (high)"),
        text("FilmMode", "F0/Standard (Provia)"),
    ];
    assert_eq!(
        pick_film_simulation_from_json(&json).as_deref(),
        Some("PROVIA")
    );
}

#[test]
fn film_mode_table_has_every_code() {
    let table: [(u16, &str); 16] = [
        (0x000, "PROVIA"),
        (0x100, "STUDIO-PORTRAIT"),
        (0x110, "STUDIO-PORTRAIT-ENHANCED-SATURATION"),
        (0x120, "ASTIA"),
        (0x130, "STUDIO-PORTRAIT-INCREASED-SHARPNESS"),
        (0x200, "VELVIA"),
        (0x300, "STUDIO-PORTRAIT-EX"),
        (0x400, "VELVIA"),
        (0x500, "PRO-NEG-STD"),
        (0x501, "PRO-NEG-HI"),
        (0x600, "CLASSIC-CHROME"),
        (0x700, "ETERNA"),
        (0x800, "CLASSIC-NEG"),
        (0x900, "BLEACH-BYPASS"),
        (0xA00, "NOSTALGIC-NEG"),
        (0xB00, "REALA ACE"),
    ];
    for (code, name) in table {
        assert_eq!(map_fujifilm_film_mode(code), Some(name));
    }
    assert_eq!(map_fujifilm_film_mode(0x001), None);
}

#[test]
fn little_endian_reads_respect_the_bounds() {
    let data = [0x34u8, 0x12, 0x78, 0x56, 0xff];
    assert_eq!(read_le_u16(&data, 0), Some(0x1234));
    assert_eq!(read_le_u16(&data, 3), Some(0xff56));
    assert_eq!(read_le_u16(&data, 4), None);
    assert_eq!(read_le_u16(&data, usize::MAX), None);
    assert_eq!(read_le_u32(&data, 0), Some(0x56781234));
    assert_eq!(read_le_u32(&data, 1), Some(0xff567812));
    assert_eq!(read_le_u32(&data, 2), None);
    assert_eq!(read_le_u32(&[0xff, 0xff, 0xff, 0xff], 0), Some(u32::MAX));
}

#[test]
fn maker_note_needs_its_prefix_and_length() {
    let mut note = maker_note(0x0600);
    assert_eq!(parse_fujifilm_film_mode_code(&note), Some(0x0600));
    note[0] = b'X';
    assert_eq!(parse_fujifilm_film_mode_code(&note), None);
    assert_eq!(parse_fujifilm_film_mode_code(b"FUJIFILM"), None);
    assert_eq!(parse_fujifilm_film_mode_code(&[]), None);
}

#[test]
fn maker_note_falls_back_to_the_second_directory() {
    let mut note = maker_note(0x0800);
    // the directory named at byte 12 holds no film mode; the one named at byte 8 does
    note[12..16].copy_from_slice(&42u32.to_le_bytes());
    note[8..12].copy_from_slice(&26u32.to_le_bytes());
    assert_eq!(parse_fujifilm_film_mode_code(&note), Some(0x0800));
}

#[test]
fn directory_entries_of_other_kinds() {
    let mut data = vec![0u8; 2 + 24 + 8];
    data[0..2].copy_from_slice(&2u16.to_le_bytes());
    // first entry: another tag
    data[2..4].copy_from_slice(&0x1000u16.to_le_bytes());
    // second entry: the tag as one long value
    data[14..16].copy_from_slice(&0x1401u16.to_le_bytes());
    data[16..18].copy_from_slice(&4u16.to_le_bytes());
    data[18..22].copy_from_slice(&1u32.to_le_bytes());
    data[22..26].copy_from_slice(&0x0001_0501u32.to_le_bytes());
    assert_eq!(parse_fujifilm_ifd_short_tag(&data, 0, 0x1401), Some(0x0501));
    assert_eq!(parse_fujifilm_ifd_short_tag(&data, 0, 0x1000), None);
    // three short values: the entry names the offset of the values
    data[16..18].copy_from_slice(&3u16.to_le_bytes());
    data[18..22].copy_from_slice(&3u32.to_le_bytes());
    data[22..26].copy_from_slice(&26u32.to_le_bytes());
    data[26..28].copy_from_slice(&0x0B00u16.to_le_bytes());
    assert_eq!(parse_fujifilm_ifd_short_tag(&data, 0, 0x1401), Some(0x0B00));
    // a count of zero gives nothing
    data[18..22].copy_from_slice(&0u32.to_le_bytes());
    assert_eq!(parse_fujifilm_ifd_short_tag(&data, 0, 0x1401), None);
    // a directory that does not lie within the data
    assert_eq!(parse_fujifilm_ifd_short_tag(&data, 1000, 0x1401), None);
    assert_eq!(parse_fujifilm_ifd_short_tag(&data, usize::MAX, 0x1401), None);
}

#[test]
fn film_names_from_texts() {
    assert_eq!(normalize_film_simulation_name("  \"Velvia\"  ", false).as_deref(), Some("Velvia"));
    assert_eq!(normalize_film_simulation_name("Pro Neg. Std", true).as_deref(), Some("PRO Neg Std"));
    assert_eq!(normalize_film_simulation_name("PRO NEG STD", true).as_deref(), Some("PRO Neg Std"));
    assert_eq!(normalize_film_simulation_name("pro neg hi", true).as_deref(), Some("PRO Neg Hi"));
    assert_eq!(normalize_film_simulation_name("Classic Negative", true).as_deref(), Some("CLASSIC Neg"));
    assert_eq!(
        normalize_film_simulation_name("Eterna Bleach Bypass", true).as_deref(),
        Some("ETERNA BLEACH BYPASS")
    );
    assert_eq!(normalize_film_simulation_name("Nostalgic-Neg", true).as_deref(), Some("NOSTALGIC Neg"));
    assert_eq!(normalize_film_simulation_name("something", true).as_deref(), Some("something"));
    assert_eq!(normalize_film_simulation_name("something", false), None);
    assert_eq!(normalize_film_simulation_name(" \"\" ", true), None);
    assert_eq!(normalize_film_simulation_name("b&w", false).as_deref(), Some("MONOCHROME"));
    assert_eq!(normalize_film_simulation_name("Sepia", false).as_deref(), Some("SEPIA"));
}

#[test]
fn saturation_filters() {
    assert_eq!(
        normalize_film_simulation_from_saturation("Acros Yellow Filter").as_deref(),
        Some("ACROS+ Ye FILTER")
    );
    assert_eq!(
        normalize_film_simulation_from_saturation("acros green filter").as_deref(),
        Some("ACROS+ G FILTER")
    );
    assert_eq!(
        normalize_film_simulation_from_saturation("B&W Red Filter").as_deref(),
        Some("MONOCHROME+ R FILTER")
    );
    assert_eq!(
        normalize_film_simulation_from_saturation("Monochrome +Ye").as_deref(),
        Some("MONOCHROME+ Ye FILTER")
    );
    assert_eq!(
        normalize_film_simulation_from_saturation("Black & White +G").as_deref(),
        Some("MONOCHROME+ G FILTER")
    );
    assert_eq!(normalize_film_simulation_from_saturation("None (B&W)").as_deref(), Some("MONOCHROME"));
    assert_eq!(normalize_film_simulation_from_saturation("   "), None);
}

#[test]
fn values_of_tags_as_text() {
    assert_eq!(json_value_to_string(&TagValue::Text("  x ".to_string())).as_deref(), Some("x"));
    assert_eq!(json_value_to_string(&TagValue::Text("   ".to_string())), None);
    assert_eq!(json_value_to_string(&TagValue::Number("35".to_string())).as_deref(), Some("35"));
    assert_eq!(json_value_to_string(&TagValue::Bool(true)).as_deref(), Some("true"));
    assert_eq!(json_value_to_string(&TagValue::Bool(false)).as_deref(), Some("false"));
    assert_eq!(json_value_to_string(&TagValue::Null), None);
    assert_eq!(json_value_to_string(&TagValue::Object), None);
    let list = TagValue::List(vec![
        TagValue::Null,
        TagValue::Text(" ".to_string()),
        TagValue::List(vec![TagValue::Object, TagValue::Text("inner".to_string())]),
        TagValue::Text("later".to_string()),
    ]);
    assert_eq!(json_value_to_string(&list).as_deref(), Some("inner"));
    assert_eq!(json_value_to_string(&TagValue::List(vec![])), None);
}

#[test]
fn keys_are_tried_in_order() {
    let record = vec![text("Lens", "second"), text("LensModel", "  "), text("LensType", "third")];
    assert_eq!(
        pick_json_string(&record, &vec!["LensModel", "Lens", "LensType"]).as_deref(),
        Some("second")
    );
    assert_eq!(pick_json_string(&record, &vec!["LensType", "Lens"]).as_deref(), Some("third"));
    assert_eq!(pick_json_string(&record, &vec!["Missing"]), None);
    assert_eq!(pick_json_string(&record, &vec![]), None);
}

#[test]
fn film_simulation_order_in_records() {
    let record = vec![text("ColorMode", "Velvia"), text("FilmMode", "Astia")];
    assert_eq!(pick_film_simulation_from_json(&record).as_deref(), Some("Velvia"));
    let record = vec![text("ColorMode", "Vivid"), text("FilmSimulation", "Custom Look")];
    assert_eq!(pick_film_simulation_from_json(&record).as_deref(), Some("Custom Look"));
    let record = vec![text("PictureMode", "Portrait")];
    assert_eq!(pick_film_simulation_from_json(&record), None);
    let record = vec![text("PictureMode", "Velvia mode")];
    assert_eq!(pick_film_simulation_from_json(&record).as_deref(), Some("Velvia"));
}

#[test]
fn metadata_from_a_record() {
    let record = vec![
        text("Make", " FUJIFILM "),
        text("Model", "X-T5"),
        text("LensManufacturer", "FUJIFILM"),
        text("LensInfo", "16-55mm"),
        text("FilmMode", "Classic Chrome"),
        text("DateTimeOriginal", "2024:01:02 03:04:05"),
    ];
    let date = CaptureDate { year: 2024, month: 1, day: 2, hour: 3, minute: 4, second: 5 };
    let meta = metadata_from_record(&record, Some(date));
    assert_eq!(meta.date, Some(date));
    assert_eq!(meta.camera_make.as_deref(), Some("FUJIFILM"));
    assert_eq!(meta.camera_model.as_deref(), Some("X-T5"));
    assert_eq!(meta.lens_make.as_deref(), Some("FUJIFILM"));
    assert_eq!(meta.lens_model.as_deref(), Some("16-55mm"));
    assert_eq!(meta.film_sim.as_deref(), Some("CLASSIC CHROME"));
    let read = read_exif_metadata_with_exiftool(&record);
    assert_eq!(read.date, Some(date));
    assert_eq!(read.camera_model.as_deref(), Some("X-T5"));
    let nothing = read_exif_metadata_with_exiftool(&vec![text("DateTimeOriginal", "not a date")]);
    assert_eq!(nothing.date, None);
    assert_eq!(nothing.camera_make, None);
}

fn field(tag: &str, ascii: Option<Vec<&str>>, bytes: Option<Vec<u8>>, display: &str) -> ExifField {
    ExifField {
        tag_name: tag.to_string(),
        ascii: ascii.map(|v| v.into_iter().map(|s| s.as_bytes().to_vec()).collect()),
        bytes,
        display: display.to_string(),
    }
}

#[test]
fn fields_are_found_by_name_whatever_the_case() {
    let fields = vec![
        field("make", Some(vec!["\0\0", " FUJIFILM\0"]), None, "\"FUJIFILM\""),
        field("Model", Some(vec![""]), None, " \"X-T5\" "),
        field("Model", None, None, "other"),
        field("ISO", None, None, "  "),
    ];
    assert_eq!(find_field_value(&fields, &vec!["Make", "CameraMake"]).as_deref(), Some("FUJIFILM"));
    assert_eq!(find_field_value(&fields, &vec!["CameraModel", "Model"]).as_deref(), Some("X-T5"));
    assert_eq!(find_field_value(&fields, &vec!["ISO"]), None);
    assert_eq!(find_field_value(&fields, &vec!["Lens"]), None);
}

#[test]
fn text_values_that_are_no_utf8_are_read_with_replacements() {
    let odd = ExifField {
        tag_name: "Model".to_string(),
        ascii: Some(vec![vec![0, 0], vec![b' ', b'X', 0xff, b'1', 0]]),
        bytes: None,
        display: "shown".to_string(),
    };
    assert_eq!(find_field_value(&vec![odd], &vec!["Model"]).as_deref(), Some("X\u{fffd}1"));
}

#[test]
fn maker_note_gives_the_film_simulation() {
    let fields = vec![
        field("MakerNote", None, None, "x"),
        field("makernote", None, Some(maker_note(0x0700)), "x"),
    ];
    assert_eq!(find_fujifilm_film_simulation(&fields).as_deref(), Some("ETERNA"));
    let meta = metadata_from_fields(&fields, None);
    assert_eq!(meta.film_sim.as_deref(), Some("ETERNA"));
    assert_eq!(meta.date, None);
    let tagged = vec![
        field("FilmMode", Some(vec!["Velvia"]), None, ""),
        field("MakerNote", None, Some(maker_note(0x0700)), "x"),
    ];
    assert_eq!(metadata_from_fields(&tagged, None).film_sim.as_deref(), Some("Velvia"));
    let unknown = vec![field("MakerNote", None, Some(maker_note(0x0001)), "x")];
    assert_eq!(find_fujifilm_film_simulation(&unknown), None);
}

/// A TIFF file of one directory with two text fields: the maker and the date.
fn small_tiff() -> Vec<u8> {
    let mut data = Vec::new();
    data.extend_from_slice(b"II*\0");
    data.extend_from_slice(&8u32.to_le_bytes());
    data.extend_from_slice(&2u16.to_le_bytes());
    for (tag, count, offset) in [(0x010fu16, 9u32, 38u32), (0x0132, 20, 47)] {
        data.extend_from_slice(&tag.to_le_bytes());
        data.extend_from_slice(&2u16.to_le_bytes());
        data.extend_from_slice(&count.to_le_bytes());
        data.extend_from_slice(&offset.to_le_bytes());
    }
    data.extend_from_slice(&0u32.to_le_bytes());
    data.extend_from_slice(b"FUJIFILM\0");
    data.extend_from_slice(b"2024:06:15 12:34:56\0");
    data
}

#[test]
fn fields_of_an_image_are_read() {
    let fields = read_exif_fields(&small_tiff()).expect("fields");
    assert_eq!(fields.len(), 2);
    assert_eq!(fields[0].tag_name, "Make");
    assert_eq!(fields[0].ascii, Some(vec![b"FUJIFILM".to_vec()]));
    assert_eq!(fields[0].bytes, None);
    assert_eq!(fields[1].tag_name, "DateTime");
    let meta = read_exif_metadata_with_kamadak(&small_tiff()).expect("metadata");
    assert_eq!(meta.camera_make.as_deref(), Some("FUJIFILM"));
    assert_eq!(meta.camera_model, None);
    assert_eq!(
        meta.date,
        Some(CaptureDate { year: 2024, month: 6, day: 15, hour: 12, minute: 34, second: 56 })
    );
    assert!(read_exif_fields(b"II*\0").is_none());
}

#[test]
fn bytes_that_are_no_image_give_no_metadata() {
    assert!(read_exif_metadata_with_kamadak(b"not-a-real-jpg").is_none());
    assert!(read_exif_metadata_with_kamadak(&[]).is_none());
}

#[test]
fn normalize_trims_and_drops_empty_texts() {
    assert_eq!(normalize(Some("  a b ".to_string())).as_deref(), Some("a b"));
    assert_eq!(normalize(Some(" \t ".to_string())), None);
    assert_eq!(normalize(None), None);
}

fn partial(make: Option<&str>, model: Option<&str>) -> PartialMetadata {
    PartialMetadata {
        date: None,
        camera_make: make.map(|s| s.to_string()),
        camera_model: model.map(|s| s.to_string()),
        lens_make: None,
        lens_model: None,
        film_sim: None,
    }
}

#[test]
fn tool_metadata_is_filled_from_embedded_metadata() {
    let merged = read_exif_metadata(Some(partial(Some("A"), None)), Some(partial(Some("B"), Some("M"))))
        .expect("metadata");
    assert_eq!(merged.camera_make.as_deref(), Some("A"));
    assert_eq!(merged.camera_model.as_deref(), Some("M"));
    let alone = read_exif_metadata(None, Some(partial(Some("B"), None))).expect("metadata");
    assert_eq!(alone.camera_make.as_deref(), Some("B"));
    let tool = read_exif_metadata(Some(partial(Some("A"), None)), None).expect("metadata");
    assert_eq!(tool.camera_make.as_deref(), Some("A"));
    assert!(read_exif_metadata(None, None).is_none());
}
