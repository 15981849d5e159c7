//! The shape libraries of the lasers and of the gobo projector.
use lightshow::patterns::{
    decode_u32, get, is_blank, library, name_to_id, outline_segments, pattern_name, Pattern, PatternPoint, PATTERN_COUNT,
};
use lightshow::projector_patterns;

fn word(x: u32, y: u32, lit: bool) -> String {
    let colour = if lit { 7 << 11 } else { 0 };
    format!("\"0x{:08x}\"", x << 23 | y << 14 | colour | 1)
}

fn entry(name: &str, words: &[String]) -> String {
    format!("\"{}\": [{}]", name, words.join(", "))
}

/// A document with every pattern: most are a triangle.
fn document() -> String {
    let mut entries: Vec<String> = Vec::new();
    for i in 0..PATTERN_COUNT {
        let name = pattern_name(i).unwrap();
        let words: Vec<String> = match name {
            "gravestone_cross" => {
                let mut w: Vec<String> = (0..13).map(|k| word(20 * k, 300 - 10 * k, k != 4 && k != 9)).collect();
                w.insert(0, "\"0x0\"".to_string()); // a blank word is skipped
                w
            }
            "square_small" => vec![word(100, 100, true), word(200, 100, true), word(200, 200, true), word(100, 200, true)],
            "horizontal_lines_left_to_right_slow" => (0..5)
                .flat_map(|k| [word(10, 20 * k, true), word(300, 20 * k, false)])
                .collect(),
            _ => vec![word(0, 0, true), word(320, 0, true), word(160, 320, true)],
        };
        entries.push(entry(name, &words));
    }
    format!("{{{}}}", entries.join(", "))
}

fn shapes() -> Vec<Pattern> {
    library(&document()).unwrap()
}

#[test]
fn library_builds_and_ids_align() {
    let lib = shapes();
    assert_eq!(lib.len(), 38);
    for (i, p) in lib.iter().enumerate() {
        assert_eq!(p.id as usize, i);
        assert_eq!(p.name, pattern_name(i).unwrap());
    }
    // gravestone_cross has 13 points within the galvo range.
    let gc = get(&lib, name_to_id("gravestone-cross").unwrap()).unwrap();
    assert_eq!(gc.points.len(), 13);
    for pt in &gc.points {
        assert!((0..=320).contains(&pt.x), "x out of range: {}", pt.x);
        assert!((0..=320).contains(&pt.y), "y out of range: {}", pt.y);
        assert!(pt.r <= 7 && pt.g <= 7 && pt.b <= 7);
    }
}

#[test]
fn outline_blanks_and_closes() {
    let lib = shapes();
    let by = |n: &str| &lib[name_to_id(n).unwrap() as usize].points;

    // Horizontal lines: 5 clean left→right bars, no diagonal connectors.
    let segs = outline_segments(by("horizontal_lines_left_to_right_slow"));
    assert_eq!(segs.len(), 5);
    for (a, b) in &segs {
        assert!(!is_blank(a));
        assert_eq!(a.y, b.y, "bar should be horizontal");
        assert!(a.x < b.x, "bar runs left→right");
    }

    // Square: 4 segments forming a closed loop (last returns to the first).
    let segs = outline_segments(by("square_small"));
    assert_eq!(segs.len(), 4);
    assert_eq!((segs[3].1.x, segs[3].1.y), (segs[0].0.x, segs[0].0.y));

    // Gravestone: its two blank points break the loop (no lit segment starts
    // from a blank), leaving 13 - 2 = 11 lit segments.
    let segs = outline_segments(by("gravestone_cross"));
    assert_eq!(segs.len(), 11);
    assert!(segs.iter().all(|(a, _)| !is_blank(a)));
}

#[test]
fn library_parses_and_known_codes_map() {
    let mut entries = vec![
        "\"Large_Square\": {\"code\": [\"0x00\", \"0x0c\"]}".to_string(),
        "\"Zeus_Scene\": {\"code\": [\"0xff\", \"0x00\"]}".to_string(),
        "\"Dolphin\": {\"code\": [\"0xff\", \"0x0c\"]}".to_string(),
        "\"ignore\": {\"code\": [\"0x01\", \"0x01\"]}".to_string(),
    ];
    for i in 0..271 {
        let (gallery, pattern) = if i < 200 { (0x00, 20 + i) } else { (0xff, 20 + i - 200) };
        entries.push(format!("\"Filler_{i:03}\": {{\"code\": [\"0x{gallery:02x}\", \"0x{pattern:02x}\"]}}"));
    }
    assert_eq!(entries.len(), 275);
    let lib = projector_patterns::library(&format!("{{{}}}", entries.join(", "))).unwrap();
    // 274 named patterns (275 entries minus the "ignore" sentinel).
    assert_eq!(lib.len(), 274);
    assert_eq!(projector_patterns::name_for(&lib, 0x00, 0x0c), Some("Large_Square"));
    assert_eq!(projector_patterns::name_for(&lib, 0xff, 0x00), Some("Zeus_Scene"));
    assert_eq!(projector_patterns::name_for(&lib, 0xff, 0x0c), Some("Dolphin"));
    // "ignore" must not appear in the picker.
    assert!(lib.iter().all(|p| p.name != "ignore"));
    // Sorted: gobos (0x00) before scenes (0xff).
    assert!(lib.is_sorted_by_key(|p| (p.gallery, p.pattern)));
}

#[test]
fn words_unpack_into_points() {
    assert_eq!(decode_u32(0), None);
    let p = decode_u32(320 << 23 | 17 << 14 | 5 << 11 | 2 << 8 | 7 << 5).unwrap();
    assert_eq!(p, PatternPoint { x: 320, y: 17, r: 5, g: 2, b: 7 });
}

#[test]
fn names_are_found_in_either_spelling() {
    for i in 0..PATTERN_COUNT {
        let name = pattern_name(i).unwrap();
        assert_eq!(name_to_id(name), Some(i as u8));
        assert_eq!(name_to_id(&name.replace('_', "-")), Some(i as u8));
    }
    assert_eq!(name_to_id("no such shape"), None);
    assert_eq!(pattern_name(PATTERN_COUNT), None);
}

#[test]
fn broken_libraries_are_refused() {
    assert!(library("[]").is_none());
    assert!(library("{\"bat\": 3}").is_none());
    assert!(library("not json").is_none());
    let empty = library("{}").unwrap();
    assert!(empty.iter().all(|p| p.points.is_empty()));
    assert!(projector_patterns::library("{\"x\": {\"code\": 1}}").is_none());
    let short = projector_patterns::library("{\"x\": {\"code\": [\"0x01\"]}}").unwrap();
    assert!(short.is_empty());
}

#[test]
fn bytes_read_with_and_without_prefix() {
    assert_eq!(projector_patterns::parse_byte(" 0x0c "), Some(12));
    assert_eq!(projector_patterns::parse_byte("ff"), Some(255));
    assert_eq!(projector_patterns::parse_byte("100"), None);
    assert_eq!(projector_patterns::parse_byte(""), None);
}
