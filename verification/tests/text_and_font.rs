use devclock::digits::{decimal_string, parse_u64};
use devclock::font::{describe_font, get, sprite_from_json, FontError, Json, SpriteError};
use devclock::text::{vertex_range_end, GlyphTable, LayoutStep};

fn num(s: &str) -> Json {
    Json::Number(s.to_string())
}

fn obj(entries: Vec<(&str, Json)>) -> Json {
    Json::Object(entries.into_iter().map(|(k, v)| (k.to_string(), v)).collect())
}

fn sprite(value: Json) -> Json {
    obj(vec![
        (
            "char",
            obj(vec![
                ("value", value),
                ("advanceX", num("12")),
                ("offset", obj(vec![("x", num("1.5")), ("y", num("-2"))])),
            ]),
        ),
        ("position", obj(vec![("x", num("64")), ("y", num("0"))])),
        ("sourceSize", obj(vec![("width", num("10")), ("height", num("20"))])),
    ])
}

#[test]
fn decimal_strings() {
    assert_eq!(decimal_string(0), "0");
    assert_eq!(decimal_string(1234567), "1234567");
    assert_eq!(decimal_string(u128::MAX), u128::MAX.to_string());
}

#[test]
fn parse_u64_cases() {
    assert_eq!(parse_u64(&"123".to_string()), Some(123));
    assert_eq!(parse_u64(&"".to_string()), None);
    assert_eq!(parse_u64(&"12a".to_string()), None);
    assert_eq!(parse_u64(&"1.0".to_string()), None);
    assert_eq!(parse_u64(&"-1".to_string()), None);
    assert_eq!(parse_u64(&"18446744073709551615".to_string()), Some(u64::MAX));
    assert_eq!(parse_u64(&"18446744073709551616".to_string()), None);
}

#[test]
fn glyph_table_last_entry_wins() {
    let t = GlyphTable::from_entries(vec![('a', 1), ('b', 2), ('a', 3)]);
    assert_eq!(t.len(), 2);
    let i = t.position('a').unwrap();
    assert_eq!(*t.glyph_at(i), 3);
    assert_eq!(t.char_at(i), 'a');
    assert_eq!(*t.glyph_at(t.position('b').unwrap()), 2);
    assert_eq!(t.position('z'), None);
}

#[test]
fn layout_steps_and_vertices() {
    let t = GlyphTable::from_entries(vec![('h', ()), ('i', ())]);
    let steps = t.layout("hi\nh x");
    let h = t.position('h').unwrap();
    let i = t.position('i').unwrap();
    assert!(steps == vec![
        LayoutStep::Glyph(h),
        LayoutStep::Glyph(i),
        LayoutStep::LineBreak,
        LayoutStep::Glyph(h),
        LayoutStep::Blank,
        LayoutStep::Blank,
    ]);
    assert_eq!(vertex_range_end(&steps), 18);
    assert_eq!(vertex_range_end(&Vec::new()), 0);
}

#[test]
fn newline_with_a_glyph_is_drawn() {
    let t = GlyphTable::from_entries(vec![('\n', ())]);
    let steps = t.layout("\n");
    assert!(steps == vec![LayoutStep::Glyph(0)]);
}

#[test]
fn json_get_member() {
    let j = obj(vec![("a", num("1")), ("b", Json::Null)]);
    assert!(matches!(get(&j, "b"), Some(Json::Null)));
    assert!(get(&j, "c").is_none());
    assert!(get(&Json::Array(vec![]), "a").is_none());
}

#[test]
fn sprite_reads() {
    let s = sprite_from_json(&sprite(num("65"))).unwrap();
    assert_eq!(s.character, 'A');
    assert_eq!(s.advance, "12");
    assert_eq!(s.offset, ("1.5".to_string(), "-2".to_string()));
    assert_eq!(s.position, ("64".to_string(), "0".to_string()));
    assert_eq!(s.source_size, ("10".to_string(), "20".to_string()));
}

#[test]
fn sprite_value_is_cut_to_32_bits() {
    let s = sprite_from_json(&sprite(num("4294967361"))).unwrap();
    assert_eq!(s.character, 'A');
}

#[test]
fn sprite_errors() {
    assert_eq!(sprite_from_json(&obj(vec![])).err(), Some(SpriteError::NoChar));
    assert_eq!(sprite_from_json(&sprite(num("55296"))).err(), Some(SpriteError::BadValue));
    assert_eq!(sprite_from_json(&sprite(num("65.0"))).err(), Some(SpriteError::BadValue));
    assert_eq!(sprite_from_json(&sprite(Json::Str("A".to_string()))).err(), Some(SpriteError::BadValue));
    let no_advance = obj(vec![("char", obj(vec![("value", num("65"))]))]);
    assert_eq!(sprite_from_json(&no_advance).err(), Some(SpriteError::BadAdvance));
    let no_offset = obj(vec![("char", obj(vec![("value", num("65")), ("advanceX", num("1"))]))]);
    assert_eq!(sprite_from_json(&no_offset).err(), Some(SpriteError::BadOffset));
    let no_position = obj(vec![(
        "char",
        obj(vec![
            ("value", num("65")),
            ("advanceX", num("1")),
            ("offset", obj(vec![("x", num("0")), ("y", num("0"))])),
        ]),
    )]);
    assert_eq!(sprite_from_json(&no_position).err(), Some(SpriteError::BadPosition));
    let mut no_size = no_position;
    if let Json::Object(entries) = &mut no_size {
        entries.push(("position".to_string(), obj(vec![("x", num("0")), ("y", num("0"))])));
    }
    assert_eq!(sprite_from_json(&no_size).err(), Some(SpriteError::BadSourceSize));
}

#[test]
fn sprite_error_messages() {
    assert_eq!(SpriteError::NoChar.message(), "could not find char");
    assert_eq!(SpriteError::BadValue.message(), "failed to parse value");
    assert_eq!(SpriteError::BadAdvance.message(), "failed to parse advanceX");
    assert_eq!(SpriteError::BadOffset.message(), "failed to parse offset");
    assert_eq!(SpriteError::BadPosition.message(), "failed to parse position");
    assert_eq!(SpriteError::BadSourceSize.message(), "failed to parse sourceSize");
    assert_eq!(FontError::NoFontSize.message(), "failed to get fontSize");
}

#[test]
fn font_description() {
    let j = obj(vec![
        ("atlas", obj(vec![("fontSize", num("32"))])),
        (
            "sprites",
            Json::Array(vec![sprite(num("65")), obj(vec![]), sprite(num("66")), sprite(num("65"))]),
        ),
    ]);
    let d = describe_font(&j).unwrap();
    assert_eq!(d.font_size, "32");
    assert_eq!(d.glyphs.len(), 2);
    assert!(d.glyphs.position('A').is_some());
    assert!(d.glyphs.position('B').is_some());
}

#[test]
fn font_without_sprites_or_size() {
    let j = obj(vec![("atlas", obj(vec![("fontSize", num("8"))]))]);
    let d = describe_font(&j).unwrap();
    assert_eq!(d.glyphs.len(), 0);
    let j = obj(vec![("atlas", obj(vec![("fontSize", Json::Str("8".to_string()))]))]);
    assert_eq!(describe_font(&j).err(), Some(FontError::NoFontSize));
    assert_eq!(describe_font(&Json::Null).err(), Some(FontError::NoFontSize));
}
