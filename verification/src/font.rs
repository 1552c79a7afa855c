//! Reading a font atlas description: a JSON document that gives the font
//! size and, for each sprite of the atlas image, the character it draws and
//! where it sits.
//!
//! JSON numbers are held as the text that the JSON library prints for them;
//! the drawing code turns them into floating-point values.

use vstd::prelude::*;

use crate::digits::{all_digits, decimal_value, parse_u64};
use crate::text::{last_entry, GlyphTable};

verus! {

/// A JSON value. Numbers are held as their canonical text (digits alone for
/// a non-negative integer); the entries of an object have distinct keys.
pub enum Json {
    Null,
    Bool(bool),
    Number(String),
    Str(String),
    Array(Vec<Json>),
    Object(Vec<(String, Json)>),
}

/// The value of the first entry under `key`.
pub open spec fn first_with_key(entries: Seq<(String, Json)>, key: Seq<char>) -> Option<Json>
    decreases entries.len(),
{
    if entries.len() == 0 {
        None
    } else if entries[0].0@ == key {
        Some(entries[0].1)
    } else {
        first_with_key(entries.drop_first(), key)
    }
}

/// The member `key` of `j`, if `j` is an object that has one.
pub open spec fn json_get(j: Json, key: Seq<char>) -> Option<Json> {
    match j {
        Json::Object(entries) => first_with_key(entries@, key),
        _ => None,
    }
}

/// The member `key` of `j`, when `j` is present.
pub open spec fn json_get_opt(j: Option<Json>, key: Seq<char>) -> Option<Json> {
    match j {
        Some(v) => json_get(v, key),
        None => None,
    }
}

/// The text of `j`, if `j` is a number.
pub open spec fn number_text(j: Option<Json>) -> Option<Seq<char>> {
    match j {
        Some(Json::Number(s)) => Some(s@),
        _ => None,
    }
}

/// The value of `j`, if `j` is a non-negative integer that fits in 64 bits.
pub open spec fn json_as_u64(j: Option<Json>) -> Option<u64> {
    match number_text(j) {
        Some(t) => if t.len() > 0 && all_digits(t) && decimal_value(t) <= u64::MAX {
            Some(decimal_value(t) as u64)
        } else {
            None
        },
        None => None,
    }
}

/// Whether `v` is the scalar value of a `char`: at most 0x10FFFF and not a
/// surrogate.
pub open spec fn is_scalar_value(v: u32) -> bool {
    v <= 0x10FFFF && !(0xD800 <= v <= 0xDFFF)
}

/// Both members `x` and `y` of `j` as number texts, when `j` has both and
/// both are numbers.
pub open spec fn number_pair(j: Option<Json>, x: Seq<char>, y: Seq<char>) -> Option<
    (Seq<char>, Seq<char>),
> {
    match (number_text(json_get_opt(j, x)), number_text(json_get_opt(j, y))) {
        (Some(a), Some(b)) => Some((a, b)),
        _ => None,
    }
}

/// Why a sprite could not be read.
#[derive(Clone, Copy, PartialEq, Eq, Debug)]
pub enum SpriteError {
    /// No `char` member.
    NoChar,
    /// `char.value` is not a 64-bit count that, cut to 32 bits, is a `char`.
    BadValue,
    /// `char.advanceX` is not a number.
    BadAdvance,
    /// `char.offset` lacks a numeric `x` or `y`.
    BadOffset,
    /// `position` lacks a numeric `x` or `y`.
    BadPosition,
    /// `sourceSize` lacks a numeric `width` or `height`.
    BadSourceSize,
}

/// A sprite of the atlas: the character it draws, how far it moves the pen,
/// where the glyph sits relative to the pen, and where and how large the
/// sprite is in the atlas image. Numbers are held as JSON number texts.
pub struct Sprite {
    pub character: char,
    pub advance: String,
    pub offset: (String, String),
    pub position: (String, String),
    pub source_size: (String, String),
}

/// A sprite with its texts as character sequences.
pub struct SpriteView {
    pub character: char,
    pub advance: Seq<char>,
    pub offset: (Seq<char>, Seq<char>),
    pub position: (Seq<char>, Seq<char>),
    pub source_size: (Seq<char>, Seq<char>),
}

impl View for Sprite {
    type V = SpriteView;

    open spec fn view(&self) -> SpriteView {
        SpriteView {
            character: self.character,
            advance: self.advance@,
            offset: (self.offset.0@, self.offset.1@),
            position: (self.position.0@, self.position.1@),
            source_size: (self.source_size.0@, self.source_size.1@),
        }
    }
}

/// What reading the sprite `j` gives: its first failing check, in the order
/// `char`, `char.value`, `char.advanceX`, `char.offset`, `position`,
/// `sourceSize`, or the sprite.
pub open spec fn sprite_of(j: Json) -> Result<SpriteView, SpriteError> {
    let ch = json_get(j, "char"@);
    if ch is None {
        Err(SpriteError::NoChar)
    } else {
        let value = json_as_u64(json_get_opt(ch, "value"@));
        if value is None || !is_scalar_value(value->0 as u32) {
            Err(SpriteError::BadValue)
        } else if number_text(json_get_opt(ch, "advanceX"@)) is None {
            Err(SpriteError::BadAdvance)
        } else if number_pair(json_get_opt(ch, "offset"@), "x"@, "y"@) is None {
            Err(SpriteError::BadOffset)
        } else if number_pair(json_get(j, "position"@), "x"@, "y"@) is None {
            Err(SpriteError::BadPosition)
        } else if number_pair(json_get(j, "sourceSize"@), "width"@, "height"@) is None {
            Err(SpriteError::BadSourceSize)
        } else {
            Ok(
                SpriteView {
                    character: (value->0 as u32) as char,
                    advance: number_text(json_get_opt(ch, "advanceX"@))->0,
                    offset: number_pair(json_get_opt(ch, "offset"@), "x"@, "y"@)->0,
                    position: number_pair(json_get(j, "position"@), "x"@, "y"@)->0,
                    source_size: number_pair(json_get(j, "sourceSize"@), "width"@, "height"@)->0,
                },
            )
        }
    }
}

impl SpriteError {
    /// The message that describes the error.
    pub fn message(&self) -> (m: &'static str)
        ensures
            m@ == match *self {
                SpriteError::NoChar => "could not find char"@,
                SpriteError::BadValue => "failed to parse value"@,
                SpriteError::BadAdvance => "failed to parse advanceX"@,
                SpriteError::BadOffset => "failed to parse offset"@,
                SpriteError::BadPosition => "failed to parse position"@,
                SpriteError::BadSourceSize => "failed to parse sourceSize"@,
            },
    {
        match self {
            SpriteError::NoChar => "could not find char",
            SpriteError::BadValue => "failed to parse value",
            SpriteError::BadAdvance => "failed to parse advanceX",
            SpriteError::BadOffset => "failed to parse offset",
            SpriteError::BadPosition => "failed to parse position",
            SpriteError::BadSourceSize => "failed to parse sourceSize",
        }
    }
}

/// `char::from_u32`: the `char` whose scalar value is `v`, or `None` when
/// `v` is a surrogate or above 0x10FFFF, as the standard library documents.
#[verifier::external_body]
fn char_from_u32(v: u32) -> (c: Option<char>)
    ensures
        match c {
            Some(ch) => is_scalar_value(v) && ch == v as char,
            None => !is_scalar_value(v),
        },
{
    char::from_u32(v)
}

/// The member `key` of `j`, if `j` is an object that has one.
pub fn get<'a>(j: &'a Json, key: &str) -> (r: Option<&'a Json>)
    ensures
        match r {
            Some(v) => json_get(*j, key@) == Some(*v),
            None => json_get(*j, key@) is None,
        },
{
    match j {
        Json::Object(entries) => {
            let wanted = String::from_str(key);
            let n = entries.len();
            let mut i: usize = 0;
            assert(entries@.skip(0) =~= entries@);
            assert(json_get(*j, key@) == first_with_key(entries@, key@));
            while i < n
                invariant
                    n == entries@.len(),
                    i <= n,
                    wanted@ == key@,
                    json_get(*j, key@) == first_with_key(entries@.skip(i as int), key@),
                decreases n - i,
            {
                proof {
                    assert(entries@.skip(i as int).drop_first() =~= entries@.skip(i + 1));
                    assert(entries@.skip(i as int)[0] == entries@[i as int]);
                }
                if entries[i].0 == wanted {
                    assert(first_with_key(entries@.skip(i as int), key@) == Some(entries@[i as int].1));
                    return Some(&entries[i].1);
                }
                i = i + 1;
            }
            None
        },
        _ => None,
    }
}

/// The member `key` of `j`, when `j` is present.
pub fn get_opt<'a>(j: Option<&'a Json>, key: &str) -> (r: Option<&'a Json>)
    ensures
        match r {
            Some(v) => json_get_opt(opt_deref(j), key@) == Some(*v),
            None => json_get_opt(opt_deref(j), key@) is None,
        },
{
    match j {
        Some(v) => get(v, key),
        None => None,
    }
}

/// The value behind an optional reference.
pub open spec fn opt_deref(j: Option<&Json>) -> Option<Json> {
    match j {
        Some(v) => Some(*v),
        None => None,
    }
}

/// The number text of `j`, when `j` is a number.
fn number_of(j: Option<&Json>) -> (r: Option<String>)
    ensures
        match r {
            Some(t) => number_text(opt_deref(j)) == Some(t@),
            None => number_text(opt_deref(j)) is None,
        },
{
    match j {
        Some(Json::Number(t)) => Some(t.clone()),
        _ => None,
    }
}

/// The number texts of the members `x` and `y` of `j`, when `j` has both and
/// both are numbers.
fn number_pair_of(j: Option<&Json>, x: &str, y: &str) -> (r: Option<(String, String)>)
    ensures
        match r {
            Some(p) => number_pair(opt_deref(j), x@, y@) == Some((p.0@, p.1@)),
            None => number_pair(opt_deref(j), x@, y@) is None,
        },
{
    let a = number_of(get_opt(j, x));
    let b = number_of(get_opt(j, y));
    match (a, b) {
        (Some(a), Some(b)) => Some((a, b)),
        _ => None,
    }
}

/// The value of `j`, if `j` is a non-negative integer that fits in 64 bits.
fn as_u64(j: Option<&Json>) -> (r: Option<u64>)
    ensures
        r == json_as_u64(opt_deref(j)),
{
    match j {
        Some(Json::Number(t)) => parse_u64(t),
        _ => None,
    }
}

/// Reads the sprite `j` (see `sprite_of`).
pub fn sprite_from_json(j: &Json) -> (r: Result<Sprite, SpriteError>)
    ensures
        match r {
            Ok(s) => sprite_of(*j) == Ok::<SpriteView, SpriteError>(s@),
            Err(e) => sprite_of(*j) == Err::<SpriteView, SpriteError>(e),
        },
{
    let ch = get(j, "char");
    if ch.is_none() {
        return Err(SpriteError::NoChar);
    }
    let character = match as_u64(get_opt(ch, "value")) {
        Some(n) => {
            #[verifier::truncate]
            let v: u32 = n as u32;
            match char_from_u32(v) {
                Some(c) => c,
                None => {
                    return Err(SpriteError::BadValue);
                },
            }
        },
        None => {
            return Err(SpriteError::BadValue);
        },
    };
    let advance = match number_of(get_opt(ch, "advanceX")) {
        Some(t) => t,
        None => {
            return Err(SpriteError::BadAdvance);
        },
    };
    let offset = match number_pair_of(get_opt(ch, "offset"), "x", "y") {
        Some(p) => p,
        None => {
            return Err(SpriteError::BadOffset);
        },
    };
    let position = match number_pair_of(get(j, "position"), "x", "y") {
        Some(p) => p,
        None => {
            return Err(SpriteError::BadPosition);
        },
    };
    let source_size = match number_pair_of(get(j, "sourceSize"), "width", "height") {
        Some(p) => p,
        None => {
            return Err(SpriteError::BadSourceSize);
        },
    };
    Ok(Sprite { character, advance, offset, position, source_size })
}

/// The sprites that read without error, each under its character, in the
/// order they come.
pub open spec fn sprite_entries(items: Seq<Json>) -> Seq<(char, SpriteView)>
    decreases items.len(),
{
    if items.len() == 0 {
        Seq::empty()
    } else {
        let rest = sprite_entries(items.drop_last());
        match sprite_of(items.last()) {
            Ok(v) => rest.push((v.character, v)),
            Err(_) => rest,
        }
    }
}

/// The items of the `sprites` array of `j`; none if there is no such array.
pub open spec fn sprite_items(j: Json) -> Seq<Json> {
    match json_get(j, "sprites"@) {
        Some(Json::Array(items)) => items@,
        _ => Seq::empty(),
    }
}

/// The view of an optional sprite.
pub open spec fn opt_sprite_view(s: Option<Sprite>) -> Option<SpriteView> {
    match s {
        Some(v) => Some(v@),
        None => None,
    }
}

/// Each entry with its sprite as a view.
pub open spec fn entry_views(entries: Seq<(char, Sprite)>) -> Seq<(char, SpriteView)> {
    entries.map_values(|e: (char, Sprite)| (e.0, e.1@))
}

/// Taking views commutes with finding the last entry for a character.
proof fn lemma_last_entry_views(entries: Seq<(char, Sprite)>, c: char)
    ensures
        last_entry(entry_views(entries), c) == opt_sprite_view(last_entry(entries, c)),
    decreases entries.len(),
{
    if entries.len() > 0 {
        assert(entry_views(entries).drop_last() =~= entry_views(entries.drop_last()));
        lemma_last_entry_views(entries.drop_last(), c);
    }
}

/// Every sprite of `items` that reads without error leaves an entry for
/// its character: none is lost, wherever it stands in the list.
pub proof fn lemma_good_sprite_kept(items: Seq<Json>, k: int)
    requires
        0 <= k < items.len(),
        sprite_of(items[k]) is Ok,
    ensures
        last_entry(sprite_entries(items), sprite_of(items[k])->Ok_0.character) is Some,
    decreases items.len(),
{
    let c = sprite_of(items[k])->Ok_0.character;
    let rest = sprite_entries(items.drop_last());
    if k == items.len() - 1 {
        let v = sprite_of(items.last())->Ok_0;
        assert(sprite_entries(items) == rest.push((v.character, v)));
        assert(rest.push((v.character, v)).last() == (v.character, v));
    } else {
        assert(items.drop_last()[k] == items[k]);
        lemma_good_sprite_kept(items.drop_last(), k);
        match sprite_of(items.last()) {
            Ok(v) => {
                let pushed = rest.push((v.character, v));
                assert(pushed.drop_last() =~= rest);
                assert(pushed.last() == (v.character, v));
            },
            Err(_) => {},
        }
    }
}

/// Each item of the `sprites` array that reads without error gives its
/// character a glyph in the font that `describe_font` reads from `j`.
pub proof fn lemma_every_good_sprite_has_a_glyph(j: Json, k: int)
    requires
        json_get(j, "sprites"@) matches Some(Json::Array(items)) && 0 <= k < items@.len()
            && sprite_of(items@[k]) is Ok,
    ensures
        json_get(j, "sprites"@) matches Some(Json::Array(items)) && last_entry(
            sprite_entries(sprite_items(j)),
            sprite_of(items@[k])->Ok_0.character,
        ) is Some,
{
    let items = json_get(j, "sprites"@)->Some_0->Array_0;
    lemma_good_sprite_kept(items@, k);
}

/// Why a font description could not be read.
#[derive(Clone, Copy, PartialEq, Eq, Debug)]
pub enum FontError {
    /// No numeric `atlas.fontSize`.
    NoFontSize,
}

impl FontError {
    /// The message that describes the error.
    pub fn message(&self) -> (m: &'static str)
        ensures
            m@ == "failed to get fontSize"@,
    {
        "failed to get fontSize"
    }
}

/// A font: its size, as a JSON number text, and its glyphs by character.
pub struct FontDescription {
    pub font_size: String,
    pub glyphs: GlyphTable<Sprite>,
}

/// Reads a font atlas description: its `atlas.fontSize`, which must be a
/// number, and its `sprites`; a sprite that does not read is left out, and
/// of two sprites for one character the later one counts.
pub fn describe_font(j: &Json) -> (r: Result<FontDescription, FontError>)
    ensures
        match r {
            Ok(d) => {
                &&& number_text(json_get_opt(json_get(*j, "atlas"@), "fontSize"@)) == Some(
                    d.font_size@,
                )
                &&& d.glyphs.wf()
                &&& forall|c: char|
                    opt_sprite_view(#[trigger] d.glyphs.lookup(c)) == last_entry(
                        sprite_entries(sprite_items(*j)),
                        c,
                    )
                &&& (json_get(*j, "sprites"@) matches Some(Json::Array(items)) ==> forall|k: int|
                    0 <= k < items@.len() ==> (sprite_of(#[trigger] items@[k]) matches Ok(v)
                        ==> d.glyphs.lookup(v.character) is Some))
            },
            Err(e) => {
                &&& e == FontError::NoFontSize
                &&& number_text(json_get_opt(json_get(*j, "atlas"@), "fontSize"@)) is None
            },
        },
{
    let font_size = match number_of(get_opt(get(j, "atlas"), "fontSize")) {
        Some(t) => t,
        None => {
            return Err(FontError::NoFontSize);
        },
    };
    let empty: Vec<Json> = Vec::new();
    let items: &Vec<Json> = match get(j, "sprites") {
        Some(Json::Array(items)) => items,
        _ => &empty,
    };
    assert(items@ == sprite_items(*j));
    let mut entries: Vec<(char, Sprite)> = Vec::new();
    let n = items.len();
    let mut i: usize = 0;
    while i < n
        invariant
            n == items@.len(),
            i <= n,
            entry_views(entries@) == sprite_entries(items@.take(i as int)),
        decreases n - i,
    {
        proof {
            assert(items@.take(i + 1).drop_last() =~= items@.take(i as int));
            assert(items@.take(i + 1).last() == items@[i as int]);
        }
        match sprite_from_json(&items[i]) {
            Ok(sprite) => {
                let ghost before = entries@;
                let c = sprite.character;
                entries.push((c, sprite));
                assert(entry_views(entries@) =~= entry_views(before).push((c, sprite@)));
            },
            Err(_) => {},
        }
        i = i + 1;
    }
    assert(items@.take(n as int) =~= items@);
    let ghost all = entries@;
    let glyphs = GlyphTable::from_entries(entries);
    proof {
        assert forall|k: int| 0 <= k < items@.len() && (#[trigger] sprite_of(items@[k])) is Ok
            implies glyphs.lookup(sprite_of(items@[k])->Ok_0.character) is Some by {
            lemma_good_sprite_kept(items@, k);
            lemma_last_entry_views(all, sprite_of(items@[k])->Ok_0.character);
        }
        assert forall|c: char|
            opt_sprite_view(#[trigger] glyphs.lookup(c)) == last_entry(
                sprite_entries(sprite_items(*j)),
                c,
            ) by {
            lemma_last_entry_views(all, c);
        }
    }
    Ok(FontDescription { font_size, glyphs })
}

} // verus!
