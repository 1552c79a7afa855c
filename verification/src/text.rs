//! Text layout: which character of a text is drawn with which glyph of a
//! font, which one breaks the line, and which one only moves the pen.

use vstd::prelude::*;

verus! {

/// The glyphs of a font, each under a distinct character.
pub struct GlyphTable<G> {
    chars: Vec<char>,
    glyphs: Vec<G>,
}

/// Whether `c` occurs in `chars`.
pub open spec fn has_char(chars: Seq<char>, c: char) -> bool {
    exists|i: int| 0 <= i < chars.len() && chars[i] == c
}

/// The glyph that the last entry for `c` in `entries` carries, if any.
pub open spec fn last_entry<G>(entries: Seq<(char, G)>, c: char) -> Option<G>
    decreases entries.len(),
{
    if entries.len() == 0 {
        None
    } else if entries.last().0 == c {
        Some(entries.last().1)
    } else {
        last_entry(entries.drop_last(), c)
    }
}

/// What the layout does with one character of the text.
#[derive(Clone, Copy, PartialEq, Eq)]
pub enum LayoutStep {
    /// Draw the glyph at this index of the table, then move the pen on by
    /// the glyph's advance.
    Glyph(usize),
    /// Move the pen to the start of the next line.
    LineBreak,
    /// No glyph: move the pen on by the font size.
    Blank,
}

impl<G> GlyphTable<G> {
    /// The characters, in the order they were first entered.
    pub closed spec fn chars(&self) -> Seq<char> {
        self.chars@
    }

    /// The glyphs, `glyphs()[i]` under `chars()[i]`.
    pub closed spec fn glyphs(&self) -> Seq<G> {
        self.glyphs@
    }

    /// One glyph per character and no character twice.
    pub open spec fn wf(&self) -> bool {
        &&& self.chars().len() == self.glyphs().len()
        &&& self.chars().no_duplicates()
    }

    /// The index of the glyph for `c`, when there is one.
    pub open spec fn index_of_char(&self, c: char) -> int {
        choose|i: int| 0 <= i < self.chars().len() && self.chars()[i] == c
    }

    /// The glyph for `c`, if any.
    pub open spec fn lookup(&self, c: char) -> Option<G> {
        if has_char(self.chars(), c) {
            Some(self.glyphs()[self.index_of_char(c)])
        } else {
            None
        }
    }

    /// What the layout does with the character `c`: draws its glyph if the
    /// font has one; otherwise breaks the line for `\n` and leaves a blank
    /// for anything else.
    pub open spec fn step_for(&self, c: char) -> LayoutStep {
        if has_char(self.chars(), c) {
            LayoutStep::Glyph(self.index_of_char(c) as usize)
        } else if c == '\n' {
            LayoutStep::LineBreak
        } else {
            LayoutStep::Blank
        }
    }

    /// Under `wf`, the glyph at index `i` is the one for its character.
    pub proof fn lemma_index_of_char(&self, i: int)
        requires
            self.wf(),
            0 <= i < self.chars().len(),
        ensures
            self.index_of_char(self.chars()[i]) == i,
            self.lookup(self.chars()[i]) == Some(self.glyphs()[i]),
    {
        let c = self.chars()[i];
        assert(has_char(self.chars(), c));
        let j = self.index_of_char(c);
        assert(j == i);
    }

    /// A table without glyphs.
    pub fn new() -> (t: Self)
        ensures
            t.wf(),
            t.chars() == Seq::<char>::empty(),
    {
        GlyphTable { chars: Vec::new(), glyphs: Vec::new() }
    }

    /// The number of glyphs.
    pub fn len(&self) -> (n: usize)
        requires
            self.wf(),
        ensures
            n == self.chars().len(),
    {
        self.chars.len()
    }

    /// The character of the glyph at index `i`.
    pub fn char_at(&self, i: usize) -> (c: char)
        requires
            self.wf(),
            i < self.chars().len(),
        ensures
            c == self.chars()[i as int],
    {
        self.chars[i]
    }

    /// The glyph at index `i`.
    pub fn glyph_at(&self, i: usize) -> (g: &G)
        requires
            self.wf(),
            i < self.chars().len(),
        ensures
            *g == self.glyphs()[i as int],
    {
        &self.glyphs[i]
    }

    /// The index of the glyph for `c`, if the font has one.
    pub fn position(&self, c: char) -> (r: Option<usize>)
        requires
            self.wf(),
        ensures
            match r {
                Some(i) => i < self.chars().len() && self.chars()[i as int] == c && i
                    == self.index_of_char(c),
                None => !has_char(self.chars(), c),
            },
    {
        let n = self.chars.len();
        let mut i: usize = 0;
        while i < n
            invariant
                n == self.chars().len(),
                i <= n,
                self.wf(),
                forall|j: int| 0 <= j < i ==> self.chars()[j] != c,
            decreases n - i,
        {
            if self.chars[i] == c {
                proof {
                    self.lemma_index_of_char(i as int);
                }
                return Some(i);
            }
            i = i + 1;
        }
        None
    }

    /// Puts `glyph` under `c`, replacing the glyph there was.
    pub fn insert(&mut self, c: char, glyph: G)
        requires
            old(self).wf(),
        ensures
            final(self).wf(),
            final(self).lookup(c) == Some(glyph),
            forall|d: char| d != c ==> final(self).lookup(d) == old(self).lookup(d),
    {
        match self.position(c) {
            Some(i) => {
                let mut g = glyph;
                std::mem::swap(&mut self.glyphs[i], &mut g);
                proof {
                    self.lemma_index_of_char(i as int);
                    assert forall|d: char| d != c implies self.lookup(d) == old(self).lookup(d) by {
                        if has_char(self.chars(), d) {
                            let j = choose|j: int| 0 <= j < self.chars().len() && self.chars()[j] == d;
                            self.lemma_index_of_char(j);
                            old(self).lemma_index_of_char(j);
                        }
                    }
                }
            },
            None => {
                self.chars.push(c);
                self.glyphs.push(glyph);
                proof {
                    assert forall|a: int, b: int|
                        0 <= a < self.chars().len() && 0 <= b < self.chars().len() && a != b
                        implies self.chars()[a] != self.chars()[b] by {
                        if a == self.chars().len() - 1 {
                            assert(old(self).chars()[b] != c);
                        } else if b == self.chars().len() - 1 {
                            assert(old(self).chars()[a] != c);
                        }
                    }
                    self.lemma_index_of_char(self.chars().len() - 1);
                    assert forall|d: char| d != c implies self.lookup(d) == old(self).lookup(d) by {
                        if has_char(old(self).chars(), d) {
                            let j = choose|j: int|
                                0 <= j < old(self).chars().len() && old(self).chars()[j] == d;
                            self.lemma_index_of_char(j);
                            old(self).lemma_index_of_char(j);
                        } else {
                            assert(!has_char(self.chars(), d)) by {
                                if has_char(self.chars(), d) {
                                    let j = choose|j: int| 0 <= j < self.chars().len() && self.chars()[j] == d;
                                    assert(j < old(self).chars().len());
                                }
                            }
                        }
                    }
                }
            },
        }
    }
}

/// Vertices drawn per glyph: two triangles.
pub const VERTICES_PER_GLYPH: u64 = 6u64;

/// How many steps draw a glyph.
pub open spec fn glyph_count(steps: Seq<LayoutStep>) -> nat
    decreases steps.len(),
{
    if steps.len() == 0 {
        0
    } else {
        glyph_count(steps.drop_last()) + if steps.last() is Glyph {
            1nat
        } else {
            0nat
        }
    }
}

/// How many characters of `text` occur in `chars`.
pub open spec fn count_known(chars: Seq<char>, text: Seq<char>) -> nat
    decreases text.len(),
{
    if text.len() == 0 {
        0
    } else {
        count_known(chars, text.drop_last()) + if has_char(chars, text.last()) {
            1nat
        } else {
            0nat
        }
    }
}

/// The end of the range of vertices to draw for `steps`: six per glyph,
/// cut to 32 bits.
pub fn vertex_range_end(steps: &Vec<LayoutStep>) -> (end: u32)
    ensures
        end == (VERTICES_PER_GLYPH * glyph_count(steps@)) as u32,
{
    let n = steps.len();
    let mut count: usize = 0;
    let mut i: usize = 0;
    while i < n
        invariant
            n == steps@.len(),
            i <= n,
            count <= i,
            count == glyph_count(steps@.take(i as int)),
        decreases n - i,
    {
        proof {
            assert(steps@.take(i + 1).drop_last() =~= steps@.take(i as int));
        }
        match steps[i] {
            LayoutStep::Glyph(_) => {
                count = count + 1;
            },
            _ => {},
        }
        i = i + 1;
    }
    assert(steps@.take(n as int) =~= steps@);
    let vertices: u128 = (count as u128) * (VERTICES_PER_GLYPH as u128);
    #[verifier::truncate]
    (vertices as u32)
}

/// Only `\n` breaks the line, and only when the font has no glyph for it;
/// any other character without a glyph leaves a blank on the same line; a
/// character with a glyph is drawn with the glyph for that very character.
pub proof fn lemma_step_kinds<G>(table: GlyphTable<G>, c: char)
    requires
        table.wf(),
    ensures
        table.step_for(c) is LineBreak <==> (!has_char(table.chars(), c) && c == '\n'),
        table.step_for(c) is Blank <==> (!has_char(table.chars(), c) && c != '\n'),
        table.step_for(c) is Glyph <==> has_char(table.chars(), c),
        table.step_for(c) matches LayoutStep::Glyph(k) ==> (k < table.chars().len()
            && table.chars()[k as int] == c),
{
    if has_char(table.chars(), c) {
        let i = choose|i: int| 0 <= i < table.chars().len() && table.chars()[i] == c;
        table.lemma_index_of_char(i);
        assert(table.chars@.len() == table.chars.len());
    }
}

/// A glyph is drawn for each character of the text that the font has, and
/// for no other: six vertices per such character.
pub proof fn lemma_glyphs_drawn<G>(table: GlyphTable<G>, text: Seq<char>, steps: Seq<LayoutStep>)
    requires
        table.wf(),
        steps.len() == text.len(),
        forall|i: int| 0 <= i < text.len() ==> steps[i] == table.step_for(#[trigger] text[i]),
    ensures
        glyph_count(steps) == count_known(table.chars(), text),
    decreases text.len(),
{
    if text.len() > 0 {
        let n = text.len() - 1;
        assert(steps[n] == table.step_for(text[n]));
        lemma_glyphs_drawn(table, text.drop_last(), steps.drop_last());
    }
}

impl<G> GlyphTable<G> {
    /// The table of `entries`: each character gets the glyph of its last
    /// entry.
    pub fn from_entries(entries: Vec<(char, G)>) -> (t: Self)
        ensures
            t.wf(),
            forall|c: char| t.lookup(c) == last_entry(entries@, c),
    {
        let ghost all = entries@;
        let mut t = GlyphTable::new();
        let mut rest = entries;
        let mut reversed: Vec<(char, G)> = Vec::new();
        while rest.len() > 0
            invariant
                rest@ + reversed@.reverse() == all,
            decreases rest.len(),
        {
            let e = rest.pop().unwrap();
            proof {
                assert(reversed@.push(e).reverse() =~= seq![e] + reversed@.reverse());
            }
            reversed.push(e);
            assert(rest@ + reversed@.reverse() =~= all);
        }
        assert(reversed@.reverse() =~= all);
        let ghost n = all.len();
        while reversed.len() > 0
            invariant
                t.wf(),
                reversed@.len() <= n,
                n == all.len(),
                reversed@.reverse() == all.skip(n - reversed@.len()),
                forall|c: char| t.lookup(c) == last_entry(all.take(n - reversed@.len()), c),
            decreases reversed.len(),
        {
            let ghost done = n - reversed@.len();
            let (c, g) = reversed.pop().unwrap();
            proof {
                let r = reversed@.push((c, g));
                assert(r.reverse()[0] == (c, g));
                assert(all.skip(done)[0] == all[done]);
                assert(all[done] == (c, g));
                assert(reversed@.reverse() =~= r.reverse().drop_first());
                assert(all.skip(done + 1) =~= all.skip(done).drop_first());
                assert(all.take(done + 1).drop_last() =~= all.take(done));
                assert(all.take(done + 1).last() == (c, g));
            }
            t.insert(c, g);
        }
        assert(all.take(n as int) =~= all);
        t
    }

    /// What the layout does with each character of `text`, in order.
    pub fn layout(&self, text: &str) -> (steps: Vec<LayoutStep>)
        requires
            self.wf(),
        ensures
            steps@.len() == text@.len(),
            forall|i: int| 0 <= i < text@.len() ==> steps@[i] == self.step_for(#[trigger] text@[i]),
            forall|i: int|
                0 <= i < text@.len() ==> {
                    &&& ((#[trigger] steps@[i]) is LineBreak <==> !has_char(self.chars(), text@[i])
                        && text@[i] == '\n')
                    &&& (steps@[i] is Blank <==> !has_char(self.chars(), text@[i]) && text@[i]
                        != '\n')
                    &&& (steps@[i] is Glyph <==> has_char(self.chars(), text@[i]))
                    &&& (steps@[i] matches LayoutStep::Glyph(k) ==> k < self.chars().len()
                        && self.chars()[k as int] == text@[i])
                },
    {
        let n = text.unicode_len();
        let mut steps: Vec<LayoutStep> = Vec::new();
        let mut i: usize = 0;
        while i < n
            invariant
                self.wf(),
                n == text@.len(),
                i <= n,
                steps@.len() == i,
                forall|j: int| 0 <= j < i ==> steps@[j] == self.step_for(#[trigger] text@[j]),
            decreases n - i,
        {
            let c = text.get_char(i);
            let step = match self.position(c) {
                Some(k) => LayoutStep::Glyph(k),
                None => if c == '\n' {
                    LayoutStep::LineBreak
                } else {
                    LayoutStep::Blank
                },
            };
            steps.push(step);
            i = i + 1;
        }
        proof {
            assert forall|i: int| 0 <= i < text@.len() implies {
                &&& ((#[trigger] steps@[i]) is LineBreak <==> !has_char(self.chars(), text@[i])
                    && text@[i] == '\n')
                &&& (steps@[i] is Blank <==> !has_char(self.chars(), text@[i]) && text@[i] != '\n')
                &&& (steps@[i] is Glyph <==> has_char(self.chars(), text@[i]))
                &&& (steps@[i] matches LayoutStep::Glyph(k) ==> k < self.chars().len()
                    && self.chars()[k as int] == text@[i])
            } by {
                lemma_step_kinds(*self, text@[i]);
            }
        }
        steps
    }
}

} // verus!
