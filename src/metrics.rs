use vstd::prelude::*;

verus! {

/// Horizontal advances of the glyphs of one font, in the font's own units.
///
/// `entries` maps characters to advances (the first entry for a character
/// wins); a character without an entry advances by `fallback`.
/// `height_units` is the font's ascent minus its descent: a font drawn at
/// pixel size `s` spends `advance * s / height_units` pixels on a glyph.
#[derive(Debug)]
pub struct GlyphAdvances {
    pub height_units: u32,
    pub entries: Vec<(char, u32)>,
    pub fallback: u32,
}

/// The advance of `c` in a table whose first matching entry wins.
pub open spec fn advance_in(entries: Seq<(char, u32)>, fallback: u32, c: char) -> nat
    decreases entries.len(),
{
    if entries.len() == 0 {
        fallback as nat
    } else if entries[0].0 == c {
        entries[0].1 as nat
    } else {
        advance_in(entries.drop_first(), fallback, c)
    }
}

impl GlyphAdvances {
    /// A table can be drawn from: its height is positive.
    pub open spec fn wf(&self) -> bool {
        self.height_units > 0
    }

    pub open spec fn adv(&self, c: char) -> nat {
        advance_in(self.entries@, self.fallback, c)
    }

    /// The width of `s` as one line, in font units.
    pub open spec fn width(&self, s: Seq<char>) -> nat
        decreases s.len(),
    {
        if s.len() == 0 {
            0
        } else {
            self.width(s.drop_last()) + self.adv(s.last())
        }
    }

    /// An empty table: every character advances by `fallback`.
    pub fn new(height_units: u32, fallback: u32) -> (r: GlyphAdvances)
        ensures
            r.height_units == height_units,
            r.fallback == fallback,
            r.entries@.len() == 0,
            forall|c: char| r.adv(c) == fallback,
    {
        GlyphAdvances { height_units, entries: Vec::new(), fallback }
    }

    /// Sets the advance of `c`, replacing an earlier one.
    pub fn set_advance(&mut self, c: char, units: u32)
        ensures
            final(self).height_units == old(self).height_units,
            final(self).fallback == old(self).fallback,
            final(self).adv(c) == units,
            forall|d: char| d != c ==> final(self).adv(d) == old(self).adv(d),
    {
        let ghost old_entries = self.entries@;
        self.entries.insert(0, (c, units));
        assert(self.entries@[0] == (c, units));
        assert(self.entries@.drop_first() =~= old_entries);
    }

    /// The advance of `c`.
    pub fn advance(&self, c: char) -> (r: u32)
        ensures
            r == self.adv(c),
    {
        let mut i: usize = 0;
        assert(self.entries@.skip(0) =~= self.entries@);
        while i < self.entries.len()
            invariant
                i <= self.entries@.len(),
                self.adv(c) == advance_in(self.entries@.skip(i as int), self.fallback, c),
            decreases self.entries@.len() - i,
        {
            let e = self.entries[i];
            assert(self.entries@.skip(i as int)[0] == e);
            if e.0 == c {
                return e.1;
            }
            assert(self.entries@.skip(i as int).drop_first() =~= self.entries@.skip(i + 1));
            i += 1;
        }
        assert(self.entries@.skip(i as int).len() == 0);
        self.fallback
    }
}

/// Appending text adds its width.
pub proof fn lemma_width_concat(m: GlyphAdvances, a: Seq<char>, b: Seq<char>)
    ensures
        m.width(a + b) == m.width(a) + m.width(b),
    decreases b.len(),
{
    if b.len() == 0 {
        assert(a + b =~= a);
    } else {
        assert((a + b).drop_last() =~= a + b.drop_last());
        assert((a + b).last() == b.last());
        lemma_width_concat(m, a, b.drop_last());
    }
}

/// No glyph is wider than `u32::MAX` units.
pub proof fn lemma_width_bound(m: GlyphAdvances, s: Seq<char>)
    ensures
        m.width(s) <= s.len() * 0xffff_ffff,
    decreases s.len(),
{
    if s.len() > 0 {
        lemma_width_bound(m, s.drop_last());
        lemma_adv_bound(m.entries@, m.fallback, s.last());
    }
}

pub proof fn lemma_adv_bound(entries: Seq<(char, u32)>, fallback: u32, c: char)
    ensures
        advance_in(entries, fallback, c) <= 0xffff_ffff,
    decreases entries.len(),
{
    if entries.len() > 0 && entries[0].0 != c {
        lemma_adv_bound(entries.drop_first(), fallback, c);
    }
}

} // verus!
