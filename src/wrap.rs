use vstd::prelude::*;
use crate::metrics::{lemma_width_bound, lemma_width_concat, GlyphAdvances};

verus! {

/// White space as `char::is_whitespace` has it: the Unicode `White_Space`
/// property.
pub open spec fn is_space(c: char) -> bool {
    let u = c as u32;
    (0x9 <= u <= 0xd) || u == 0x20 || u == 0x85 || u == 0xa0 || u == 0x1680 || (0x2000 <= u
        <= 0x200a) || u == 0x2028 || u == 0x2029 || u == 0x202f || u == 0x205f || u == 0x3000
}

pub fn is_white_space(c: char) -> (r: bool)
    ensures
        r == is_space(c),
{
    let u = c as u32;
    (0x9 <= u && u <= 0xd) || u == 0x20 || u == 0x85 || u == 0xa0 || u == 0x1680 || (0x2000 <= u
        && u <= 0x200a) || u == 0x2028 || u == 0x2029 || u == 0x202f || u == 0x205f || u == 0x3000
}

/// The words of `s`: its maximal runs of characters that are not white space,
/// in order.
pub open spec fn words(s: Seq<char>) -> Seq<Seq<char>>
    decreases s.len(),
{
    if s.len() == 0 {
        seq![]
    } else {
        let prev = words(s.drop_last());
        let c = s.last();
        if is_space(c) {
            prev
        } else if s.len() >= 2 && !is_space(s[s.len() - 2]) {
            prev.update(prev.len() - 1, prev.last().push(c))
        } else {
            prev.push(seq![c])
        }
    }
}

pub open spec fn views(v: Seq<String>) -> Seq<Seq<char>> {
    v.map_values(|s: String| s@)
}

/// `cur` and `w` joined by one space; just `w` when `cur` is empty.
pub open spec fn join_space(cur: Seq<char>, w: Seq<char>) -> Seq<char> {
    if cur.len() == 0 {
        w
    } else {
        cur + seq![' '] + w
    }
}

/// `s` fits in `max_px` pixels at pixel size `scale`.
pub open spec fn fits(m: GlyphAdvances, s: Seq<char>, scale: nat, max_px: nat) -> bool {
    m.width(s) * scale <= max_px * m.height_units
}

/// Greedy wrap of a word sequence: the completed lines and the line being
/// filled. A word joins the current line when the joined line fits; a word
/// that does not fit even alone stands as a line of its own.
pub open spec fn wrap_words(ws: Seq<Seq<char>>, m: GlyphAdvances, scale: nat, max_px: nat) -> (
    Seq<Seq<char>>,
    Seq<char>,
)
    decreases ws.len(),
{
    if ws.len() == 0 {
        (seq![], seq![])
    } else {
        let (lines, cur) = wrap_words(ws.drop_last(), m, scale, max_px);
        let w = ws.last();
        let test = join_space(cur, w);
        if fits(m, test, scale, max_px) {
            (lines, test)
        } else if cur.len() == 0 {
            (lines.push(w), seq![])
        } else {
            (lines.push(cur), w)
        }
    }
}

/// The lines that greedy word wrap makes of `text`.
pub open spec fn wrap_spec(text: Seq<char>, m: GlyphAdvances, scale: nat, max_px: nat) -> Seq<
    Seq<char>,
> {
    let (lines, cur) = wrap_words(words(text), m, scale, max_px);
    if cur.len() == 0 {
        lines
    } else {
        lines.push(cur)
    }
}

/// Splits `text` into its words.
pub fn split_words(text: &str) -> (r: Vec<String>)
    ensures
        views(r@) == words(text@),
{
    let n = text.unicode_len();
    let mut out: Vec<String> = Vec::new();
    let mut i: usize = 0;
    let mut start: usize = 0;
    let mut in_word = false;
    while i < n
        invariant
            n == text@.len(),
            i <= n,
            start <= i,
            in_word == (i > 0 && !is_space(text@[i - 1])),
            in_word ==> start < i && words(text@.take(i as int)) == views(out@).push(
                text@.subrange(start as int, i as int),
            ),
            !in_word ==> words(text@.take(i as int)) == views(out@),
        decreases n - i,
    {
        let c = text.get_char(i);
        let ghost pre = text@.take(i as int);
        assert(text@.take(i + 1).drop_last() =~= pre);
        assert(text@.take(i + 1).last() == c);
        if is_white_space(c) {
            if in_word {
                let w = String::from_str(text.substring_char(start, i));
                out.push(w);
                in_word = false;
                assert(views(out@) =~= views(out@.drop_last()).push(w@));
            }
        } else if in_word {
            assert(text@.subrange(start as int, i as int).push(c) =~= text@.subrange(
                start as int,
                i + 1,
            ));
            assert(views(out@).push(text@.subrange(start as int, i as int)).update(
                views(out@).len() as int,
                text@.subrange(start as int, i + 1),
            ) =~= views(out@).push(text@.subrange(start as int, i + 1)));
        } else {
            start = i;
            in_word = true;
            assert(text@.subrange(start as int, i + 1) =~= seq![c]);
        }
        i += 1;
    }
    assert(text@.take(n as int) =~= text@);
    if in_word {
        let w = String::from_str(text.substring_char(start, n));
        out.push(w);
        assert(views(out@) =~= views(out@.drop_last()).push(w@));
    }
    out
}

/// The width of `text` as one line, in font units.
pub fn text_width(text: &str, m: &GlyphAdvances) -> (r: u128)
    ensures
        r == m.width(text@),
        r <= text@.len() * 0xffff_ffff,
        text@.len() <= usize::MAX,
{
    let n = text.unicode_len();
    let mut w: u128 = 0;
    let mut i: usize = 0;
    while i < n
        invariant
            n == text@.len(),
            i <= n,
            w == m.width(text@.take(i as int)),
        decreases n - i,
    {
        let c = text.get_char(i);
        proof {
            assert(text@.take(i + 1).drop_last() =~= text@.take(i as int));
            lemma_width_bound(*m, text@.take(i + 1));
        }
        w = w + m.advance(c) as u128;
        i += 1;
    }
    assert(text@.take(n as int) =~= text@);
    proof {
        lemma_width_bound(*m, text@);
    }
    w
}

/// Greedy word wrap of `text` into lines no wider than `max_px` pixels at
/// pixel size `scale`. Words are joined by single spaces; a word too wide
/// for a line of its own is kept whole on its own line.
pub fn wrap_text(text: &str, max_px: u32, scale: u32, m: &GlyphAdvances) -> (r: Vec<String>)
    requires
        m.wf(),
        scale > 0,
    ensures
        views(r@) == wrap_spec(text@, *m, scale as nat, max_px as nat),
{
    let ws = split_words(text);
    let space = m.advance(' ') as u128;
    assert(max_px * m.height_units < 0x1_0000_0000_0000_0000) by (nonlinear_arith)
        requires
            max_px <= 0xffff_ffff,
            m.height_units <= 0xffff_ffff,
    ;
    let limit: u128 = max_px as u128 * m.height_units as u128;
    let mut lines: Vec<String> = Vec::new();
    let mut cur = String::new();
    let mut cur_w: u128 = 0;
    let mut k: usize = 0;
    proof {
        reveal_strlit(" ");
    }
    while k < ws.len()
        invariant
            m.wf(),
            scale > 0,
            views(ws@) == words(text@),
            space == m.adv(' '),
            space <= 0xffff_ffff,
            limit == max_px * m.height_units,
            limit < 0x1_0000_0000_0000_0000,
            k <= ws@.len(),
            (views(lines@), cur@) == wrap_words(views(ws@).take(k as int), *m, scale as nat, max_px as nat),
            cur_w == m.width(cur@),
            cur_w <= 0x1_0000_0000_0000_0000_0000_0000,
            " "@ == seq![' '],
        decreases ws@.len() - k,
    {
        let w = &ws[k];
        let ww = text_width(w.as_str(), m);
        assert(views(ws@)[k as int] == w@);
        assert(ww <= 0x1_0000_0000_0000_0000_0000_0000) by (nonlinear_arith)
            requires
                ww <= w@.len() * 0xffff_ffff,
                w@.len() <= 0xffff_ffff_ffff_ffff,
        ;
        let ghost ws_k = views(ws@).take(k + 1);
        assert(ws_k.drop_last() =~= views(ws@).take(k as int));
        assert(ws_k.last() == w@);
        let ghost test = join_space(cur@, w@);
        let test_w: u128 = if cur.unicode_len() == 0 {
            ww
        } else {
            cur_w + space + ww
        };
        proof {
            if cur@.len() == 0 {
                assert(test == w@);
            } else {
                lemma_width_concat(*m, cur@, seq![' ']);
                lemma_width_concat(*m, cur@ + seq![' '], w@);
                let s1 = seq![' '];
                assert(s1.drop_last() =~= Seq::<char>::empty());
                assert(s1.last() == ' ');
                assert(m.width(s1.drop_last()) == 0);
                assert(m.width(s1) == m.adv(' '));
            }
        }
        let fit = test_w <= 0x1_0000_0000_0000_0000 && {
            assert(test_w * scale < 0x1_0000_0000_0000_0000_0000_0000) by (nonlinear_arith)
                requires
                    test_w <= 0x1_0000_0000_0000_0000,
                    scale <= 0xffff_ffff,
            ;
            test_w * (scale as u128) <= limit
        };
        assert(fit == fits(*m, test, scale as nat, max_px as nat)) by (nonlinear_arith)
            requires
                test_w == m.width(test),
                scale > 0,
                limit == max_px * m.height_units,
                limit < 0x1_0000_0000_0000_0000,
                fit == (test_w <= 0x1_0000_0000_0000_0000 && test_w * scale <= limit),
        ;
        if fit {
            if cur.unicode_len() > 0 {
                cur.append(" ");
            }
            cur.append(w.as_str());
            cur_w = test_w;
            assert(cur@ =~= test);
        } else if cur.unicode_len() == 0 {
            lines.push(w.clone());
            assert(views(lines@) =~= views(lines@.drop_last()).push(w@));
        } else {
            let done = cur;
            lines.push(done);
            assert(views(lines@) =~= views(lines@.drop_last()).push(done@));
            cur = w.clone();
            cur_w = ww;
        }
        k += 1;
    }
    assert(views(ws@).take(k as int) =~= views(ws@));
    if cur.unicode_len() > 0 {
        let done = cur;
        lines.push(done);
        assert(views(lines@) =~= views(lines@.drop_last()).push(done@));
    }
    lines
}

/// The words of `ws` joined by single spaces.
pub open spec fn join_words(ws: Seq<Seq<char>>) -> Seq<char>
    decreases ws.len(),
{
    if ws.len() == 0 {
        seq![]
    } else {
        join_space(join_words(ws.drop_last()), ws.last())
    }
}

/// No word is empty.
pub proof fn lemma_words_nonempty(s: Seq<char>)
    ensures
        forall|i: int| 0 <= i < words(s).len() ==> #[trigger] words(s)[i].len() > 0,
        s.len() > 0 && !is_space(s.last()) ==> words(s).len() > 0,
    decreases s.len(),
{
    if s.len() > 0 {
        let p = s.drop_last();
        lemma_words_nonempty(p);
        let prev = words(p);
        let c = s.last();
        if !is_space(c) && s.len() >= 2 && !is_space(s[s.len() - 2]) {
            assert(p.last() == s[s.len() - 2]);
            assert(prev.len() > 0);
            let ws = prev.update(prev.len() - 1, prev.last().push(c));
            assert(ws == words(s));
            assert forall|i: int| 0 <= i < ws.len() implies #[trigger] ws[i].len() > 0 by {
                if i < prev.len() - 1 {
                    assert(ws[i] == prev[i]);
                } else {
                    assert(ws[i] == prev.last().push(c));
                }
            }
        } else if !is_space(c) {
            let ws = prev.push(seq![c]);
            assert(ws == words(s));
            assert forall|i: int| 0 <= i < ws.len() implies #[trigger] ws[i].len() > 0 by {
                if i < prev.len() {
                    assert(ws[i] == prev[i]);
                }
            }
        }
    }
}

/// A line too wide to fit is not empty.
proof fn lemma_wide_nonempty(m: GlyphAdvances, s: Seq<char>, scale: nat, max_px: nat)
    requires
        !fits(m, s, scale, max_px),
    ensures
        s.len() > 0,
{
    if s.len() == 0 {
        assert(m.width(s) == 0);
        assert(m.width(s) * scale == 0) by (nonlinear_arith)
            requires
                m.width(s) == 0,
        ;
    }
}

proof fn lemma_join_space_width(m: GlyphAdvances, cur: Seq<char>, w: Seq<char>)
    ensures
        m.width(join_space(cur, w)) >= m.width(w),
        m.width(join_space(cur, w)) >= m.width(cur),
{
    if cur.len() > 0 {
        lemma_width_concat(m, cur, seq![' ']);
        lemma_width_concat(m, cur + seq![' '], w);
    } else {
        assert(m.width(cur) == 0);
    }
}

proof fn lemma_wider_fits_less(m: GlyphAdvances, a: Seq<char>, b: Seq<char>, scale: nat, max_px: nat)
    requires
        m.width(a) >= m.width(b),
        !fits(m, b, scale, max_px),
    ensures
        !fits(m, a, scale, max_px),
{
    assert(m.width(a) * scale >= m.width(b) * scale) by (nonlinear_arith)
        requires
            m.width(a) >= m.width(b),
    ;
}

proof fn lemma_joined_prefix_width(m: GlyphAdvances, ws: Seq<Seq<char>>, k: int)
    requires
        0 <= k <= ws.len(),
    ensures
        m.width(join_words(ws.take(k))) <= m.width(join_words(ws)),
    decreases ws.len() - k,
{
    if k < ws.len() {
        lemma_joined_prefix_width(m, ws, k + 1);
        assert(ws.take(k + 1).drop_last() =~= ws.take(k));
        lemma_join_space_width(m, join_words(ws.take(k)), ws[k]);
    } else {
        assert(ws.take(k) =~= ws);
    }
}

proof fn lemma_fitting_prefix_one_line(
    m: GlyphAdvances,
    ws: Seq<Seq<char>>,
    k: int,
    scale: nat,
    max_px: nat,
)
    requires
        0 <= k <= ws.len(),
        fits(m, join_words(ws), scale, max_px),
    ensures
        wrap_words(ws.take(k), m, scale, max_px) == (Seq::<Seq<char>>::empty(), join_words(
            ws.take(k),
        )),
    decreases k,
{
    if k > 0 {
        lemma_fitting_prefix_one_line(m, ws, k - 1, scale, max_px);
        assert(ws.take(k).drop_last() =~= ws.take(k - 1));
        lemma_joined_prefix_width(m, ws, k);
        assert(m.width(join_words(ws.take(k))) * scale <= m.width(join_words(ws)) * scale)
            by (nonlinear_arith)
            requires
                m.width(join_words(ws.take(k))) <= m.width(join_words(ws)),
        ;
    } else {
        assert(ws.take(0) =~= Seq::<Seq<char>>::empty());
    }
}

/// A text whose words, joined by single spaces, fit on one line wraps to
/// exactly that one line.
pub proof fn lemma_fitting_text_is_one_line(
    text: Seq<char>,
    m: GlyphAdvances,
    scale: nat,
    max_px: nat,
)
    requires
        words(text).len() > 0,
        fits(m, join_words(words(text)), scale, max_px),
    ensures
        wrap_spec(text, m, scale, max_px) == seq![join_words(words(text))],
{
    let ws = words(text);
    lemma_fitting_prefix_one_line(m, ws, ws.len() as int, scale, max_px);
    assert(ws.take(ws.len() as int) =~= ws);
    lemma_words_nonempty(text);
    assert(ws.last().len() > 0);
    assert(join_words(ws).len() > 0);
    assert(Seq::<Seq<char>>::empty().push(join_words(ws)) =~= seq![join_words(ws)]);
}

proof fn lemma_wide_words_kept(
    ws: Seq<Seq<char>>,
    k: int,
    m: GlyphAdvances,
    scale: nat,
    max_px: nat,
)
    requires
        0 <= k <= ws.len(),
    ensures
        ({
            let (lines, cur) = wrap_words(ws.take(k), m, scale, max_px);
            forall|j: int|
                0 <= j < k && !fits(m, #[trigger] ws[j], scale, max_px) ==> lines.contains(ws[j])
                    || (j == k - 1 && cur == ws[j])
        }),
    decreases k,
{
    if k > 0 {
        lemma_wide_words_kept(ws, k - 1, m, scale, max_px);
        let pre = ws.take(k - 1);
        assert(ws.take(k).drop_last() =~= pre);
        assert(ws.take(k).last() == ws[k - 1]);
        let (lines, cur) = wrap_words(pre, m, scale, max_px);
        let w = ws[k - 1];
        let test = join_space(cur, w);
        lemma_join_space_width(m, cur, w);
        let (lines2, cur2) = wrap_words(ws.take(k), m, scale, max_px);
        assert forall|j: int|
            0 <= j < k && !fits(m, #[trigger] ws[j], scale, max_px) implies lines2.contains(ws[j])
                || (j == k - 1 && cur2 == ws[j]) by {
            if j < k - 1 {
                if lines.contains(ws[j]) {
                    let t = choose|t: int| 0 <= t < lines.len() && lines[t] == ws[j];
                    assert(lines2[t] == ws[j]);
                } else {
                    assert(cur == ws[j]);
                    lemma_wide_nonempty(m, cur, scale, max_px);
                    lemma_wider_fits_less(m, test, cur, scale, max_px);
                    assert(lines2 == lines.push(cur));
                    assert(lines2[lines.len() as int] == ws[j]);
                }
            } else {
                lemma_wider_fits_less(m, test, w, scale, max_px);
                if cur.len() == 0 {
                    assert(lines2[lines.len() as int] == ws[j]);
                }
            }
        }
    }
}

/// A word too wide for a line of its own is kept whole: it is one of the
/// lines, exactly as it stands in the text.
pub proof fn lemma_wide_word_own_line(
    text: Seq<char>,
    m: GlyphAdvances,
    scale: nat,
    max_px: nat,
    j: int,
)
    requires
        0 <= j < words(text).len(),
        !fits(m, words(text)[j], scale, max_px),
    ensures
        wrap_spec(text, m, scale, max_px).contains(words(text)[j]),
{
    let ws = words(text);
    lemma_wide_words_kept(ws, ws.len() as int, m, scale, max_px);
    assert(ws.take(ws.len() as int) =~= ws);
    let (lines, cur) = wrap_words(ws, m, scale, max_px);
    assert(!fits(m, ws[j], scale, max_px));
    if lines.contains(ws[j]) {
        let t = choose|t: int| 0 <= t < lines.len() && lines[t] == ws[j];
        if cur.len() > 0 {
            assert(lines.push(cur)[t] == ws[j]);
        }
    } else {
        assert(cur == ws[j]);
        lemma_wide_nonempty(m, cur, scale, max_px);
        assert(lines.push(cur)[lines.len() as int] == ws[j]);
    }
}

/// The words of each line, in line order.
pub open spec fn line_words(lines: Seq<Seq<char>>) -> Seq<Seq<char>>
    decreases lines.len(),
{
    if lines.len() == 0 {
        seq![]
    } else {
        line_words(lines.drop_last()) + words(lines.last())
    }
}

/// No word holds white space.
proof fn lemma_words_no_space(s: Seq<char>)
    ensures
        forall|i: int, j: int|
            0 <= i < words(s).len() && 0 <= j < words(s)[i].len() ==> !is_space(
                #[trigger] words(s)[i][j],
            ),
    decreases s.len(),
{
    if s.len() > 0 {
        let p = s.drop_last();
        lemma_words_no_space(p);
        lemma_words_nonempty(p);
        let prev = words(p);
        let c = s.last();
        if !is_space(c) && s.len() >= 2 && !is_space(s[s.len() - 2]) {
            assert(p.last() == s[s.len() - 2]);
            let ws = prev.update(prev.len() - 1, prev.last().push(c));
            assert forall|i: int, j: int|
                0 <= i < ws.len() && 0 <= j < ws[i].len() implies !is_space(#[trigger] ws[i][j]) by {
                if i < prev.len() - 1 {
                    assert(ws[i] == prev[i]);
                } else if j < prev.last().len() {
                    assert(ws[i][j] == prev[i][j]);
                }
            }
        } else if !is_space(c) {
            let ws = prev.push(seq![c]);
            assert forall|i: int, j: int|
                0 <= i < ws.len() && 0 <= j < ws[i].len() implies !is_space(#[trigger] ws[i][j]) by {
                if i < prev.len() {
                    assert(ws[i] == prev[i]);
                }
            }
        }
    }
}

/// A word after a space (or at the start) adds just itself to the words.
proof fn lemma_words_append_word(a: Seq<char>, w: Seq<char>)
    requires
        a.len() == 0 || is_space(a.last()),
        w.len() > 0,
        forall|j: int| 0 <= j < w.len() ==> !is_space(#[trigger] w[j]),
    ensures
        words(a + w) == words(a).push(w),
    decreases w.len(),
{
    let s = a + w;
    assert(s.drop_last() =~= a + w.drop_last());
    assert(s.last() == w.last());
    if w.len() == 1 {
        assert(a + w.drop_last() =~= a);
        assert(w =~= seq![w[0]]);
        if a.len() > 0 {
            assert(s[s.len() - 2] == a.last());
        }
    } else {
        let w1 = w.drop_last();
        lemma_words_append_word(a, w1);
        assert(s[s.len() - 2] == w1.last());
        assert(w1.push(w.last()) =~= w);
        assert(words(a).push(w1).update(words(a).len() as int, w) =~= words(a).push(w));
    }
}

proof fn lemma_words_join_space(cur: Seq<char>, w: Seq<char>)
    requires
        w.len() > 0,
        forall|j: int| 0 <= j < w.len() ==> !is_space(#[trigger] w[j]),
    ensures
        words(join_space(cur, w)) == words(cur).push(w),
{
    if cur.len() == 0 {
        assert(words(cur) =~= Seq::<Seq<char>>::empty());
        assert(cur + w =~= w);
        lemma_words_append_word(cur, w);
    } else {
        let a = cur + seq![' '];
        assert(a.drop_last() =~= cur);
        assert(a.last() == ' ');
        assert(is_space(' '));
        lemma_words_append_word(a, w);
    }
}

proof fn lemma_line_words_push(lines: Seq<Seq<char>>, l: Seq<char>)
    ensures
        line_words(lines.push(l)) == line_words(lines) + words(l),
{
    assert(lines.push(l).drop_last() =~= lines);
}

proof fn lemma_wrap_keeps_words(ws: Seq<Seq<char>>, k: int, m: GlyphAdvances, scale: nat, max_px: nat)
    requires
        0 <= k <= ws.len(),
        forall|i: int| 0 <= i < ws.len() ==> #[trigger] ws[i].len() > 0,
        forall|i: int, j: int| 0 <= i < ws.len() && 0 <= j < ws[i].len() ==> !is_space(#[trigger] ws[i][j]),
    ensures
        ({
            let (lines, cur) = wrap_words(ws.take(k), m, scale, max_px);
            line_words(lines) + words(cur) == ws.take(k)
        }),
    decreases k,
{
    if k == 0 {
        assert(ws.take(0) =~= Seq::<Seq<char>>::empty());
        assert(words(Seq::<char>::empty()) =~= Seq::<Seq<char>>::empty());
        assert(line_words(Seq::<Seq<char>>::empty()) + words(Seq::<char>::empty()) =~= Seq::<Seq<char>>::empty());
    } else {
        lemma_wrap_keeps_words(ws, k - 1, m, scale, max_px);
        assert(ws.take(k).drop_last() =~= ws.take(k - 1));
        assert(ws.take(k).last() == ws[k - 1]);
        assert(ws.take(k) =~= ws.take(k - 1).push(ws[k - 1]));
        let (lines, cur) = wrap_words(ws.take(k - 1), m, scale, max_px);
        let w = ws[k - 1];
        assert forall|j: int| 0 <= j < w.len() implies !is_space(#[trigger] w[j]) by {
            assert(!is_space(ws[k - 1][j]));
        }
        lemma_words_join_space(cur, w);
        lemma_words_join_space(Seq::<char>::empty(), w);
        assert(join_space(Seq::<char>::empty(), w) == w);
        assert(words(Seq::<char>::empty()) =~= Seq::<Seq<char>>::empty());
        lemma_line_words_push(lines, w);
        lemma_line_words_push(lines, cur);
        let test = join_space(cur, w);
        if fits(m, test, scale, max_px) {
            assert(line_words(lines) + words(test) =~= (line_words(lines) + words(cur)).push(w));
        } else if cur.len() == 0 {
            assert(line_words(lines.push(w)) + words(Seq::<char>::empty()) =~= (line_words(lines)
                + words(cur)).push(w));
        } else {
            assert(line_words(lines.push(cur)) + words(w) =~= (line_words(lines) + words(cur)).push(
                w,
            ));
        }
    }
}

/// Wrapping only places line breaks: the words of the lines, in order, are
/// exactly the words of the text, none split and none joined.
pub proof fn lemma_wrap_keeps_words_in_order(text: Seq<char>, m: GlyphAdvances, scale: nat, max_px: nat)
    ensures
        line_words(wrap_spec(text, m, scale, max_px)) == words(text),
{
    let ws = words(text);
    lemma_words_nonempty(text);
    lemma_words_no_space(text);
    lemma_wrap_keeps_words(ws, ws.len() as int, m, scale, max_px);
    assert(ws.take(ws.len() as int) =~= ws);
    let (lines, cur) = wrap_words(ws, m, scale, max_px);
    if cur.len() == 0 {
        assert(words(cur) =~= Seq::<Seq<char>>::empty());
        assert(line_words(lines) + words(cur) =~= line_words(lines));
    } else {
        lemma_line_words_push(lines, cur);
    }
}

/// Every line break is needed: no line, a space and the first word of the
/// next line fit together.
pub open spec fn breaks_needed(lines: Seq<Seq<char>>, m: GlyphAdvances, scale: nat, max_px: nat) -> bool {
    forall|i: int|
        0 <= i < lines.len() - 1 ==> !fits(
            m,
            #[trigger] lines[i] + seq![' '] + words(lines[i + 1])[0],
            scale,
            max_px,
        )
}

spec fn greedy_state(
    lines: Seq<Seq<char>>,
    cur: Seq<char>,
    m: GlyphAdvances,
    scale: nat,
    max_px: nat,
) -> bool {
    &&& breaks_needed(lines, m, scale, max_px)
    &&& forall|i: int| 0 <= i < lines.len() ==> #[trigger] lines[i].len() > 0 && words(lines[i]).len() > 0
    &&& cur.len() > 0 ==> words(cur).len() > 0
    &&& lines.len() > 0 && cur.len() > 0 ==> !fits(m, lines.last() + seq![' '] + words(cur)[0], scale, max_px)
    &&& lines.len() > 0 && cur.len() == 0 ==> !fits(m, lines.last(), scale, max_px)
}

/// A line too wide stays too wide with more text after a space.
proof fn lemma_wide_line_extended(m: GlyphAdvances, a: Seq<char>, b: Seq<char>, scale: nat, max_px: nat)
    requires
        !fits(m, a, scale, max_px),
    ensures
        !fits(m, a + seq![' '] + b, scale, max_px),
{
    lemma_wide_nonempty(m, a, scale, max_px);
    lemma_join_space_width(m, a, b);
    lemma_wider_fits_less(m, a + seq![' '] + b, a, scale, max_px);
}

proof fn lemma_push_line(
    lines: Seq<Seq<char>>,
    l: Seq<char>,
    m: GlyphAdvances,
    scale: nat,
    max_px: nat,
)
    requires
        breaks_needed(lines, m, scale, max_px),
        lines.len() > 0 ==> !fits(m, lines.last() + seq![' '] + words(l)[0], scale, max_px),
    ensures
        breaks_needed(lines.push(l), m, scale, max_px),
{
    let ls = lines.push(l);
    assert forall|i: int| 0 <= i < ls.len() - 1 implies !fits(
        m,
        #[trigger] ls[i] + seq![' '] + words(ls[i + 1])[0],
        scale,
        max_px,
    ) by {
        if i < lines.len() - 1 {
            assert(ls[i] == lines[i] && ls[i + 1] == lines[i + 1]);
            assert(!fits(m, lines[i] + seq![' '] + words(lines[i + 1])[0], scale, max_px));
        } else {
            assert(ls[i] == lines.last() && ls[i + 1] == l);
        }
    }
}

proof fn lemma_greedy_prefix(ws: Seq<Seq<char>>, k: int, m: GlyphAdvances, scale: nat, max_px: nat)
    requires
        0 <= k <= ws.len(),
        forall|i: int| 0 <= i < ws.len() ==> #[trigger] ws[i].len() > 0,
        forall|i: int, j: int| 0 <= i < ws.len() && 0 <= j < ws[i].len() ==> !is_space(#[trigger] ws[i][j]),
    ensures
        ({
            let (lines, cur) = wrap_words(ws.take(k), m, scale, max_px);
            greedy_state(lines, cur, m, scale, max_px)
        }),
    decreases k,
{
    if k > 0 {
        lemma_greedy_prefix(ws, k - 1, m, scale, max_px);
        assert(ws.take(k).drop_last() =~= ws.take(k - 1));
        assert(ws.take(k).last() == ws[k - 1]);
        let (lines, cur) = wrap_words(ws.take(k - 1), m, scale, max_px);
        let w = ws[k - 1];
        assert forall|j: int| 0 <= j < w.len() implies !is_space(#[trigger] w[j]) by {
            assert(!is_space(ws[k - 1][j]));
        }
        let e = Seq::<char>::empty();
        lemma_words_append_word(e, w);
        assert(e + w =~= w);
        assert(words(e) =~= Seq::<Seq<char>>::empty());
        assert(words(w) =~= seq![w]);
        lemma_words_join_space(cur, w);
        let test = join_space(cur, w);
        lemma_join_space_width(m, cur, w);
        if fits(m, test, scale, max_px) {
            if lines.len() > 0 && cur.len() == 0 {
                lemma_wide_line_extended(m, lines.last(), w, scale, max_px);
            }
            if cur.len() > 0 {
                assert(words(test)[0] == words(cur)[0]);
            }
        } else if cur.len() == 0 {
            assert(test == w);
            if lines.len() > 0 {
                lemma_wide_line_extended(m, lines.last(), w, scale, max_px);
            }
            lemma_push_line(lines, w, m, scale, max_px);
            let ls = lines.push(w);
            assert forall|i: int| 0 <= i < ls.len() implies #[trigger] ls[i].len() > 0 && words(ls[i]).len() > 0 by {
                if i < lines.len() {
                    assert(ls[i] == lines[i]);
                }
            }
        } else {
            lemma_push_line(lines, cur, m, scale, max_px);
            let ls = lines.push(cur);
            assert forall|i: int| 0 <= i < ls.len() implies #[trigger] ls[i].len() > 0 && words(ls[i]).len() > 0 by {
                if i < lines.len() {
                    assert(ls[i] == lines[i]);
                }
            }
            assert(test == cur + seq![' '] + w);
        }
    } else {
        assert(ws.take(0) =~= Seq::<Seq<char>>::empty());
    }
}

/// Greedy wrapping breaks a line only where it must: for every line but the
/// last, the line, a space and the first word of the next line do not fit.
pub proof fn lemma_wrap_breaks_needed(text: Seq<char>, m: GlyphAdvances, scale: nat, max_px: nat)
    ensures
        breaks_needed(wrap_spec(text, m, scale, max_px), m, scale, max_px),
{
    let ws = words(text);
    lemma_words_nonempty(text);
    lemma_words_no_space(text);
    lemma_greedy_prefix(ws, ws.len() as int, m, scale, max_px);
    assert(ws.take(ws.len() as int) =~= ws);
    let (lines, cur) = wrap_words(ws, m, scale, max_px);
    if cur.len() > 0 {
        lemma_push_line(lines, cur, m, scale, max_px);
    }
}

} // verus!
