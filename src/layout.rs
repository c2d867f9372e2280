use vstd::prelude::*;
use crate::metrics::GlyphAdvances;
use crate::placement::{CARD_HEIGHT, CARD_WIDTH, IMAGE_BOTTOM_MARGIN};
use crate::wrap::{text_width, views, wrap_spec, wrap_text};

verus! {

/// Space kept free on each side of a text line.
pub const HORIZONTAL_PADDING: u32 = 20;

/// Vertical space between text blocks.
pub const VERTICAL_PADDING: u32 = 15;

/// The widest a text line may be, in pixels.
pub const MAX_TEXT_WIDTH: u32 = CARD_WIDTH - 2 * HORIZONTAL_PADDING;

/// The horizontal centre of the card, on which text lines are centred.
pub const CENTER_X: u32 = CARD_WIDTH / 2;

/// Line height as a multiple of the pixel size, in tenths: lines are 1.3
/// times as tall as the text's pixel size.
pub const LINE_HEIGHT_TENTHS: u32 = 13;

/// The three text zones of a card, in the order in which they are laid out.
#[derive(Debug, Clone, Copy, PartialEq, Eq)]
pub enum Role {
    Title,
    Breakdown,
    Example,
}

/// Pixel size of the text of a zone.
pub open spec fn scale_of(role: Role) -> nat {
    match role {
        Role::Title => 28,
        Role::Breakdown => 18,
        Role::Example => 20,
    }
}

/// What the cursor advances by after a block of a zone, besides its height.
pub open spec fn gap_of(role: Role) -> nat {
    match role {
        Role::Breakdown => (VERTICAL_PADDING / 2) as nat,
        _ => VERTICAL_PADDING as nat,
    }
}

/// A list item is laid out only while the cursor is above this line: one
/// and a half line heights (1.95 times the zone's pixel size) above the
/// bottom of the card, rounded up to a whole pixel. For a whole-pixel cursor
/// `c`, `c >= stop_line(role)` exactly when `20 * c >= 20 * 480 - 39 * scale`.
pub open spec fn stop_line(role: Role) -> int {
    (20 * CARD_HEIGHT - 39 * scale_of(role) + 19) / 20
}

/// The height of a block of `n` lines: `n` line heights, rounded to the
/// nearest pixel. It is also the offset of line `n` below a block's top.
pub open spec fn block_height(n: nat, role: Role) -> nat {
    (n * scale_of(role) * (LINE_HEIGHT_TENTHS as nat) + 5) / 10
}

impl Role {
    pub fn scale(&self) -> (r: u32)
        ensures
            r == scale_of(*self),
    {
        match self {
            Role::Title => 28,
            Role::Breakdown => 18,
            Role::Example => 20,
        }
    }

    /// The colour of the zone's text, as RGBA.
    pub fn color(&self) -> (r: [u8; 4])
        ensures
            r@ == seq![0u8, 0u8, 0u8, 255u8],
    {
        let r = [0u8, 0u8, 0u8, 255u8];
        assert(r@ =~= seq![0u8, 0u8, 0u8, 255u8]);
        r
    }

    fn gap(&self) -> (r: u32)
        ensures
            r == gap_of(*self),
    {
        match self {
            Role::Breakdown => VERTICAL_PADDING / 2,
            _ => VERTICAL_PADDING,
        }
    }

    fn stop(&self) -> (r: u32)
        ensures
            r == stop_line(*self),
    {
        (20 * CARD_HEIGHT - 39 * self.scale() + 19) / 20
    }
}

pub open spec fn clamp_i32(v: int) -> int {
    if v < i32::MIN {
        i32::MIN as int
    } else if v > i32::MAX {
        i32::MAX as int
    } else {
        v
    }
}

/// Left edge of a line `width_units` wide centred on `center`: the exact
/// `center - width / 2` in pixels, truncated toward zero and held to `i32`.
pub open spec fn line_left(center: nat, width_units: nat, scale: nat, height_units: nat) -> int {
    let a = width_units * scale;
    let b = 2 * height_units;
    let cb = center * b;
    if cb >= a {
        clamp_i32(((cb - a) as nat / b) as int)
    } else {
        clamp_i32(-(((a - cb) as nat / b) as int))
    }
}

/// One line of text and the pixel at which its top left corner is drawn.
#[derive(Debug)]
pub struct PlacedLine {
    pub text: String,
    pub x: i32,
    pub y: i32,
}

/// A laid-out text block: its lines, where it starts and how tall it is.
#[derive(Debug)]
pub struct TextBlock {
    pub role: Role,
    pub start_y: u128,
    pub lines: Vec<PlacedLine>,
    pub height: u128,
}

/// `l` is line `i` of a block of zone `role` that starts at `start`.
pub open spec fn line_placed(
    l: PlacedLine,
    text: Seq<char>,
    role: Role,
    center: nat,
    start: int,
    i: int,
    m: GlyphAdvances,
) -> bool {
    &&& l.text@ == text
    &&& l.x == line_left(center, m.width(text), scale_of(role), m.height_units as nat)
    &&& l.y == clamp_i32(start + block_height(i as nat, role))
}

/// `b` is `text` laid out in zone `role`, centred on `center`, from `start`
/// down.
pub open spec fn block_placed(
    b: TextBlock,
    role: Role,
    text: Seq<char>,
    center: nat,
    start: int,
    m: GlyphAdvances,
) -> bool {
    let ls = wrap_spec(text, m, scale_of(role), MAX_TEXT_WIDTH as nat);
    &&& b.role == role
    &&& b.start_y == start
    &&& b.lines@.len() == ls.len()
    &&& b.height == block_height(ls.len(), role)
    &&& forall|i: int|
        0 <= i < ls.len() ==> #[trigger] line_placed(b.lines@[i], ls[i], role, center, start, i, m)
}

fn line_x(center: u32, width_units: u128, scale: u32, height_units: u32) -> (r: i32)
    requires
        width_units <= 0x1_0000_0000_0000_0000_0000_0000,
        scale <= 28,
        height_units > 0,
    ensures
        r == line_left(center as nat, width_units as nat, scale as nat, height_units as nat),
{
    assert(width_units * scale <= 0x100_0000_0000_0000_0000_0000_0000) by (nonlinear_arith)
        requires
            width_units <= 0x1_0000_0000_0000_0000_0000_0000,
            scale <= 28,
    ;
    assert(center * (2 * height_units) <= 0x4_0000_0000_0000_0000) by (nonlinear_arith)
        requires
            center <= 0xffff_ffff,
            height_units <= 0xffff_ffff,
    ;
    let a = width_units * scale as u128;
    let b = 2 * height_units as u128;
    let cb = center as u128 * b;
    if cb >= a {
        let q = (cb - a) / b;
        if q > i32::MAX as u128 {
            i32::MAX
        } else {
            q as i32
        }
    } else {
        let q = (a - cb) / b;
        if q >= 0x8000_0000 {
            i32::MIN
        } else {
            -(q as i32)
        }
    }
}

/// Wraps `text` for zone `role` and places each line centred on `center`,
/// the first at `start_y` and each next one a line height lower.
pub fn layout_block(
    text: &str,
    role: Role,
    center: u32,
    start_y: u128,
    m: &GlyphAdvances,
) -> (b: TextBlock)
    requires
        m.wf(),
    ensures
        block_placed(b, role, text@, center as nat, start_y as int, *m),
        b.height < 0x200_0000_0000_0000_0000,
{
    let scale = role.scale();
    let texts = wrap_text(text, MAX_TEXT_WIDTH, scale, m);
    let ghost ls = wrap_spec(text@, *m, scale_of(role), MAX_TEXT_WIDTH as nat);
    let mut lines: Vec<PlacedLine> = Vec::new();
    let mut i: usize = 0;
    while i < texts.len()
        invariant
            m.wf(),
            scale == scale_of(role),
            views(texts@) == ls,
            i <= texts@.len(),
            lines@.len() == i,
            forall|j: int|
                0 <= j < i ==> #[trigger] line_placed(
                    lines@[j],
                    ls[j],
                    role,
                    center as nat,
                    start_y as int,
                    j,
                    *m,
                ),
        decreases texts@.len() - i,
    {
        let t = &texts[i];
        assert(ls[i as int] == t@);
        let w = text_width(t.as_str(), m);
        assert(w <= 0x1_0000_0000_0000_0000_0000_0000) by (nonlinear_arith)
            requires
                w <= t@.len() * 0xffff_ffff,
                t@.len() <= 0xffff_ffff_ffff_ffff,
        ;
        let x = line_x(center, w, scale, m.height_units);
        let y = if start_y > i32::MAX as u128 {
            i32::MAX
        } else {
            assert(i * scale * 13 + 5 < 0x200_0000_0000_0000_0000) by (nonlinear_arith)
                requires
                    i <= 0xffff_ffff_ffff_ffff,
                    scale <= 28,
            ;
            let v = start_y + ((i as u128) * (scale as u128) * (LINE_HEIGHT_TENTHS as u128) + 5) / 10;
            if v > i32::MAX as u128 {
                i32::MAX
            } else {
                v as i32
            }
        };
        lines.push(PlacedLine { text: t.clone(), x, y });
        assert(line_placed(lines@[i as int], ls[i as int], role, center as nat, start_y as int, i as int, *m));
        i += 1;
    }
    let n = texts.len() as u128;
    assert(n * scale * 13 + 5 < 0x200_0000_0000_0000_0000) by (nonlinear_arith)
        requires
            n <= 0xffff_ffff_ffff_ffff,
            scale <= 28,
    ;
    let height = (n * (scale as u128) * (LINE_HEIGHT_TENTHS as u128) + 5) / 10;
    TextBlock { role, start_y, lines, height }
}

} // verus!

verus! {

/// A block the layout places: its zone, its text and the cursor it starts at.
pub type PlannedBlock = (Role, Seq<char>, int);

/// How far the cursor moves past a block of `text` in zone `role`.
pub open spec fn item_advance(m: GlyphAdvances, role: Role, text: Seq<char>) -> int {
    (block_height(wrap_spec(text, m, scale_of(role), MAX_TEXT_WIDTH as nat).len(), role) + gap_of(
        role,
    )) as int
}

/// The blocks of a list zone laid out from cursor `c`, and the cursor after
/// them. Items are taken in order while the cursor is above the zone's stop
/// line; the rest are left out.
pub open spec fn list_zone(m: GlyphAdvances, role: Role, c: int, items: Seq<Seq<char>>) -> (
    Seq<PlannedBlock>,
    int,
)
    decreases items.len(),
{
    if items.len() == 0 || c >= stop_line(role) {
        (seq![], c)
    } else {
        let rest = list_zone(m, role, c + item_advance(m, role, items[0]), items.drop_first());
        (seq![(role, items[0], c)] + rest.0, rest.1)
    }
}

/// The text blocks of a card, zone by zone, and the final cursor.
pub struct CardPlan {
    pub title: Seq<PlannedBlock>,
    pub breakdown: Seq<PlannedBlock>,
    pub examples: Seq<PlannedBlock>,
    pub cursor: int,
}

/// The cursor at which the text below an image `image_height` tall starts.
pub open spec fn first_cursor(image_height: nat) -> int {
    image_height + IMAGE_BOTTOM_MARGIN + VERTICAL_PADDING
}

/// The layout of a card: the title (when not empty), then the breakdown
/// items, then the example sentences, each list cut short where the card
/// runs out of room.
pub open spec fn card_plan(
    m: GlyphAdvances,
    image_height: nat,
    title: Seq<char>,
    breakdown: Seq<Seq<char>>,
    examples: Seq<Seq<char>>,
) -> CardPlan {
    let c0 = first_cursor(image_height);
    let t: (Seq<PlannedBlock>, int) = if title.len() == 0 {
        (seq![], c0)
    } else {
        (seq![(Role::Title, title, c0)], c0 + item_advance(m, Role::Title, title))
    };
    let b: (Seq<PlannedBlock>, int) = if breakdown.len() == 0 {
        (seq![], t.1)
    } else {
        let z = list_zone(m, Role::Breakdown, t.1, breakdown);
        (z.0, z.1 + VERTICAL_PADDING / 2)
    };
    let e: (Seq<PlannedBlock>, int) = if examples.len() == 0 {
        (seq![], b.1)
    } else {
        list_zone(m, Role::Example, b.1, examples)
    };
    CardPlan { title: t.0, breakdown: b.0, examples: e.0, cursor: e.1 }
}

/// Every block of `bs` is laid out as `plan` says, centred on the card.
pub open spec fn blocks_follow(bs: Seq<TextBlock>, plan: Seq<PlannedBlock>, m: GlyphAdvances) -> bool {
    &&& bs.len() == plan.len()
    &&& forall|i: int|
        0 <= i < bs.len() ==> #[trigger] block_placed(
            bs[i],
            plan[i].0,
            plan[i].1,
            CENTER_X as nat,
            plan[i].2,
            m,
        )
}

proof fn lemma_follow_concat(
    a: Seq<TextBlock>,
    pa: Seq<PlannedBlock>,
    b: Seq<TextBlock>,
    pb: Seq<PlannedBlock>,
    m: GlyphAdvances,
)
    requires
        blocks_follow(a, pa, m),
        blocks_follow(b, pb, m),
    ensures
        blocks_follow(a + b, pa + pb, m),
{
    assert forall|i: int| 0 <= i < (a + b).len() implies #[trigger] block_placed(
        (a + b)[i],
        (pa + pb)[i].0,
        (pa + pb)[i].1,
        CENTER_X as nat,
        (pa + pb)[i].2,
        m,
    ) by {
        if i < a.len() {
            assert(block_placed(a[i], pa[i].0, pa[i].1, CENTER_X as nat, pa[i].2, m));
        } else {
            let j = i - a.len();
            assert(block_placed(b[j], pb[j].0, pb[j].1, CENTER_X as nat, pb[j].2, m));
        }
    }
}

/// A laid-out card: its text blocks in drawing order, how many items of
/// each list were laid out, and the cursor below the last block.
#[derive(Debug)]
pub struct CardLayout {
    pub blocks: Vec<TextBlock>,
    pub breakdown_shown: usize,
    pub examples_shown: usize,
    pub cursor: u128,
}

fn layout_zone(
    role: Role,
    items: &Vec<String>,
    cursor: u128,
    blocks: &mut Vec<TextBlock>,
    m: &GlyphAdvances,
) -> (r: (u128, usize))
    requires
        m.wf(),
        cursor < 0x1000_0000_0000_0000_0000,
        role != Role::Title,
    ensures
        ({
            let z = list_zone(*m, role, cursor as int, views(items@));
            &&& final(blocks)@.len() == old(blocks)@.len() + z.0.len()
            &&& final(blocks)@.take(old(blocks)@.len() as int) == old(blocks)@
            &&& blocks_follow(final(blocks)@.skip(old(blocks)@.len() as int), z.0, *m)
            &&& r.0 == z.1
            &&& r.1 == z.0.len()
        }),
        r.0 <= cursor || r.0 < 0x800_0000_0000_0000_0000,
{
    let ghost start = blocks@;
    let ghost all = views(items@);
    let ghost z0 = list_zone(*m, role, cursor as int, all);
    let ghost mut done: Seq<PlannedBlock> = seq![];
    let stop = role.stop() as u128;
    let gap = role.gap() as u128;
    let mut c = cursor;
    let mut i: usize = 0;
    assert(all.skip(0) =~= all);
    assert(blocks@.skip(start.len() as int) =~= Seq::<TextBlock>::empty());
    while i < items.len() && c < stop
        invariant
            m.wf(),
            role != Role::Title,
            stop == stop_line(role),
            gap == gap_of(role),
            all == views(items@),
            z0 == list_zone(*m, role, cursor as int, all),
            i <= items@.len(),
            c <= cursor || c < 0x800_0000_0000_0000_0000,
            z0.0 == done + list_zone(*m, role, c as int, all.skip(i as int)).0,
            z0.1 == list_zone(*m, role, c as int, all.skip(i as int)).1,
            done.len() == i,
            blocks@.len() == start.len() + i,
            blocks@.take(start.len() as int) == start,
            blocks_follow(blocks@.skip(start.len() as int), done, *m),
        decreases items@.len() - i,
    {
        let ghost rest = all.skip(i as int);
        assert(rest[0] == items@[i as int]@);
        assert(rest.drop_first() =~= all.skip(i + 1));
        let b = layout_block(items[i].as_str(), role, CENTER_X, c, m);
        let ghost entry: PlannedBlock = (role, items@[i as int]@, c as int);
        let ghost before = blocks@;
        let next = c + b.height + gap;
        blocks.push(b);
        proof {
            let one = seq![b];
            assert(blocks_follow(one, seq![entry], *m)) by {
                assert(one[0] == b);
            }
            lemma_follow_concat(before.skip(start.len() as int), done, one, seq![entry], *m);
            assert(blocks@.skip(start.len() as int) =~= before.skip(start.len() as int) + one);
            assert(blocks@.take(start.len() as int) =~= before.take(start.len() as int));
            assert(seq![entry] + list_zone(*m, role, next as int, all.skip(i + 1)).0
                == list_zone(*m, role, c as int, rest).0);
            assert(done + list_zone(*m, role, c as int, rest).0 =~= done.push(entry)
                + list_zone(*m, role, next as int, all.skip(i + 1)).0);
            done = done.push(entry);
        }
        c = next;
        i += 1;
    }
    proof {
        if i == items.len() {
            assert(all.skip(i as int).len() == 0);
        }
        assert(done =~= z0.0);
    }
    (c, i)
}

/// Lays out the text of a card below an image `image_height` pixels tall:
/// the title, then the breakdown items, then the example sentences, as
/// `card_plan` describes.
pub fn layout_card(
    image_height: u32,
    title: &str,
    breakdown: &Vec<String>,
    examples: &Vec<String>,
    m: &GlyphAdvances,
) -> (r: CardLayout)
    requires
        m.wf(),
    ensures
        ({
            let p = card_plan(*m, image_height as nat, title@, views(breakdown@), views(examples@));
            &&& blocks_follow(r.blocks@, p.title + p.breakdown + p.examples, *m)
            &&& r.breakdown_shown == p.breakdown.len()
            &&& r.examples_shown == p.examples.len()
            &&& r.cursor == p.cursor
        }),
{
    let ghost p = card_plan(*m, image_height as nat, title@, views(breakdown@), views(examples@));
    let mut blocks: Vec<TextBlock> = Vec::new();
    let mut c: u128 = image_height as u128 + IMAGE_BOTTOM_MARGIN as u128 + VERTICAL_PADDING as u128;
    if title.unicode_len() > 0 {
        let b = layout_block(title, Role::Title, CENTER_X, c, m);
        c = c + b.height + VERTICAL_PADDING as u128;
        blocks.push(b);
        assert(blocks@[0] == b);
    }
    assert(blocks_follow(blocks@, p.title, *m));
    let ghost after_title = blocks@;
    let mut breakdown_shown: usize = 0;
    if breakdown.len() > 0 {
        let r = layout_zone(Role::Breakdown, breakdown, c, &mut blocks, m);
        c = r.0 + (VERTICAL_PADDING / 2) as u128;
        breakdown_shown = r.1;
        proof {
            lemma_follow_concat(after_title, p.title, blocks@.skip(after_title.len() as int), p.breakdown, *m);
            assert(blocks@ =~= after_title + blocks@.skip(after_title.len() as int));
        }
    }
    assert(blocks_follow(blocks@, p.title + p.breakdown, *m)) by {
        if breakdown.len() == 0 {
            assert(p.title + p.breakdown =~= p.title);
        }
    }
    let ghost after_breakdown = blocks@;
    let mut examples_shown: usize = 0;
    if examples.len() > 0 {
        let r = layout_zone(Role::Example, examples, c, &mut blocks, m);
        c = r.0;
        examples_shown = r.1;
        proof {
            lemma_follow_concat(after_breakdown, p.title + p.breakdown, blocks@.skip(after_breakdown.len() as int), p.examples, *m);
            assert(blocks@ =~= after_breakdown + blocks@.skip(after_breakdown.len() as int));
        }
    }
    assert(blocks_follow(blocks@, p.title + p.breakdown + p.examples, *m)) by {
        if examples.len() == 0 {
            assert(p.title + p.breakdown + p.examples =~= p.title + p.breakdown);
        }
    }
    CardLayout { blocks, breakdown_shown, examples_shown, cursor: c }
}

proof fn lemma_list_zone_order(m: GlyphAdvances, role: Role, c: int, items: Seq<Seq<char>>)
    ensures
        ({
            let z = list_zone(m, role, c, items);
            &&& c <= z.1
            &&& z.0.len() <= items.len()
            &&& forall|i: int|
                0 <= i < z.0.len() ==> {
                    &&& c <= (#[trigger] z.0[i]).2 <= z.1
                    &&& z.0[i].2 < stop_line(role)
                    &&& z.0[i].0 == role
                }
            &&& forall|i: int, j: int| 0 <= i <= j < z.0.len() ==> #[trigger] z.0[i].2 <= #[trigger] z.0[j].2
        }),
    decreases items.len(),
{
    if items.len() > 0 && c < stop_line(role) {
        let next = c + item_advance(m, role, items[0]);
        lemma_list_zone_order(m, role, next, items.drop_first());
        let rest = list_zone(m, role, next, items.drop_first());
        let z = list_zone(m, role, c, items);
        assert(z.0 == seq![(role, items[0], c)] + rest.0);
        assert forall|i: int| 0 <= i < z.0.len() implies {
            &&& c <= (#[trigger] z.0[i]).2 <= z.1
            &&& z.0[i].2 < stop_line(role)
            &&& z.0[i].0 == role
        } by {
            if i > 0 {
                assert(z.0[i] == rest.0[i - 1]);
            }
        }
        assert forall|i: int, j: int| 0 <= i <= j < z.0.len() implies #[trigger] z.0[i].2
            <= #[trigger] z.0[j].2 by {
            if i > 0 {
                assert(z.0[i] == rest.0[i - 1]);
                assert(z.0[j] == rest.0[j - 1]);
            } else if j > 0 {
                assert(z.0[j] == rest.0[j - 1]);
            }
        }
    }
}

/// Over a whole card the cursor never moves up: blocks start in drawing
/// order top to bottom, none above the first cursor below the image, and
/// none below the final cursor. Each breakdown item and example sentence
/// starts above its zone's stop line, one and a half of its pixel size
/// above the bottom of the card.
pub proof fn lemma_cursor_monotone(
    m: GlyphAdvances,
    image_height: nat,
    title: Seq<char>,
    breakdown: Seq<Seq<char>>,
    examples: Seq<Seq<char>>,
)
    ensures
        ({
            let p = card_plan(m, image_height, title, breakdown, examples);
            let bs = p.title + p.breakdown + p.examples;
            &&& first_cursor(image_height) <= p.cursor
            &&& forall|i: int, j: int| 0 <= i <= j < bs.len() ==> #[trigger] bs[i].2 <= #[trigger] bs[j].2
            &&& forall|i: int|
                0 <= i < bs.len() ==> first_cursor(image_height) <= (#[trigger] bs[i]).2 <= p.cursor
            &&& forall|i: int|
                0 <= i < bs.len() && (#[trigger] bs[i]).0 != Role::Title ==> bs[i].2 < stop_line(
                    bs[i].0,
                )
        }),
{
    let p = card_plan(m, image_height, title, breakdown, examples);
    let c0 = first_cursor(image_height);
    let c1 = if title.len() == 0 { c0 } else { c0 + item_advance(m, Role::Title, title) };
    lemma_list_zone_order(m, Role::Breakdown, c1, breakdown);
    let zb = list_zone(m, Role::Breakdown, c1, breakdown);
    let c2 = if breakdown.len() == 0 { c1 } else { zb.1 + VERTICAL_PADDING / 2 };
    lemma_list_zone_order(m, Role::Example, c2, examples);
    let ze = list_zone(m, Role::Example, c2, examples);
    assert(p.title.len() > 0 ==> p.title == seq![(Role::Title, title, c0)]);
    let tb = p.title + p.breakdown;
    let bs = tb + p.examples;
    let ghost bl = p.breakdown.len() as int;
    let ghost tl = p.title.len() as int;
    assert forall|i: int| 0 <= i < bs.len() implies {
        &&& c0 <= (#[trigger] bs[i]).2
        &&& (i < tl ==> bs[i].2 == c0)
        &&& (tl <= i < tl + bl ==> bs[i] == p.breakdown[i - tl] && c1 <= bs[i].2 <= zb.1)
        &&& (tl + bl <= i ==> bs[i] == p.examples[i - tl - bl] && c2 <= bs[i].2 <= ze.1)
    } by {
        if i < tl {
            assert(bs[i] == p.title[i]);
        } else if i < tl + bl {
            assert(bs[i] == tb[i]);
            assert(tb[i] == p.breakdown[i - tl]);
        } else {
            assert(bs[i] == p.examples[i - tl - bl]);
        }
    }
    assert forall|i: int, j: int| 0 <= i <= j < bs.len() implies #[trigger] bs[i].2 <= #[trigger] bs[j].2 by {
        if i < tl {
        } else if i < tl + bl {
            if j < tl + bl {
                assert(p.breakdown[i - tl].2 <= p.breakdown[j - tl].2);
            }
        } else {
            assert(p.examples[i - tl - bl].2 <= p.examples[j - tl - bl].2);
        }
    }
}

proof fn lemma_list_zone_count(m: GlyphAdvances, role: Role, c: int, items: Seq<Seq<char>>)
    requires
        role != Role::Title,
    ensures
        ({
            let z = list_zone(m, role, c, items);
            &&& c >= stop_line(role) ==> z.0.len() == 0
            &&& c < stop_line(role) ==> z.0.len() * gap_of(role) < stop_line(role) - c + gap_of(
                role,
            )
        }),
    decreases items.len(),
{
    if items.len() > 0 && c < stop_line(role) {
        let next = c + item_advance(m, role, items[0]);
        lemma_list_zone_count(m, role, next, items.drop_first());
        let n = list_zone(m, role, next, items.drop_first()).0.len();
        assert(next >= c + gap_of(role));
        assert((n + 1) * gap_of(role) == n * gap_of(role) + gap_of(role)) by (nonlinear_arith);
    }
}

/// Space runs out before thirty example sentences: from thirty on, fewer
/// sentences are laid out than were given, and the card is still made.
pub proof fn lemma_examples_truncated(
    m: GlyphAdvances,
    image_height: nat,
    title: Seq<char>,
    breakdown: Seq<Seq<char>>,
    examples: Seq<Seq<char>>,
)
    requires
        examples.len() >= 30,
    ensures
        card_plan(m, image_height, title, breakdown, examples).examples.len() < examples.len(),
{
    let c0 = first_cursor(image_height);
    let c1 = if title.len() == 0 { c0 } else { c0 + item_advance(m, Role::Title, title) };
    lemma_list_zone_order(m, Role::Breakdown, c1, breakdown);
    let zb = list_zone(m, Role::Breakdown, c1, breakdown);
    let c2 = if breakdown.len() == 0 { c1 } else { zb.1 + VERTICAL_PADDING / 2 };
    lemma_list_zone_count(m, Role::Example, c2, examples);
    let n = list_zone(m, Role::Example, c2, examples).0.len();
    assert(c2 >= 25);
    if c2 < stop_line(Role::Example) {
        assert(n * 15 < 440);
        assert(n < 30) by (nonlinear_arith)
            requires
                n * 15 < 440,
        ;
    }
}

/// `text` takes at most one line in zone `role`.
pub open spec fn single_line(m: GlyphAdvances, role: Role, text: Seq<char>) -> bool {
    wrap_spec(text, m, scale_of(role), MAX_TEXT_WIDTH as nat).len() <= 1
}

proof fn lemma_list_zone_end(m: GlyphAdvances, role: Role, c: int, items: Seq<Seq<char>>)
    requires
        forall|i: int| 0 <= i < items.len() ==> single_line(m, role, #[trigger] items[i]),
    ensures
        ({
            let z = list_zone(m, role, c, items);
            let last = stop_line(role) - 1 + block_height(1, role) + gap_of(role);
            z.1 <= c || z.1 <= last
        }),
    decreases items.len(),
{
    if items.len() > 0 && c < stop_line(role) {
        let rest = items.drop_first();
        assert forall|i: int| 0 <= i < rest.len() implies single_line(m, role, #[trigger] rest[i]) by {
            assert(rest[i] == items[i + 1]);
        }
        assert(single_line(m, role, items[0]));
        let n = wrap_spec(items[0], m, scale_of(role), MAX_TEXT_WIDTH as nat).len();
        assert(block_height(n, role) <= block_height(1, role)) by {
            if n == 0 {
                assert(block_height(0, role) == 0);
            }
        }
        lemma_list_zone_end(m, role, c + item_advance(m, role, items[0]), rest);
    }
}

/// When the image is no taller than its zone and the title and every list
/// item each take at most one line, the cursor ends at most one example
/// line height below the bottom of the card.
pub proof fn lemma_cursor_bounded(
    m: GlyphAdvances,
    image_height: nat,
    title: Seq<char>,
    breakdown: Seq<Seq<char>>,
    examples: Seq<Seq<char>>,
)
    requires
        image_height <= crate::placement::TOP_ZONE_HEIGHT,
        single_line(m, Role::Title, title),
        forall|i: int| 0 <= i < breakdown.len() ==> single_line(m, Role::Breakdown, #[trigger] breakdown[i]),
        forall|i: int| 0 <= i < examples.len() ==> single_line(m, Role::Example, #[trigger] examples[i]),
    ensures
        card_plan(m, image_height, title, breakdown, examples).cursor <= CARD_HEIGHT
            + block_height(1, Role::Example),
{
    let c0 = first_cursor(image_height);
    let n = wrap_spec(title, m, scale_of(Role::Title), MAX_TEXT_WIDTH as nat).len();
    assert(block_height(n, Role::Title) <= 36) by {
        let k = n * scale_of(Role::Title) * (LINE_HEIGHT_TENTHS as nat);
        if n == 0 {
            assert(k == 0);
        } else {
            assert(n == 1);
            assert(k == 364);
        }
    }
    let c1 = if title.len() == 0 { c0 } else { c0 + item_advance(m, Role::Title, title) };
    assert(c1 <= 306);
    lemma_list_zone_end(m, Role::Breakdown, c1, breakdown);
    let zb = list_zone(m, Role::Breakdown, c1, breakdown);
    let c2 = if breakdown.len() == 0 { c1 } else { zb.1 + VERTICAL_PADDING / 2 };
    assert(c2 <= 489);
    lemma_list_zone_end(m, Role::Example, c2, examples);
}

/// A list zone lays out a prefix of its items, in order: the first at the
/// zone's starting cursor, each next one the previous item's height and gap
/// lower, and the cursor ends one advance below the last. Items are left
/// out only once the cursor has reached the zone's stop line.
pub proof fn lemma_list_zone_steps(m: GlyphAdvances, role: Role, c: int, items: Seq<Seq<char>>)
    ensures
        ({
            let z = list_zone(m, role, c, items);
            let n = z.0.len();
            &&& n <= items.len()
            &&& forall|i: int| 0 <= i < n ==> (#[trigger] z.0[i]).0 == role && z.0[i].1 == items[i]
            &&& n > 0 ==> z.0[0].2 == c
            &&& forall|i: int|
                0 <= i < n - 1 ==> #[trigger] z.0[i + 1].2 == z.0[i].2 + item_advance(m, role, items[i])
            &&& n == 0 ==> z.1 == c
            &&& n > 0 ==> z.1 == z.0[n - 1].2 + item_advance(m, role, items[n - 1])
            &&& n < items.len() ==> z.1 >= stop_line(role)
        }),
    decreases items.len(),
{
    if items.len() > 0 && c < stop_line(role) {
        let next = c + item_advance(m, role, items[0]);
        let rest_items = items.drop_first();
        lemma_list_zone_steps(m, role, next, rest_items);
        let rest = list_zone(m, role, next, rest_items);
        let z = list_zone(m, role, c, items);
        let n = z.0.len();
        assert(z.0 == seq![(role, items[0], c)] + rest.0);
        assert forall|i: int| 0 <= i < n implies (#[trigger] z.0[i]).0 == role && z.0[i].1 == items[i] by {
            if i > 0 {
                assert(z.0[i] == rest.0[i - 1]);
                assert(rest_items[i - 1] == items[i]);
            }
        }
        assert forall|i: int| 0 <= i < n - 1 implies #[trigger] z.0[i + 1].2 == z.0[i].2 + item_advance(
            m,
            role,
            items[i],
        ) by {
            assert(z.0[i + 1] == rest.0[i]);
            if i > 0 {
                assert(z.0[i] == rest.0[i - 1]);
                assert(rest_items[i - 1] == items[i]);
            }
        }
        if n > 1 {
            assert(z.0[n - 1] == rest.0[n - 2]);
            assert(rest_items[n - 2] == items[n - 1]);
        }
    }
}

} // verus!
