//! Where the tiles of the layered tile-map sketch go.
//!
//! The base layer is a square map with a tile wherever a noise field is
//! positive. The upper layer is a map `UPPER_LAYER_SCALE` times finer that
//! puts a tile where the fine noise is positive *and* the base layer has a
//! tile underneath. The noise itself is sampled by the host; here the
//! samples arrive as boolean masks.
use vstd::prelude::*;

verus! {

broadcast use vstd::seq_lib::group_seq_properties;

/// Side of the base map, in tiles.
pub const BASE_MAP_SIDE: u32 = 28;

/// How many upper-layer tiles span one base tile, along each side.
pub const UPPER_LAYER_SCALE: u32 = 4;

/// Index into the tile atlas of every upper-layer tile.
pub const UPPER_TILE_TEXTURE: u32 = 2;

/// A position on a tile map.
#[derive(Clone, Copy, Debug, PartialEq, Eq, Hash, Structural)]
pub struct TilePos {
    pub x: u32,
    pub y: u32,
}

/// Which cells of a `width` by `height` grid are set, stored row by row.
pub struct Mask {
    width: u32,
    height: u32,
    cells: Vec<bool>,
}

impl Mask {
    #[verifier::type_invariant]
    closed spec fn inv(self) -> bool {
        self.cells@.len() == self.width * self.height
    }

    /// Number of columns.
    pub closed spec fn cols(&self) -> nat {
        self.width as nat
    }

    /// Number of rows.
    pub closed spec fn rows(&self) -> nat {
        self.height as nat
    }

    /// Whether cell (`x`, `y`) is set; meaningful inside the grid.
    pub closed spec fn is_set(&self, x: int, y: int) -> bool {
        self.cells@[x + y * self.width]
    }

    /// A mask over `width` by `height` cells, given row by row (cell
    /// (`x`, `y`) at `x + y * width`); `None` unless there are exactly
    /// `width * height` cells.
    pub fn from_cells(width: u32, height: u32, cells: Vec<bool>) -> (mask: Option<Mask>)
        ensures
            mask is Some <==> cells@.len() == width * height,
            mask matches Some(m) ==> {
                &&& m.cols() == width
                &&& m.rows() == height
                &&& forall|x: int, y: int|
                    0 <= x < width && 0 <= y < height ==> #[trigger] m.is_set(x, y) == cells@[x
                        + y * width]
            },
    {
        let total = (width as usize).checked_mul(height as usize);
        match total {
            Some(t) => {
                assert(t == width * height);
                if cells.len() == t {
                    Some(Mask { width, height, cells })
                } else {
                    None
                }
            },
            None => {
                let len = cells.len();
                assert(len < width * height);
                None
            },
        }
    }

    /// Number of columns.
    pub fn width(&self) -> (w: u32)
        ensures
            w == self.cols(),
    {
        self.width
    }

    /// Number of rows.
    pub fn height(&self) -> (h: u32)
        ensures
            h == self.rows(),
    {
        self.height
    }

    /// Whether cell (`x`, `y`) is set.
    pub fn get(&self, x: u32, y: u32) -> (set: bool)
        requires
            x < self.cols(),
            y < self.rows(),
        ensures
            set == self.is_set(x as int, y as int),
    {
        proof {
            use_type_invariant(self);
            assert(x + y * self.width < self.width * self.height) by (nonlinear_arith)
                requires
                    x < self.width,
                    y < self.height,
            ;
        }
        let len = self.cells.len();
        assert(y * self.width <= x + y * self.width < len);
        self.cells[x as usize + y as usize * self.width as usize]
    }
}

/// `a` comes before `b` when a map is scanned column by column: first by
/// `x`, then by `y`.
pub open spec fn scanned_before(a: TilePos, b: TilePos) -> bool {
    a.x < b.x || (a.x == b.x && a.y < b.y)
}

/// `tiles` are exactly the set cells of `mask`, each once, in scan order.
pub open spec fn is_placement(mask: &Mask, tiles: Seq<TilePos>) -> bool {
    &&& forall|i: int|
        0 <= i < tiles.len() ==> {
            &&& (#[trigger] tiles[i]).x < mask.cols()
            &&& tiles[i].y < mask.rows()
            &&& mask.is_set(tiles[i].x as int, tiles[i].y as int)
        }
    &&& scan_sorted(tiles)
    &&& forall|x: u32, y: u32|
        x < mask.cols() && y < mask.rows() && #[trigger] mask.is_set(x as int, y as int)
            ==> tiles.contains(TilePos { x, y })
}

/// The tiles to spawn for `mask`, column by column.
pub fn placed_tiles(mask: &Mask) -> (tiles: Vec<TilePos>)
    ensures
        is_placement(mask, tiles@),
{
    let w = mask.width();
    let h = mask.height();
    let mut tiles: Vec<TilePos> = Vec::new();
    let mut x: u32 = 0;
    while x < w
        invariant
            w == mask.cols(),
            h == mask.rows(),
            x <= w,
            forall|i: int|
                0 <= i < tiles@.len() ==> {
                    &&& (#[trigger] tiles@[i]).x < x
                    &&& tiles@[i].y < h
                    &&& mask.is_set(tiles@[i].x as int, tiles@[i].y as int)
                },
            forall|i: int, j: int|
                0 <= i < j < tiles@.len() ==> scanned_before(#[trigger] tiles@[i], #[trigger] tiles@[j]),
            forall|a: u32, b: u32|
                a < x && b < h && #[trigger] mask.is_set(a as int, b as int) ==> tiles@.contains(
                    TilePos { x: a, y: b },
                ),
        decreases w - x,
    {
        let mut y: u32 = 0;
        while y < h
            invariant
                w == mask.cols(),
                h == mask.rows(),
                x < w,
                y <= h,
                forall|i: int|
                    0 <= i < tiles@.len() ==> {
                        &&& scanned_before(#[trigger] tiles@[i], TilePos { x, y })
                        &&& tiles@[i].x <= x
                        &&& tiles@[i].y < h
                        &&& mask.is_set(tiles@[i].x as int, tiles@[i].y as int)
                    },
                forall|i: int, j: int|
                    0 <= i < j < tiles@.len() ==> scanned_before(
                        #[trigger] tiles@[i],
                        #[trigger] tiles@[j],
                    ),
                forall|a: u32, b: u32|
                    (a < x || (a == x && b < y)) && b < h && #[trigger] mask.is_set(a as int, b as int)
                        ==> tiles@.contains(TilePos { x: a, y: b }),
            decreases h - y,
        {
            if mask.get(x, y) {
                tiles.push(TilePos { x, y });
            }
            y = y + 1;
        }
        x = x + 1;
    }
    tiles
}

/// `upper` is the mask `factor` times finer than `base` whose cells are set
/// where `detail` is set and the `base` cell underneath is set too.
pub open spec fn is_layered(base: &Mask, detail: &Mask, factor: u32, upper: &Mask) -> bool {
    &&& factor > 0
    &&& upper.cols() == detail.cols() == base.cols() * factor
    &&& upper.rows() == detail.rows() == base.rows() * factor
    &&& forall|x: int, y: int|
        0 <= x < upper.cols() && 0 <= y < upper.rows() ==> #[trigger] upper.is_set(x, y)
            == layered_cell(base, detail, factor, x, y)
}

/// Cell `x + y * w` of a grid `w` wide is cell (`x`, `y`).
proof fn lemma_cell_index(x: int, y: int, w: int)
    requires
        0 <= x < w,
        0 <= y,
    ensures
        (x + y * w) % w == x,
        (x + y * w) / w == y,
{
    vstd::arithmetic::div_mod::lemma_fundamental_div_mod_converse(x + y * w, w, y, x);
}

/// The upper-layer mask over `detail`, with `base` underneath; `None` unless
/// `factor` is positive and `detail` is exactly `factor` times as wide and as
/// high as `base`.
pub fn layered_mask(base: &Mask, detail: &Mask, factor: u32) -> (upper: Option<Mask>)
    ensures
        upper is Some <==> (factor > 0 && detail.cols() == base.cols() * factor && detail.rows()
            == base.rows() * factor),
        upper matches Some(m) ==> is_layered(base, detail, factor, &m),
{
    let bw = base.width();
    let bh = base.height();
    let w = detail.width();
    let h = detail.height();
    if factor == 0 {
        return None;
    }
    let ow = bw.checked_mul(factor);
    let oh = bh.checked_mul(factor);
    match (ow, oh) {
        (Some(ow), Some(oh)) => {
            if ow != w || oh != h {
                return None;
            }
        },
        _ => {
            return None;
        },
    }
    let mut cells: Vec<bool> = Vec::new();
    let mut y: u32 = 0;
    while y < h
        invariant
            factor > 0,
            bw == base.cols(),
            bh == base.rows(),
            w == detail.cols() == bw * factor,
            h == detail.rows() == bh * factor,
            y <= h,
            cells@.len() == y * w,
            forall|i: int|
                0 <= i < cells@.len() ==> #[trigger] cells@[i] == layered_cell(
                    base,
                    detail,
                    factor,
                    i % w as int,
                    i / w as int,
                ),
        decreases h - y,
    {
        let mut x: u32 = 0;
        while x < w
            invariant
                factor > 0,
                bw == base.cols(),
                bh == base.rows(),
                w == detail.cols() == bw * factor,
                h == detail.rows() == bh * factor,
                y < h,
                x <= w,
                cells@.len() == y * w + x,
                forall|i: int|
                    0 <= i < cells@.len() ==> #[trigger] cells@[i] == layered_cell(
                        base,
                        detail,
                        factor,
                        i % w as int,
                        i / w as int,
                    ),
            decreases w - x,
        {
            proof {
                assert(x / factor < bw && y / factor < bh) by (nonlinear_arith)
                    requires
                        factor > 0,
                        x < bw * factor,
                        y < bh * factor,
                {
                    vstd::arithmetic::div_mod::lemma_fundamental_div_mod(x as int, factor as int);
                    vstd::arithmetic::div_mod::lemma_fundamental_div_mod(y as int, factor as int);
                }
                lemma_cell_index(x as int, y as int, w as int);
            }
            let set = base.get(x / factor, y / factor) && detail.get(x, y);
            cells.push(set);
            x = x + 1;
        }
        proof {
            assert(y * w + w == (y + 1) * w) by (nonlinear_arith);
        }
        y = y + 1;
    }
    proof {
        assert(cells@.len() == w * h) by (nonlinear_arith)
            requires
                cells@.len() == y * w,
                y == h,
        ;
    }
    let upper = Mask::from_cells(w, h, cells);
    proof {
        let m = upper->0;
        assert forall|x: int, y: int| 0 <= x < w && 0 <= y < h implies #[trigger] m.is_set(x, y)
            == layered_cell(base, detail, factor, x, y) by {
            lemma_cell_index(x, y, w as int);
            assert(x + y * w < w * h) by (nonlinear_arith)
                requires
                    0 <= x < w,
                    0 <= y < h,
            ;
        }
    }
    upper
}

/// `tiles` go strictly forward in scan order.
pub open spec fn scan_sorted(tiles: Seq<TilePos>) -> bool {
    forall|i: int, j: int| 0 <= i < j < tiles.len() ==> scanned_before(#[trigger] tiles[i], #[trigger] tiles[j])
}

/// Two runs that both go strictly forward in scan order and hold the same
/// positions are the same run.
proof fn lemma_sorted_same_members(a: Seq<TilePos>, b: Seq<TilePos>)
    requires
        scan_sorted(a),
        scan_sorted(b),
        forall|p: TilePos| a.contains(p) <==> b.contains(p),
    ensures
        a == b,
    decreases a.len(),
{
    if a.len() == 0 {
        if b.len() > 0 {
            assert(b.contains(b[0]));
        }
        assert(a =~= b);
    } else {
        if b.len() == 0 {
            assert(a.contains(a[0]));
        }
        let la = a.last();
        let lb = b.last();
        assert(b.contains(lb));
        assert(a.contains(la));
        let i = choose|i: int| 0 <= i < a.len() && a[i] == lb;
        let j = choose|j: int| 0 <= j < b.len() && b[j] == la;
        if la != lb {
            assert(i < a.len() - 1);
            assert(j < b.len() - 1);
            assert(scanned_before(a[i], a[a.len() - 1]));
            assert(scanned_before(b[j], b[b.len() - 1]));
        }
        let a2 = a.drop_last();
        let b2 = b.drop_last();
        assert forall|p: TilePos| a2.contains(p) <==> b2.contains(p) by {
            if a2.contains(p) {
                let k = choose|k: int| 0 <= k < a2.len() && a2[k] == p;
                assert(a[k] == p);
                assert(scanned_before(a[k], a[a.len() - 1]));
                assert(a.contains(p));
                let m = choose|m: int| 0 <= m < b.len() && b[m] == p;
                assert(m != b.len() - 1);
                assert(b2[m] == p);
            }
            if b2.contains(p) {
                let k = choose|k: int| 0 <= k < b2.len() && b2[k] == p;
                assert(b[k] == p);
                assert(scanned_before(b[k], b[b.len() - 1]));
                assert(b.contains(p));
                let m = choose|m: int| 0 <= m < a.len() && a[m] == p;
                assert(m != a.len() - 1);
                assert(a2[m] == p);
            }
        }
        lemma_sorted_same_members(a2, b2);
        assert(a =~= a2.push(la));
        assert(b =~= b2.push(lb));
    }
}

/// A mask has exactly one placement: the tiles are pinned down by the set
/// cells and the scan order.
pub proof fn lemma_placement_unique(mask: &Mask, first: Seq<TilePos>, second: Seq<TilePos>)
    requires
        is_placement(mask, first),
        is_placement(mask, second),
    ensures
        first == second,
{
    assert forall|p: TilePos| first.contains(p) <==> second.contains(p) by {
        if first.contains(p) {
            let k = choose|k: int| 0 <= k < first.len() && first[k] == p;
            assert(mask.is_set(first[k].x as int, first[k].y as int));
        }
        if second.contains(p) {
            let k = choose|k: int| 0 <= k < second.len() && second[k] == p;
            assert(mask.is_set(second[k].x as int, second[k].y as int));
        }
    }
    lemma_sorted_same_members(first, second);
}

/// Whether cell (`x`, `y`) of the upper layer gets a tile: `detail` is set
/// there and `base` is set under it, `factor` times coarser.
pub open spec fn layered_cell(base: &Mask, detail: &Mask, factor: u32, x: int, y: int) -> bool {
    base.is_set(x / factor as int, y / factor as int) && detail.is_set(x, y)
}

/// `tiles` are exactly the upper-layer cells over `detail` and `base` that get
/// a tile, each once, in scan order.
pub open spec fn is_upper_placement(base: &Mask, detail: &Mask, factor: u32, tiles: Seq<TilePos>) -> bool {
    &&& forall|i: int|
        0 <= i < tiles.len() ==> {
            &&& (#[trigger] tiles[i]).x < detail.cols()
            &&& tiles[i].y < detail.rows()
            &&& layered_cell(base, detail, factor, tiles[i].x as int, tiles[i].y as int)
        }
    &&& scan_sorted(tiles)
    &&& forall|x: u32, y: u32|
        x < detail.cols() && y < detail.rows() && #[trigger] layered_cell(
            base,
            detail,
            factor,
            x as int,
            y as int,
        ) ==> tiles.contains(TilePos { x, y })
}

/// The placement of a layered mask is the upper placement over its layers.
proof fn lemma_layered_placement(
    base: &Mask,
    detail: &Mask,
    factor: u32,
    upper: &Mask,
    tiles: Seq<TilePos>,
)
    requires
        is_layered(base, detail, factor, upper),
        is_placement(upper, tiles),
    ensures
        is_upper_placement(base, detail, factor, tiles),
{
    assert forall|i: int| 0 <= i < tiles.len() implies layered_cell(
        base,
        detail,
        factor,
        tiles[i].x as int,
        tiles[i].y as int,
    ) by {
        assert(upper.is_set(tiles[i].x as int, tiles[i].y as int));
    }
    assert forall|x: u32, y: u32|
        x < detail.cols() && y < detail.rows() && #[trigger] layered_cell(
            base,
            detail,
            factor,
            x as int,
            y as int,
        ) implies tiles.contains(TilePos { x, y }) by {
        assert(upper.is_set(x as int, y as int));
    }
}

/// Every tile of the upper layer rests on a tile of the base layer: the base
/// tile under it, `factor` times coarser, is placed too.
pub proof fn lemma_upper_rests_on_base(
    base: &Mask,
    detail: &Mask,
    factor: u32,
    base_tiles: Seq<TilePos>,
    upper_tiles: Seq<TilePos>,
    i: int,
)
    requires
        factor > 0,
        detail.cols() == base.cols() * factor,
        detail.rows() == base.rows() * factor,
        is_placement(base, base_tiles),
        is_upper_placement(base, detail, factor, upper_tiles),
        0 <= i < upper_tiles.len(),
    ensures
        base_tiles.contains(
            TilePos { x: (upper_tiles[i].x / factor) as u32, y: (upper_tiles[i].y / factor) as u32 },
        ),
{
    let t = upper_tiles[i];
    assert(layered_cell(base, detail, factor, t.x as int, t.y as int));
    let bx = (t.x / factor) as u32;
    let by = (t.y / factor) as u32;
    assert(bx < base.cols() && by < base.rows()) by (nonlinear_arith)
        requires
            factor > 0,
            t.x < base.cols() * factor,
            t.y < base.rows() * factor,
            bx == t.x / factor,
            by == t.y / factor,
    {
        vstd::arithmetic::div_mod::lemma_fundamental_div_mod(t.x as int, factor as int);
        vstd::arithmetic::div_mod::lemma_fundamental_div_mod(t.y as int, factor as int);
    }
    assert(base.is_set(bx as int, by as int));
}

/// A run that goes strictly forward in scan order holds no position twice.
proof fn lemma_sorted_no_duplicates(tiles: Seq<TilePos>)
    requires
        scan_sorted(tiles),
    ensures
        tiles.no_duplicates(),
{
    assert forall|i: int, j: int| 0 <= i < tiles.len() && 0 <= j < tiles.len() && i != j implies tiles[i]
        != tiles[j] by {
        if i < j {
            assert(scanned_before(tiles[i], tiles[j]));
        } else {
            assert(scanned_before(tiles[j], tiles[i]));
        }
    }
}

/// `q * m + r` with `0 <= r < m` determines both `q` and `r`.
proof fn lemma_decode(q1: int, r1: int, q2: int, r2: int, m: int)
    requires
        m > 0,
        0 <= r1 < m,
        0 <= r2 < m,
        q1 * m + r1 == q2 * m + r2,
    ensures
        q1 == q2,
        r1 == r2,
{
    vstd::arithmetic::div_mod::lemma_fundamental_div_mod_converse(q1 * m + r1, m, q1, r1);
    vstd::arithmetic::div_mod::lemma_fundamental_div_mod_converse(q2 * m + r2, m, q2, r2);
}

/// The upper layer has at most `factor * factor` tiles per base tile: each
/// upper tile lies in the `factor` by `factor` block over a placed base tile.
pub proof fn lemma_upper_count(
    base: &Mask,
    detail: &Mask,
    factor: u32,
    base_tiles: Seq<TilePos>,
    upper_tiles: Seq<TilePos>,
)
    requires
        factor > 0,
        detail.cols() == base.cols() * factor,
        detail.rows() == base.rows() * factor,
        is_placement(base, base_tiles),
        is_upper_placement(base, detail, factor, upper_tiles),
    ensures
        upper_tiles.len() <= factor * factor * base_tiles.len(),
{
    broadcast use vstd::set::group_set_axioms;

    let f = factor as int;
    let n = base_tiles.len() as int;
    let under = |p: TilePos| TilePos { x: (p.x / factor) as u32, y: (p.y / factor) as u32 };
    let index = |p: TilePos| choose|j: int| 0 <= j < n && base_tiles[j] == under(p);
    let code = |p: TilePos| index(p) * (f * f) + ((p.x % factor) as int) * f + ((p.y % factor) as int);
    let placed = upper_tiles.to_set();
    lemma_sorted_no_duplicates(upper_tiles);
    upper_tiles.unique_seq_to_set();
    vstd::seq_lib::seq_to_set_is_finite(upper_tiles);
    let codes = placed.map(code);
    assert forall|p: TilePos| #[trigger] placed.contains(p) implies 0 <= index(p) < n && base_tiles[index(
        p,
    )] == under(p) && 0 <= code(p) < f * f * n by {
        let i = choose|i: int| 0 <= i < upper_tiles.len() && upper_tiles[i] == p;
        lemma_upper_rests_on_base(base, detail, factor, base_tiles, upper_tiles, i);
        let j = index(p);
        let a = (p.x % factor) as int;
        let b = (p.y % factor) as int;
        assert(0 <= j * (f * f) + a * f + b < f * f * n) by (nonlinear_arith)
            requires
                0 <= j < n,
                0 <= a < f,
                0 <= b < f,
        ;
    }
    assert forall|p: TilePos, q: TilePos|
        placed.contains(p) && placed.contains(q) && #[trigger] code(p) == #[trigger] code(q) implies p
        == q by {
        let ap = (p.x % factor) as int;
        let bp = (p.y % factor) as int;
        let aq = (q.x % factor) as int;
        let bq = (q.y % factor) as int;
        assert(0 <= ap * f + bp < f * f && 0 <= aq * f + bq < f * f) by (nonlinear_arith)
            requires
                0 <= ap < f,
                0 <= bp < f,
                0 <= aq < f,
                0 <= bq < f,
        ;
        lemma_decode(index(p), ap * f + bp, index(q), aq * f + bq, f * f);
        lemma_decode(ap, bp, aq, bq, f);
        assert(under(p) == under(q));
        vstd::arithmetic::div_mod::lemma_fundamental_div_mod(p.x as int, f);
        vstd::arithmetic::div_mod::lemma_fundamental_div_mod(q.x as int, f);
        vstd::arithmetic::div_mod::lemma_fundamental_div_mod(p.y as int, f);
        vstd::arithmetic::div_mod::lemma_fundamental_div_mod(q.y as int, f);
    }
    vstd::set_lib::lemma_map_size(placed, codes, code);
    vstd::set_lib::lemma_int_range(0, f * f * n);
    assert(codes.subset_of(vstd::set_lib::set_int_range(0, f * f * n)));
    vstd::set_lib::lemma_len_subset(codes, vstd::set_lib::set_int_range(0, f * f * n));
}

/// Which tiles of the upper layer to spawn: the cells of `detail` that are
/// set over a set cell of `base`, `UPPER_LAYER_SCALE` times coarser; `None`
/// when `detail` is not that many times finer than `base`.
pub fn upper_layer_tiles(base: &Mask, detail: &Mask) -> (tiles: Option<Vec<TilePos>>)
    ensures
        tiles is Some <==> (detail.cols() == base.cols() * UPPER_LAYER_SCALE && detail.rows()
            == base.rows() * UPPER_LAYER_SCALE),
        tiles matches Some(t) ==> is_upper_placement(base, detail, UPPER_LAYER_SCALE, t@),
{
    match layered_mask(base, detail, UPPER_LAYER_SCALE) {
        Some(upper) => {
            let tiles = placed_tiles(&upper);
            proof {
                lemma_layered_placement(base, detail, UPPER_LAYER_SCALE, &upper, tiles@);
            }
            Some(tiles)
        },
        None => None,
    }
}

} // verus!
