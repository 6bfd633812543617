//! A serialization form for grids (and so for replicas, which are grids):
//! a flat sequence of unsigned numbers, suitable for transmission or
//! display by the unverified front ends. Serializing and then
//! deserializing reproduces an equivalent grid, and the encoding is
//! proved injective on well-formed grids.
//!
//! Layout: `[width, height, seed, clock]`, then three entries per tile in
//! `x`-major order — type code, discovered flag, last-visit timestamp.

use vstd::arithmetic::div_mod::{
    lemma_fundamental_div_mod_converse_div,
    lemma_fundamental_div_mod_converse_mod,
};
use vstd::prelude::*;

use crate::grid::{Grid, GridModel};
use crate::tile::{Tile, TileType};

verus! {

/// The numeric code of a terrain type.
pub open spec fn spec_type_code(t: TileType) -> u128 {
    match t {
        TileType::Empty => 0,
        TileType::Rock => 1,
        TileType::Energy => 2,
        TileType::ScientificStation => 3,
    }
}

/// Entry `f` (of three) that a tile contributes to the encoding.
pub open spec fn spec_tile_field(t: Tile, f: int) -> u128 {
    if f == 0 {
        spec_type_code(t.tile_type)
    } else if f == 1 {
        if t.is_discovered {
            1
        } else {
            0
        }
    } else {
        t.last_time_visited
    }
}

/// The encoding of a grid: a four-entry header, then the tiles.
pub open spec fn spec_encode(m: GridModel) -> Seq<u128> {
    Seq::new(
        (4 + 3 * m.width * m.height) as nat,
        |i: int|
            if i == 0 {
                m.width as u128
            } else if i == 1 {
                m.height as u128
            } else if i == 2 {
                m.seed as u128
            } else if i == 3 {
                m.clock
            } else {
                let t = (i - 4) / 3;
                let f = (i - 4) % 3;
                spec_tile_field(m.tiles[t / m.height][t % m.height], f)
            },
    )
}

/// The header of a well-formed grid's encoding: its length and its first
/// four entries, with the casts exact.
pub proof fn lemma_encoded_header(m: GridModel)
    requires
        m.wf(),
    ensures
        spec_encode(m).len() == 4 + 3 * m.width * m.height,
        spec_encode(m).len() >= 7,
        spec_encode(m)[0] as int == m.width,
        spec_encode(m)[1] as int == m.height,
        spec_encode(m)[2] == m.seed,
        spec_encode(m)[3] == m.clock,
{
    assert(m.width * m.height >= 1) by (nonlinear_arith)
        requires
            m.width >= 1,
            m.height >= 1,
    ;
    assert(3 * m.width * m.height == 3 * (m.width * m.height)) by (nonlinear_arith);
}

/// Where tile `(x, y)`'s entry `f` sits in the encoding, and that the
/// entry there is exactly that tile's field.
pub proof fn lemma_encoded_tile_field(m: GridModel, x: int, y: int, f: int)
    requires
        m.wf(),
        0 <= x < m.width,
        0 <= y < m.height,
        0 <= f < 3,
    ensures
        4 + 3 * (x * m.height + y) + f < spec_encode(m).len(),
        spec_encode(m)[4 + 3 * (x * m.height + y) + f] == spec_tile_field(m.tiles[x][y], f),
{
    let h = m.height;
    let t = x * h + y;
    assert(0 <= t && t < m.width * h && 3 * t + f < 3 * (m.width * h)) by (nonlinear_arith)
        requires
            t == x * h + y,
            0 <= x < m.width,
            0 <= y < h,
            0 <= f < 3,
            h >= 1,
    ;
    lemma_fundamental_div_mod_converse_div(3 * t + f, 3, t, f);
    lemma_fundamental_div_mod_converse_mod(3 * t + f, 3, t, f);
    lemma_fundamental_div_mod_converse_div(t, h, x, y);
    lemma_fundamental_div_mod_converse_mod(t, h, x, y);
    assert(3 * m.width * m.height == 3 * (m.width * m.height)) by (nonlinear_arith);
}

/// The encoding is injective on well-formed grids: equal encodings mean
/// equal grids. Together with the contracts of [`encode`] and [`decode`]
/// this gives the round trip: deserializing a serialized grid reproduces
/// it exactly.
pub proof fn lemma_encode_injective(a: GridModel, b: GridModel)
    requires
        a.wf(),
        b.wf(),
        spec_encode(a) == spec_encode(b),
    ensures
        a == b,
{
    lemma_encoded_header(a);
    lemma_encoded_header(b);
    assert forall|x: int, y: int| 0 <= x < a.width && 0 <= y < a.height implies a.tiles[x][y]
        == b.tiles[x][y] by {
        lemma_encoded_tile_field(a, x, y, 0);
        lemma_encoded_tile_field(b, x, y, 0);
        lemma_encoded_tile_field(a, x, y, 1);
        lemma_encoded_tile_field(b, x, y, 1);
        lemma_encoded_tile_field(a, x, y, 2);
        lemma_encoded_tile_field(b, x, y, 2);
        assert(a.tile(x, y).wf());
        assert(b.tile(x, y).wf());
        assert(spec_type_code(a.tiles[x][y].tile_type) == spec_type_code(b.tiles[x][y].tile_type));
        assert(a.tiles[x][y].tile_type == b.tiles[x][y].tile_type);
    }
    assert forall|x: int| 0 <= x < a.width implies #[trigger] a.tiles[x] =~= b.tiles[x] by {
        assert(a.tiles[x].len() == a.height);
        assert(b.tiles[x].len() == a.height);
    }
    assert(a.tiles =~= b.tiles);
    assert(a =~= b);
}

/// The numeric code of a terrain type.
fn type_code(t: TileType) -> (c: u128)
    ensures
        c == spec_type_code(t),
{
    match t {
        TileType::Empty => 0,
        TileType::Rock => 1,
        TileType::Energy => 2,
        TileType::ScientificStation => 3,
    }
}

/// The terrain type a numeric code denotes, or `None` for an unknown
/// code.
fn type_from_code(c: u128) -> (r: Option<TileType>)
    ensures
        c <= 3 ==> (r matches Some(t) && spec_type_code(t) == c),
        c > 3 ==> r is None,
{
    if c == 0 {
        Some(TileType::Empty)
    } else if c == 1 {
        Some(TileType::Rock)
    } else if c == 2 {
        Some(TileType::Energy)
    } else if c == 3 {
        Some(TileType::ScientificStation)
    } else {
        None
    }
}

/// Serialize a grid.
pub fn encode(g: &Grid) -> (out: Vec<u128>)
    requires
        g.wf(),
    ensures
        out@ == spec_encode(g@),
{
    proof {
        g.lemma_view_shape();
        lemma_encoded_header(g@);
    }
    let w: usize = g.width as usize;
    let h: usize = g.height as usize;
    let ghost target = spec_encode(g@);
    let mut out: Vec<u128> = Vec::new();
    out.push(g.width as u128);
    out.push(g.height as u128);
    out.push(g.seed as u128);
    out.push(g.clock);
    proof {
        assert(3 * (0 * h) == 0) by (nonlinear_arith);
    }
    for x in 0..w
        invariant
            g.wf(),
            w == g@.width,
            h == g@.height,
            g.tiles@.len() == w,
            forall|i: int| 0 <= i < w ==> (#[trigger] g.tiles@[i])@.len() == h,
            forall|i: int, j: int|
                0 <= i < w && 0 <= j < h ==> g.tiles@[i]@[j] == #[trigger] g@.tiles[i][j],
            target == spec_encode(g@),
            target.len() == 4 + 3 * (w as int) * (h as int),
            out@.len() == 4 + 3 * ((x as int) * (h as int)),
            forall|i: int| 0 <= i < out@.len() ==> out@[i] == target[i],
    {
        for y in 0..h
            invariant
                g.wf(),
                w == g@.width,
                h == g@.height,
                x < w,
                g.tiles@.len() == w,
                forall|i: int| 0 <= i < w ==> (#[trigger] g.tiles@[i])@.len() == h,
                forall|i: int, j: int|
                    0 <= i < w && 0 <= j < h ==> g.tiles@[i]@[j] == #[trigger] g@.tiles[i][j],
                target == spec_encode(g@),
                target.len() == 4 + 3 * (w as int) * (h as int),
                out@.len() == 4 + 3 * ((x as int) * (h as int) + y as int),
                forall|i: int| 0 <= i < out@.len() ==> out@[i] == target[i],
        {
            let tile = g.tiles[x][y];
            proof {
                lemma_encoded_tile_field(g@, x as int, y as int, 0);
                lemma_encoded_tile_field(g@, x as int, y as int, 1);
                lemma_encoded_tile_field(g@, x as int, y as int, 2);
            }
            out.push(type_code(tile.tile_type));
            out.push(if tile.is_discovered { 1 } else { 0 });
            out.push(tile.last_time_visited);
        }
        proof {
            assert(3 * ((x as int) * (h as int) + h as int) == 3 * ((x as int + 1) * h as int))
                by (nonlinear_arith);
        }
    }
    proof {
        assert(3 * ((w as int) * (h as int)) == 3 * (w as int) * (h as int)) by (nonlinear_arith);
        assert(out@ =~= target);
    }
    out
}

/// Deserialize a grid. Returns `None` exactly on input that no
/// well-formed grid encodes to: every valid encoding is accepted.
pub fn decode(data: &Vec<u128>) -> (r: Option<Grid>)
    ensures
        r matches Some(g) ==> g.wf() && data@ == spec_encode(g@),
        forall|m: GridModel| m.wf() && data@ == #[trigger] spec_encode(m) ==> r is Some,
{
    proof {
        assert forall|m: GridModel| m.wf() implies #[trigger] spec_encode(m).len() >= 7 by {
            lemma_encoded_header(m);
        }
    }
    if data.len() < 4 {
        return None;
    }
    let w128 = data[0];
    let h128 = data[1];
    let seed128 = data[2];
    let clock = data[3];
    proof {
        assert forall|m: GridModel| m.wf() && data@ == #[trigger] spec_encode(m) implies data@[0]
            as int == m.width && data@[1] as int == m.height && data@[2] == m.seed && data@[3]
            == m.clock && data@.len() == 4 + 3 * m.width * m.height by {
            lemma_encoded_header(m);
        }
    }
    if w128 == 0 || w128 > (i32::MAX as u128) || h128 == 0 || h128 > (i32::MAX as u128) {
        return None;
    }
    if seed128 > (u64::MAX as u128) {
        return None;
    }
    let width = w128 as i32;
    let height = h128 as i32;
    let seed = seed128 as u64;
    let w: usize = width as usize;
    let h: usize = height as usize;
    proof {
        assert(3 * (w128 * h128) + 4 < u128::MAX) by (nonlinear_arith)
            requires
                0 < w128 <= 0x7fff_ffff,
                0 < h128 <= 0x7fff_ffff,
        ;
    }
    let need: u128 = 4 + 3 * (w128 * h128);
    if (data.len() as u128) != need {
        proof {
            assert forall|m: GridModel| !(m.wf() && data@ == #[trigger] spec_encode(m)) by {
                if m.wf() && data@ == spec_encode(m) {
                    lemma_encoded_header(m);
                    assert(3 * m.width * m.height == 3 * (m.width * m.height))
                        by (nonlinear_arith);
                }
            }
        }
        return None;
    }
    let dlen: usize = data.len();
    proof {
        assert(dlen as int == data@.len());
        assert(data@.len() == 4 + 3 * ((w as int) * (h as int)));
        assert(3 * (0 * h as int) == 0) by (nonlinear_arith);
    }
    let mut pos: usize = 4;
    let mut tiles: Vec<Vec<Tile>> = Vec::new();
    for x in 0..w
        invariant
            w == width as int,
            h == height as int,
            0 < width,
            0 < height,
            w128 == width as u128,
            h128 == height as u128,
            seed128 == seed as u128,
            data@[0] == w128,
            data@[1] == h128,
            data@[2] == seed128,
            data@[3] == clock,
            data@.len() == 4 + 3 * ((w as int) * (h as int)),
            data@.len() <= usize::MAX,
            pos as int == 4 + 3 * ((x as int) * (h as int)),
            tiles@.len() == x,
            forall|i: int| 0 <= i < x ==> (#[trigger] tiles@[i])@.len() == h,
            forall|i: int, j: int|
                0 <= i < x && 0 <= j < h ==> (#[trigger] tiles@[i]@[j]).wf()
                    && tiles@[i]@[j].last_time_visited <= clock,
            forall|i: int, j: int|
                0 <= i < x && 0 <= j < h ==> data@[4 + 3 * (i * (h as int) + j)] == spec_tile_field(
                    #[trigger] tiles@[i]@[j],
                    0,
                ) && data@[4 + 3 * (i * (h as int) + j) + 1] == spec_tile_field(tiles@[i]@[j], 1)
                    && data@[4 + 3 * (i * (h as int) + j) + 2] == spec_tile_field(tiles@[i]@[j], 2),
    {
        let mut row: Vec<Tile> = Vec::new();
        for y in 0..h
            invariant
                w == width as int,
                h == height as int,
                0 < width,
                0 < height,
                x < w,
                w128 == width as u128,
                h128 == height as u128,
                seed128 == seed as u128,
                data@[0] == w128,
                data@[1] == h128,
                data@[2] == seed128,
                data@[3] == clock,
                data@.len() == 4 + 3 * ((w as int) * (h as int)),
                data@.len() <= usize::MAX,
                pos as int == 4 + 3 * ((x as int) * (h as int) + y as int),
                row@.len() == y,
                forall|j: int|
                    0 <= j < y ==> (#[trigger] row@[j]).wf() && row@[j].last_time_visited <= clock,
                forall|j: int|
                    0 <= j < y ==> data@[4 + 3 * ((x as int) * (h as int) + j)] == spec_tile_field(
                        #[trigger] row@[j],
                        0,
                    ) && data@[4 + 3 * ((x as int) * (h as int) + j) + 1] == spec_tile_field(row@[j], 1)
                        && data@[4 + 3 * ((x as int) * (h as int) + j) + 2] == spec_tile_field(
                        row@[j],
                        2,
                    ),
        {
            proof {
                assert((x as int) * (h as int) + (y as int) < (w as int) * (h as int)) by (nonlinear_arith)
                    requires
                        (x as int) < (w as int),
                        (y as int) < (h as int),
                        0 <= x as int,
                        0 <= y as int,
                ;
            }
            let code = data[pos];
            let flag = data[pos + 1];
            let stamp = data[pos + 2];
            let tile_type_opt = type_from_code(code);
            let mut bad = flag > 1 || stamp > clock;
            let tile_type = match tile_type_opt {
                Some(t) => t,
                None => {
                    bad = true;
                    TileType::Empty
                },
            };
            if bad {
                proof {
                    assert forall|m: GridModel| !(m.wf() && data@ == #[trigger] spec_encode(
                        m,
                    )) by {
                        if m.wf() && data@ == spec_encode(m) {
                            lemma_encoded_header(m);
                            lemma_encoded_tile_field(m, x as int, y as int, 0);
                            lemma_encoded_tile_field(m, x as int, y as int, 1);
                            lemma_encoded_tile_field(m, x as int, y as int, 2);
                            assert(m.tile(x as int, y as int).wf());
                            assert(m.tile(x as int, y as int).last_time_visited <= m.clock);
                        }
                    }
                }
                return None;
            }
            let mut tile = Tile::new(tile_type, flag == 1);
            tile.last_time_visited = stamp;
            row.push(tile);
            proof {
                assert(3 * ((x as int) * (h as int) + (y as int) + 1) <= 3 * ((w as int) * (
                h as int))) by (nonlinear_arith)
                    requires
                        (x as int) < (w as int),
                        (y as int) < (h as int),
                        0 <= x as int,
                        0 <= y as int,
                ;
            }
            pos = pos + 3;
        }
        proof {
            assert(3 * ((x as int) * (h as int) + h as int) == 3 * ((x as int + 1) * h as int))
                by (nonlinear_arith);
        }
        tiles.push(row);
    }
    let g = Grid { tiles, width, height, seed, clock };
    proof {
        assert(g@.tiles.len() == width as int);
        assert forall|i: int, j: int| g@.in_bounds(i, j) implies (#[trigger] g@.tile(i, j)).wf()
            && g@.tile(i, j).last_time_visited <= g@.clock by {
            assert(g@.tiles[i] == g.tiles@[i]@);
        }
        assert(g.wf());
        g.lemma_view_shape();
        lemma_encoded_header(g@);
        assert(3 * g@.width * g@.height == 3 * (g@.width * g@.height)) by (nonlinear_arith);
        assert forall|i: int| 0 <= i < data@.len() implies data@[i] == #[trigger] spec_encode(
            g@,
        )[i] by {
            if i >= 4 {
                let k = i - 4;
                let t = k / 3;
                let f = k % 3;
                assert(k == 3 * t + f && 0 <= f < 3) by {
                    vstd::arithmetic::div_mod::lemma_fundamental_div_mod(k, 3);
                    vstd::arithmetic::div_mod::lemma_mod_bound(k, 3);
                }
                assert(t < (w as int) * (h as int)) by (nonlinear_arith)
                    requires
                        3 * t + f < 3 * ((w as int) * (h as int)),
                        0 <= f < 3,
                ;
                let xx = t / (h as int);
                let yy = t % (h as int);
                assert(t == (h as int) * xx + yy && 0 <= yy < h as int) by {
                    vstd::arithmetic::div_mod::lemma_fundamental_div_mod(t, h as int);
                    vstd::arithmetic::div_mod::lemma_mod_bound(t, h as int);
                }
                assert(0 <= xx < w as int) by (nonlinear_arith)
                    requires
                        (h as int) * xx + yy == t,
                        0 <= t < (w as int) * (h as int),
                        0 <= yy < h as int,
                        0 < h as int,
                ;
                assert((h as int) * xx + yy == xx * (h as int) + yy) by (nonlinear_arith);
                assert(data@[4 + 3 * (xx * (h as int) + yy) + f] == spec_tile_field(
                    tiles@[xx]@[yy],
                    f,
                ));
                lemma_encoded_tile_field(g@, xx, yy, f);
                assert(g@.tiles[xx][yy] == tiles@[xx]@[yy]);
            } else {
                assert(spec_encode(g@)[i] == data@[i]);
            }
        }
        assert(data@ =~= spec_encode(g@));
    }
    Some(g)
}

} // verus!
