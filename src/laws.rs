//! Properties that relate encoding and decoding.
use vstd::prelude::*;

use vstd::arithmetic::div_mod::lemma_fundamental_div_mod_converse;

use crate::bits::{
    chunk_bits, chunk_len, chunks_per_byte, lemma_chunk_geometry, lemma_chunks_per_byte,
    lemma_low_bits_edges, lemma_with_bits_extends, lemma_with_bits_keeps_above, lemma_with_bits_reads_back,
    low_bits, low_mask, with_bits,
};
use crate::cursor::{lemma_visit_ignores_spread, lemma_visit_in_image, visit, visit_budget};
use crate::decoder::{gathered, marker_ends_at, read_byte, read_stream, readable_bytes, reads_until_marker};
use crate::encoder::{embed, fits, lemma_embed_shape, visit_chunk, visit_chunk_len, visits_needed};
use crate::pixels::PixelGrid;
use crate::prelude::Config;

verus! {

proof fn lemma_other_channels_kept(cfg: Config, grid: PixelGrid, data: Seq<u8>, t: nat)
    requires
        cfg.wf(),
        grid.wf(),
    ensures
        forall|p: int, c: int|
            0 <= p < grid.pixel_count() && 0 <= c < 3 && c != cfg.channel.spec_index()
                ==> #[trigger] embed(cfg, grid, data, t).channel(p, c) == grid.channel(p, c),
    decreases t,
{
    if t > 0 && grid.pixel_count() > 0 {
        let i = (t - 1) as nat;
        lemma_other_channels_kept(cfg, grid, data, i);
        lemma_visit_in_image(cfg, grid.width, grid.height, i);
        lemma_embed_shape(cfg, grid, data, i);
        let v = visit(cfg, grid.width, grid.height, i) as int;
        let ch = cfg.channel.spec_index() as int;
        assert forall|p: int, c: int|
            0 <= p < grid.pixel_count() && 0 <= c < 3 && c != ch implies #[trigger] embed(cfg, grid, data, t).channel(p, c)
            == grid.channel(p, c) by {
            assert(3 * p + c != 3 * v + ch);
            assert(embed(cfg, grid, data, t).channel(p, c) == embed(cfg, grid, data, i).channel(p, c));
        }
    }
}

/// Channel isolation: encoding changes only the selected channel. In the
/// altered image the two other channels of every pixel are bit for bit those
/// of the original.
pub proof fn channel_isolation(cfg: Config, grid: PixelGrid, data: Seq<u8>)
    requires
        cfg.wf(),
        grid.wf(),
    ensures
        forall|p: int, c: int|
            0 <= p < grid.pixel_count() && 0 <= c < 3 && c != cfg.channel.spec_index()
                ==> #[trigger] embed(cfg, grid, data, visits_needed(cfg, data.len())).channel(p, c)
                == grid.channel(p, c),
{
    lemma_other_channels_kept(cfg, grid, data, visits_needed(cfg, data.len()));
}

proof fn lemma_high_bits_kept(cfg: Config, grid: PixelGrid, data: Seq<u8>, t: nat)
    requires
        cfg.wf(),
        grid.wf(),
    ensures
        forall|p: int|
            0 <= p < grid.pixel_count() ==> #[trigger] embed(cfg, grid, data, t).channel(p, cfg.channel.spec_index() as int)
                & !low_mask(cfg.use_n_lsb as u8) == grid.channel(p, cfg.channel.spec_index() as int)
                & !low_mask(cfg.use_n_lsb as u8),
    decreases t,
{
    if t > 0 {
        let i = (t - 1) as nat;
        let k = cfg.use_n_lsb as nat;
        let ch = cfg.channel.spec_index() as int;
        lemma_high_bits_kept(cfg, grid, data, i);
        if grid.pixel_count() == 0 {
            return;
        }
        lemma_visit_in_image(cfg, grid.width, grid.height, i);
        lemma_embed_shape(cfg, grid, data, i);
        lemma_chunks_per_byte(k);
        lemma_chunk_geometry(k, i % chunks_per_byte(k));
        let g = embed(cfg, grid, data, i);
        let v = visit(cfg, grid.width, grid.height, i) as int;
        assert forall|p: int| 0 <= p < grid.pixel_count() implies #[trigger] embed(cfg, grid, data, t).channel(p, ch)
            & !low_mask(k as u8) == grid.channel(p, ch) & !low_mask(k as u8) by {
            if p == v {
                lemma_with_bits_keeps_above(
                    g.channel(p, ch),
                    visit_chunk_len(k, i) as u8,
                    k as u8,
                    visit_chunk(data, k, i),
                );
                assert(embed(cfg, grid, data, t).channel(p, ch) == with_bits(
                    g.channel(p, ch),
                    0,
                    visit_chunk_len(k, i) as u8,
                    visit_chunk(data, k, i),
                ));
            } else {
                assert(3 * p + ch != 3 * v + ch);
                assert(embed(cfg, grid, data, t).channel(p, ch) == g.channel(p, ch));
            }
        }
    }
}

/// High-bit preservation: with `k` bits per pixel, the selected channel of
/// every pixel keeps its top `8 - k` bits.
pub proof fn high_bits_preserved(cfg: Config, grid: PixelGrid, data: Seq<u8>)
    requires
        cfg.wf(),
        grid.wf(),
    ensures
        forall|p: int|
            0 <= p < grid.pixel_count() ==> #[trigger] embed(cfg, grid, data, visits_needed(cfg, data.len())).channel(
                p,
                cfg.channel.spec_index() as int,
            ) & !low_mask(cfg.use_n_lsb as u8) == grid.channel(p, cfg.channel.spec_index() as int)
                & !low_mask(cfg.use_n_lsb as u8),
{
    lemma_high_bits_kept(cfg, grid, data, visits_needed(cfg, data.len()));
}

/// Capacity boundary: a payload that needs exactly the visits the traversal
/// offers fits; one that needs one visit more does not fit without `spread`;
/// with `spread` it fits as long as it needs no more visits than the image
/// has pixels.
pub proof fn capacity_boundary(cfg: Config, grid: PixelGrid, n: nat)
    requires
        cfg.wf(),
        grid.wf(),
    ensures
        visits_needed(cfg, n) == visit_budget(cfg, grid.width, grid.height) ==> fits(cfg, grid, n),
        !cfg.spread && visits_needed(cfg, n) == visit_budget(cfg, grid.width, grid.height) + 1 ==> !fits(cfg, grid, n),
        cfg.spread && visits_needed(cfg, n) <= grid.pixel_count() ==> fits(cfg, grid, n),
{
}

/// No-marker exhaustion: without a marker, decoding reads every whole byte
/// that the traversal's visits hold and reports no marker hit. With 1, 2, 4 or
/// 8 bits per pixel that is the available bits divided by eight, rounded down.
pub proof fn no_marker_exhaustion(cfg: Config, grid: PixelGrid)
    requires
        cfg.wf(),
        grid.wf(),
    ensures
        forall|out: Seq<u8>, hit: bool|
            #[trigger] reads_until_marker(read_stream(cfg, grid), Seq::<u8>::empty(), out, hit) ==> {
                &&& !hit
                &&& out == read_stream(cfg, grid)
                &&& out.len() == readable_bytes(cfg, grid)
                &&& 8nat % (cfg.use_n_lsb as nat) == 0 ==> out.len() == visit_budget(cfg, grid.width, grid.height)
                    * cfg.use_n_lsb / 8
            },
{
    let k = cfg.use_n_lsb as nat;
    lemma_chunks_per_byte(k);
    let budget = visit_budget(cfg, grid.width, grid.height);
    if 8nat % k == 0 {
        assert(k == 1 || k == 2 || k == 4 || k == 8) by {
            if k == 3 {
                assert(8nat % 3 == 2);
            } else if k == 5 {
                assert(8nat % 5 == 3);
            } else if k == 6 {
                assert(8nat % 6 == 2);
            } else if k == 7 {
                assert(8nat % 7 == 1);
            }
        }
        if k == 1 {
            assert(budget / 8 == budget * 1 / 8);
        } else if k == 2 {
            assert(budget / 4 == budget * 2 / 8);
        } else if k == 4 {
            assert(budget / 2 == budget * 4 / 8);
        } else {
            assert(budget / 1 == budget * 8 / 8);
        }
        assert(readable_bytes(cfg, grid) == budget * k / 8);
    }
    assert forall|out: Seq<u8>, hit: bool|
        #[trigger] reads_until_marker(read_stream(cfg, grid), Seq::<u8>::empty(), out, hit) implies {
            &&& !hit
            &&& out == read_stream(cfg, grid)
            &&& out.len() == readable_bytes(cfg, grid)
            &&& 8nat % (cfg.use_n_lsb as nat) == 0 ==> out.len() == visit_budget(cfg, grid.width, grid.height)
                * cfg.use_n_lsb / 8
        } by {
        assert(out =~= read_stream(cfg, grid).subrange(0, out.len() as int));
        assert(read_stream(cfg, grid).subrange(0, out.len() as int) =~= read_stream(cfg, grid));
    }
}

/// Visit `t` leaves its bits in its pixel, and later visits, which land on
/// other pixels, keep them there.
proof fn lemma_visit_bits_survive(cfg: Config, grid: PixelGrid, data: Seq<u8>, t: nat, u: nat)
    requires
        cfg.wf(),
        grid.wf(),
        grid.pixel_count() > 0,
        t < u,
        forall|t2: nat| t < t2 < u ==> visit(cfg, grid.width, grid.height, t2) != visit(cfg, grid.width, grid.height, t),
    ensures
        low_bits(
            embed(cfg, grid, data, u).channel(visit(cfg, grid.width, grid.height, t) as int, cfg.channel.spec_index() as int),
            visit_chunk_len(cfg.use_n_lsb as nat, t) as u8,
        ) == visit_chunk(data, cfg.use_n_lsb as nat, t),
    decreases u,
{
    let k = cfg.use_n_lsb as nat;
    let ch = cfg.channel.spec_index() as int;
    let pt = visit(cfg, grid.width, grid.height, t) as int;
    let len = visit_chunk_len(k, t) as u8;
    let i = (u - 1) as nat;
    lemma_chunks_per_byte(k);
    lemma_chunk_geometry(k, t % chunks_per_byte(k));
    lemma_visit_in_image(cfg, grid.width, grid.height, t);
    lemma_visit_in_image(cfg, grid.width, grid.height, i);
    lemma_embed_shape(cfg, grid, data, i);
    let g = embed(cfg, grid, data, i);
    if u == t + 1 {
        assert(embed(cfg, grid, data, u).channel(pt, ch) == with_bits(g.channel(pt, ch), 0, len, visit_chunk(data, k, t)));
        lemma_with_bits_reads_back(g.channel(pt, ch), len, visit_chunk(data, k, t));
        let byte = data[(t / chunks_per_byte(k)) as int];
        let j = t % chunks_per_byte(k);
        lemma_low_bits_edges((byte >> ((j * k) as u8)) as u8, len);
    } else {
        lemma_visit_bits_survive(cfg, grid, data, t, i);
        let v = visit(cfg, grid.width, grid.height, i) as int;
        assert(v != pt);
        assert(3 * pt + ch != 3 * v + ch);
        assert(embed(cfg, grid, data, u).channel(pt, ch) == g.channel(pt, ch));
    }
}

/// Reading byte `b` back from the encoded image gathers its bits chunk by
/// chunk: after `j` chunks, its `j * k` low bits (all eight at the end).
proof fn lemma_gather_payload_byte(cfg: Config, grid: PixelGrid, data: Seq<u8>, b: nat, j: nat)
    requires
        cfg.wf(),
        grid.wf(),
        b < data.len(),
        j <= chunks_per_byte(cfg.use_n_lsb as nat),
        visits_needed(cfg, data.len()) <= grid.pixel_count(),
        forall|t1: nat, t2: nat|
            t1 < t2 < visits_needed(cfg, data.len()) ==> visit(cfg, grid.width, grid.height, t1) != visit(
                cfg,
                grid.width,
                grid.height,
                t2,
            ),
    ensures
        gathered(cfg, embed(cfg, grid, data, visits_needed(cfg, data.len())), b, j) == low_bits(
            data[b as int],
            (if j < chunks_per_byte(cfg.use_n_lsb as nat) { j * cfg.use_n_lsb } else { 8 }) as u8,
        ),
    decreases j,
{
    let k = cfg.use_n_lsb as nat;
    let c = chunks_per_byte(k);
    let n = visits_needed(cfg, data.len());
    let img = embed(cfg, grid, data, n);
    let byte = data[b as int];
    lemma_chunks_per_byte(k);
    if j == 0 {
        lemma_low_bits_edges(byte, 0);
    } else {
        let i = (j - 1) as nat;
        let t = b * c + i;
        lemma_gather_payload_byte(cfg, grid, data, b, i);
        lemma_chunk_geometry(k, i);
        lemma_fundamental_div_mod_converse(t as int, c as int, b as int, i as int);
        assert(t < n) by (nonlinear_arith)
            requires
                t == b * c + i,
                i < c,
                b < data.len(),
                n == data.len() * c,
        ;
        lemma_embed_shape(cfg, grid, data, n);
        lemma_visit_bits_survive(cfg, grid, data, t, n);
        let len = chunk_len(k, i) as u8;
        assert(visit_chunk(data, k, t) == chunk_bits(byte, k, i));
        lemma_with_bits_extends(byte, (i * k) as u8, len);
        lemma_low_bits_edges(byte, 8);
    }
}

/// Reading a byte does not depend on `spread`.
proof fn lemma_gathered_ignores_spread(cfg: Config, other: Config, grid: PixelGrid, b: nat, j: nat)
    requires
        other == (Config { spread: other.spread, ..cfg }),
    ensures
        gathered(other, grid, b, j) == gathered(cfg, grid, b, j),
    decreases j,
{
    if j > 0 {
        let c = chunks_per_byte(cfg.use_n_lsb as nat);
        lemma_gathered_ignores_spread(cfg, other, grid, b, (j - 1) as nat);
        lemma_visit_ignores_spread(cfg, other, grid.width, grid.height, b * c + (j - 1) as nat);
    }
}

/// Round trip with marker: embedding `payload ++ marker` and reading the
/// result back with that marker gives exactly `payload ++ marker`, and reports
/// the marker hit. The reading uses the same settings, except that its
/// `spread` flag may differ, as long as its traversal also has room for the
/// whole of `payload ++ marker`. This holds when the marker ends nowhere inside
/// `payload ++ marker` before its end, and when the visits that write it land
/// on distinct pixels (as they always do without `spread`, see
/// `round_trip_without_spread`).
pub proof fn round_trip_with_marker(
    cfg: Config,
    decode_spread: bool,
    grid: PixelGrid,
    payload: Seq<u8>,
    marker: Seq<u8>,
)
    requires
        cfg.wf(),
        grid.wf(),
        marker.len() > 0,
        fits(cfg, grid, (payload + marker).len()),
        fits((Config { spread: decode_spread, ..cfg }), grid, (payload + marker).len()),
        forall|e: int| 0 <= e < (payload + marker).len() ==> !#[trigger] marker_ends_at(payload + marker, marker, e),
        forall|t1: nat, t2: nat|
            t1 < t2 < visits_needed(cfg, (payload + marker).len()) ==> visit(cfg, grid.width, grid.height, t1)
                != visit(cfg, grid.width, grid.height, t2),
    ensures
        forall|out: Seq<u8>, hit: bool|
            #[trigger] reads_until_marker(
                read_stream(
                    (Config { spread: decode_spread, ..cfg }),
                    embed(cfg, grid, payload + marker, visits_needed(cfg, (payload + marker).len())),
                ),
                marker,
                out,
                hit,
            ) ==> out == payload + marker && hit,
{
    let s = payload + marker;
    let k = cfg.use_n_lsb as nat;
    let c = chunks_per_byte(k);
    let n = visits_needed(cfg, s.len());
    let img = embed(cfg, grid, s, n);
    let dcfg = Config { spread: decode_spread, ..cfg };
    let full = read_stream(dcfg, img);
    lemma_chunks_per_byte(k);
    crate::cursor::lemma_budget_within_image(cfg, grid.width, grid.height);
    if grid.pixel_count() > 0 {
        lemma_embed_shape(cfg, grid, s, n);
    }
    let budget = visit_budget(cfg, grid.width, grid.height);
    let dbudget = visit_budget(dcfg, grid.width, grid.height);
    assert(s.len() <= dbudget / c) by (nonlinear_arith)
        requires
            s.len() * c <= dbudget,
            c >= 1,
    ;
    assert(s.len() <= full.len());
    assert forall|b: int| 0 <= b < s.len() implies full[b] == s[b] by {
        lemma_gather_payload_byte(cfg, grid, s, b as nat, c);
        lemma_low_bits_edges(s[b], 8);
        lemma_gathered_ignores_spread(cfg, dcfg, img, b as nat, c);
        assert(full[b] == read_byte(dcfg, img, b as nat));
        assert(read_byte(dcfg, img, b as nat) == gathered(cfg, img, b as nat, c));
    }
    assert(full.subrange(0, s.len() as int) =~= s);
    assert(s.subrange(s.len() - marker.len(), s.len() as int) =~= marker);
    assert(full.subrange(s.len() - marker.len(), s.len() as int) =~= marker);
    assert(marker_ends_at(full, marker, s.len() as int));
    assert forall|out: Seq<u8>, hit: bool|
        #[trigger] reads_until_marker(full, marker, out, hit) implies out == s && hit by {
        if out.len() < s.len() && hit {
            let e = out.len() as int;
            assert(full.subrange(e - marker.len(), e) =~= s.subrange(e - marker.len(), e));
            assert(marker_ends_at(s, marker, e));
        }
        if out.len() > s.len() {
            assert(!marker_ends_at(full, marker, s.len() as int));
        }
        assert(out.len() == s.len());
        assert(out =~= s);
    }
}

/// Round trip with marker, embedding without `spread`: the visits of one pass
/// never share a pixel, so only the marker's placement is required. The
/// reading's `spread` flag may be either.
pub proof fn round_trip_without_spread(
    cfg: Config,
    decode_spread: bool,
    grid: PixelGrid,
    payload: Seq<u8>,
    marker: Seq<u8>,
)
    requires
        cfg.wf(),
        grid.wf(),
        !cfg.spread,
        marker.len() > 0,
        fits(cfg, grid, (payload + marker).len()),
        forall|e: int| 0 <= e < (payload + marker).len() ==> !#[trigger] marker_ends_at(payload + marker, marker, e),
    ensures
        forall|out: Seq<u8>, hit: bool|
            #[trigger] reads_until_marker(
                read_stream(
                    (Config { spread: decode_spread, ..cfg }),
                    embed(cfg, grid, payload + marker, visits_needed(cfg, (payload + marker).len())),
                ),
                marker,
                out,
                hit,
            ) ==> out == payload + marker && hit,
{
    crate::cursor::lemma_first_pass_distinct(cfg, grid.width, grid.height);
    crate::cursor::lemma_budget_within_image(cfg, grid.width, grid.height);
    round_trip_with_marker(cfg, decode_spread, grid, payload, marker);
}

} // verus!
