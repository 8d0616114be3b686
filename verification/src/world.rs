use vstd::prelude::*;
use vstd::arithmetic::div_mod::{
    lemma_div_is_ordered, lemma_fundamental_div_mod, lemma_fundamental_div_mod_converse,
    lemma_mod_division_less_than_divisor,
};
use vstd::arithmetic::mul::{
    lemma_mul_inequality, lemma_mul_is_commutative, lemma_mul_is_distributive_add_other_way,
    lemma_mul_upper_bound,
};
use crate::coords::{chunk_axis, chunk_axis_of, ChunkCoord};
use crate::meshes::chunk_mesh_builder::mesh_spec;
use crate::settings::{CHUNK_SIZE, MAX_RENDER_DISTANCE, MAX_Y, MIN_Y};
use crate::terrain::HeightGrid;
use crate::world_objects::chunk::{
    chunks_view, chunks_wf, coords_unique, generate_spec, grid_covers_chunk,
    lemma_chunks_view_at, lemma_chunks_view_contains, voxels_view_of, Chunk, ChunkView,
};

verus! {

/// The streaming window test: a chunk coordinate should be resident exactly
/// when it lies within the box radius of the center on every axis and its
/// height lies inside the world's absolute vertical band.
pub open spec fn in_window(c: (int, int, int), center: (int, int, int), rd: int) -> bool {
    &&& center.0 - rd <= c.0 <= center.0 + rd
    &&& center.1 - rd <= c.1 <= center.1 + rd
    &&& center.2 - rd <= c.2 <= center.2 + rd
    &&& MIN_Y <= c.1 <= MAX_Y
}

/// All coordinates the streaming window admits.
pub open spec fn window_set(center: (int, int, int), rd: int) -> Set<(int, int, int)> {
    Set::new(|c: (int, int, int)| in_window(c, center, rd))
}

/// The chunk-grid cell holding a world voxel position: floor division per
/// axis.
pub open spec fn center_of(vx: int, vy: int, vz: int) -> (int, int, int) {
    (chunk_axis_of(vx), chunk_axis_of(vy), chunk_axis_of(vz))
}

/// What one streaming pass does to the resident chunk mapping, given the
/// world seed, the sampled column heights `h`, the new center and the
/// render distance: afterwards exactly the window's coordinates are
/// resident; chunks that were already resident and stay in the window are
/// untouched, meshes included; and every newly resident chunk carries the
/// generated voxels for its coordinate and a mesh derived from those voxels
/// and a neighbor snapshot consistent with the final resident set.
pub open spec fn streaming_post(
    pre: Map<(int, int, int), ChunkView>,
    post: Map<(int, int, int), ChunkView>,
    seed: u32,
    h: Map<(int, int), int>,
    center: (int, int, int),
    rd: int,
) -> bool {
    &&& post.dom() == window_set(center, rd)
    &&& forall|c: (int, int, int)|
        pre.contains_key(c) && in_window(c, center, rd) ==> #[trigger] post[c] == pre[c]
    &&& forall|c: (int, int, int)|
        in_window(c, center, rd) && !pre.contains_key(c) ==> fresh_chunk_ok(
            #[trigger] post[c],
            c,
            seed,
            h,
            voxels_view_of(pre.restrict(window_set(center, rd))),
            voxels_view_of(post),
        )
}

/// `inner` is a fragment of `outer`: every key of `inner` is in `outer`
/// with the same value.
pub open spec fn map_within(
    inner: Map<(int, int, int), Seq<u8>>,
    outer: Map<(int, int, int), Seq<u8>>,
) -> bool {
    forall|k: (int, int, int)| #[trigger]
        inner.dom().contains(k) ==> outer.dom().contains(k) && inner[k] == outer[k]
}

/// A newly generated chunk's content: its voxels are exactly what
/// generation yields for its coordinate, and its mesh is the face-culled
/// mesh of those voxels against a snapshot of resident neighbor voxels
/// that includes everything in `lower` (the chunks that were already
/// resident when the pass began) and agrees with `vv` (the chunks
/// resident when it finished).
pub open spec fn fresh_chunk_ok(
    cv: ChunkView,
    c: (int, int, int),
    seed: u32,
    h: Map<(int, int), int>,
    lower: Map<(int, int, int), Seq<u8>>,
    vv: Map<(int, int, int), Seq<u8>>,
) -> bool {
    &&& cv.voxels == generate_spec(seed, h, c)
    &&& exists|nb: Map<(int, int, int), Seq<u8>>|
        #[trigger] map_within(nb, vv) && map_within(lower, nb) && cv.mesh == Some(
            mesh_spec(generate_spec(seed, h, c), c, nb),
        )
}

/// The grid of sampled heights covers every column of every chunk the
/// window admits.
pub open spec fn grid_covers_window(g: HeightGrid, center: (int, int, int), rd: int) -> bool {
    forall|c: (int, int, int)| in_window(c, center, rd) ==> #[trigger] grid_covers_chunk(g, c)
}

/// Check, before an update, that a height grid covers the whole streaming
/// window around `center`: its rectangle must enclose the columns of every
/// chunk the window admits. A `true` answer establishes the coverage that
/// `World::new` and `World::update` require.
pub fn grid_covers_window_check(g: &HeightGrid, center: ChunkCoord, rd: i32) -> (r: bool)
    requires
        g.wf(),
        0 <= rd <= MAX_RENDER_DISTANCE,
    ensures
        r ==> grid_covers_window(*g, center@, rd as int),
        r == {
            let n = CHUNK_SIZE as int;
            &&& g.origin_x <= (center@.0 - rd) * n
            &&& (center@.0 + rd) * n + (n - 1) < g.origin_x + g.size_x
            &&& g.origin_z <= (center@.2 - rd) * n
            &&& (center@.2 + rd) * n + (n - 1) < g.origin_z + g.size_z
        },
{
    let cx = center.x as i64;
    let cz = center.z as i64;
    let rdl = rd as i64;
    let xlo: i64 = (cx - rdl) * 32;
    let xhi: i64 = (cx + rdl) * 32 + 31;
    let zlo: i64 = (cz - rdl) * 32;
    let zhi: i64 = (cz + rdl) * 32 + 31;
    let ok = g.origin_x <= xlo && xhi < g.origin_x + g.size_x as i64 && g.origin_z <= zlo && zhi
        < g.origin_z + g.size_z as i64;
    proof {
        if ok {
            assert forall|ch: (int, int, int)| in_window(ch, center@, rd as int) implies
                #[trigger] grid_covers_chunk(*g, ch) by {
                assert forall|lx: int, lz: int| 0 <= lx < CHUNK_SIZE && 0 <= lz < CHUNK_SIZE
                    implies #[trigger] g.covers(
                    ch.0 * (CHUNK_SIZE as int) + lx,
                    ch.2 * (CHUNK_SIZE as int) + lz,
                ) by {
                    lemma_mul_inequality(cx as int - rdl as int, ch.0, 32);
                    lemma_mul_inequality(ch.0, cx as int + rdl as int, 32);
                    lemma_mul_inequality(cz as int - rdl as int, ch.2, 32);
                    lemma_mul_inequality(ch.2, cz as int + rdl as int, 32);
                }
            }
        }
    }
    ok
}

/// Whether chunk position `p` passes the window test around `center`.
fn in_window_exec(p: ChunkCoord, center: ChunkCoord, rd: i32) -> (r: bool)
    ensures
        r == in_window(p@, center@, rd as int),
{
    let px = p.x as i64;
    let py = p.y as i64;
    let pz = p.z as i64;
    let cx = center.x as i64;
    let cy = center.y as i64;
    let cz = center.z as i64;
    let rdl = rd as i64;
    cx - rdl <= px && px <= cx + rdl && cy - rdl <= py && py <= cy + rdl && cz - rdl <= pz && pz
        <= cz + rdl && MIN_Y as i64 <= py && py <= MAX_Y as i64
}

/// Whether a chunk at position `p` is already resident.
fn contains_chunk(chunks: &Vec<Chunk>, p: ChunkCoord) -> (r: bool)
    ensures
        r == chunks_view(chunks@).contains_key(p@),
{
    let mut i: usize = 0;
    while i < chunks.len()
        invariant
            i <= chunks@.len(),
            forall|j: int| 0 <= j < i ==> chunks@[j].position@ != p@,
        decreases chunks@.len() - i,
    {
        let c = &chunks[i];
        if c.position.x == p.x && c.position.y == p.y && c.position.z == p.z {
            proof {
                lemma_chunks_view_contains(chunks@, p@);
            }
            return true;
        }
        i += 1;
    }
    proof {
        lemma_chunks_view_contains(chunks@, p@);
    }
    false
}

/// A filtered chunk sequence holds exactly the windowed part of the
/// original mapping.
#[verifier::rlimit(50)]
proof fn lemma_view_restrict(
    orig: Seq<Chunk>,
    kept: Seq<Chunk>,
    center: (int, int, int),
    rd: int,
)
    requires
        coords_unique(orig),
        coords_unique(kept),
        forall|j: int|
            0 <= j < kept.len() ==> in_window(#[trigger] kept[j].position@, center, rd) && exists|
                i: int,
            | 0 <= i < orig.len() && kept[j] == orig[i],
        forall|i: int|
            0 <= i < orig.len() && in_window(#[trigger] orig[i].position@, center, rd) ==> exists|
                j: int,
            | 0 <= j < kept.len() && kept[j] == orig[i],
    ensures
        chunks_view(kept) == chunks_view(orig).restrict(window_set(center, rd)),
{
    let kv = chunks_view(kept);
    let ov = chunks_view(orig);
    let rv = ov.restrict(window_set(center, rd));
    assert forall|c: (int, int, int)| #[trigger] kv.dom().contains(c) implies rv.dom().contains(c)
        && kv[c] == rv[c] by {
        lemma_chunks_view_contains(kept, c);
        let j = choose|j: int| 0 <= j < kept.len() && kept[j].position@ == c;
        assert(in_window(kept[j].position@, center, rd));
        let i = choose|i: int| 0 <= i < orig.len() && kept[j] == orig[i];
        lemma_chunks_view_at(kept, j);
        lemma_chunks_view_at(orig, i);
        assert(in_window(c, center, rd));
        assert(ov.contains_key(c));
        assert(window_set(center, rd).contains(c));
    }
    assert forall|c: (int, int, int)| #[trigger] rv.dom().contains(c) implies kv.dom().contains(c) by {
        assert(ov.contains_key(c));
        assert(in_window(c, center, rd));
        lemma_chunks_view_contains(orig, c);
        let i = choose|i: int| 0 <= i < orig.len() && orig[i].position@ == c;
        assert(in_window(orig[i].position@, center, rd));
        let j = choose|j: int| 0 <= j < kept.len() && kept[j] == orig[i];
        assert(kept[j].position@ == c);
        lemma_chunks_view_contains(kept, c);
    }
    assert(kv.dom() =~= rv.dom());
    assert(kv =~= rv);
}

/// Appending a chunk inserts it into the mapping.
proof fn lemma_chunks_view_push(s: Seq<Chunk>, ch: Chunk)
    ensures
        chunks_view(s.push(ch)) == chunks_view(s).insert(ch.position@, ch@),
{
    assert(s.push(ch).drop_last() =~= s);
    assert(s.push(ch).last() == ch);
}

/// The voxel projection of a mapping is a fragment of the projection of
/// any mapping that extends it.
proof fn lemma_voxels_view_within(
    m1: Map<(int, int, int), ChunkView>,
    m2: Map<(int, int, int), ChunkView>,
)
    requires
        forall|k: (int, int, int)| #[trigger]
            m1.dom().contains(k) ==> m2.dom().contains(k) && m1[k] == m2[k],
    ensures
        map_within(voxels_view_of(m1), voxels_view_of(m2)),
{
    assert forall|k: (int, int, int)| #[trigger] voxels_view_of(m1).dom().contains(k) implies
        voxels_view_of(m2).dom().contains(k) && voxels_view_of(m1)[k] == voxels_view_of(m2)[k] by {
        assert(m1.dom().contains(k));
        assert(m2.dom().contains(k));
        assert(m1[k] == m2[k]);
    }
}

/// A prefix of a unique chunk sequence maps each of its positions to the
/// same content as the whole sequence.
proof fn lemma_prefix_view_within(s: Seq<Chunk>, j: int)
    requires
        coords_unique(s),
        0 <= j <= s.len(),
    ensures
        forall|k: (int, int, int)| #[trigger]
            chunks_view(s.take(j)).dom().contains(k) ==> chunks_view(s).dom().contains(k)
                && chunks_view(s.take(j))[k] == chunks_view(s)[k],
{
    let pv = chunks_view(s.take(j));
    assert(coords_unique(s.take(j))) by {
        assert(forall|a: int, b: int|
            0 <= a < b < j ==> s.take(j)[a] == s[a] && s.take(j)[b] == s[b]);
    }
    assert forall|k: (int, int, int)| #[trigger] pv.dom().contains(k) implies chunks_view(
        s,
    ).dom().contains(k) && pv[k] == chunks_view(s)[k] by {
        lemma_chunks_view_contains(s.take(j), k);
        let i = choose|i: int| 0 <= i < s.take(j).len() && s.take(j)[i].position@ == k;
        assert(s.take(j)[i] == s[i]);
        lemma_chunks_view_at(s.take(j), i);
        lemma_chunks_view_at(s, i);
    }
}

/// Under uniqueness the mapping has exactly one entry per chunk.
pub proof fn lemma_chunks_view_dom_len(s: Seq<Chunk>)
    requires
        coords_unique(s),
    ensures
        chunks_view(s).dom().finite(),
        chunks_view(s).dom().len() == s.len(),
    decreases s.len(),
{
    if s.len() > 0 {
        let dl = s.drop_last();
        assert(coords_unique(dl)) by {
            assert(forall|a: int, b: int|
                0 <= a < b < dl.len() ==> dl[a] == s[a] && dl[b] == s[b]);
        }
        lemma_chunks_view_dom_len(dl);
        lemma_chunks_view_contains(dl, s.last().position@);
        assert(forall|i: int| 0 <= i < dl.len() ==> dl[i] == s[i]);
        assert(!chunks_view(dl).contains_key(s.last().position@));
    }
}

/// The chunk coordinate visited by the `m`-th step of the generation
/// sweep: x outermost, then y starting at `lo`, then z.
pub open spec fn gen_coord(
    center: (int, int, int),
    rd: int,
    lo: int,
    ny: int,
    nz: int,
    m: int,
) -> (int, int, int) {
    let bxz = ny * nz;
    (center.0 + m / bxz - rd, center.1 + lo + (m % bxz) / nz, center.2 + (m % bxz) % nz - rd)
}

/// Dividing a value below `n * b` by `b` lands below `n`.
proof fn lemma_div_below(m: int, b: int, n: int)
    requires
        0 <= m,
        0 < b,
        m < n * b,
    ensures
        0 <= m / b < n,
{
    lemma_fundamental_div_mod(m, b);
    lemma_mod_division_less_than_divisor(m, b);
    lemma_fundamental_div_mod_converse(0, b, 0, 0);
    lemma_div_is_ordered(0, m, b);
    if m / b >= n {
        lemma_mul_inequality(n, m / b, b);
        lemma_mul_is_commutative(b, m / b);
    }
}

/// Every window coordinate is visited by some step of the generation
/// sweep.
#[verifier::rlimit(50)]
proof fn lemma_gen_coord_onto(
    center: (int, int, int),
    rd: int,
    lo: int,
    hi: int,
    ny: int,
    nz: int,
    cw: (int, int, int),
)
    requires
        0 <= rd,
        nz == 2 * rd + 1,
        lo <= hi,
        ny == hi - lo + 1,
        lo == MIN_Y - center.1 || lo == -rd,
        hi == MAX_Y - center.1 || hi == rd,
        in_window(cw, center, rd),
    ensures
        exists|m: int|
            0 <= m < nz * (ny * nz) && #[trigger] gen_coord(center, rd, lo, ny, nz, m) == cw,
{
    let bxz = ny * nz;
    let ix = cw.0 - center.0 + rd;
    let iy = cw.1 - center.1 - lo;
    let iz = cw.2 - center.2 + rd;
    let r = iy * nz + iz;
    let m = ix * bxz + r;
    assert(0 <= ix < nz);
    assert(0 <= iy < ny);
    assert(0 <= iz < nz);
    lemma_mul_inequality(0, iy, nz);
    lemma_mul_inequality(iy, ny - 1, nz);
    lemma_mul_is_distributive_add_other_way(nz, ny - 1, 1);
    assert(0 <= r < bxz);
    lemma_mul_inequality(0, ix, bxz);
    lemma_mul_inequality(ix, nz - 1, bxz);
    lemma_mul_is_distributive_add_other_way(bxz, nz - 1, 1);
    lemma_fundamental_div_mod_converse(m, bxz, ix, r);
    lemma_fundamental_div_mod_converse(r, nz, iy, iz);
    assert(gen_coord(center, rd, lo, ny, nz, m) == cw);
    assert(0 <= m < nz * (ny * nz));
}


/// Appending one freshly generated in-window chunk to the resident list
/// preserves every invariant of the generation sweep. Each fresh chunk's
/// mesh was built against the chunks resident just before it, i.e. the
/// prefix of the list in front of it.
#[verifier::rlimit(100)]
proof fn lemma_generation_step(
    s_old: Seq<Chunk>,
    chunk: Chunk,
    kept0: Seq<Chunk>,
    kcount: int,
    pre: Map<(int, int, int), ChunkView>,
    base: Map<(int, int, int), ChunkView>,
    seed: u32,
    h: Map<(int, int), int>,
    c: (int, int, int),
    rd: int,
)
    requires
        coords_unique(s_old),
        chunks_wf(s_old),
        0 <= kcount <= s_old.len(),
        s_old.take(kcount) == kept0,
        base == chunks_view(kept0),
        base == pre.restrict(window_set(c, rd)),
        !chunks_view(s_old).contains_key(chunk.position@),
        chunk.wf(),
        in_window(chunk.position@, c, rd),
        chunk@.voxels == generate_spec(seed, h, chunk.position@),
        chunk@.mesh == Some(
            mesh_spec(
                generate_spec(seed, h, chunk.position@),
                chunk.position@,
                voxels_view_of(chunks_view(s_old)),
            ),
        ),
        forall|j: int|
            kcount <= j < s_old.len() ==> {
                &&& in_window((#[trigger] s_old[j]).position@, c, rd)
                &&& !pre.contains_key(s_old[j].position@)
                &&& s_old[j]@.voxels == generate_spec(seed, h, s_old[j].position@)
                &&& s_old[j]@.mesh == Some(
                    mesh_spec(
                        generate_spec(seed, h, s_old[j].position@),
                        s_old[j].position@,
                        voxels_view_of(chunks_view(s_old.take(j))),
                    ),
                )
            },
        forall|cc: (int, int, int)| #[trigger]
            base.dom().contains(cc) ==> chunks_view(s_old).contains_key(cc) && chunks_view(
                s_old,
            )[cc] == base[cc],
        forall|cc: (int, int, int)| #[trigger]
            chunks_view(s_old).contains_key(cc) ==> in_window(cc, c, rd),
    ensures
        coords_unique(s_old.push(chunk)),
        chunks_wf(s_old.push(chunk)),
        s_old.push(chunk).take(kcount) == kept0,
        chunks_view(s_old.push(chunk)).contains_key(chunk.position@),
        forall|j: int|
            kcount <= j < s_old.push(chunk).len() ==> {
                &&& in_window((#[trigger] s_old.push(chunk)[j]).position@, c, rd)
                &&& !pre.contains_key(s_old.push(chunk)[j].position@)
                &&& s_old.push(chunk)[j]@.voxels == generate_spec(
                    seed,
                    h,
                    s_old.push(chunk)[j].position@,
                )
                &&& s_old.push(chunk)[j]@.mesh == Some(
                    mesh_spec(
                        generate_spec(seed, h, s_old.push(chunk)[j].position@),
                        s_old.push(chunk)[j].position@,
                        voxels_view_of(chunks_view(s_old.push(chunk).take(j))),
                    ),
                )
            },
        forall|cc: (int, int, int)| #[trigger]
            base.dom().contains(cc) ==> chunks_view(s_old.push(chunk)).contains_key(cc)
                && chunks_view(s_old.push(chunk))[cc] == base[cc],
        forall|cc: (int, int, int)| #[trigger]
            chunks_view(s_old.push(chunk)).contains_key(cc) ==> in_window(cc, c, rd),
        forall|cc: (int, int, int)| #[trigger]
            chunks_view(s_old).contains_key(cc) ==> chunks_view(s_old.push(chunk)).contains_key(
                cc,
            ),
{
    let pos = chunk.position@;
    let s_new = s_old.push(chunk);
    let vw_old = chunks_view(s_old);
    lemma_chunks_view_push(s_old, chunk);
    let vw_new = chunks_view(s_new);
    lemma_chunks_view_contains(s_old, pos);
    assert(forall|j: int| 0 <= j < s_old.len() ==> s_new[j] == s_old[j]);
    assert(coords_unique(s_new)) by {
        assert(forall|i: int| 0 <= i < s_old.len() ==> s_old[i].position@ != pos);
    }
    assert(chunks_wf(s_new));
    assert(s_new.take(kcount) =~= kept0);
    assert(!base.contains_key(pos)) by {
        if base.contains_key(pos) {
            assert(chunks_view(s_old).contains_key(pos));
        }
    }
    assert(!pre.contains_key(pos)) by {
        if pre.contains_key(pos) {
            assert(window_set(c, rd).contains(pos));
            assert(base.contains_key(pos));
        }
    }
    assert forall|j: int| kcount <= j < s_new.len() implies {
        &&& in_window((#[trigger] s_new[j]).position@, c, rd)
        &&& !pre.contains_key(s_new[j].position@)
        &&& s_new[j]@.voxels == generate_spec(seed, h, s_new[j].position@)
        &&& s_new[j]@.mesh == Some(
            mesh_spec(
                generate_spec(seed, h, s_new[j].position@),
                s_new[j].position@,
                voxels_view_of(chunks_view(s_new.take(j))),
            ),
        )
    } by {
        if j < s_old.len() {
            assert(s_new[j] == s_old[j]);
            assert(s_new.take(j) =~= s_old.take(j));
        } else {
            assert(s_new[j] == chunk);
            assert(s_new.take(j) =~= s_old);
        }
    }
    assert forall|cc: (int, int, int)| #[trigger] base.dom().contains(cc) implies
        vw_new.contains_key(cc) && vw_new[cc] == base[cc] by {
        assert(cc != pos);
    }
}


/// Keeping a popped in-window chunk preserves the eviction sweep's
/// invariants, with the processed range grown by one.
#[verifier::rlimit(100)]
proof fn lemma_evict_keep(
    orig: Seq<Chunk>,
    kept_old: Seq<Chunk>,
    klen: int,
    center: (int, int, int),
    rd: int,
)
    requires
        coords_unique(orig),
        chunks_wf(orig),
        1 <= klen <= orig.len(),
        in_window(orig[klen - 1].position@, center, rd),
        coords_unique(kept_old),
        chunks_wf(kept_old),
        forall|j: int|
            0 <= j < kept_old.len() ==> in_window(
                (#[trigger] kept_old[j]).position@,
                center,
                rd,
            ) && exists|i: int| klen <= i < orig.len() && kept_old[j] == orig[i],
        forall|i: int|
            klen <= i < orig.len() && in_window((#[trigger] orig[i]).position@, center, rd)
                ==> exists|j: int| 0 <= j < kept_old.len() && kept_old[j] == orig[i],
    ensures
        coords_unique(kept_old.push(orig[klen - 1])),
        chunks_wf(kept_old.push(orig[klen - 1])),
        forall|j: int|
            0 <= j < kept_old.push(orig[klen - 1]).len() ==> in_window(
                (#[trigger] kept_old.push(orig[klen - 1])[j]).position@,
                center,
                rd,
            ) && exists|i: int|
                klen - 1 <= i < orig.len() && kept_old.push(orig[klen - 1])[j] == #[trigger] orig[i],
        forall|i: int|
            klen - 1 <= i < orig.len() && in_window((#[trigger] orig[i]).position@, center, rd)
                ==> exists|j: int|
                0 <= j < kept_old.push(orig[klen - 1]).len() && #[trigger] kept_old.push(
                    orig[klen - 1],
                )[j] == orig[i],
{
    let ch = orig[klen - 1];
    let kept_new = kept_old.push(ch);
    assert(forall|j: int| 0 <= j < kept_old.len() ==> kept_new[j] == kept_old[j]);
    assert forall|j: int| 0 <= j < kept_old.len() implies kept_old[j].position@
        != ch.position@ by {
        let i = choose|i: int| klen <= i < orig.len() && kept_old[j] == orig[i];
        assert(orig[i].position@ != orig[klen - 1].position@);
    }
    assert(coords_unique(kept_new));
    assert(chunks_wf(kept_new));
    assert forall|j: int| 0 <= j < kept_new.len() implies in_window(
        (kept_new[j]).position@,
        center,
        rd,
    ) && exists|i: int| klen - 1 <= i < orig.len() && kept_new[j] == orig[i] by {
        if j < kept_old.len() {
            let i = choose|i: int| klen <= i < orig.len() && kept_old[j] == orig[i];
            assert(klen - 1 <= i < orig.len() && kept_new[j] == orig[i]);
        } else {
            assert(kept_new[j] == ch);
            assert(klen - 1 <= klen - 1 < orig.len() && kept_new[j] == orig[klen - 1]);
        }
    }
    assert forall|i: int|
        klen - 1 <= i < orig.len() && in_window((orig[i]).position@, center, rd) implies exists|
        j: int,
    | 0 <= j < kept_new.len() && kept_new[j] == orig[i] by {
        if i == klen - 1 {
            assert(kept_new[kept_new.len() - 1] == orig[i]);
        } else {
            let j = choose|j: int| 0 <= j < kept_old.len() && kept_old[j] == orig[i];
            assert(kept_new[j] == orig[i]);
        }
    }
}

/// Dropping a popped out-of-window chunk preserves the eviction sweep's
/// invariants, with the processed range grown by one.
proof fn lemma_evict_skip(
    orig: Seq<Chunk>,
    kept: Seq<Chunk>,
    klen: int,
    center: (int, int, int),
    rd: int,
)
    requires
        1 <= klen <= orig.len(),
        !in_window(orig[klen - 1].position@, center, rd),
        forall|j: int|
            0 <= j < kept.len() ==> in_window((#[trigger] kept[j]).position@, center, rd)
                && exists|i: int| klen <= i < orig.len() && kept[j] == orig[i],
        forall|i: int|
            klen <= i < orig.len() && in_window((#[trigger] orig[i]).position@, center, rd)
                ==> exists|j: int| 0 <= j < kept.len() && kept[j] == orig[i],
    ensures
        forall|j: int|
            0 <= j < kept.len() ==> in_window((#[trigger] kept[j]).position@, center, rd)
                && exists|i: int| klen - 1 <= i < orig.len() && kept[j] == orig[i],
        forall|i: int|
            klen - 1 <= i < orig.len() && in_window((#[trigger] orig[i]).position@, center, rd)
                ==> exists|j: int| 0 <= j < kept.len() && kept[j] == orig[i],
{
    assert forall|j: int| 0 <= j < kept.len() implies in_window(
        (kept[j]).position@,
        center,
        rd,
    ) && exists|i: int| klen - 1 <= i < orig.len() && kept[j] == orig[i] by {
        let i = choose|i: int| klen <= i < orig.len() && kept[j] == orig[i];
        assert(klen - 1 <= i < orig.len() && kept[j] == orig[i]);
    }
    assert forall|i: int|
        klen - 1 <= i < orig.len() && in_window((orig[i]).position@, center, rd) implies exists|
        j: int,
    | 0 <= j < kept.len() && kept[j] == orig[i] by {
        assert(i != klen - 1);
    }
}

/// After eviction kept the windowed part of the old mapping and generation
/// appended fresh in-window chunks covering the rest of the window, the
/// resident mapping satisfies the streaming contract.
#[verifier::rlimit(100)]
proof fn lemma_streaming_assemble(
    pre: Map<(int, int, int), ChunkView>,
    s: Seq<Chunk>,
    kept0: Seq<Chunk>,
    kcount: int,
    seed: u32,
    h: Map<(int, int), int>,
    center: (int, int, int),
    rd: int,
)
    requires
        coords_unique(s),
        0 <= kcount <= s.len(),
        s.take(kcount) == kept0,
        chunks_view(kept0) == pre.restrict(window_set(center, rd)),
        coords_unique(kept0),
        forall|j: int|
            kcount <= j < s.len() ==> {
                &&& in_window((#[trigger] s[j]).position@, center, rd)
                &&& !pre.contains_key(s[j].position@)
                &&& s[j]@.voxels == generate_spec(seed, h, s[j].position@)
                &&& s[j]@.mesh == Some(
                    mesh_spec(
                        generate_spec(seed, h, s[j].position@),
                        s[j].position@,
                        voxels_view_of(chunks_view(s.take(j))),
                    ),
                )
            },
        forall|c: (int, int, int)| #[trigger]
            chunks_view(kept0).dom().contains(c) ==> chunks_view(s).contains_key(c)
                && chunks_view(s)[c] == chunks_view(kept0)[c],
        forall|c: (int, int, int)|
            #[trigger] chunks_view(s).contains_key(c) ==> in_window(c, center, rd),
        forall|c: (int, int, int)|
            in_window(c, center, rd) ==> #[trigger] chunks_view(s).contains_key(c),
    ensures
        streaming_post(pre, chunks_view(s), seed, h, center, rd),
{
    let base = chunks_view(kept0);
    let post = chunks_view(s);
    assert forall|c: (int, int, int)| #[trigger] post.dom().contains(c) implies window_set(
        center,
        rd,
    ).contains(c) by {}
    assert forall|c: (int, int, int)| #[trigger] window_set(center, rd).contains(c) implies
        post.dom().contains(c) by {
        assert(in_window(c, center, rd));
    }
    assert(post.dom() =~= window_set(center, rd));
    assert forall|c: (int, int, int)|
        pre.contains_key(c) && in_window(c, center, rd) implies #[trigger] post[c] == pre[c] by {
        assert(window_set(center, rd).contains(c));
        assert(base.contains_key(c));
        assert(base[c] == pre[c]);
    }
    assert forall|c: (int, int, int)|
        in_window(c, center, rd) && !pre.contains_key(c) implies fresh_chunk_ok(
        #[trigger] post[c],
        c,
        seed,
        h,
        voxels_view_of(pre.restrict(window_set(center, rd))),
        voxels_view_of(post),
    ) by {
        assert(post.contains_key(c));
        lemma_chunks_view_contains(s, c);
        let j = choose|j: int| 0 <= j < s.len() && s[j].position@ == c;
        lemma_chunks_view_at(s, j);
        if j < kcount {
            assert(kept0[j] == s[j]);
            lemma_chunks_view_at(kept0, j);
            assert(base.contains_key(c));
            assert(pre.contains_key(c));
        }
        assert(kcount <= j);
        assert(post[c] == s[j]@);
        lemma_prefix_view_within(s, j);
        lemma_voxels_view_within(chunks_view(s.take(j)), post);
        let nb = voxels_view_of(chunks_view(s.take(j)));
        assert(coords_unique(s.take(j))) by {
            assert(forall|a: int, b: int|
                0 <= a < b < j ==> s.take(j)[a] == s[a] && s.take(j)[b] == s[b]);
        }
        assert(s.take(j).take(kcount) =~= kept0);
        lemma_prefix_view_within(s.take(j), kcount);
        lemma_voxels_view_within(chunks_view(kept0), chunks_view(s.take(j)));
        assert(map_within(voxels_view_of(chunks_view(kept0)), nb));
        assert(map_within(nb, voxels_view_of(post)) && map_within(
            voxels_view_of(pre.restrict(window_set(center, rd))),
            nb,
        ) && post[c].mesh == Some(mesh_spec(generate_spec(seed, h, c), c, nb)));
    }
}

/// The voxel world: the resident chunks, keyed by their grid positions,
/// together with the streaming parameters fixed at construction.
pub struct World {
    chunks: Vec<Chunk>,
    pub render_distance: i32,
    world_seed: u32,
}

impl View for World {
    type V = Map<(int, int, int), ChunkView>;

    /// The world as a mapping from chunk-grid position to chunk content.
    closed spec fn view(&self) -> Map<(int, int, int), ChunkView> {
        chunks_view(self.chunks@)
    }
}

impl World {
    /// Every resident position is held by exactly one well-formed chunk,
    /// and the render distance is in its accepted range.
    pub closed spec fn wf(&self) -> bool {
        &&& coords_unique(self.chunks@)
        &&& chunks_wf(self.chunks@)
        &&& 0 <= self.render_distance <= MAX_RENDER_DISTANCE
    }

    /// The generation seed fixed at construction.
    pub closed spec fn spec_seed(&self) -> u32 {
        self.world_seed
    }

    /// The box radius of the streaming window, fixed at construction.
    pub closed spec fn spec_render_distance(&self) -> i32 {
        self.render_distance
    }

    /// How many chunks are resident.
    pub fn chunk_count(&self) -> (n: usize)
        requires
            self.wf(),
        ensures
            n == self@.dom().len(),
    {
        proof {
            lemma_chunks_view_dom_len(self.chunks@);
        }
        self.chunks.len()
    }

    /// Borrow the `i`-th resident chunk (in storage order); its content is
    /// the mapping's entry for its position.
    pub fn chunk_at(&self, i: usize) -> (c: &Chunk)
        requires
            self.wf(),
            i < self@.dom().len(),
        ensures
            c.wf(),
            self@.contains_key(c.position@),
            c@ == self@[c.position@],
    {
        proof {
            lemma_chunks_view_dom_len(self.chunks@);
            lemma_chunks_view_at(self.chunks@, i as int);
        }
        &self.chunks[i]
    }

    /// The chunk-grid cell holding a world voxel position, by floor
    /// division on each axis (exact for negative positions too).
    pub fn world_to_chunk_pos(vx: i32, vy: i32, vz: i32) -> (c: ChunkCoord)
        ensures
            c@ == center_of(vx as int, vy as int, vz as int),
            -0x400_0000 <= c@.0 <= 0x400_0000,
            -0x400_0000 <= c@.1 <= 0x400_0000,
            -0x400_0000 <= c@.2 <= 0x400_0000,
    {
        proof {
            lemma_div_is_ordered(i32::MIN as int, vx as int, 32);
            lemma_div_is_ordered(vx as int, i32::MAX as int, 32);
            lemma_div_is_ordered(i32::MIN as int, vy as int, 32);
            lemma_div_is_ordered(vy as int, i32::MAX as int, 32);
            lemma_div_is_ordered(i32::MIN as int, vz as int, 32);
            lemma_div_is_ordered(vz as int, i32::MAX as int, 32);
        }
        ChunkCoord::new(
            chunk_axis(vx as i64) as i32,
            chunk_axis(vy as i64) as i32,
            chunk_axis(vz as i64) as i32,
        )
    }

    /// Create a world and stream in the chunks around the origin, like a
    /// first update from there. The height grid must cover the columns of
    /// that initial window.
    pub fn new(world_seed: u32, render_distance: i32, terrain: &HeightGrid) -> (w: World)
        requires
            0 <= render_distance <= MAX_RENDER_DISTANCE,
            terrain.wf(),
            grid_covers_window(*terrain, (0, 0, 0), render_distance as int),
        ensures
            w.wf(),
            w.spec_render_distance() == render_distance,
            w.spec_seed() == world_seed,
            streaming_post(
                Map::empty(),
                w@,
                world_seed,
                terrain@,
                (0, 0, 0),
                render_distance as int,
            ),
    {
        let mut world = World { chunks: Vec::new(), render_distance, world_seed };
        proof {
            assert(world@ =~= Map::<(int, int, int), ChunkView>::empty());
        }
        world.build_chunks(ChunkCoord::new(0, 0, 0), terrain);
        world
    }

    /// One frame's streaming step: compute the chunk holding the viewpoint
    /// voxel `(vx, vy, vz)` by floor division, evict every chunk outside
    /// the window around it, and generate, mesh and insert every window
    /// coordinate not yet resident. A second call with the same viewpoint
    /// and heights changes nothing.
    pub fn update(&mut self, vx: i32, vy: i32, vz: i32, terrain: &HeightGrid)
        requires
            old(self).wf(),
            terrain.wf(),
            grid_covers_window(
                *terrain,
                center_of(vx as int, vy as int, vz as int),
                old(self).spec_render_distance() as int,
            ),
        ensures
            final(self).wf(),
            final(self).spec_render_distance() == old(self).spec_render_distance(),
            final(self).spec_seed() == old(self).spec_seed(),
            streaming_post(
                old(self)@,
                final(self)@,
                old(self).spec_seed(),
                terrain@,
                center_of(vx as int, vy as int, vz as int),
                old(self).spec_render_distance() as int,
            ),
    {
        let center = Self::world_to_chunk_pos(vx, vy, vz);
        self.build_chunks(center, terrain);
    }

    /// One streaming pass around `center_pos`: evict every resident chunk
    /// that fails the window test, then generate, mesh and insert a chunk
    /// for every window coordinate not yet resident. Eviction runs first
    /// so evicted chunks are released before new ones are built.
    #[verifier::rlimit(100)]
    fn build_chunks(&mut self, center_pos: ChunkCoord, terrain: &HeightGrid)
        requires
            old(self).wf(),
            terrain.wf(),
            grid_covers_window(*terrain, center_pos@, old(self).render_distance as int),
            -0x400_0000 <= center_pos@.0 <= 0x400_0000,
            -0x400_0000 <= center_pos@.1 <= 0x400_0000,
            -0x400_0000 <= center_pos@.2 <= 0x400_0000,
        ensures
            final(self).wf(),
            final(self).spec_render_distance() == old(self).spec_render_distance(),
            final(self).spec_seed() == old(self).spec_seed(),
            streaming_post(
                old(self)@,
                final(self)@,
                old(self).spec_seed(),
                terrain@,
                center_pos@,
                old(self).spec_render_distance() as int,
            ),
    {
        let ghost c = center_pos@;
        let ghost pre = chunks_view(old(self).chunks@);
        let ghost orig = old(self).chunks@;
        let ghost h = terrain@;
        let ghost seedg = old(self).world_seed;
        let rd = self.render_distance;
        let ghost rdg = rd as int;

        // Eviction: drain the resident list, keeping what passes the
        // window test.
        let mut kept: Vec<Chunk> = Vec::new();
        while self.chunks.len() > 0
            invariant
                self.render_distance == rd,
                self.world_seed == seedg,
                orig == old(self).chunks@,
                coords_unique(orig),
                chunks_wf(orig),
                c == center_pos@,
                rdg == rd as int,
                self.chunks@ == orig.take(self.chunks@.len() as int),
                self.chunks@.len() <= orig.len(),
                coords_unique(kept@),
                chunks_wf(kept@),
                forall|j: int|
                    0 <= j < kept@.len() ==> in_window(
                        (#[trigger] kept@[j]).position@,
                        c,
                        rdg,
                    ) && exists|i: int|
                        self.chunks@.len() <= i < orig.len() && kept@[j] == orig[i],
                forall|i: int|
                    self.chunks@.len() <= i < orig.len() && in_window(
                        (#[trigger] orig[i]).position@,
                        c,
                        rdg,
                    ) ==> exists|j: int| 0 <= j < kept@.len() && kept@[j] == orig[i],
            decreases self.chunks@.len(),
        {
            let ghost klen = self.chunks@.len() as int;
            let ch = self.chunks.pop().unwrap();
            proof {
                assert(self.chunks@ =~= orig.take(klen - 1));
                assert(orig.take(klen)[klen - 1] == orig[klen - 1]);
                assert(ch == orig[klen - 1]);
                assert(ch.wf());
            }
            if in_window_exec(ch.position, center_pos, rd) {
                let ghost kept_old = kept@;
                kept.push(ch);
                proof {
                    assert(kept@ == kept_old.push(orig[klen - 1]));
                    lemma_evict_keep(orig, kept_old, klen, c, rdg);
                }
            } else {
                proof {
                    lemma_evict_skip(orig, kept@, klen, c, rdg);
                }
            }
        }
        proof {
            assert(self.chunks@ =~= Seq::<Chunk>::empty());
        }
        self.chunks = kept;
        proof {
            lemma_view_restrict(orig, self.chunks@, c, rdg);
        }
        let ghost kept0 = self.chunks@;
        let ghost kcount = self.chunks@.len() as int;
        let ghost base = chunks_view(kept0);

        // Generation: sweep the window box intersected with the vertical
        // band, inserting a freshly generated and meshed chunk wherever
        // none is resident.
        let mut lo: i64 = MIN_Y as i64 - center_pos.y as i64;
        if lo < -(rd as i64) {
            lo = -(rd as i64);
        }
        let mut hi: i64 = MAX_Y as i64 - center_pos.y as i64;
        if hi > rd as i64 {
            hi = rd as i64;
        }
        if lo <= hi {
            let nx: u64 = 2 * (rd as u64) + 1;
            let ny: u64 = (hi - lo + 1) as u64;
            proof {
                lemma_mul_upper_bound(ny as int, 5, nx as int, 0x4000_0001);
                lemma_mul_inequality(1, ny as int, nx as int);
            }
            let bxz: u64 = ny * nx;
            proof {
                lemma_mul_upper_bound(nx as int, 0x4000_0001int, bxz as int, (5 * 0x4000_0001int));
            }
            let count: u64 = nx * bxz;
            let mut m: u64 = 0;
            while m < count
                invariant
                    self.render_distance == rd,
                    self.world_seed == seedg,
                    terrain.wf(),
                    grid_covers_window(*terrain, c, rdg),
                    h == terrain@,
                    c == center_pos@,
                    rdg == rd as int,
                    0 <= rd <= MAX_RENDER_DISTANCE,
                    -0x400_0000 <= c.0 <= 0x400_0000,
                    -0x400_0000 <= c.1 <= 0x400_0000,
                    -0x400_0000 <= c.2 <= 0x400_0000,
                    lo as int == MIN_Y - c.1 || lo as int == -rdg,
                    lo as int >= MIN_Y - c.1,
                    lo as int >= -rdg,
                    hi as int == MAX_Y - c.1 || hi as int == rdg,
                    hi as int <= MAX_Y - c.1,
                    hi as int <= rdg,
                    lo <= hi,
                    nx as int == 2 * rdg + 1,
                    ny as int == hi - lo + 1,
                    ny <= 5,
                    nx <= 0x4000_0001,
                    bxz as int == (ny as int) * (nx as int),
                    bxz >= 1,
                    count as int == (nx as int) * (bxz as int),
                    m <= count,
                    pre == chunks_view(old(self).chunks@),
                    base == chunks_view(kept0),
                    base == pre.restrict(window_set(c, rdg)),
                    coords_unique(kept0),
                    coords_unique(self.chunks@),
                    chunks_wf(self.chunks@),
                    self.chunks@.len() >= kcount,
                    kcount >= 0,
                    self.chunks@.take(kcount) == kept0,
                    forall|j: int|
                        kcount <= j < self.chunks@.len() ==> {
                            &&& in_window((#[trigger] self.chunks@[j]).position@, c, rdg)
                            &&& !pre.contains_key(self.chunks@[j].position@)
                            &&& self.chunks@[j]@.voxels == generate_spec(
                                seedg,
                                h,
                                self.chunks@[j].position@,
                            )
                            &&& self.chunks@[j]@.mesh == Some(
                                mesh_spec(
                                    generate_spec(seedg, h, self.chunks@[j].position@),
                                    self.chunks@[j].position@,
                                    voxels_view_of(chunks_view(self.chunks@.take(j))),
                                ),
                            )
                        },
                    forall|cc: (int, int, int)| #[trigger]
                        base.dom().contains(cc) ==> chunks_view(self.chunks@).contains_key(cc)
                            && chunks_view(self.chunks@)[cc] == base[cc],
                    forall|cc: (int, int, int)| #[trigger]
                        chunks_view(self.chunks@).contains_key(cc) ==> in_window(cc, c, rdg),
                    forall|mm: int|
                        0 <= mm < m ==> #[trigger] chunks_view(self.chunks@).contains_key(
                            gen_coord(c, rdg, lo as int, ny as int, nx as int, mm),
                        ),
                decreases count - m,
            {
                let ix = m / bxz;
                let rem = m % bxz;
                let iy = rem / nx;
                let iz = rem % nx;
                proof {
                    lemma_div_below(m as int, bxz as int, nx as int);
                    lemma_mod_division_less_than_divisor(m as int, bxz as int);
                    lemma_div_below(rem as int, nx as int, ny as int);
                    lemma_mod_division_less_than_divisor(rem as int, nx as int);
                }
                let px: i64 = center_pos.x as i64 + ix as i64 - rd as i64;
                let py: i64 = center_pos.y as i64 + lo + iy as i64;
                let pz: i64 = center_pos.z as i64 + iz as i64 - rd as i64;
                let pos = ChunkCoord::new(px as i32, py as i32, pz as i32);
                proof {
                    assert(pos@ == gen_coord(c, rdg, lo as int, ny as int, nx as int, m as int));
                    assert(in_window(pos@, c, rdg));
                }
                let ghost s_entry = self.chunks@;
                if !contains_chunk(&self.chunks, pos) {
                    proof {
                        assert(grid_covers_chunk(*terrain, pos@));
                    }
                    let chunk = Chunk::new(pos, self.world_seed, terrain, &self.chunks);
                    self.chunks.push(chunk);
                    proof {
                        assert(self.chunks@ == s_entry.push(chunk));
                        lemma_generation_step(
                            s_entry, chunk, kept0, kcount, pre, base, seedg, h, c, rdg,
                        );
                    }
                }
                proof {
                    assert forall|mm: int| 0 <= mm < m + 1 implies #[trigger] chunks_view(
                        self.chunks@,
                    ).contains_key(gen_coord(c, rdg, lo as int, ny as int, nx as int, mm)) by {
                        if mm < m {
                            assert(chunks_view(s_entry).contains_key(
                                gen_coord(c, rdg, lo as int, ny as int, nx as int, mm),
                            ));
                        } else {
                            assert(chunks_view(self.chunks@).contains_key(pos@));
                        }
                    }
                }
                m += 1;
            }
            proof {
                assert forall|cw: (int, int, int)| in_window(cw, c, rdg) implies #[trigger]
                    chunks_view(self.chunks@).contains_key(cw) by {
                    lemma_gen_coord_onto(c, rdg, lo as int, hi as int, ny as int, nx as int, cw);
                    let mm = choose|mm: int|
                        0 <= mm < (nx as int) * ((ny as int) * (nx as int)) && #[trigger]
                            gen_coord(c, rdg, lo as int, ny as int, nx as int, mm) == cw;
                    assert(0 <= mm < count);
                }
                lemma_streaming_assemble(pre, self.chunks@, kept0, kcount, seedg, h, c, rdg);
            }
        } else {
            proof {
                assert forall|cw: (int, int, int)| in_window(cw, c, rdg) implies #[trigger]
                    chunks_view(self.chunks@).contains_key(cw) by {
                    assert(MIN_Y - c.1 <= cw.1 - c.1 && -rdg <= cw.1 - c.1);
                    assert(cw.1 - c.1 <= MAX_Y - c.1 && cw.1 - c.1 <= rdg);
                    assert(false);
                }
                assert(self.chunks@.take(kcount) =~= kept0);
                assert forall|cc: (int, int, int)| #[trigger] base.dom().contains(cc) implies
                    chunks_view(self.chunks@).contains_key(cc) && chunks_view(self.chunks@)[cc]
                    == base[cc] by {}
                assert forall|cc: (int, int, int)| #[trigger] chunks_view(
                    self.chunks@,
                ).contains_key(cc) implies in_window(cc, c, rdg) by {
                    assert(base.contains_key(cc));
                    assert(window_set(c, rdg).contains(cc));
                }
                lemma_streaming_assemble(pre, self.chunks@, kept0, kcount, seedg, h, c, rdg);
            }
        }
    }
}

/// Streaming is idempotent: if one pass brought the resident mapping to
/// its contract around a center, a second pass around the same center
/// changes nothing — no chunk is evicted, regenerated or remeshed,
/// whatever heights the second pass was handed.
pub proof fn lemma_streaming_idempotent(
    v0: Map<(int, int, int), ChunkView>,
    v1: Map<(int, int, int), ChunkView>,
    v2: Map<(int, int, int), ChunkView>,
    seed: u32,
    h0: Map<(int, int), int>,
    h1: Map<(int, int), int>,
    center: (int, int, int),
    rd: int,
)
    requires
        streaming_post(v0, v1, seed, h0, center, rd),
        streaming_post(v1, v2, seed, h1, center, rd),
    ensures
        v2 == v1,
{
    assert forall|c: (int, int, int)| #[trigger] v2.dom().contains(c) implies v1.dom().contains(
        c,
    ) && v2[c] == v1[c] by {
        assert(window_set(center, rd).contains(c));
        assert(in_window(c, center, rd));
        assert(v1.dom().contains(c));
        assert(v1.contains_key(c));
    }
    assert forall|c: (int, int, int)| #[trigger] v1.dom().contains(c) implies v2.dom().contains(
        c,
    ) by {
        assert(window_set(center, rd).contains(c));
    }
    assert(v2.dom() =~= v1.dom());
    assert(v2 =~= v1);
}

} // verus!
