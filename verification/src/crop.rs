//! Background removal: flood-fill the background from the corners, then
//! crop to the opaque content.

use vstd::prelude::*;
use std::collections::VecDeque;
use crate::pixels::{
    Pixel, RgbaBuffer, crop_rect, crop_rgba, decode_rgba, decoded_rgba, encode_png, encoded_png,
    min_int, sub_image,
};

verus! {

/// Distance between two channel values.
pub open spec fn channel_distance(a: u8, b: u8) -> int {
    if a >= b { a - b } else { b - a }
}

/// Two colors are similar when each of red, green and blue differs by at
/// most `tolerance`; alpha is not compared.
pub open spec fn similar(a: Pixel, b: Pixel, tolerance: u8) -> bool {
    &&& channel_distance(a[0], b[0]) <= tolerance
    &&& channel_distance(a[1], b[1]) <= tolerance
    &&& channel_distance(a[2], b[2]) <= tolerance
}

/// Checks if two colors are similar within a given tolerance per channel.
pub fn colors_similar(a: Pixel, b: Pixel, tolerance: u8) -> (r: bool)
    ensures
        r == similar(a, b, tolerance),
{
    let tol = tolerance as i16;
    let d0 = a[0] as i16 - b[0] as i16;
    let d1 = a[1] as i16 - b[1] as i16;
    let d2 = a[2] as i16 - b[2] as i16;
    (if d0 < 0 { -d0 } else { d0 }) <= tol
        && (if d1 < 0 { -d1 } else { d1 }) <= tol
        && (if d2 < 0 { -d2 } else { d2 }) <= tol
}

/// The fully transparent black pixel that removed background becomes.
pub open spec fn transparent() -> Pixel {
    [0u8, 0u8, 0u8, 0u8]
}

/// `p` is a position (column, row) of a `width` by `height` grid.
pub open spec fn in_grid(width: int, height: int, p: (int, int)) -> bool {
    0 <= p.0 < width && 0 <= p.1 < height
}

/// Index of position `p` in a row-major buffer of rows `width` long.
pub open spec fn grid_index(width: int, p: (int, int)) -> int {
    p.1 * width + p.0
}

/// Position held at index `i` of a row-major buffer of rows `width` long.
pub open spec fn grid_pos(width: int, i: int) -> (int, int) {
    (i % width, i / width)
}

/// Two positions are 4-connected neighbours.
pub open spec fn adjacent(p: (int, int), q: (int, int)) -> bool {
    ||| p.0 == q.0 && (p.1 == q.1 + 1 || q.1 == p.1 + 1)
    ||| p.1 == q.1 && (p.0 == q.0 + 1 || q.0 == p.0 + 1)
}

/// Number of positions of a visited mask that are not yet visited.
pub open spec fn unvisited_count(s: Seq<bool>) -> nat
    decreases s.len(),
{
    if s.len() == 0 {
        0
    } else {
        unvisited_count(s.drop_last()) + if s.last() { 0nat } else { 1nat }
    }
}

/// What one flood fill starts from: the image, the mask of positions
/// already visited, the background color and the tolerance.
pub struct FillInput {
    pub width: int,
    pub height: int,
    pub pixels: Seq<Pixel>,
    pub visited: Seq<bool>,
    pub background: Pixel,
    pub tolerance: u8,
}

impl FillInput {
    /// A position the fill may turn transparent: on the grid, not yet
    /// visited, and similar to the background.
    pub open spec fn fillable(self, p: (int, int)) -> bool {
        &&& in_grid(self.width, self.height, p)
        &&& !self.visited[grid_index(self.width, p)]
        &&& similar(self.pixels[grid_index(self.width, p)], self.background, self.tolerance)
    }

    /// A non-empty 4-connected path of fillable positions.
    pub open spec fn is_fill_path(self, path: Seq<(int, int)>) -> bool {
        &&& path.len() > 0
        &&& forall|i: int| 0 <= i < path.len() ==> self.fillable(#[trigger] path[i])
        &&& forall|i: int, j: int|
            #![trigger path[i], path[j]]
            0 <= i && j == i + 1 && j < path.len() ==> adjacent(path[i], path[j])
    }

    /// `p` is reached from `start` through fillable positions only.
    pub open spec fn reaches(self, start: (int, int), p: (int, int)) -> bool {
        exists|path: Seq<(int, int)>|
            #[trigger] self.is_fill_path(path) && path[0] == start && path.last() == p
    }

    /// The pixels after a fill from `start`: every position reached turns
    /// transparent, the others keep their color.
    pub open spec fn filled_pixels(self, start: (int, int)) -> Seq<Pixel> {
        Seq::new(
            self.pixels.len(),
            |i: int|
                if self.reaches(start, grid_pos(self.width, i)) {
                    transparent()
                } else {
                    self.pixels[i]
                },
        )
    }

    /// The visited mask after a fill from `start`: exactly the positions
    /// the fill turned transparent are marked too; entries past the grid
    /// keep their value.
    pub open spec fn filled_visited(self, start: (int, int)) -> Seq<bool> {
        Seq::new(
            self.visited.len(),
            |i: int| self.visited[i] || (i < self.pixels.len() && self.reaches(start, grid_pos(self.width, i))),
        )
    }
}

/// The input of a fill on `img` with the visited mask `visited`.
pub open spec fn fill_input(img: RgbaBuffer, visited: Seq<bool>, background: Pixel, tolerance: u8) -> FillInput {
    FillInput {
        width: img.width as int,
        height: img.height as int,
        pixels: img.pixels@,
        visited,
        background,
        tolerance,
    }
}

/// Position of a queue entry.
pub open spec fn entry_pos(e: (u32, u32)) -> (int, int) {
    (e.0 as int, e.1 as int)
}

/// Some entry of `queue` holds position `p`.
pub open spec fn queued(queue: Seq<(u32, u32)>, p: (int, int)) -> bool {
    exists|i: int| 0 <= i < queue.len() && #[trigger] entry_pos(queue[i]) == p
}

proof fn lemma_unvisited_count_mark(s: Seq<bool>, i: int)
    requires
        0 <= i < s.len(),
        !s[i],
    ensures
        unvisited_count(s.update(i, true)) + 1 == unvisited_count(s),
    decreases s.len(),
{
    if i == s.len() - 1 {
        assert(s.update(i, true).drop_last() =~= s.drop_last());
    } else {
        lemma_unvisited_count_mark(s.drop_last(), i);
        assert(s.update(i, true).drop_last() =~= s.drop_last().update(i, true));
    }
}

proof fn lemma_grid_index_bounds(width: int, height: int, p: (int, int))
    requires
        in_grid(width, height, p),
    ensures
        0 <= grid_index(width, p) < width * height,
        grid_pos(width, grid_index(width, p)) == p,
{
    assert(0 <= p.1 * width + p.0 < width * height) by (nonlinear_arith)
        requires
            0 <= p.0 < width,
            0 <= p.1 < height,
    ;
    vstd::arithmetic::div_mod::lemma_fundamental_div_mod_converse(
        grid_index(width, p),
        width,
        p.1,
        p.0,
    );
}

proof fn lemma_grid_pos_bounds(width: int, height: int, i: int)
    requires
        0 <= i < width * height,
        width > 0,
    ensures
        in_grid(width, height, grid_pos(width, i)),
        grid_index(width, grid_pos(width, i)) == i,
{
    vstd::arithmetic::div_mod::lemma_fundamental_div_mod(i, width);
    let q = i / width;
    let r = i % width;
    assert(0 <= r < width);
    assert(i == width * q + r);
    assert(0 <= q < height) by (nonlinear_arith)
        requires
            i == width * q + r,
            0 <= r < width,
            0 <= i < width * height,
    ;
    assert(q * width == width * q) by (nonlinear_arith);
}

/// Extending a fill path by a fillable neighbour of its end.
proof fn lemma_reaches_step(inp: FillInput, start: (int, int), q: (int, int), p: (int, int))
    requires
        inp.reaches(start, q),
        adjacent(q, p),
        inp.fillable(p),
    ensures
        inp.reaches(start, p),
{
    let path = choose|path: Seq<(int, int)>|
        #[trigger] inp.is_fill_path(path) && path[0] == start && path.last() == q;
    let path2 = path.push(p);
    assert forall|i: int| 0 <= i < path2.len() implies inp.fillable(#[trigger] path2[i]) by {
        if i < path.len() {
            assert(path2[i] == path[i]);
        }
    }
    assert forall|i: int, j: int|
        #![trigger path2[i], path2[j]]
        0 <= i && j == i + 1 && j < path2.len() implies adjacent(path2[i], path2[j]) by {
        if j < path.len() {
            assert(path2[i] == path[i] && path2[j] == path[j]);
        } else {
            assert(path2[i] == q);
        }
    }
    assert(inp.is_fill_path(path2));
}

/// A set of positions that holds the start when it is fillable and every
/// fillable neighbour of its members holds all the fill reaches.
proof fn lemma_closed_set_holds_region(
    inp: FillInput,
    start: (int, int),
    t: Set<(int, int)>,
    p: (int, int),
)
    requires
        inp.fillable(start) ==> t.contains(start),
        forall|a: (int, int), b: (int, int)|
            #![trigger t.contains(a), inp.fillable(b)]
            t.contains(a) && adjacent(a, b) && inp.fillable(b) ==> t.contains(b),
        inp.reaches(start, p),
    ensures
        t.contains(p),
{
    let path = choose|path: Seq<(int, int)>|
        #[trigger] inp.is_fill_path(path) && path[0] == start && path.last() == p;
    lemma_closed_set_holds_path(inp, start, t, path, path.len() - 1);
}

proof fn lemma_closed_set_holds_path(
    inp: FillInput,
    start: (int, int),
    t: Set<(int, int)>,
    path: Seq<(int, int)>,
    k: int,
)
    requires
        inp.fillable(start) ==> t.contains(start),
        forall|a: (int, int), b: (int, int)|
            #![trigger t.contains(a), inp.fillable(b)]
            t.contains(a) && adjacent(a, b) && inp.fillable(b) ==> t.contains(b),
        inp.is_fill_path(path),
        path[0] == start,
        0 <= k < path.len(),
    ensures
        t.contains(path[k]),
    decreases k,
{
    assert(inp.fillable(path[k]));
    if k > 0 {
        lemma_closed_set_holds_path(inp, start, t, path, k - 1);
        assert(adjacent(path[k - 1], path[k]));
    }
}

/// The state of a fill in progress: pixels `px`, visited mask `vis`,
/// queue `queue`, and the set `t` of positions turned transparent so far.
pub open spec fn fill_inv(
    inp: FillInput,
    start: (int, int),
    px: Seq<Pixel>,
    vis: Seq<bool>,
    queue: Seq<(u32, u32)>,
    t: Set<(int, int)>,
) -> bool {
    let w = inp.width;
    let h = inp.height;
    &&& w > 0
    &&& inp.pixels.len() == w * h
    &&& inp.visited.len() >= w * h
    &&& px.len() == w * h
    &&& vis.len() == inp.visited.len()
    &&& in_grid(w, h, start)
    &&& forall|i: int| w * h <= i < vis.len() ==> #[trigger] vis[i] == inp.visited[i]
    &&& forall|p: (int, int)|
        in_grid(w, h, p) ==> #[trigger] px[grid_index(w, p)] == (if t.contains(p) {
            transparent()
        } else {
            inp.pixels[grid_index(w, p)]
        })
    &&& forall|p: (int, int)|
        in_grid(w, h, p) ==> #[trigger] vis[grid_index(w, p)] == (inp.visited[grid_index(w, p)] || t.contains(p))
    &&& forall|p: (int, int)| #[trigger] t.contains(p) ==> inp.reaches(start, p)
    &&& forall|i: int|
        0 <= i < queue.len() ==> in_grid(w, h, #[trigger] entry_pos(queue[i])) && (entry_pos(queue[i]) == start
            || exists|q: (int, int)| t.contains(q) && #[trigger] adjacent(q, entry_pos(queue[i])))
    &&& forall|p: (int, int), q: (int, int)|
        #![trigger t.contains(p), adjacent(p, q)]
        t.contains(p) && adjacent(p, q) && inp.fillable(q) ==> t.contains(q) || queued(queue, q)
    &&& inp.fillable(start) ==> t.contains(start) || queued(queue, start)
}

proof fn lemma_pop_keeps_queued(old_queue: Seq<(u32, u32)>, queue: Seq<(u32, u32)>)
    requires
        old_queue.len() > 0,
        queue == old_queue.subrange(1, old_queue.len() as int),
    ensures
        forall|r: (int, int)| queued(old_queue, r) && r != entry_pos(old_queue[0]) ==> queued(queue, r),
{
    assert forall|r: (int, int)| queued(old_queue, r) && r != entry_pos(old_queue[0]) implies queued(queue, r) by {
        let i = choose|i: int| 0 <= i < old_queue.len() && #[trigger] entry_pos(old_queue[i]) == r;
        assert(i != 0);
        assert(queue[i - 1] == old_queue[i]);
    }
}

/// Dropping the front entry keeps the fill state when that position is
/// already transparent or cannot be filled.
proof fn lemma_fill_inv_drop(
    inp: FillInput,
    start: (int, int),
    px: Seq<Pixel>,
    vis: Seq<bool>,
    old_queue: Seq<(u32, u32)>,
    queue: Seq<(u32, u32)>,
    t: Set<(int, int)>,
)
    requires
        fill_inv(inp, start, px, vis, old_queue, t),
        old_queue.len() > 0,
        queue == old_queue.subrange(1, old_queue.len() as int),
        t.contains(entry_pos(old_queue[0])) || !inp.fillable(entry_pos(old_queue[0])),
    ensures
        fill_inv(inp, start, px, vis, queue, t),
{
    lemma_pop_keeps_queued(old_queue, queue);
    assert forall|i: int| 0 <= i < queue.len() implies in_grid(inp.width, inp.height, #[trigger] entry_pos(queue[i])) && (
    entry_pos(queue[i]) == start || exists|q: (int, int)| t.contains(q) && #[trigger] adjacent(q, entry_pos(queue[i]))) by {
        assert(queue[i] == old_queue[i + 1]);
        assert(in_grid(inp.width, inp.height, entry_pos(old_queue[i + 1])));
    }
}

/// Clearing the front entry `p` (fillable, not yet transparent) and
/// queueing its neighbours keeps the fill state, with `p` added to `t`.
proof fn lemma_fill_inv_clear(
    inp: FillInput,
    start: (int, int),
    px: Seq<Pixel>,
    vis: Seq<bool>,
    old_queue: Seq<(u32, u32)>,
    t: Set<(int, int)>,
    q1: Seq<(u32, u32)>,
    q2: Seq<(u32, u32)>,
    q3: Seq<(u32, u32)>,
    q4: Seq<(u32, u32)>,
    x: u32,
    y: u32,
)
    requires
        fill_inv(inp, start, px, vis, old_queue, t),
        old_queue.len() > 0,
        entry_pos(old_queue[0]) == (x as int, y as int),
        inp.fillable((x as int, y as int)),
        !t.contains((x as int, y as int)),
        inp.width == inp.width as u32 as int,
        inp.height == inp.height as u32 as int,
        q1 == (if x > 0 {
            old_queue.subrange(1, old_queue.len() as int).push(((x - 1) as u32, y))
        } else {
            old_queue.subrange(1, old_queue.len() as int)
        }),
        q2 == (if x + 1 < inp.width { q1.push(((x + 1) as u32, y)) } else { q1 }),
        q3 == (if y > 0 { q2.push((x, (y - 1) as u32)) } else { q2 }),
        q4 == (if y + 1 < inp.height { q3.push((x, (y + 1) as u32)) } else { q3 }),
    ensures
        fill_inv(
            inp,
            start,
            px.update(grid_index(inp.width, (x as int, y as int)), transparent()),
            vis.update(grid_index(inp.width, (x as int, y as int)), true),
            q4,
            t.insert((x as int, y as int)),
        ),
{
    let w = inp.width;
    let h = inp.height;
    let p = (x as int, y as int);
    let q0 = old_queue.subrange(1, old_queue.len() as int);
    let t2 = t.insert(p);
    let px2 = px.update(grid_index(w, p), transparent());
    let vis2 = vis.update(grid_index(w, p), true);
    lemma_grid_index_bounds(w, h, p);
    lemma_pop_keeps_queued(old_queue, q0);
    if p != start {
        let q = choose|q: (int, int)| t.contains(q) && #[trigger] adjacent(q, p);
        lemma_reaches_step(inp, start, q, p);
    } else {
        lemma_reaches_self(inp, start);
    }
    assert forall|r: (int, int)| in_grid(w, h, r) implies #[trigger] px2[grid_index(w, r)] == (if t2.contains(r) {
        transparent()
    } else {
        inp.pixels[grid_index(w, r)]
    }) && vis2[grid_index(w, r)] == (inp.visited[grid_index(w, r)] || t2.contains(r)) by {
        lemma_grid_index_bounds(w, h, r);
        if r != p {
            lemma_grid_index_injective(w, h, r, p);
        }
    }
    assert forall|r: (int, int)| in_grid(w, h, r) implies #[trigger] vis2[grid_index(w, r)] == (
    inp.visited[grid_index(w, r)] || t2.contains(r)) by {
        lemma_grid_index_bounds(w, h, r);
        if r != p {
            lemma_grid_index_injective(w, h, r, p);
        }
    }
    assert forall|i: int| w * h <= i < vis2.len() implies #[trigger] vis2[i] == inp.visited[i] by {}
    lemma_queued_grows(q0, q1);
    lemma_queued_grows(q1, q2);
    lemma_queued_grows(q2, q3);
    lemma_queued_grows(q3, q4);
    lemma_queued_grows(q0, q4);
    if x > 0 {
        lemma_queued_last(q1);
        lemma_queued_grows(q1, q4);
    }
    if x + 1 < w {
        lemma_queued_last(q2);
        lemma_queued_grows(q2, q4);
    }
    if y > 0 {
        lemma_queued_last(q3);
        lemma_queued_grows(q3, q4);
    }
    if y + 1 < h {
        lemma_queued_last(q4);
    }
    assert forall|r: (int, int)| in_grid(w, h, r) && adjacent(p, r) implies queued(q4, r) by {
        if r == (p.0 - 1, p.1) {
            assert(entry_pos(q1.last()) == r);
        } else if r == (p.0 + 1, p.1) {
            assert(entry_pos(q2.last()) == r);
        } else if r == (p.0, p.1 - 1) {
            assert(entry_pos(q3.last()) == r);
        } else {
            assert(entry_pos(q4.last()) == r);
        }
    }
    assert forall|a: (int, int), b: (int, int)|
        #![trigger t2.contains(a), adjacent(a, b)]
        t2.contains(a) && adjacent(a, b) && inp.fillable(b) implies t2.contains(b) || queued(q4, b) by {
        if a != p {
            assert(t.contains(a) && adjacent(a, b));
        }
    }
    assert forall|i: int|
        0 <= i < q4.len() implies in_grid(w, h, #[trigger] entry_pos(q4[i])) && (entry_pos(q4[i]) == start
        || exists|q: (int, int)| t2.contains(q) && #[trigger] adjacent(q, entry_pos(q4[i]))) by {
        if i < q0.len() {
            lemma_prefix_kept(q0, q4, i);
            assert(q0[i] == old_queue[i + 1]);
            assert(in_grid(w, h, entry_pos(old_queue[i + 1])));
            if entry_pos(q4[i]) != start {
                let q = choose|q: (int, int)| t.contains(q) && #[trigger] adjacent(q, entry_pos(old_queue[i + 1]));
                assert(t2.contains(q));
            }
        } else {
            lemma_pushed_neighbour(q0, q1, q2, q3, q4, x, y, w as u32, h as u32, i);
            assert(t2.contains(p) && adjacent(p, entry_pos(q4[i])));
        }
    }
    assert(fill_inv(inp, start, px2, vis2, q4, t2));
}

/// With the queue empty, the transparent set is the whole region the fill
/// reaches, so pixels and mask are the fill's result.
proof fn lemma_fill_inv_done(
    inp: FillInput,
    start: (int, int),
    px: Seq<Pixel>,
    vis: Seq<bool>,
    queue: Seq<(u32, u32)>,
    t: Set<(int, int)>,
)
    requires
        fill_inv(inp, start, px, vis, queue, t),
        queue.len() == 0,
    ensures
        px == inp.filled_pixels(start),
        vis == inp.filled_visited(start),
{
    let w = inp.width;
    let h = inp.height;
    assert forall|a: (int, int), b: (int, int)|
        #![trigger t.contains(a), inp.fillable(b)]
        t.contains(a) && adjacent(a, b) && inp.fillable(b) implies t.contains(b) by {
        assert(t.contains(a) && adjacent(a, b));
        assert(!queued(queue, b));
    }
    assert(!queued(queue, start));
    assert forall|i: int| 0 <= i < w * h implies px[i] == inp.filled_pixels(start)[i] && vis[i]
        == inp.filled_visited(start)[i] by {
        lemma_grid_pos_bounds(w, h, i);
        let r = grid_pos(w, i);
        assert(px[grid_index(w, r)] == px[i]);
        assert(vis[grid_index(w, r)] == vis[i]);
        if inp.reaches(start, r) {
            lemma_closed_set_holds_region(inp, start, t, r);
        }
    }
    assert(px =~= inp.filled_pixels(start));
    assert forall|i: int| 0 <= i < vis.len() implies vis[i] == inp.filled_visited(start)[i] by {
        if i < w * h {
        } else {
            assert(vis[i] == inp.visited[i]);
        }
    }
    assert(vis =~= inp.filled_visited(start));
}

/// Flood-fills from (start_x, start_y), making all connected pixels
/// that are similar to `bg_color` transparent.
///
/// A position is marked visited when it turns transparent, so a pixel
/// that does not match this fill's color stays open to later fills with
/// the same mask; positions already visited are left alone. The mask may
/// be longer than the image; entries past it are kept.
pub fn flood_fill_transparent(
    img: &mut RgbaBuffer,
    visited: &mut Vec<bool>,
    start_x: u32,
    start_y: u32,
    bg_color: Pixel,
    tolerance: u8,
)
    requires
        old(img).wf(),
        old(visited)@.len() >= old(img).pixels@.len(),
        start_x < old(img).width,
        start_y < old(img).height,
    ensures
        final(img).width == old(img).width,
        final(img).height == old(img).height,
        final(img).pixels@ == fill_input(*old(img), old(visited)@, bg_color, tolerance).filled_pixels(
            (start_x as int, start_y as int),
        ),
        final(visited)@ == fill_input(*old(img), old(visited)@, bg_color, tolerance).filled_visited(
            (start_x as int, start_y as int),
        ),
{
    let width = img.width;
    let height = img.height;
    let ghost inp = fill_input(*img, visited@, bg_color, tolerance);
    let ghost start = (start_x as int, start_y as int);
    let ghost w = width as int;
    let ghost h = height as int;
    let mut queue: VecDeque<(u32, u32)> = VecDeque::new();
    queue.push_back((start_x, start_y));
    let ghost mut t: Set<(int, int)> = Set::empty();
    proof {
        assert(entry_pos(queue@[0]) == start);
        assert(queued(queue@, start));
        assert(fill_inv(inp, start, img.pixels@, visited@, queue@, t));
    }
    while queue.len() > 0
        invariant
            img.width == width,
            img.height == height,
            w == width as int,
            h == height as int,
            inp.width == w,
            inp.height == h,
            inp.background == bg_color,
            inp.tolerance == tolerance,
            fill_inv(inp, start, img.pixels@, visited@, queue@, t),
        decreases 5 * unvisited_count(visited@) + queue@.len(),
    {
        let ghost old_queue = queue@;
        let (x, y) = queue.pop_front().unwrap();
        let ghost p = (x as int, y as int);
        assert(entry_pos(old_queue[0]) == p);
        assert(in_grid(w, h, p));
        proof {
            lemma_grid_index_bounds(w, h, p);
        }
        let n = visited.len();
        assert((y as int) * w <= grid_index(w, p) < img.pixels@.len() <= n);
        let idx = (y as usize) * (width as usize) + (x as usize);
        assert(idx as int == grid_index(w, p));
        if visited[idx] {
            proof {
                lemma_fill_inv_drop(inp, start, img.pixels@, visited@, old_queue, queue@, t);
            }
            continue ;
        }
        let pixel = img.pixels[idx];
        if !colors_similar(pixel, bg_color, tolerance) {
            proof {
                lemma_fill_inv_drop(inp, start, img.pixels@, visited@, old_queue, queue@, t);
            }
            continue ;
        }
        let ghost vis_before = visited@;
        let ghost px_before = img.pixels@;
        visited.set(idx, true);
        img.pixels.set(idx, [0u8, 0u8, 0u8, 0u8]);
        proof {
            lemma_unvisited_count_mark(vis_before, idx as int);
        }
        let ghost q0 = queue@;
        if x > 0 {
            queue.push_back((x - 1, y));
        }
        let ghost q1 = queue@;
        if x + 1 < width {
            queue.push_back((x + 1, y));
        }
        let ghost q2 = queue@;
        if y > 0 {
            queue.push_back((x, y - 1));
        }
        let ghost q3 = queue@;
        if y + 1 < height {
            queue.push_back((x, y + 1));
        }
        proof {
            lemma_fill_inv_clear(inp, start, px_before, vis_before, old_queue, t, q1, q2, q3, queue@, x, y);
            assert(img.pixels@ == px_before.update(grid_index(w, p), transparent()));
            t = t.insert(p);
        }
    }
    proof {
        lemma_fill_inv_done(inp, start, img.pixels@, visited@, queue@, t);
    }
}

proof fn lemma_grid_index_injective(width: int, height: int, p: (int, int), q: (int, int))
    requires
        in_grid(width, height, p),
        in_grid(width, height, q),
        p != q,
    ensures
        grid_index(width, p) != grid_index(width, q),
{
    lemma_grid_index_bounds(width, height, p);
    lemma_grid_index_bounds(width, height, q);
}

proof fn lemma_reaches_self(inp: FillInput, start: (int, int))
    requires
        inp.fillable(start),
    ensures
        inp.reaches(start, start),
{
    let path = seq![start];
    assert(path[0] == start);
    assert(inp.is_fill_path(path));
}

proof fn lemma_queued_grows(a: Seq<(u32, u32)>, b: Seq<(u32, u32)>)
    requires
        a.len() <= b.len(),
        forall|i: int| 0 <= i < a.len() ==> b[i] == a[i],
    ensures
        forall|r: (int, int)| queued(a, r) ==> queued(b, r),
{
    assert forall|r: (int, int)| queued(a, r) implies queued(b, r) by {
        let i = choose|i: int| 0 <= i < a.len() && #[trigger] entry_pos(a[i]) == r;
        assert(entry_pos(b[i]) == r);
    }
}

proof fn lemma_queued_last(a: Seq<(u32, u32)>)
    requires
        a.len() > 0,
    ensures
        queued(a, entry_pos(a.last())),
{
    assert(entry_pos(a[a.len() - 1]) == entry_pos(a.last()));
}

proof fn lemma_prefix_kept(a: Seq<(u32, u32)>, b: Seq<(u32, u32)>, i: int)
    requires
        0 <= i < a.len(),
        a.len() <= b.len(),
        forall|j: int| 0 <= j < a.len() ==> b[j] == a[j],
    ensures
        b[i] == a[i],
{
}

proof fn lemma_pushed_neighbour(
    q0: Seq<(u32, u32)>,
    q1: Seq<(u32, u32)>,
    q2: Seq<(u32, u32)>,
    q3: Seq<(u32, u32)>,
    q4: Seq<(u32, u32)>,
    x: u32,
    y: u32,
    width: u32,
    height: u32,
    i: int,
)
    requires
        x < width,
        y < height,
        q1 == (if x > 0 { q0.push(((x - 1) as u32, y)) } else { q0 }),
        q2 == (if x + 1 < width { q1.push(((x + 1) as u32, y)) } else { q1 }),
        q3 == (if y > 0 { q2.push((x, (y - 1) as u32)) } else { q2 }),
        q4 == (if y + 1 < height { q3.push((x, (y + 1) as u32)) } else { q3 }),
        q0.len() <= i < q4.len(),
    ensures
        in_grid(width as int, height as int, entry_pos(q4[i])),
        adjacent((x as int, y as int), entry_pos(q4[i])),
{
}

/// The fill from one corner: the background color is the corner's current
/// pixel, and a corner that is already transparent is skipped.
pub open spec fn corner_fill(
    width: int,
    height: int,
    state: (Seq<Pixel>, Seq<bool>),
    corner: (int, int),
    tolerance: u8,
) -> (Seq<Pixel>, Seq<bool>) {
    let bg = state.0[grid_index(width, corner)];
    if bg[3] == 0 {
        state
    } else {
        let inp = FillInput { width, height, pixels: state.0, visited: state.1, background: bg, tolerance };
        (inp.filled_pixels(corner), inp.filled_visited(corner))
    }
}

/// The four corners in the order they are filled from: top left, top
/// right, bottom left, bottom right.
pub open spec fn image_corners(width: int, height: int) -> Seq<(int, int)> {
    seq![(0, 0), (width - 1, 0), (0, height - 1), (width - 1, height - 1)]
}

/// Pixels and visited mask after filling from the first `k` corners, the
/// mask shared by all fills and empty at first.
pub open spec fn corners_filled(width: int, height: int, pixels: Seq<Pixel>, tolerance: u8, k: nat) -> (
    Seq<Pixel>,
    Seq<bool>,
)
    decreases k,
{
    if k == 0 {
        (pixels, Seq::new((width * height) as nat, |i: int| false))
    } else {
        corner_fill(
            width,
            height,
            corners_filled(width, height, pixels, tolerance, (k - 1) as nat),
            image_corners(width, height)[k - 1],
            tolerance,
        )
    }
}

/// The pixels once the background reached from all four corners is
/// transparent.
pub open spec fn background_cleared(width: int, height: int, pixels: Seq<Pixel>, tolerance: u8) -> Seq<Pixel> {
    corners_filled(width, height, pixels, tolerance, 4).0
}

/// Removes the background of `img` by flood-filling from its four corners
/// with one visited mask: pixels similar to a corner's color (within
/// `tolerance`) and connected to it become transparent.
pub fn clear_background(img: &mut RgbaBuffer, tolerance: u8)
    requires
        old(img).wf(),
        old(img).width > 0,
        old(img).height > 0,
    ensures
        final(img).width == old(img).width,
        final(img).height == old(img).height,
        final(img).wf(),
        final(img).pixels@ == background_cleared(
            old(img).width as int,
            old(img).height as int,
            old(img).pixels@,
            tolerance,
        ),
{
    let width = img.width;
    let height = img.height;
    let ghost w = width as int;
    let ghost h = height as int;
    let ghost pixels0 = img.pixels@;
    let corners: [(u32, u32); 4] = [(0, 0), (width - 1, 0), (0, height - 1), (width - 1, height - 1)];
    let n = img.pixels.len();
    let mut visited = vec![false; n];
    assert(visited@ =~= corners_filled(w, h, pixels0, tolerance, 0).1);
    let mut k: usize = 0;
    while k < 4
        invariant
            0 <= k <= 4,
            img.width == width,
            img.height == height,
            w == width as int,
            h == height as int,
            w > 0,
            h > 0,
            img.pixels@.len() == w * h,
            visited@.len() == w * h,
            n == w * h,
            corners@ == seq![(0u32, 0u32), ((w - 1) as u32, 0u32), (0u32, (h - 1) as u32), ((w - 1) as u32, (h - 1) as u32)],
            (img.pixels@, visited@) == corners_filled(w, h, pixels0, tolerance, k as nat),
        decreases 4 - k,
    {
        let (cx, cy) = corners[k];
        let ghost corner = (cx as int, cy as int);
        assert(corner == image_corners(w, h)[k as int]);
        proof {
            lemma_grid_index_bounds(w, h, corner);
        }
        assert((cy as int) * w <= grid_index(w, corner) < n);
        let idx = (cy as usize) * (width as usize) + (cx as usize);
        assert(idx as int == grid_index(w, corner));
        let bg_color = img.pixels[idx];
        if bg_color[3] == 0 {
            k = k + 1;
            continue ;
        }
        flood_fill_transparent(img, &mut visited, cx, cy, bg_color, tolerance);
        k = k + 1;
    }
}

/// The pixel at `p` is at least partly opaque.
pub open spec fn opaque_at(width: int, pixels: Seq<Pixel>, p: (int, int)) -> bool {
    pixels[grid_index(width, p)][3] > 0
}

/// Some pixel of the image is at least partly opaque.
pub open spec fn has_opaque(width: int, height: int, pixels: Seq<Pixel>) -> bool {
    exists|p: (int, int)| in_grid(width, height, p) && #[trigger] opaque_at(width, pixels, p)
}

/// `b` = (min x, min y, max x, max y) is the bounding box of the opaque
/// pixels: every opaque pixel lies inside it and each side touches one.
pub open spec fn is_opaque_bounds(width: int, height: int, pixels: Seq<Pixel>, b: (int, int, int, int)) -> bool {
    &&& forall|p: (int, int)|
        in_grid(width, height, p) && #[trigger] opaque_at(width, pixels, p) ==> b.0 <= p.0 <= b.2 && b.1
            <= p.1 <= b.3
    &&& exists|p: (int, int)| in_grid(width, height, p) && #[trigger] opaque_at(width, pixels, p) && p.0 == b.0
    &&& exists|p: (int, int)| in_grid(width, height, p) && #[trigger] opaque_at(width, pixels, p) && p.1 == b.1
    &&& exists|p: (int, int)| in_grid(width, height, p) && #[trigger] opaque_at(width, pixels, p) && p.0 == b.2
    &&& exists|p: (int, int)| in_grid(width, height, p) && #[trigger] opaque_at(width, pixels, p) && p.1 == b.3
}

/// Position `p` comes before (column `x`, row `y`) in a row-by-row scan.
pub open spec fn scanned_before(width: int, y: int, x: int, p: (int, int)) -> bool {
    0 <= p.0 < width && 0 <= p.1 && (p.1 < y || (p.1 == y && p.0 < x))
}

/// What the bounding-box scan knows after reaching (column `x`, row `y`).
pub open spec fn scan_state(
    width: int,
    pixels: Seq<Pixel>,
    y: int,
    x: int,
    found: bool,
    b: (int, int, int, int),
) -> bool {
    &&& found == exists|p: (int, int)| scanned_before(width, y, x, p) && #[trigger] opaque_at(width, pixels, p)
    &&& found ==> {
        &&& forall|p: (int, int)|
            scanned_before(width, y, x, p) && #[trigger] opaque_at(width, pixels, p) ==> b.0 <= p.0 <= b.2
                && b.1 <= p.1 <= b.3
        &&& exists|p: (int, int)| scanned_before(width, y, x, p) && #[trigger] opaque_at(width, pixels, p) && p.0 == b.0
        &&& exists|p: (int, int)| scanned_before(width, y, x, p) && #[trigger] opaque_at(width, pixels, p) && p.1 == b.1
        &&& exists|p: (int, int)| scanned_before(width, y, x, p) && #[trigger] opaque_at(width, pixels, p) && p.0 == b.2
        &&& exists|p: (int, int)| scanned_before(width, y, x, p) && #[trigger] opaque_at(width, pixels, p) && p.1 == b.3
    }
}

proof fn lemma_scan_step(
    width: int,
    pixels: Seq<Pixel>,
    y: int,
    x: int,
    found: bool,
    b: (int, int, int, int),
    found2: bool,
    b2: (int, int, int, int),
)
    requires
        0 <= x < width,
        0 <= y,
        scan_state(width, pixels, y, x, found, b),
        opaque_at(width, pixels, (x, y)) ==> found2 && b2 == (
            if found { min_int(b.0, x) } else { x },
            if found { min_int(b.1, y) } else { y },
            if found { if b.2 >= x { b.2 } else { x } } else { x },
            if found { if b.3 >= y { b.3 } else { y } } else { y },
        ),
        !opaque_at(width, pixels, (x, y)) ==> found2 == found && b2 == b,
    ensures
        scan_state(width, pixels, y, x + 1, found2, b2),
{
    let q = (x, y);
    assert forall|p: (int, int)| scanned_before(width, y, x + 1, p) <==> (scanned_before(width, y, x, p) || p == q) by {}
    if opaque_at(width, pixels, q) {
        assert(scanned_before(width, y, x + 1, q));
        if found {
            let p0 = choose|p: (int, int)| scanned_before(width, y, x, p) && #[trigger] opaque_at(width, pixels, p) && p.0 == b.0;
            let p1 = choose|p: (int, int)| scanned_before(width, y, x, p) && #[trigger] opaque_at(width, pixels, p) && p.1 == b.1;
            let p2 = choose|p: (int, int)| scanned_before(width, y, x, p) && #[trigger] opaque_at(width, pixels, p) && p.0 == b.2;
            let p3 = choose|p: (int, int)| scanned_before(width, y, x, p) && #[trigger] opaque_at(width, pixels, p) && p.1 == b.3;
            assert(scanned_before(width, y, x + 1, p0));
            assert(scanned_before(width, y, x + 1, p1));
            assert(scanned_before(width, y, x + 1, p2));
            assert(scanned_before(width, y, x + 1, p3));
        }
    } else {
        if found {
            let p0 = choose|p: (int, int)| scanned_before(width, y, x, p) && #[trigger] opaque_at(width, pixels, p) && p.0 == b.0;
            let p1 = choose|p: (int, int)| scanned_before(width, y, x, p) && #[trigger] opaque_at(width, pixels, p) && p.1 == b.1;
            let p2 = choose|p: (int, int)| scanned_before(width, y, x, p) && #[trigger] opaque_at(width, pixels, p) && p.0 == b.2;
            let p3 = choose|p: (int, int)| scanned_before(width, y, x, p) && #[trigger] opaque_at(width, pixels, p) && p.1 == b.3;
            assert(scanned_before(width, y, x + 1, p0));
            assert(scanned_before(width, y, x + 1, p1));
            assert(scanned_before(width, y, x + 1, p2));
            assert(scanned_before(width, y, x + 1, p3));
        } else {
            assert forall|p: (int, int)| scanned_before(width, y, x + 1, p) implies !#[trigger] opaque_at(width, pixels, p) by {
                if p != q {
                    assert(scanned_before(width, y, x, p));
                }
            }
        }
    }
}

proof fn lemma_scan_next_row(width: int, pixels: Seq<Pixel>, y: int, found: bool, b: (int, int, int, int))
    requires
        0 <= y,
        scan_state(width, pixels, y, width, found, b),
    ensures
        scan_state(width, pixels, y + 1, 0, found, b),
{
    assert forall|p: (int, int)| scanned_before(width, y + 1, 0, p) <==> scanned_before(width, y, width, p) by {}
}

/// Finds the bounding box (min x, min y, max x, max y) of the pixels that
/// are not fully transparent, or `None` when every pixel is transparent.
pub fn opaque_bounds(img: &RgbaBuffer) -> (r: Option<(u32, u32, u32, u32)>)
    requires
        img.wf(),
    ensures
        r is None <==> !has_opaque(img.width as int, img.height as int, img.pixels@),
        r matches Some(b) ==> is_opaque_bounds(
            img.width as int,
            img.height as int,
            img.pixels@,
            (b.0 as int, b.1 as int, b.2 as int, b.3 as int),
        ),
{
    let width = img.width;
    let height = img.height;
    let ghost w = width as int;
    let ghost h = height as int;
    let ghost px = img.pixels@;
    let mut min_x = width;
    let mut min_y = height;
    let mut max_x = 0u32;
    let mut max_y = 0u32;
    let mut has_opaque = false;
    let mut y: u32 = 0;
    while y < height
        invariant
            img.width == width,
            img.height == height,
            w == width as int,
            h == height as int,
            px == img.pixels@,
            px.len() == w * h,
            0 <= y <= height,
            scan_state(w, px, y as int, 0, has_opaque, (min_x as int, min_y as int, max_x as int, max_y as int)),
            has_opaque ==> max_y < y,
        decreases height - y,
    {
        let mut x: u32 = 0;
        while x < width
            invariant
                img.width == width,
                img.height == height,
                w == width as int,
                h == height as int,
                px == img.pixels@,
                px.len() == w * h,
                0 <= y < height,
                0 <= x <= width,
                scan_state(w, px, y as int, x as int, has_opaque, (min_x as int, min_y as int, max_x as int, max_y as int)),
                has_opaque ==> max_y <= y,
            decreases width - x,
        {
            let ghost p = (x as int, y as int);
            let ghost found0 = has_opaque;
            let ghost b0 = (min_x as int, min_y as int, max_x as int, max_y as int);
            proof {
                lemma_grid_index_bounds(w, h, p);
            }
            let n = img.pixels.len();
            assert((y as int) * w <= grid_index(w, p) < n);
            let idx = (y as usize) * (width as usize) + (x as usize);
            assert(idx as int == grid_index(w, p));
            let pixel = img.pixels[idx];
            if pixel[3] > 0 {
                if !has_opaque {
                    min_x = x;
                    min_y = y;
                    max_x = x;
                    max_y = y;
                } else {
                    if x < min_x {
                        min_x = x;
                    }
                    if y < min_y {
                        min_y = y;
                    }
                    if x > max_x {
                        max_x = x;
                    }
                    if y > max_y {
                        max_y = y;
                    }
                }
                has_opaque = true;
            }
            proof {
                lemma_scan_step(
                    w,
                    px,
                    y as int,
                    x as int,
                    found0,
                    b0,
                    has_opaque,
                    (min_x as int, min_y as int, max_x as int, max_y as int),
                );
            }
            x = x + 1;
        }
        proof {
            lemma_scan_next_row(w, px, y as int, has_opaque, (min_x as int, min_y as int, max_x as int, max_y as int));
        }
        y = y + 1;
    }
    proof {
        assert forall|p: (int, int)| in_grid(w, h, p) <==> scanned_before(w, h, 0, p) by {}
    }
    if has_opaque {
        Some((min_x, min_y, max_x, max_y))
    } else {
        None
    }
}

/// Margin kept around the opaque content when cropping.
pub const CROP_PADDING: u32 = 2;

/// The crop rectangle (x, y, width, height) for the bounding box `b` of
/// the content: its corner is the box's corner moved back by the padding,
/// clamped at zero; its size is the box's size plus twice the padding,
/// clamped at the image's far edges. Where the corner is clamped, the
/// padding it could not take on the near side is added on the far side.
pub open spec fn padded_rect(width: int, height: int, b: (int, int, int, int)) -> (int, int, int, int) {
    let pad = CROP_PADDING as int;
    let x = if b.0 >= pad { b.0 - pad } else { 0 };
    let y = if b.1 >= pad { b.1 - pad } else { 0 };
    (x, y, min_int(b.2 - b.0 + 1 + pad * 2, width - x), min_int(b.3 - b.1 + 1 + pad * 2, height - y))
}

/// Computes the padded crop rectangle for the content bounds `b` of a
/// `width` by `height` image.
pub fn padded_crop_rect(width: u32, height: u32, b: (u32, u32, u32, u32)) -> (r: (u32, u32, u32, u32))
    requires
        b.0 <= b.2 < width,
        b.1 <= b.3 < height,
    ensures
        (r.0 as int, r.1 as int, r.2 as int, r.3 as int) == padded_rect(
            width as int,
            height as int,
            (b.0 as int, b.1 as int, b.2 as int, b.3 as int),
        ),
{
    let padding = CROP_PADDING;
    let crop_x = b.0.saturating_sub(padding);
    let crop_y = b.1.saturating_sub(padding);
    let want_w = (b.2 - b.0) as u64 + 1 + (padding as u64) * 2;
    let want_h = (b.3 - b.1) as u64 + 1 + (padding as u64) * 2;
    let room_w = width - crop_x;
    let room_h = height - crop_y;
    let crop_w = if want_w < room_w as u64 { want_w as u32 } else { room_w };
    let crop_h = if want_h < room_h as u64 { want_h as u32 } else { room_h };
    (crop_x, crop_y, crop_w, crop_h)
}

/// The buffer `c` is the rectangle `rect` (x, y, width, height) of an
/// image whose rows are `width` long and whose pixels are `pixels`.
pub open spec fn is_crop_of(c: RgbaBuffer, pixels: Seq<Pixel>, width: int, rect: (int, int, int, int)) -> bool {
    &&& c.width as int == rect.2
    &&& c.height as int == rect.3
    &&& c.pixels@ == sub_image(pixels, width, rect.0, rect.1, rect.2, rect.3)
}

proof fn lemma_bounds_inside(width: int, height: int, pixels: Seq<Pixel>, b: (int, int, int, int))
    requires
        is_opaque_bounds(width, height, pixels, b),
    ensures
        0 <= b.0 <= b.2 < width,
        0 <= b.1 <= b.3 < height,
{
    let p0 = choose|p: (int, int)| in_grid(width, height, p) && #[trigger] opaque_at(width, pixels, p) && p.0 == b.0;
    let p1 = choose|p: (int, int)| in_grid(width, height, p) && #[trigger] opaque_at(width, pixels, p) && p.1 == b.1;
    let p2 = choose|p: (int, int)| in_grid(width, height, p) && #[trigger] opaque_at(width, pixels, p) && p.0 == b.2;
    let p3 = choose|p: (int, int)| in_grid(width, height, p) && #[trigger] opaque_at(width, pixels, p) && p.1 == b.3;
}

fn copy_buffer(img: &RgbaBuffer) -> (r: RgbaBuffer)
    ensures
        r.width == img.width,
        r.height == img.height,
        r.pixels@ == img.pixels@,
{
    let mut pixels: Vec<Pixel> = Vec::new();
    let mut i: usize = 0;
    while i < img.pixels.len()
        invariant
            0 <= i <= img.pixels@.len(),
            pixels@ == img.pixels@.subrange(0, i as int),
        decreases img.pixels@.len() - i,
    {
        let p: Pixel = img.pixels[i];
        pixels.push(p);
        i = i + 1;
        assert(pixels@ =~= img.pixels@.subrange(0, i as int));
    }
    assert(pixels@ =~= img.pixels@);
    RgbaBuffer { width: img.width, height: img.height, pixels }
}

/// Removes the background of a copy of `img` (see `clear_background`) and
/// crops the result to the bounding box of its remaining opaque pixels,
/// padded by `CROP_PADDING` on each side and kept inside the image.
/// Returns `None` when no opaque pixel remains.
pub fn crop_to_content(img: &RgbaBuffer, tolerance: u8) -> (r: Option<RgbaBuffer>)
    requires
        img.wf(),
        img.width > 0,
        img.height > 0,
    ensures
        r is None <==> !has_opaque(
            img.width as int,
            img.height as int,
            background_cleared(img.width as int, img.height as int, img.pixels@, tolerance),
        ),
        r matches Some(c) ==> c.wf() && exists|b: (int, int, int, int)|
            is_opaque_bounds(
                img.width as int,
                img.height as int,
                background_cleared(img.width as int, img.height as int, img.pixels@, tolerance),
                b,
            ) && #[trigger] is_crop_of(
                c,
                background_cleared(img.width as int, img.height as int, img.pixels@, tolerance),
                img.width as int,
                padded_rect(img.width as int, img.height as int, b),
            ),
{
    let mut rgba = copy_buffer(img);
    clear_background(&mut rgba, tolerance);
    match opaque_bounds(&rgba) {
        None => None,
        Some(b) => {
            let ghost bi = (b.0 as int, b.1 as int, b.2 as int, b.3 as int);
            proof {
                lemma_bounds_inside(rgba.width as int, rgba.height as int, rgba.pixels@, bi);
            }
            let (x, y, w, h) = padded_crop_rect(rgba.width, rgba.height, b);
            let cropped = crop_rgba(&rgba, x, y, w, h);
            assert(is_crop_of(cropped, rgba.pixels@, rgba.width as int, padded_rect(rgba.width as int, rgba.height as int, bi)));
            Some(cropped)
        },
    }
}

/// Why background removal failed.
pub enum BackgroundError {
    /// The bytes are not an image the `image` crate decodes.
    Decode(image::ImageError),
    /// The image has no pixels.
    EmptyImage,
    /// PNG encoding of the result failed.
    Encode(image::ImageError),
}

/// The text that the `Display` of `image::ImageError` writes for `e`.
pub uninterp spec fn image_error_message(e: image::ImageError) -> Seq<char>;

/// The text of an `image` crate error.
///
/// Calls `to_string`, through the `Display` of `image::ImageError`.
/// Trusted: the text is the named message of `e`.
#[verifier::external_body]
fn image_error_text(e: &image::ImageError) -> (r: String)
    ensures
        r@ == image_error_message(*e),
{
    e.to_string()
}

impl BackgroundError {
    /// The error's message: the image crate's own words for a decoding or
    /// encoding failure, and `Image has zero dimensions` for an image
    /// without pixels.
    pub fn message(&self) -> (r: String)
        ensures
            *self matches BackgroundError::Decode(e) ==> r@ == image_error_message(e),
            *self is EmptyImage ==> r@ == "Image has zero dimensions"@,
            *self matches BackgroundError::Encode(e) ==> r@ == image_error_message(e),
    {
        match self {
            BackgroundError::Decode(e) => image_error_text(e),
            BackgroundError::EmptyImage => "Image has zero dimensions".to_owned(),
            BackgroundError::Encode(e) => image_error_text(e),
        }
    }
}

/// `r` is the outcome of encoding whose named result is `o`.
pub open spec fn png_outcome(r: Result<Vec<u8>, BackgroundError>, o: Option<Seq<u8>>) -> bool {
    match o {
        Some(bytes) => r matches Ok(v) && v@ == bytes,
        None => r matches Err(BackgroundError::Encode(_)),
    }
}

/// What removing the background of the image file `data` with `tolerance`
/// yields: the PNG of the cropped content, or of the decoded image when no
/// opaque pixel remains, or the error on the way.
pub open spec fn background_removal(data: Seq<u8>, tolerance: u8, r: Result<Vec<u8>, BackgroundError>) -> bool {
    match decoded_rgba(data) {
        None => r matches Err(BackgroundError::Decode(_)),
        Some((w, h, px)) => {
            if w == 0 || h == 0 {
                r matches Err(BackgroundError::EmptyImage)
            } else {
                let cleared = background_cleared(w as int, h as int, px, tolerance);
                if !has_opaque(w as int, h as int, cleared) {
                    png_outcome(r, encoded_png(w, h, px))
                } else {
                    exists|b: (int, int, int, int)|
                        is_opaque_bounds(w as int, h as int, cleared, b) && #[trigger] png_outcome(
                            r,
                            encoded_png(
                                padded_rect(w as int, h as int, b).2 as u32,
                                padded_rect(w as int, h as int, b).3 as u32,
                                sub_image(
                                    cleared,
                                    w as int,
                                    padded_rect(w as int, h as int, b).0,
                                    padded_rect(w as int, h as int, b).1,
                                    padded_rect(w as int, h as int, b).2,
                                    padded_rect(w as int, h as int, b).3,
                                ),
                            ),
                        )
                }
            }
        },
    }
}

/// Removes the background from an image by flood-filling from the corners.
/// Pixels similar to the corner colors (within `tolerance`) are made transparent.
/// Then the image is cropped to the bounding box of remaining opaque pixels
/// (plus a small padding) and returned as PNG. When nothing opaque remains
/// the decoded image is returned unchanged, as PNG.
pub fn remove_background(image_data: &[u8], tolerance: u8) -> (r: Result<Vec<u8>, BackgroundError>)
    ensures
        background_removal(image_data@, tolerance, r),
{
    let img = match decode_rgba(image_data) {
        Ok(img) => img,
        Err(e) => {
            return Err(BackgroundError::Decode(e));
        },
    };
    if img.width == 0 || img.height == 0 {
        return Err(BackgroundError::EmptyImage);
    }
    match crop_to_content(&img, tolerance) {
        Some(cropped) => {
            let ghost w = img.width as int;
            let ghost h = img.height as int;
            let ghost cleared = background_cleared(w, h, img.pixels@, tolerance);
            let ghost b = choose|b: (int, int, int, int)|
                is_opaque_bounds(w, h, cleared, b) && #[trigger] is_crop_of(cropped, cleared, w, padded_rect(w, h, b));
            let out = encode_png(&cropped);
            let res = match out {
                Ok(bytes) => Ok(bytes),
                Err(e) => Err(BackgroundError::Encode(e)),
            };
            assert(png_outcome(res, encoded_png(
                padded_rect(w, h, b).2 as u32,
                padded_rect(w, h, b).3 as u32,
                sub_image(cleared, w, padded_rect(w, h, b).0, padded_rect(w, h, b).1, padded_rect(w, h, b).2, padded_rect(w, h, b).3),
            )));
            res
        },
        None => match encode_png(&img) {
            Ok(bytes) => Ok(bytes),
            Err(e) => Err(BackgroundError::Encode(e)),
        },
    }
}

/// Color similarity does not depend on the order of the two colors.
pub proof fn lemma_similar_symmetric(a: Pixel, b: Pixel, tolerance: u8)
    ensures
        similar(a, b, tolerance) == similar(b, a, tolerance),
{
}

/// Every color is similar to itself, whatever the tolerance.
pub proof fn lemma_similar_reflexive(a: Pixel, tolerance: u8)
    ensures
        similar(a, a, tolerance),
{
}

/// A fill changes a pixel only by making it transparent, and only a pixel
/// that was unvisited and similar to the background.
pub proof fn lemma_fill_changes_only_fillable(inp: FillInput, start: (int, int), i: int)
    requires
        inp.width > 0,
        inp.pixels.len() == inp.width * inp.height,
        0 <= i < inp.pixels.len(),
    ensures
        inp.filled_pixels(start)[i] == inp.pixels[i] || (inp.filled_pixels(start)[i] == transparent()
            && inp.fillable(grid_pos(inp.width, i)) && similar(inp.pixels[i], inp.background, inp.tolerance)),
{
    let p = grid_pos(inp.width, i);
    lemma_grid_pos_bounds(inp.width, inp.height, i);
    if inp.reaches(start, p) {
        let path = choose|path: Seq<(int, int)>|
            #[trigger] inp.is_fill_path(path) && path[0] == start && path.last() == p;
        assert(inp.fillable(path[path.len() - 1]));
    }
}

proof fn lemma_corners_filled_len(width: int, height: int, pixels: Seq<Pixel>, tolerance: u8, k: nat)
    requires
        width > 0,
        height > 0,
        pixels.len() == width * height,
        k <= 4,
    ensures
        corners_filled(width, height, pixels, tolerance, k).0.len() == width * height,
        corners_filled(width, height, pixels, tolerance, k).1.len() == width * height,
        forall|i: int|
            0 <= i < width * height ==> #[trigger] corners_filled(width, height, pixels, tolerance, k).0[i]
                == pixels[i] || corners_filled(width, height, pixels, tolerance, k).0[i] == transparent(),
    decreases k,
{
    if k > 0 {
        lemma_corners_filled_len(width, height, pixels, tolerance, (k - 1) as nat);
        let prev = corners_filled(width, height, pixels, tolerance, (k - 1) as nat);
        let corner = image_corners(width, height)[k - 1];
        let bg = prev.0[grid_index(width, corner)];
        if bg[3] != 0 {
            let inp = FillInput { width, height, pixels: prev.0, visited: prev.1, background: bg, tolerance };
            assert forall|i: int| 0 <= i < width * height implies #[trigger] corners_filled(
                width,
                height,
                pixels,
                tolerance,
                k,
            ).0[i] == pixels[i] || corners_filled(width, height, pixels, tolerance, k).0[i] == transparent() by {
                lemma_fill_changes_only_fillable(inp, corner, i);
                assert(prev.0[i] == pixels[i] || prev.0[i] == transparent());
            }
        }
    }
}

/// Clearing the background leaves every pixel either as it was or fully
/// transparent.
pub proof fn lemma_cleared_pixels_kept_or_transparent(width: int, height: int, pixels: Seq<Pixel>, tolerance: u8)
    requires
        width > 0,
        height > 0,
        pixels.len() == width * height,
    ensures
        background_cleared(width, height, pixels, tolerance).len() == pixels.len(),
        forall|i: int|
            0 <= i < pixels.len() ==> #[trigger] background_cleared(width, height, pixels, tolerance)[i]
                == pixels[i] || background_cleared(width, height, pixels, tolerance)[i] == transparent(),
{
    lemma_corners_filled_len(width, height, pixels, tolerance, 4);
}

/// The padded crop rectangle of the content bounds lies inside the image
/// and holds every opaque pixel: cropping never cuts content.
pub proof fn lemma_crop_holds_content(width: int, height: int, pixels: Seq<Pixel>, b: (int, int, int, int))
    requires
        is_opaque_bounds(width, height, pixels, b),
    ensures
        0 <= padded_rect(width, height, b).0,
        0 <= padded_rect(width, height, b).1,
        padded_rect(width, height, b).0 + padded_rect(width, height, b).2 <= width,
        padded_rect(width, height, b).1 + padded_rect(width, height, b).3 <= height,
        forall|p: (int, int)|
            in_grid(width, height, p) && #[trigger] opaque_at(width, pixels, p) ==> {
                let r = padded_rect(width, height, b);
                &&& r.0 <= p.0 < r.0 + r.2
                &&& r.1 <= p.1 < r.1 + r.3
            },
{
    lemma_bounds_inside(width, height, pixels, b);
}

proof fn lemma_reach_row(inp: FillInput, start: (int, int), x: int)
    requires
        in_grid(inp.width, inp.height, start),
        forall|p: (int, int)| in_grid(inp.width, inp.height, p) ==> #[trigger] inp.fillable(p),
        0 <= x < inp.width,
    ensures
        inp.reaches(start, (x, start.1)),
    decreases if x >= start.0 { x - start.0 } else { start.0 - x },
{
    if x == start.0 {
        assert(inp.fillable(start));
        lemma_reaches_self(inp, start);
        assert((x, start.1) == start);
    } else if x > start.0 {
        lemma_reach_row(inp, start, x - 1);
        assert(inp.fillable((x, start.1)));
        lemma_reaches_step(inp, start, (x - 1, start.1), (x, start.1));
    } else {
        lemma_reach_row(inp, start, x + 1);
        assert(inp.fillable((x, start.1)));
        lemma_reaches_step(inp, start, (x + 1, start.1), (x, start.1));
    }
}

proof fn lemma_reach_all(inp: FillInput, start: (int, int), p: (int, int))
    requires
        in_grid(inp.width, inp.height, start),
        forall|q: (int, int)| in_grid(inp.width, inp.height, q) ==> #[trigger] inp.fillable(q),
        in_grid(inp.width, inp.height, p),
    ensures
        inp.reaches(start, p),
    decreases if p.1 >= start.1 { p.1 - start.1 } else { start.1 - p.1 },
{
    if p.1 == start.1 {
        lemma_reach_row(inp, start, p.0);
    } else if p.1 > start.1 {
        lemma_reach_all(inp, start, (p.0, p.1 - 1));
        assert(inp.fillable(p));
        lemma_reaches_step(inp, start, (p.0, p.1 - 1), p);
    } else {
        lemma_reach_all(inp, start, (p.0, p.1 + 1));
        assert(inp.fillable(p));
        lemma_reaches_step(inp, start, (p.0, p.1 + 1), p);
    }
}

/// With tolerance 255 every color is similar to every other.
proof fn lemma_full_tolerance_similar(a: Pixel, b: Pixel)
    ensures
        similar(a, b, 255),
{
}

proof fn lemma_full_tolerance_step(width: int, height: int, pixels: Seq<Pixel>, k: nat)
    requires
        width > 0,
        height > 0,
        pixels.len() == width * height,
        k <= 4,
    ensures
        ({
            let s = corners_filled(width, height, pixels, 255, k);
            ||| (s.0 == pixels && s.1 == Seq::new((width * height) as nat, |i: int| false) && forall|c: int|
                0 <= c < k ==> #[trigger] pixels[grid_index(width, image_corners(width, height)[c])][3] == 0)
            ||| (s.0.len() == width * height && forall|i: int| 0 <= i < width * height ==> #[trigger] s.0[i] == transparent())
        }),
    decreases k,
{
    if k > 0 {
        lemma_full_tolerance_step(width, height, pixels, (k - 1) as nat);
        let prev = corners_filled(width, height, pixels, 255, (k - 1) as nat);
        let corner = image_corners(width, height)[k - 1];
        assert(in_grid(width, height, corner));
        lemma_grid_index_bounds(width, height, corner);
        let bg = prev.0[grid_index(width, corner)];
        if bg[3] != 0 {
            let inp = FillInput { width, height, pixels: prev.0, visited: prev.1, background: bg, tolerance: 255 };
            if prev.0 == pixels {
                assert forall|q: (int, int)| in_grid(width, height, q) implies #[trigger] inp.fillable(q) by {
                    lemma_grid_index_bounds(width, height, q);
                    lemma_full_tolerance_similar(prev.0[grid_index(width, q)], bg);
                }
                let s = corners_filled(width, height, pixels, 255, k);
                assert forall|i: int| 0 <= i < width * height implies #[trigger] s.0[i] == transparent() by {
                    lemma_grid_pos_bounds(width, height, i);
                    lemma_reach_all(inp, corner, grid_pos(width, i));
                }
            }
        }
    }
}

/// With tolerance 255, an image with at least one corner not fully
/// transparent is cleared completely: nothing opaque remains.
pub proof fn lemma_full_tolerance_clears_all(width: int, height: int, pixels: Seq<Pixel>)
    requires
        width > 0,
        height > 0,
        pixels.len() == width * height,
        exists|c: int| 0 <= c < 4 && #[trigger] pixels[grid_index(width, image_corners(width, height)[c])][3] != 0,
    ensures
        forall|i: int| 0 <= i < width * height ==> #[trigger] background_cleared(width, height, pixels, 255)[i] == transparent(),
        !has_opaque(width, height, background_cleared(width, height, pixels, 255)),
{
    lemma_full_tolerance_step(width, height, pixels, 4);
    let s = background_cleared(width, height, pixels, 255);
    assert forall|p: (int, int)| in_grid(width, height, p) implies !#[trigger] opaque_at(width, s, p) by {
        lemma_grid_index_bounds(width, height, p);
        assert(s[grid_index(width, p)] == transparent());
    }
}

/// With tolerance 255, removing the background of an image with at least
/// one corner not fully transparent gives back the PNG of the decoded
/// image itself.
pub proof fn lemma_full_tolerance_returns_original(data: Seq<u8>, r: Result<Vec<u8>, BackgroundError>)
    requires
        background_removal(data, 255, r),
        decoded_rgba(data) matches Some((w, h, px)) && w > 0 && h > 0 && px.len() == w * h && exists|c: int|
            0 <= c < 4 && #[trigger] px[grid_index(w as int, image_corners(w as int, h as int)[c])][3] != 0,
    ensures
        decoded_rgba(data) matches Some((w, h, px)) && png_outcome(r, encoded_png(w, h, px)),
{
    let (w, h, px) = decoded_rgba(data)->Some_0;
    lemma_full_tolerance_clears_all(w as int, h as int, px);
}

} // verus!
