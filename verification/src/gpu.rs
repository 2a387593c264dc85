//! The integer side of presenting frames: checking a frame against the surface, sizing
//! compute dispatches, the debug-pixel uniform and the order in which layers are composed.

use vstd::prelude::*;
use crate::grid::pack::{encode_words, words_to_bytes};

verus! {

/// Width and height, in pixels, of the square tile one compute workgroup shades.
pub const WORKGROUP_SIZE: u32 = 8;

/// Why a frame was refused by the surface.
#[derive(Debug, Clone, Copy, PartialEq, Eq, Structural)]
pub enum FrameError {
    /// The frame's size differs from the surface's.
    DimensionMismatch { width: u32, height: u32, surface_width: u32, surface_height: u32 },
    /// The pixel buffer does not hold four bytes per pixel.
    InvalidSize { expected: usize, actual: usize },
}

/// Check a frame of `width x height` pixels held in `len` bytes against a surface of
/// `surface_width x surface_height`: sizes first, then the buffer length.
pub fn validate_frame(len: usize, width: u32, height: u32, surface_width: u32, surface_height: u32) -> (r: Result<(), FrameError>)
    requires
        width != surface_width || height != surface_height || width * height * 4 <= u32::MAX,
    ensures
        (width != surface_width || height != surface_height) ==> r == Err::<(), FrameError>(
            FrameError::DimensionMismatch { width, height, surface_width, surface_height },
        ),
        (width == surface_width && height == surface_height && len != width * height * 4) ==> r
            == Err::<(), FrameError>(FrameError::InvalidSize { expected: (width * height * 4) as usize, actual: len }),
        r is Ok <==> (width == surface_width && height == surface_height && len == width * height * 4),
{
    if width != surface_width || height != surface_height {
        return Err(FrameError::DimensionMismatch { width, height, surface_width, surface_height });
    }
    proof {
        assert(0 <= width * height <= width * height * 4) by (nonlinear_arith);
    }
    let expected = (width * height * 4) as usize;
    if len != expected {
        return Err(FrameError::InvalidSize { expected, actual: len });
    }
    Ok(())
}

/// The size a surface takes on a resize to `width x height`; `None` keeps the current
/// size, which happens when either side is zero.
pub fn resize_target(width: u32, height: u32) -> (r: Option<(u32, u32)>)
    ensures
        r == if width == 0 || height == 0 { None } else { Some((width, height)) },
{
    if width == 0 || height == 0 {
        None
    } else {
        Some((width, height))
    }
}

/// Workgroups needed to cover `n` pixels in tiles of `size`: `n / size`, rounded up.
pub fn workgroup_count(n: u32, size: u32) -> (c: u32)
    requires
        size > 0,
    ensures
        c == (n + size - 1) / (size as int),
        c * size >= n,
        c == 0 || (c - 1) * size < n,
{
    let q = n / size;
    let r = n % size;
    proof {
        let (ni, si) = (n as int, size as int);
        assert(ni == q * si + r && 0 <= r < si) by (nonlinear_arith)
            requires
                si > 0,
                q == ni / si,
                r == ni % si,
        ;
        assert(r != 0 ==> q < u32::MAX) by (nonlinear_arith)
            requires
                si >= 1,
                ni == q * si + r,
                0 <= r,
                ni <= u32::MAX,
                q >= 0,
        ;
    }
    let c = if r == 0 { q } else { q + 1 };
    proof {
        let (ni, si) = (n as int, size as int);
        let rem: int = if r == 0 { si - 1 } else { r - 1 };
        assert(ni + si - 1 == c * si + rem) by (nonlinear_arith)
            requires
                ni == q * si + r,
                c == if r == 0 { q as int } else { q + 1 },
                rem == if r == 0 { si - 1 } else { r - 1 },
        ;
        vstd::arithmetic::div_mod::lemma_fundamental_div_mod_converse(ni + si - 1, si, c as int, rem);
        assert(c * si >= ni && (c == 0 || (c - 1) * si < ni)) by (nonlinear_arith)
            requires
                ni == q * si + r,
                c == if r == 0 { q as int } else { q + 1 },
                0 <= r < si,
        ;
    }
    c
}

/// Uniform that tells the ray-tracing shader which pixel to report on.
#[derive(Debug, Clone, Copy)]
pub struct DebugParams {
    pub debug_pixel: [u32; 2],
    pub enabled: u32,
    pub _pad: u32,
}

impl DebugParams {
    /// Reporting on pixel `(x, y)`, or switched off with a zero pixel.
    pub fn from_pixel(pixel: Option<(u32, u32)>) -> (d: Self)
        ensures
            d._pad == 0,
            match pixel {
                Some((x, y)) => d.debug_pixel@ == seq![x, y] && d.enabled == 1,
                None => d.debug_pixel@ == seq![0u32, 0u32] && d.enabled == 0,
            },
    {
        match pixel {
            Some((x, y)) => DebugParams { debug_pixel: [x, y], enabled: 1, _pad: 0 },
            None => DebugParams { debug_pixel: [0, 0], enabled: 0, _pad: 0 },
        }
    }

    /// The uniform as words, in memory order.
    pub fn to_words(&self) -> (w: Vec<u32>)
        ensures
            w@ == seq![self.debug_pixel[0], self.debug_pixel[1], self.enabled, self._pad],
    {
        let mut w: Vec<u32> = Vec::new();
        w.push(self.debug_pixel[0]);
        w.push(self.debug_pixel[1]);
        w.push(self.enabled);
        w.push(self._pad);
        w
    }

    /// The uniform as the GPU reads it: its words as bytes in memory order.
    pub fn to_bytes(&self) -> (b: Vec<u8>)
        ensures
            ({
                let ws = seq![self.debug_pixel[0], self.debug_pixel[1], self.enabled, self._pad];
                b@ == encode_words(ws, true) || b@ == encode_words(ws, false)
            }),
    {
        let w = self.to_words();
        words_to_bytes(w.as_slice())
    }
}

/// The priorities are in ascending order.
pub open spec fn sorted_priorities(p: Seq<i32>) -> bool {
    forall|i: int, j: int| 0 <= i <= j < p.len() ==> p[i] <= p[j]
}

/// Where a layer of priority `p` goes in a stack ordered by ascending priority: after every
/// layer whose priority is at most `p`, so that layers of equal priority keep the order in
/// which they were added.
pub fn layer_insert_position(priorities: &[i32], p: i32) -> (k: usize)
    requires
        sorted_priorities(priorities@),
    ensures
        k <= priorities@.len(),
        forall|i: int| 0 <= i < k ==> priorities@[i] <= p,
        forall|i: int| k <= i < priorities@.len() ==> priorities@[i] > p,
        sorted_priorities(priorities@.insert(k as int, p)),
{
    let mut k: usize = priorities.len();
    while k > 0 && priorities[k - 1] > p
        invariant
            k <= priorities@.len(),
            sorted_priorities(priorities@),
            forall|i: int| k <= i < priorities@.len() ==> priorities@[i] > p,
        decreases k,
    {
        k = k - 1;
    }
    let ghost ins = priorities@.insert(k as int, p);
    assert(forall|i: int| 0 <= i < k ==> priorities@[i] <= p) by {
        if k > 0 {
            assert(priorities@[k - 1] <= p);
        }
    }
    assert forall|i: int, j: int| 0 <= i <= j < ins.len() implies ins[i] <= ins[j] by {
        if i < k {
            if j < k {
            } else if j == k {
            } else {
                assert(ins[j] == priorities@[j - 1]);
            }
        } else if i == k {
            if j > k {
                assert(ins[j] == priorities@[j - 1]);
            }
        } else {
            assert(ins[i] == priorities@[i - 1]);
            assert(ins[j] == priorities@[j - 1]);
        }
    }
    k
}

/// Inserting priority `p` at position `k` of `stack` (entries are `(priority, order added)`)
/// is where [`layer_insert_position`] puts it: after every entry of priority at most `p`,
/// before every entry of greater priority.
pub open spec fn insert_position_ok(stack: Seq<(i32, nat)>, p: i32, k: int) -> bool {
    &&& 0 <= k <= stack.len()
    &&& forall|i: int| 0 <= i < k ==> (#[trigger] stack[i]).0 <= p
    &&& forall|i: int| k <= i < stack.len() ==> (#[trigger] stack[i]).0 > p
}

/// Entries are ordered by priority, and entries of equal priority by the order they were added.
pub open spec fn stably_sorted(stack: Seq<(i32, nat)>) -> bool {
    forall|a: int, b: int|
        0 <= a < b < stack.len() ==> (#[trigger] stack[a]).0 < (#[trigger] stack[b]).0 || (stack[a].0 == stack[b].0
            && stack[a].1 < stack[b].1)
}

/// Adding layers of priorities `prios` one by one, each where [`layer_insert_position`]
/// puts it (`stacks[i]` before adding layer `i`, which goes in at `ks[i]`), gives a stack
/// holding every layer once with its priority, sorted by priority, layers of equal priority
/// in the order they were added.
pub proof fn lemma_layer_stack_stably_sorted(prios: Seq<i32>, ks: Seq<int>, stacks: Seq<Seq<(i32, nat)>>)
    requires
        ks.len() == prios.len(),
        stacks.len() == prios.len() + 1,
        stacks[0] == Seq::<(i32, nat)>::empty(),
        forall|i: int|
            0 <= i < prios.len() ==> insert_position_ok(#[trigger] stacks[i], prios[i], ks[i]) && stacks[i + 1]
                == stacks[i].insert(ks[i], (prios[i], i as nat)),
    ensures
        ({
            let last = stacks[prios.len() as int];
            &&& last.len() == prios.len()
            &&& stably_sorted(last)
            &&& forall|j: int| 0 <= j < last.len() ==> (#[trigger] last[j]).1 < prios.len() && last[j].0 == prios[last[j].1 as int]
        }),
    decreases prios.len(),
{
    let n = prios.len();
    if n > 0 {
        let m = (n - 1) as int;
        assert forall|i: int| 0 <= i < prios.drop_last().len() implies insert_position_ok(
            #[trigger] stacks.drop_last()[i],
            prios.drop_last()[i],
            ks.drop_last()[i],
        ) && stacks.drop_last()[i + 1] == stacks.drop_last()[i].insert(ks.drop_last()[i], (prios.drop_last()[i], i as nat)) by {
            assert(insert_position_ok(stacks[i], prios[i], ks[i]));
        }
        lemma_layer_stack_stably_sorted(prios.drop_last(), ks.drop_last(), stacks.drop_last());
        let prev = stacks[m];
        assert(prev == stacks.drop_last()[m]);
        assert(insert_position_ok(stacks[m], prios[m], ks[m]));
        let k = ks[m];
        let p = prios[m];
        let last = stacks[n as int];
        assert(last == prev.insert(k, (p, m as nat)));
        assert forall|j: int| 0 <= j < last.len() implies (#[trigger] last[j]).1 < prios.len() && last[j].0 == prios[last[j].1 as int] by {
            if j < k {
                assert(last[j] == prev[j]);
                assert(prios.drop_last()[prev[j].1 as int] == prios[prev[j].1 as int]);
            } else if j > k {
                assert(last[j] == prev[j - 1]);
                assert(prios.drop_last()[prev[j - 1].1 as int] == prios[prev[j - 1].1 as int]);
            }
        }
        assert forall|a: int, b: int| 0 <= a < b < last.len() implies (#[trigger] last[a]).0 < (#[trigger] last[b]).0 || (
        last[a].0 == last[b].0 && last[a].1 < last[b].1) by {
            if b < k {
                assert(last[a] == prev[a] && last[b] == prev[b]);
            } else if a > k {
                assert(last[a] == prev[a - 1] && last[b] == prev[b - 1]);
            } else if a < k && b > k {
                assert(last[a] == prev[a] && last[b] == prev[b - 1]);
                assert(prev[a].0 <= p && prev[b - 1].0 > p);
            } else if a == k {
                assert(last[b] == prev[b - 1]);
                assert(prev[b - 1].0 > p);
            } else {
                assert(last[a] == prev[a]);
                assert(prev[a].0 <= p);
                assert(prev[a].1 < m);
            }
        }
    }
}

} // verus!
