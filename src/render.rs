use crate::util::Color;
use vstd::prelude::*;

verus! {

/// How many times a path may scatter before only emission is counted.
pub const MAX_DEPTH: usize = 10;

/// A path at bounce `depth` may scatter further.
pub fn may_scatter(depth: usize) -> (r: bool)
    ensures
        r == (depth < MAX_DEPTH),
{
    depth < MAX_DEPTH
}

/// `buf` holds, at each index `i`, a color that `shade` may return for pixel
/// `i`.
pub open spec fn shaded_buffer<F: Fn(usize) -> Color>(shade: F, buf: Seq<Color>, n: nat) -> bool {
    &&& buf.len() == n
    &&& forall|i: int| 0 <= i < n ==> call_ensures(shade, (i as usize,), #[trigger] buf[i])
}

/// Renders a `width * height` buffer one pixel at a time: pixel `i` is
/// `shade(i)`, and each pixel is shaded exactly once, in index order.
pub fn render_pixels<F: Fn(usize) -> Color>(width: usize, height: usize, shade: &F) -> (r: Vec<
    Color,
>)
    requires
        width * height <= usize::MAX,
        forall|i: usize| i < width * height ==> call_requires(*shade, (i,)),
    ensures
        shaded_buffer(*shade, r@, (width * height) as nat),
{
    let n = width * height;
    let mut buffer: Vec<Color> = Vec::with_capacity(n);
    let mut idx: usize = 0;
    while idx < n
        invariant
            idx <= n,
            n == width * height,
            forall|i: usize| i < n ==> call_requires(*shade, (i,)),
            shaded_buffer(*shade, buffer@, idx as nat),
        decreases n - idx,
    {
        let c = shade(idx);
        buffer.push(c);
        idx = idx + 1;
    }
    buffer
}

/// Rendering is deterministic: where the shading of each pixel depends on its
/// index alone, two renders of the same size give the same buffer.
pub proof fn lemma_render_deterministic<F: Fn(usize) -> Color>(
    shade: F,
    a: Seq<Color>,
    b: Seq<Color>,
    n: nat,
)
    requires
        forall|i: usize, c: Color, d: Color|
            call_ensures(shade, (i,), c) && call_ensures(shade, (i,), d) ==> c == d,
        shaded_buffer(shade, a, n),
        shaded_buffer(shade, b, n),
    ensures
        a == b,
{
    assert forall|i: int| 0 <= i < n implies a[i] == b[i] by {
        assert(call_ensures(shade, (i as usize,), a[i]));
        assert(call_ensures(shade, (i as usize,), b[i]));
    }
    assert(a =~= b);
}

} // verus!
