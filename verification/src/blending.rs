//! The blend stage, on 8-bit channels.
//!
//! When an image is drawn under a blend state, each pixel being drawn (the
//! source) is combined with the pixel already stored (the destination): both
//! are weighted by a [`Factor`], and the [`Equation`] combines the weighted
//! values. Weights run from 0 to 255, where 255 stands for 1; results are
//! rounded down and clamped to `0..=255`.

use vstd::prelude::*;
use crate::color::Rgba;
use crate::compositing::{lemma_dispose, lemma_pull, Command, CompositorView, Equation, Factor, Node};

verus! {

/// The weight, in `0..=255`, that a factor gives to a channel: `s` and `d`
/// are the source and destination values of that channel, `sa` and `da` the
/// two alphas, and `alpha` tells whether the channel is the alpha channel.
pub open spec fn weight(f: Factor, s: int, d: int, sa: int, da: int, alpha: bool) -> int {
    match f {
        Factor::One => 255,
        Factor::Zero => 0,
        Factor::SrcColor => s,
        Factor::SrcColorComplement => 255 - s,
        Factor::DestColor => d,
        Factor::DestColorComplement => 255 - d,
        Factor::SrcAlpha => sa,
        Factor::SrcAlphaComplement => 255 - sa,
        Factor::DstAlpha => da,
        Factor::DstAlphaComplement => 255 - da,
        Factor::SrcAlphaSaturate => if alpha {
            255
        } else if sa <= 255 - da {
            sa
        } else {
            255 - da
        },
    }
}

/// `x` over 255, rounded down and clamped to `0..=255`.
pub open spec fn normalized(x: int) -> int {
    if x <= 0 {
        0
    } else if x / 255 >= 255 {
        255
    } else {
        x / 255
    }
}

/// The blended value of one channel.
pub open spec fn blend_channel_spec(
    eq: Equation,
    src_fct: Factor,
    dst_fct: Factor,
    s: int,
    d: int,
    sa: int,
    da: int,
    alpha: bool,
) -> int {
    let ws = weight(src_fct, s, d, sa, da, alpha);
    let wd = weight(dst_fct, s, d, sa, da, alpha);
    match eq {
        Equation::Additive => normalized(s * ws + d * wd),
        Equation::Subtract => normalized(s * ws - d * wd),
        Equation::ReverseSubtract => normalized(d * wd - s * ws),
        Equation::Min => if s <= d {
            s
        } else {
            d
        },
        Equation::Max => if s <= d {
            d
        } else {
            s
        },
    }
}

/// The colour stored after `src` is drawn over `dst` under the blend state.
pub open spec fn blend_spec(eq: Equation, src_fct: Factor, dst_fct: Factor, src: Rgba, dst: Rgba) -> Rgba {
    let sa = src.a as int;
    let da = dst.a as int;
    Rgba {
        r: blend_channel_spec(eq, src_fct, dst_fct, src.r as int, dst.r as int, sa, da, false) as u8,
        g: blend_channel_spec(eq, src_fct, dst_fct, src.g as int, dst.g as int, sa, da, false) as u8,
        b: blend_channel_spec(eq, src_fct, dst_fct, src.b as int, dst.b as int, sa, da, false) as u8,
        a: blend_channel_spec(eq, src_fct, dst_fct, sa, da, sa, da, true) as u8,
    }
}

/// The colour that a composite of two uniformly coloured images stores: the
/// target is cleared, `left` is drawn over it under the blend state, and
/// `right` is drawn over the result under the same blend state.
pub open spec fn composite_spec(
    left: Rgba,
    right: Rgba,
    clear_color: Rgba,
    eq: Equation,
    src_fct: Factor,
    dst_fct: Factor,
) -> Rgba {
    blend_spec(eq, src_fct, dst_fct, right, blend_spec(eq, src_fct, dst_fct, left, clear_color))
}

/// The colour of every pixel of the image of a tree that is made of colour
/// nodes and composites only; `None` for a tree with any other node.
pub open spec fn uniform_color(node: Node) -> Option<Rgba>
    decreases node,
{
    match node {
        Node::Color(color) => Some(color),
        Node::Composite(left, right, clear_color, eq, src_fct, dst_fct) => match (
            uniform_color(*left),
            uniform_color(*right),
        ) {
            (Some(l), Some(r)) => Some(composite_spec(l, r, clear_color, eq, src_fct, dst_fct)),
            _ => None,
        },
        _ => None,
    }
}

/// The weight that a factor gives to a channel: see [`weight`].
pub fn factor_weight(f: Factor, s: u8, d: u8, sa: u8, da: u8, alpha: bool) -> (w: u8)
    ensures
        w == weight(f, s as int, d as int, sa as int, da as int, alpha),
{
    match f {
        Factor::One => 255,
        Factor::Zero => 0,
        Factor::SrcColor => s,
        Factor::SrcColorComplement => 255 - s,
        Factor::DestColor => d,
        Factor::DestColorComplement => 255 - d,
        Factor::SrcAlpha => sa,
        Factor::SrcAlphaComplement => 255 - sa,
        Factor::DstAlpha => da,
        Factor::DstAlphaComplement => 255 - da,
        Factor::SrcAlphaSaturate => if alpha {
            255
        } else if sa <= 255 - da {
            sa
        } else {
            255 - da
        },
    }
}

/// The blended value of one channel: see [`blend_channel_spec`].
pub fn blend_channel(
    eq: Equation,
    src_fct: Factor,
    dst_fct: Factor,
    s: u8,
    d: u8,
    sa: u8,
    da: u8,
    alpha: bool,
) -> (c: u8)
    ensures
        c == blend_channel_spec(eq, src_fct, dst_fct, s as int, d as int, sa as int, da as int, alpha),
{
    let ws: u32 = factor_weight(src_fct, s, d, sa, da, alpha) as u32;
    let wd: u32 = factor_weight(dst_fct, s, d, sa, da, alpha) as u32;
    let s32: u32 = s as u32;
    let d32: u32 = d as u32;
    proof {
        assert(s32 * ws <= 65025) by (nonlinear_arith)
            requires
                s32 <= 255,
                ws <= 255,
        ;
        assert(d32 * wd <= 65025) by (nonlinear_arith)
            requires
                d32 <= 255,
                wd <= 255,
        ;
    }
    let weighted_src: u32 = s32 * ws;
    let weighted_dst: u32 = d32 * wd;
    match eq {
        Equation::Additive => clamp_channel((weighted_src + weighted_dst) / 255),
        Equation::Subtract => if weighted_src <= weighted_dst {
            0
        } else {
            clamp_channel((weighted_src - weighted_dst) / 255)
        },
        Equation::ReverseSubtract => if weighted_dst <= weighted_src {
            0
        } else {
            clamp_channel((weighted_dst - weighted_src) / 255)
        },
        Equation::Min => if s <= d {
            s
        } else {
            d
        },
        Equation::Max => if s <= d {
            d
        } else {
            s
        },
    }
}

/// `x`, clamped to the range of a channel.
pub fn clamp_channel(x: u32) -> (c: u8)
    ensures
        c == (if x >= 255 {
            255
        } else {
            x as int
        }),
{
    if x >= 255 {
        255
    } else {
        x as u8
    }
}

/// The colour stored after `src` is drawn over `dst` under the blend state.
pub fn blend(eq: Equation, src_fct: Factor, dst_fct: Factor, src: Rgba, dst: Rgba) -> (out: Rgba)
    ensures
        out == blend_spec(eq, src_fct, dst_fct, src, dst),
{
    Rgba {
        r: blend_channel(eq, src_fct, dst_fct, src.r, dst.r, src.a, dst.a, false),
        g: blend_channel(eq, src_fct, dst_fct, src.g, dst.g, src.a, dst.a, false),
        b: blend_channel(eq, src_fct, dst_fct, src.b, dst.b, src.a, dst.a, false),
        a: blend_channel(eq, src_fct, dst_fct, src.a, dst.a, src.a, dst.a, true),
    }
}

/// The colour of every pixel of the image of a tree of colour nodes and
/// composites: see [`uniform_color`].
pub fn flat_color(node: &Node) -> (color: Option<Rgba>)
    ensures
        color == uniform_color(*node),
    decreases *node,
{
    match node {
        Node::Color(color) => Some(*color),
        Node::Composite(left, right, clear_color, eq, src_fct, dst_fct) => {
            let l = flat_color(left);
            let r = flat_color(right);
            match (l, r) {
                (Some(l), Some(r)) => {
                    let base = blend(*eq, *src_fct, *dst_fct, l, *clear_color);
                    Some(blend(*eq, *src_fct, *dst_fct, r, base))
                },
                _ => None,
            }
        },
        _ => None,
    }
}

/// The sum of two channels, clamped to the range of a channel.
pub open spec fn channel_sum(a: u8, b: u8) -> u8 {
    if a + b >= 255 {
        255u8
    } else {
        (a + b) as u8
    }
}

/// The product of two channels, as a channel: 255 stands for 1.
pub open spec fn channel_product(a: u8, b: u8) -> u8 {
    ((a * b) / 255) as u8
}

/// Adding two colours adds them channel by channel, clamped to the range of
/// a channel.
pub proof fn lemma_add_is_channel_sum(a: Rgba, b: Rgba)
    ensures
        uniform_color(Node::Color(a).plus(Node::Color(b))) == Some(
            Rgba {
                r: channel_sum(a.r, b.r),
                g: channel_sum(a.g, b.g),
                b: channel_sum(a.b, b.b),
                a: channel_sum(a.a, b.a),
            },
        ),
{
    reveal_with_fuel(uniform_color, 2);
}

/// Multiplying two colours multiplies them channel by channel.
pub proof fn lemma_mul_is_channel_product(a: Rgba, b: Rgba)
    ensures
        uniform_color(Node::Color(a).times(Node::Color(b))) == Some(
            Rgba {
                r: channel_product(a.r, b.r),
                g: channel_product(a.g, b.g),
                b: channel_product(a.b, b.b),
                a: channel_product(a.a, b.a),
            },
        ),
{
    reveal_with_fuel(uniform_color, 2);
    lemma_product_fits(a.r, b.r);
    lemma_product_fits(a.g, b.g);
    lemma_product_fits(a.b, b.b);
    lemma_product_fits(a.a, b.a);
}

/// The product of two channels, over 255, is a channel again.
pub proof fn lemma_product_fits(a: u8, b: u8)
    ensures
        0 <= a * b <= 65025,
        0 <= (a * b) / 255 <= 255,
        b * a == a * b,
{
    assert(0 <= a * b <= 65025 && b * a == a * b) by (nonlinear_arith)
        requires
            0 <= a <= 255,
            0 <= b <= 255,
    ;
}

/// Alpha blending of one channel: a source alpha of 255 stores the source,
/// a source alpha of 0 keeps the destination, and over a destination of 0
/// the source is stored weighted by its alpha.
pub proof fn lemma_alpha_blend_channel(s: int, d: int, sa: int, da: int, alpha: bool)
    requires
        0 <= s <= 255,
        0 <= d <= 255,
        0 <= sa <= 255,
    ensures
        sa == 255 ==> blend_channel_spec(
            Equation::Additive,
            Factor::SrcAlpha,
            Factor::SrcAlphaComplement,
            s,
            d,
            sa,
            da,
            alpha,
        ) == s,
        sa == 0 ==> blend_channel_spec(
            Equation::Additive,
            Factor::SrcAlpha,
            Factor::SrcAlphaComplement,
            s,
            d,
            sa,
            da,
            alpha,
        ) == d,
        d == 0 ==> blend_channel_spec(
            Equation::Additive,
            Factor::SrcAlpha,
            Factor::SrcAlphaComplement,
            s,
            d,
            sa,
            da,
            alpha,
        ) == (s * sa) / 255,
        0 <= (s * sa) / 255 <= 255,
{
    let ws = sa;
    let wd = 255 - sa;
    assert(0 <= s * sa <= 65025) by (nonlinear_arith)
        requires
            0 <= s <= 255,
            0 <= sa <= 255,
    ;
    if sa == 255 {
        assert(s * ws == s * 255);
        assert(d * wd == 0);
    }
    if sa == 0 {
        assert(s * ws == 0);
        assert(d * wd == d * 255);
    }
    if d == 0 {
        assert(d * wd == 0);
    }
}

/// A fully opaque foreground hides the background: laid over any colour,
/// a colour whose alpha is 255 shows unchanged.
pub proof fn lemma_opaque_over_hides(a: Rgba, b: Rgba)
    requires
        a.a == 255,
    ensures
        uniform_color(Node::Color(a).on_top_of(Node::Color(b))) == Some(a),
{
    reveal_with_fuel(uniform_color, 2);
    let base = blend_spec(
        Equation::Additive,
        Factor::SrcAlpha,
        Factor::SrcAlphaComplement,
        b,
        Rgba::transparent(),
    );
    lemma_alpha_blend_channel(a.r as int, base.r as int, 255, base.a as int, false);
    lemma_alpha_blend_channel(a.g as int, base.g as int, 255, base.a as int, false);
    lemma_alpha_blend_channel(a.b as int, base.b as int, 255, base.a as int, false);
    lemma_alpha_blend_channel(255, base.a as int, 255, base.a as int, true);
}

/// Under a fully transparent foreground the background shows weighted by
/// its own alpha, since it is drawn under the same blend state as the
/// foreground.
pub proof fn lemma_transparent_over_weighs_background(a: Rgba, b: Rgba)
    requires
        a.a == 0,
    ensures
        uniform_color(Node::Color(a).on_top_of(Node::Color(b))) == Some(
            Rgba {
                r: channel_product(b.r, b.a),
                g: channel_product(b.g, b.a),
                b: channel_product(b.b, b.a),
                a: channel_product(b.a, b.a),
            },
        ),
{
    reveal_with_fuel(uniform_color, 2);
    let base = blend_spec(
        Equation::Additive,
        Factor::SrcAlpha,
        Factor::SrcAlphaComplement,
        b,
        Rgba::transparent(),
    );
    lemma_alpha_blend_channel(b.r as int, 0, b.a as int, 0, false);
    lemma_alpha_blend_channel(b.g as int, 0, b.a as int, 0, false);
    lemma_alpha_blend_channel(b.b as int, 0, b.a as int, 0, false);
    lemma_alpha_blend_channel(b.a as int, 0, b.a as int, 0, true);
    assert(base == Rgba {
        r: channel_product(b.r, b.a),
        g: channel_product(b.g, b.a),
        b: channel_product(b.b, b.a),
        a: channel_product(b.a, b.a),
    });
    lemma_alpha_blend_channel(a.r as int, base.r as int, 0, base.a as int, false);
    lemma_alpha_blend_channel(a.g as int, base.g as int, 0, base.a as int, false);
    lemma_alpha_blend_channel(a.b as int, base.b as int, 0, base.a as int, false);
    lemma_alpha_blend_channel(0, base.a as int, 0, base.a as int, true);
}

/// A fully transparent foreground shows the background: laid over an opaque
/// colour, a colour whose alpha is 0 shows that colour.
pub proof fn lemma_transparent_over_reveals(a: Rgba, b: Rgba)
    requires
        a.a == 0,
        b.a == 255,
    ensures
        uniform_color(Node::Color(a).on_top_of(Node::Color(b))) == Some(b),
{
    lemma_transparent_over_weighs_background(a, b);
    assert(b.r * 255 / 255 == b.r);
    assert(b.g * 255 / 255 == b.g);
    assert(b.b * 255 / 255 == b.b);
}

/// The colour of every pixel of `target` after the commands, where the
/// commands fix one: a clear stores its colour, a blend of a uniformly
/// coloured source over a uniformly coloured target stores what the blend
/// stage gives, and any other drawing into the target leaves no known colour.
pub open spec fn stored_color(commands: Seq<Command>, target: usize) -> Option<Rgba>
    decreases commands.len(),
{
    if commands.len() == 0 {
        None
    } else {
        let before = commands.drop_last();
        let kept = stored_color(before, target);
        match commands.last() {
            Command::Allocate { target: t, .. } => if t == target {
                None
            } else {
                kept
            },
            Command::Render { target: t, .. } => if t == target {
                None
            } else {
                kept
            },
            Command::Clear { target: t, color } => if t == target {
                Some(color)
            } else {
                kept
            },
            Command::Texture { target: t, .. } => if t == target {
                None
            } else {
                kept
            },
            Command::Effect { target: t, .. } => if t == target {
                None
            } else {
                kept
            },
            Command::Blend { target: t, source, unit, equation, src_factor, dst_factor } => if t
                == target {
                match (stored_color(before, source), kept) {
                    (Some(s), Some(d)) => Some(blend_spec(equation, src_factor, dst_factor, s, d)),
                    _ => None,
                }
            } else {
                kept
            },
            Command::Present { .. } => kept,
        }
    }
}

/// Whether the targets in use in `before` hold in `after` the colours they
/// held in `before`.
pub open spec fn keeps_colors(before: CompositorView, after: CompositorView) -> bool {
    forall|u: usize|
        before.in_use().contains(u) ==> #[trigger] stored_color(after.commands, u) == stored_color(
            before.commands,
            u,
        )
}

/// One more command: what was queued is what comes before it.
pub proof fn lemma_queue_step(s: CompositorView, c: Command)
    ensures
        s.queue(c).commands.len() > 0,
        s.queue(c).commands.drop_last() == s.commands,
        s.queue(c).commands.last() == c,
        s.queue(c).in_use() == s.in_use(),
        s.queue(c).wf() == s.wf(),
        s.queue(c).allocated == s.allocated,
{
    assert(s.commands.push(c).drop_last() =~= s.commands);
    assert(s.queue(c).in_use() =~= s.in_use());
}

/// Pulling a target changes the colour of no target that is in use.
pub proof fn lemma_pull_keeps_colors(s: CompositorView)
    requires
        s.wf(),
        s.free.len() == 0 ==> s.allocated < usize::MAX,
    ensures
        keeps_colors(s, s.pull().1),
{
    if s.free.len() == 0 {
        let c = Command::Allocate { target: s.allocated as usize, width: s.w, height: s.h };
        assert(s.commands.push(c).drop_last() =~= s.commands);
    }
}

/// Evaluating a node never removes a target.
pub proof fn lemma_allocated_grows(s: CompositorView, node: Node)
    ensures
        s.allocated <= s.treat_node(node).1.allocated,
    decreases node,
{
    match node {
        Node::Composite(left, right, clear_color, eq, src_fct, dst_fct) => {
            let (left_index, s1) = s.treat_node(*left);
            lemma_allocated_grows(s, *left);
            lemma_allocated_grows(s1, *right);
        },
        _ => {},
    }
}

/// What the queue does is what the node means. Evaluating a node hands out
/// one target that was not in use, keeps the free list sound, and leaves the
/// colours of the targets in use as they were; and where the tree is made of
/// colour nodes and composites only, the queued commands leave in the
/// returned target the colour that the blend algebra gives to the tree.
pub proof fn lemma_evaluation_stores_color(s: CompositorView, node: Node)
    requires
        s.wf(),
        s.treat_node(node).1.allocated <= usize::MAX,
    ensures
        s.treat_node(node).1.wf(),
        !s.in_use().contains(s.treat_node(node).0),
        s.treat_node(node).1.in_use() == s.in_use().insert(s.treat_node(node).0),
        keeps_colors(s, s.treat_node(node).1),
        uniform_color(node) is Some ==> stored_color(
            s.treat_node(node).1.commands,
            s.treat_node(node).0,
        ) == uniform_color(node),
    decreases node,
{
    match node {
        Node::Composite(left, right, clear_color, eq, src_fct, dst_fct) => {
            let (li, s1) = s.treat_node(*left);
            let (ri, s2) = s1.treat_node(*right);
            let (t, p) = s2.pull();
            lemma_allocated_grows(s, *left);
            lemma_allocated_grows(s1, *right);
            lemma_evaluation_stores_color(s, *left);
            lemma_evaluation_stores_color(s1, *right);
            lemma_pull(s2);
            lemma_pull_keeps_colors(s2);
            let clear = Command::Clear { target: t, color: clear_color };
            let draw_left = Command::Blend {
                target: t,
                source: li,
                unit: 0,
                equation: eq,
                src_factor: src_fct,
                dst_factor: dst_fct,
            };
            let draw_right = Command::Blend {
                target: t,
                source: ri,
                unit: 1,
                equation: eq,
                src_factor: src_fct,
                dst_factor: dst_fct,
            };
            let q1 = p.queue(clear);
            let q2 = q1.queue(draw_left);
            let q3 = q2.queue(draw_right);
            lemma_queue_step(p, clear);
            lemma_queue_step(q1, draw_left);
            lemma_queue_step(q2, draw_right);
            assert(s1.in_use().contains(li));
            assert(s2.in_use().contains(li));
            assert(s2.in_use().contains(ri));
            assert(li != ri);
            assert(t != li && t != ri);
            lemma_dispose(q3, li);
            lemma_dispose(q3.dispose(li), ri);
            let out = q3.dispose(li).dispose(ri);
            assert(out == s.treat_node(node).1);
            assert(out.in_use() =~= s.in_use().insert(t));
            assert forall|u: usize| s.in_use().contains(u) implies #[trigger] stored_color(
                out.commands,
                u,
            ) == stored_color(s.commands, u) by {
                assert(s1.in_use().contains(u));
                assert(s2.in_use().contains(u));
                assert(u != t);
                assert(stored_color(s1.commands, u) == stored_color(s.commands, u));
                assert(stored_color(s2.commands, u) == stored_color(s1.commands, u));
                assert(stored_color(p.commands, u) == stored_color(s2.commands, u));
                assert(stored_color(q1.commands, u) == stored_color(p.commands, u));
                assert(stored_color(q2.commands, u) == stored_color(q1.commands, u));
                assert(stored_color(q3.commands, u) == stored_color(q2.commands, u));
            }
            if uniform_color(node) is Some {
                let l = uniform_color(*left).unwrap();
                let r = uniform_color(*right).unwrap();
                assert(stored_color(s1.commands, li) == Some(l));
                assert(stored_color(s2.commands, li) == Some(l));
                assert(stored_color(s2.commands, ri) == Some(r));
                assert(stored_color(p.commands, li) == Some(l));
                assert(stored_color(p.commands, ri) == Some(r));
                assert(stored_color(q1.commands, t) == Some(clear_color));
                assert(stored_color(q1.commands, li) == Some(l));
                assert(stored_color(q1.commands, ri) == Some(r));
                let base = blend_spec(eq, src_fct, dst_fct, l, clear_color);
                assert(stored_color(q2.commands, t) == Some(base));
                assert(stored_color(q2.commands, ri) == Some(r));
                assert(stored_color(q3.commands, t) == Some(blend_spec(eq, src_fct, dst_fct, r, base)));
            }
        },
        Node::Color(color) => {
            let (t, p) = s.pull();
            lemma_pull(s);
            lemma_pull_keeps_colors(s);
            let c = Command::Clear { target: t, color };
            lemma_queue_step(p, c);
            assert forall|u: usize| s.in_use().contains(u) implies #[trigger] stored_color(
                p.queue(c).commands,
                u,
            ) == stored_color(s.commands, u) by {
                assert(stored_color(p.commands, u) == stored_color(s.commands, u));
            }
        },
        Node::Render(layer) => {
            let (t, p) = s.pull();
            lemma_pull(s);
            lemma_pull_keeps_colors(s);
            let c = Command::Render { target: t, layer };
            lemma_queue_step(p, c);
            assert forall|u: usize| s.in_use().contains(u) implies #[trigger] stored_color(
                p.queue(c).commands,
                u,
            ) == stored_color(s.commands, u) by {
                assert(stored_color(p.commands, u) == stored_color(s.commands, u));
            }
        },
        Node::Texture(texture, opt_scale) => {
            let (t, p) = s.pull();
            lemma_pull(s);
            lemma_pull_keeps_colors(s);
            let c = Command::Clear { target: t, color: Rgba::black() };
            let q = p.queue(c);
            let d = s.texturize(texture, opt_scale).1.commands.last();
            lemma_queue_step(p, c);
            lemma_queue_step(q, d);
            assert(q.queue(d) == s.texturize(texture, opt_scale).1);
            assert forall|u: usize| s.in_use().contains(u) implies #[trigger] stored_color(
                q.queue(d).commands,
                u,
            ) == stored_color(s.commands, u) by {
                assert(stored_color(p.commands, u) == stored_color(s.commands, u));
                assert(stored_color(q.commands, u) == stored_color(p.commands, u));
            }
        },
        Node::FullscreenEffect(program) => {
            let (t, p) = s.pull();
            lemma_pull(s);
            lemma_pull_keeps_colors(s);
            let c = Command::Clear { target: t, color: Rgba::black() };
            let q = p.queue(c);
            let d = Command::Effect { target: t, program };
            lemma_queue_step(p, c);
            lemma_queue_step(q, d);
            assert forall|u: usize| s.in_use().contains(u) implies #[trigger] stored_color(
                q.queue(d).commands,
                u,
            ) == stored_color(s.commands, u) by {
                assert(stored_color(p.commands, u) == stored_color(s.commands, u));
                assert(stored_color(q.commands, u) == stored_color(p.commands, u));
            }
        },
    }
}

} // verus!
