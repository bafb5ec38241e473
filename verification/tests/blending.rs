use spectra::blending::{blend, blend_channel, clamp_channel, factor_weight, flat_color};
use spectra::color::Rgba;
use spectra::compositing::{Equation, Factor, Node, RenderLayer};

fn color(r: u8, g: u8, b: u8, a: u8) -> Node {
    Node::Color(Rgba::new(r, g, b, a))
}

#[test]
fn sum_of_two_colors_is_clamped_channel_sum() {
    let a = color(10, 200, 0, 255);
    let b = color(20, 100, 0, 1);
    assert_eq!(flat_color(&(a + b)), Some(Rgba::new(30, 255, 0, 255)));
}

#[test]
fn product_of_two_colors_is_channel_product() {
    let a = color(255, 128, 0, 51);
    let b = color(77, 128, 200, 255);
    assert_eq!(flat_color(&(a * b)), Some(Rgba::new(77, 64, 0, 51)));
}

#[test]
fn difference_draws_source_minus_destination() {
    // the right node is the source of the second draw
    let a = color(10, 50, 0, 0);
    let b = color(30, 20, 0, 0);
    assert_eq!(flat_color(&(a - b)), Some(Rgba::new(20, 0, 0, 0)));
}

#[test]
fn opaque_foreground_hides_background() {
    let a = color(1, 2, 3, 255);
    let b = color(200, 100, 50, 128);
    assert_eq!(flat_color(&a.over(b)), Some(Rgba::new(1, 2, 3, 255)));
}

#[test]
fn transparent_foreground_reveals_opaque_background() {
    let a = color(1, 2, 3, 0);
    let b = color(200, 100, 50, 255);
    assert_eq!(flat_color(&a.over(b)), Some(Rgba::new(200, 100, 50, 255)));
}

#[test]
fn transparent_foreground_over_translucent_background() {
    let a = color(1, 2, 3, 0);
    let b = color(255, 100, 0, 128);
    assert_eq!(flat_color(&a.over(b)), Some(Rgba::new(128, 50, 0, 64)));
}

#[test]
fn half_transparent_foreground_mixes() {
    let a = color(255, 0, 0, 128);
    let b = color(0, 255, 0, 255);
    // foreground weighted by 128, background by 127
    assert_eq!(flat_color(&a.over(b)), Some(Rgba::new(128, 127, 0, 191)));
}

#[test]
fn only_color_trees_have_a_flat_color() {
    assert_eq!(flat_color(&color(1, 2, 3, 4)), Some(Rgba::new(1, 2, 3, 4)));
    assert_eq!(flat_color(&Node::Render(RenderLayer::new(0))), None);
    assert_eq!(flat_color(&(color(1, 2, 3, 4) + Node::Render(RenderLayer::new(0)))), None);
    assert_eq!(flat_color(&(Node::Render(RenderLayer::new(0)) * color(1, 2, 3, 4))), None);
}

#[test]
fn weights_of_each_factor() {
    let w = |f| factor_weight(f, 10, 20, 30, 40, false);
    assert_eq!(w(Factor::One), 255);
    assert_eq!(w(Factor::Zero), 0);
    assert_eq!(w(Factor::SrcColor), 10);
    assert_eq!(w(Factor::SrcColorComplement), 245);
    assert_eq!(w(Factor::DestColor), 20);
    assert_eq!(w(Factor::DestColorComplement), 235);
    assert_eq!(w(Factor::SrcAlpha), 30);
    assert_eq!(w(Factor::SrcAlphaComplement), 225);
    assert_eq!(w(Factor::DstAlpha), 40);
    assert_eq!(w(Factor::DstAlphaComplement), 215);
    assert_eq!(w(Factor::SrcAlphaSaturate), 30);
    assert_eq!(factor_weight(Factor::SrcAlphaSaturate, 10, 20, 230, 40, false), 215);
    assert_eq!(factor_weight(Factor::SrcAlphaSaturate, 10, 20, 30, 40, true), 255);
}

#[test]
fn each_equation_on_one_channel() {
    let one = Factor::One;
    assert_eq!(blend_channel(Equation::Additive, one, one, 100, 50, 0, 0, false), 150);
    assert_eq!(blend_channel(Equation::Additive, one, one, 200, 100, 0, 0, false), 255);
    assert_eq!(blend_channel(Equation::Subtract, one, one, 100, 30, 0, 0, false), 70);
    assert_eq!(blend_channel(Equation::Subtract, one, one, 30, 100, 0, 0, false), 0);
    assert_eq!(blend_channel(Equation::ReverseSubtract, one, one, 30, 100, 0, 0, false), 70);
    assert_eq!(blend_channel(Equation::ReverseSubtract, one, one, 100, 30, 0, 0, false), 0);
    assert_eq!(blend_channel(Equation::Min, one, one, 100, 30, 0, 0, false), 30);
    assert_eq!(blend_channel(Equation::Max, one, one, 100, 30, 0, 0, false), 100);
    assert_eq!(clamp_channel(254), 254);
    assert_eq!(clamp_channel(255), 255);
    assert_eq!(clamp_channel(510), 255);
}

#[test]
fn blend_uses_source_alpha_on_every_channel() {
    let out = blend(
        Equation::Additive,
        Factor::SrcAlpha,
        Factor::SrcAlphaComplement,
        Rgba::new(255, 255, 255, 51),
        Rgba::new(0, 0, 0, 255),
    );
    assert_eq!(out, Rgba::new(51, 51, 51, 214));
}

#[test]
fn flat_color_follows_the_queued_draws() {
    // clear to transparent, draw the background, draw the foreground
    let foreground = Rgba::new(255, 0, 0, 128);
    let background = Rgba::new(0, 255, 0, 255);
    let eq = Equation::Additive;
    let (src, dst) = (Factor::SrcAlpha, Factor::SrcAlphaComplement);
    let base = blend(eq, src, dst, background, Rgba::new(0, 0, 0, 0));
    let shown = blend(eq, src, dst, foreground, base);
    let tree = Node::Color(foreground).over(Node::Color(background));
    assert_eq!(flat_color(&tree), Some(shown));
}
