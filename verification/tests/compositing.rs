use spectra::color::Rgba;
use spectra::compositing::{
    Command, Compositor, Equation, Factor, Node, Program, RenderLayer, TextureLayer, UvScale,
};

fn color(r: u8, g: u8, b: u8, a: u8) -> Node {
    Node::Color(Rgba::new(r, g, b, a))
}

fn in_use(c: &Compositor) -> Vec<usize> {
    (0..c.allocated()).filter(|i| c.is_in_use(*i)).collect()
}

#[test]
fn released_target_is_reused_before_growth() {
    let mut c = Compositor::new(640, 480);
    let a = c.pull_framebuffer();
    let b = c.pull_framebuffer();
    assert_eq!((a, b), (0, 1));
    assert_eq!(c.allocated(), 2);
    c.dispose_framebuffer(a);
    assert_eq!(c.pull_framebuffer(), a);
    assert_eq!(c.allocated(), 2);
    // nothing is free now: the pool grows
    assert_eq!(c.pull_framebuffer(), 2);
    assert_eq!(c.allocated(), 3);
    // last released, first reused
    c.dispose_framebuffer(0);
    c.dispose_framebuffer(2);
    assert_eq!(c.pull_framebuffer(), 2);
    assert_eq!(c.pull_framebuffer(), 0);
}

#[test]
fn allocation_is_queued_with_the_output_size() {
    let mut c = Compositor::new(640, 480);
    let a = c.pull_framebuffer();
    assert_eq!(c.take_commands(), vec![Command::Allocate { target: a, width: 640, height: 480 }]);
    c.dispose_framebuffer(a);
    assert_eq!(c.pull_framebuffer(), a);
    assert_eq!(c.take_commands(), vec![]);
}

#[test]
fn in_use_tracks_pull_and_dispose() {
    let mut c = Compositor::new(1, 1);
    assert!(!c.is_in_use(0));
    let a = c.pull_framebuffer();
    assert!(c.is_in_use(a));
    assert!(!c.is_in_use(a + 1));
    c.dispose_framebuffer(a);
    assert!(!c.is_in_use(a));
}

#[test]
fn display_leaves_in_use_set_unchanged() {
    let mut c = Compositor::new(8, 8);
    let held = c.pull_framebuffer();
    let before = in_use(&c);
    assert_eq!(before, vec![held]);

    let tree = (color(1, 2, 3, 4) + color(5, 6, 7, 8)).over(
        Node::Render(RenderLayer::new(7)) * Node::FullscreenEffect(Program { program: 2 }),
    );
    c.display(tree);
    assert_eq!(in_use(&c), before);
    let grown = c.allocated();

    // a second frame reuses what the first one created
    let tree = (color(1, 2, 3, 4) + color(5, 6, 7, 8)).over(
        Node::Render(RenderLayer::new(7)) * Node::FullscreenEffect(Program { program: 2 }),
    );
    c.display(tree);
    assert_eq!(in_use(&c), before);
    assert_eq!(c.allocated(), grown);
}

#[test]
fn display_of_a_color_clears_and_presents() {
    let mut c = Compositor::new(320, 200);
    c.display(color(10, 20, 30, 40));
    assert_eq!(
        c.take_commands(),
        vec![
            Command::Allocate { target: 0, width: 320, height: 200 },
            Command::Clear { target: 0, color: Rgba::new(10, 20, 30, 40) },
            Command::Present { source: 0 },
        ]
    );
    assert_eq!(in_use(&c), Vec::<usize>::new());
}

#[test]
fn composite_draws_left_before_right() {
    let mut c = Compositor::new(2, 2);
    let left = Node::Render(RenderLayer::new(1));
    let right = Node::Render(RenderLayer::new(2));
    let node = left.compose_with(
        right,
        Rgba::new(9, 9, 9, 9),
        Equation::Subtract,
        Factor::SrcAlpha,
        Factor::DstAlpha,
    );
    let target = c.treat_node(node);
    assert_eq!(target, 2);
    assert_eq!(
        c.take_commands(),
        vec![
            Command::Allocate { target: 0, width: 2, height: 2 },
            Command::Render { target: 0, layer: RenderLayer::new(1) },
            Command::Allocate { target: 1, width: 2, height: 2 },
            Command::Render { target: 1, layer: RenderLayer::new(2) },
            Command::Allocate { target: 2, width: 2, height: 2 },
            Command::Clear { target: 2, color: Rgba::new(9, 9, 9, 9) },
            Command::Blend {
                target: 2,
                source: 0,
                unit: 0,
                equation: Equation::Subtract,
                src_factor: Factor::SrcAlpha,
                dst_factor: Factor::DstAlpha,
            },
            Command::Blend {
                target: 2,
                source: 1,
                unit: 1,
                equation: Equation::Subtract,
                src_factor: Factor::SrcAlpha,
                dst_factor: Factor::DstAlpha,
            },
        ]
    );
    assert_eq!(in_use(&c), vec![2]);
}

#[test]
fn over_draws_the_background_first() {
    let mut c = Compositor::new(2, 2);
    let foreground = Node::Render(RenderLayer::new(1));
    let background = Node::Render(RenderLayer::new(2));
    c.display(foreground.over(background));
    let commands = c.take_commands();
    let renders: Vec<usize> = commands
        .iter()
        .filter_map(|c| match c {
            Command::Render { layer, .. } => Some(layer.render),
            _ => None,
        })
        .collect();
    assert_eq!(renders, vec![2, 1]);
}

#[test]
fn nested_composites_need_three_targets() {
    let mut c = Compositor::new(2, 2);
    let tree = ((color(1, 0, 0, 0) + color(2, 0, 0, 0)) + color(3, 0, 0, 0)) + color(4, 0, 0, 0);
    c.display(tree);
    assert_eq!(c.allocated(), 3);
    assert_eq!(in_use(&c), Vec::<usize>::new());
}

#[test]
fn texture_defaults_to_unit_scale() {
    let mut c = Compositor::new(2, 2);
    let t = c.texturize(TextureLayer { texture: 5 }, None);
    let u = c.texturize(TextureLayer { texture: 6 }, Some(UvScale { u: 500, v: 2000 }));
    assert_eq!(
        c.take_commands(),
        vec![
            Command::Allocate { target: t, width: 2, height: 2 },
            Command::Clear { target: t, color: Rgba::new(0, 0, 0, 255) },
            Command::Texture {
                target: t,
                texture: TextureLayer { texture: 5 },
                scale: UvScale { u: 1000, v: 1000 },
            },
            Command::Allocate { target: u, width: 2, height: 2 },
            Command::Clear { target: u, color: Rgba::new(0, 0, 0, 255) },
            Command::Texture {
                target: u,
                texture: TextureLayer { texture: 6 },
                scale: UvScale { u: 500, v: 2000 },
            },
        ]
    );
}

#[test]
fn effect_and_render_and_color_fill_a_pulled_target() {
    let mut c = Compositor::new(2, 2);
    let e = c.fullscreen_effect(Program { program: 3 });
    let r = c.render(RenderLayer::new(4));
    let k = c.colorize(Rgba::new(1, 2, 3, 4));
    assert_eq!((e, r, k), (0, 1, 2));
    assert_eq!(
        c.take_commands(),
        vec![
            Command::Allocate { target: 0, width: 2, height: 2 },
            Command::Clear { target: 0, color: Rgba::new(0, 0, 0, 255) },
            Command::Effect { target: 0, program: Program { program: 3 } },
            Command::Allocate { target: 1, width: 2, height: 2 },
            Command::Render { target: 1, layer: RenderLayer::new(4) },
            Command::Allocate { target: 2, width: 2, height: 2 },
            Command::Clear { target: 2, color: Rgba::new(1, 2, 3, 4) },
        ]
    );
}

#[test]
fn operators_build_composites() {
    let a = || color(1, 2, 3, 4);
    let b = || color(5, 6, 7, 8);
    let zero = Rgba::new(0, 0, 0, 0);
    let one = Rgba::new(255, 255, 255, 255);
    assert_eq!(
        a() + b(),
        Node::Composite(Box::new(a()), Box::new(b()), zero, Equation::Additive, Factor::One, Factor::One)
    );
    assert_eq!(
        a() - b(),
        Node::Composite(Box::new(a()), Box::new(b()), zero, Equation::Subtract, Factor::One, Factor::One)
    );
    assert_eq!(
        a() * b(),
        Node::Composite(
            Box::new(a()),
            Box::new(b()),
            one,
            Equation::Additive,
            Factor::Zero,
            Factor::SrcColor
        )
    );
    assert_eq!(
        a().over(b()),
        Node::Composite(
            Box::new(b()),
            Box::new(a()),
            zero,
            Equation::Additive,
            Factor::SrcAlpha,
            Factor::SrcAlphaComplement
        )
    );
}

#[test]
fn nodes_from_their_content() {
    assert_eq!(Node::from(RenderLayer::new(3)), Node::Render(RenderLayer { render: 3 }));
    assert_eq!(
        Node::from(TextureLayer { texture: 4 }),
        Node::Texture(TextureLayer { texture: 4 }, Some(UvScale { u: 1000, v: 1000 }))
    );
    assert_eq!(Node::from(Rgba::new(1, 2, 3, 4)), color(1, 2, 3, 4));
    assert_eq!(Node::from(Program { program: 5 }), Node::FullscreenEffect(Program { program: 5 }));
}
