//! Compositing nodes and the compositor that plans how to draw them.
//!
//! A [`Node`] describes a rendering operation or a blend of two. The
//! [`Compositor`] walks a node tree and queues the [`Command`]s a graphics
//! host has to perform, drawing into off-screen targets that it hands out and
//! takes back by index.

use vstd::prelude::*;
use crate::blending::{lemma_evaluation_stores_color, lemma_queue_step, stored_color, uniform_color};
use crate::color::Rgba;

verus! {

/// The texture scale that leaves coordinates unchanged: scales are counted in
/// thousandths.
pub const SCALE_UNIT: u32 = 1000;

/// How the weighted source and destination colours are combined.
#[derive(Clone, Copy, Debug, PartialEq, Eq, Structural)]
pub enum Equation {
    /// `source + destination`.
    Additive,
    /// `source - destination`.
    Subtract,
    /// `destination - source`.
    ReverseSubtract,
    /// Channel-wise minimum.
    Min,
    /// Channel-wise maximum.
    Max,
}

/// The weight given to the source or to the destination colour of a blend.
#[derive(Clone, Copy, Debug, PartialEq, Eq, Structural)]
pub enum Factor {
    One,
    Zero,
    SrcColor,
    SrcColorComplement,
    DestColor,
    DestColorComplement,
    SrcAlpha,
    SrcAlphaComplement,
    DstAlpha,
    DstAlphaComplement,
    SrcAlphaSaturate,
}

/// Handle of a render routine that the host owns; the routine draws into the
/// target it is given.
#[derive(Clone, Copy, Debug, PartialEq, Eq, Structural)]
pub struct RenderLayer {
    pub render: usize,
}

impl RenderLayer {
    /// Wraps the handle of a host render routine.
    pub fn new(render: usize) -> (layer: RenderLayer)
        ensures
            layer.render == render,
    {
        RenderLayer { render }
    }
}

/// Handle of a two-dimensional colour image that the host owns.
#[derive(Clone, Copy, Debug, PartialEq, Eq, Structural)]
pub struct TextureLayer {
    pub texture: usize,
}

/// Scale applied to the two texture coordinates, in thousandths.
#[derive(Clone, Copy, Debug, PartialEq, Eq, Structural)]
pub struct UvScale {
    pub u: u32,
    pub v: u32,
}

/// Handle of a shader program that the host owns.
#[derive(Clone, Copy, Debug, PartialEq, Eq, Structural)]
pub struct Program {
    pub program: usize,
}

/// Compositing node.
#[derive(Debug, PartialEq, Eq)]
pub enum Node {
    /// A render node: the host routine draws the target's whole content.
    Render(RenderLayer),
    /// A texture node, with the optional scale applied to the coordinates when
    /// the texture is sampled.
    Texture(TextureLayer, Option<UvScale>),
    /// A single colour.
    Color(Rgba),
    /// A blend of two nodes: the left one is drawn first, the right one on top
    /// of it, into a target cleared to the colour, under the equation and the
    /// source and destination factors.
    Composite(Box<Node>, Box<Node>, Rgba, Equation, Factor, Factor),
    /// A shader program run over the whole target, without inputs.
    FullscreenEffect(Program),
}

impl Node {
    /// Number of nodes in the tree.
    pub open spec fn size(self) -> nat
        decreases self,
    {
        match self {
            Node::Composite(left, right, _, _, _, _) => 1 + left.size() + right.size(),
            _ => 1,
        }
    }

    /// Number of free targets with which the tree is evaluated without any
    /// new target: one for a leaf; for a composite, enough for the left
    /// child, for the right child beside the left result, and for the two
    /// results beside the target they are blended into.
    pub open spec fn demand(self) -> nat
        decreases self,
    {
        match self {
            Node::Composite(left, right, _, _, _, _) => {
                let l = left.demand();
                let r = 1 + right.demand();
                if l >= r && l >= 3 {
                    l
                } else if r >= 3 {
                    r
                } else {
                    3
                }
            },
            _ => 1,
        }
    }

    /// `self + rhs`: the additive blend of the two nodes.
    pub open spec fn plus(self, rhs: Node) -> Node {
        Node::Composite(
            Box::new(self),
            Box::new(rhs),
            Rgba::transparent(),
            Equation::Additive,
            Factor::One,
            Factor::One,
        )
    }

    /// `self - rhs`: the subtractive blend of the two nodes.
    pub open spec fn minus(self, rhs: Node) -> Node {
        Node::Composite(
            Box::new(self),
            Box::new(rhs),
            Rgba::transparent(),
            Equation::Subtract,
            Factor::One,
            Factor::One,
        )
    }

    /// `self * rhs`: the channel-wise product of the two nodes.
    pub open spec fn times(self, rhs: Node) -> Node {
        Node::Composite(
            Box::new(self),
            Box::new(rhs),
            Rgba::white(),
            Equation::Additive,
            Factor::Zero,
            Factor::SrcColor,
        )
    }

    /// `self.over(rhs)`: `rhs` is the background, drawn first, and `self` is
    /// blended on top of it by its own alpha.
    pub open spec fn on_top_of(self, rhs: Node) -> Node {
        Node::Composite(
            Box::new(rhs),
            Box::new(self),
            Rgba::transparent(),
            Equation::Additive,
            Factor::SrcAlpha,
            Factor::SrcAlphaComplement,
        )
    }

    /// Compose this node with another one.
    pub fn compose_with(
        self,
        rhs: Node,
        clear_color: Rgba,
        eq: Equation,
        src_fct: Factor,
        dst_fct: Factor,
    ) -> (node: Node)
        ensures
            node == Node::Composite(Box::new(self), Box::new(rhs), clear_color, eq, src_fct, dst_fct),
    {
        Node::Composite(Box::new(self), Box::new(rhs), clear_color, eq, src_fct, dst_fct)
    }

    /// Compose this node over the other: `rhs` becomes the background, drawn
    /// first, and this node is blended on top of it by its own alpha.
    pub fn over(self, rhs: Node) -> (node: Node)
        ensures
            node == self.on_top_of(rhs),
    {
        rhs.compose_with(
            self,
            Rgba::new(0, 0, 0, 0),
            Equation::Additive,
            Factor::SrcAlpha,
            Factor::SrcAlphaComplement,
        )
    }
}

impl From<RenderLayer> for Node {
    fn from(layer: RenderLayer) -> (node: Node) {
        Node::Render(layer)
    }
}

impl vstd::std_specs::convert::FromSpecImpl<RenderLayer> for Node {
    open spec fn obeys_from_spec() -> bool {
        true
    }

    open spec fn from_spec(layer: RenderLayer) -> Node {
        Node::Render(layer)
    }
}

impl From<TextureLayer> for Node {
    fn from(texture: TextureLayer) -> (node: Node) {
        Node::Texture(texture, Some(UvScale { u: SCALE_UNIT, v: SCALE_UNIT }))
    }
}

impl vstd::std_specs::convert::FromSpecImpl<TextureLayer> for Node {
    open spec fn obeys_from_spec() -> bool {
        true
    }

    open spec fn from_spec(texture: TextureLayer) -> Node {
        Node::Texture(texture, Some(UvScale { u: SCALE_UNIT, v: SCALE_UNIT }))
    }
}

impl From<Rgba> for Node {
    fn from(color: Rgba) -> (node: Node) {
        Node::Color(color)
    }
}

impl vstd::std_specs::convert::FromSpecImpl<Rgba> for Node {
    open spec fn obeys_from_spec() -> bool {
        true
    }

    open spec fn from_spec(color: Rgba) -> Node {
        Node::Color(color)
    }
}

impl From<Program> for Node {
    fn from(program: Program) -> (node: Node) {
        Node::FullscreenEffect(program)
    }
}

impl vstd::std_specs::convert::FromSpecImpl<Program> for Node {
    open spec fn obeys_from_spec() -> bool {
        true
    }

    open spec fn from_spec(program: Program) -> Node {
        Node::FullscreenEffect(program)
    }
}

impl core::ops::Add for Node {
    type Output = Node;

    /// Additive blend of the two nodes.
    fn add(self, rhs: Node) -> (node: Node) {
        self.compose_with(rhs, Rgba::new(0, 0, 0, 0), Equation::Additive, Factor::One, Factor::One)
    }
}

impl vstd::std_specs::ops::AddSpecImpl for Node {
    open spec fn obeys_add_spec() -> bool {
        true
    }

    open spec fn add_req(self, rhs: Node) -> bool {
        true
    }

    open spec fn add_spec(self, rhs: Node) -> Node {
        self.plus(rhs)
    }
}

impl core::ops::Sub for Node {
    type Output = Node;

    /// Subtractive blend of the two nodes.
    fn sub(self, rhs: Node) -> (node: Node) {
        self.compose_with(rhs, Rgba::new(0, 0, 0, 0), Equation::Subtract, Factor::One, Factor::One)
    }
}

impl vstd::std_specs::ops::SubSpecImpl for Node {
    open spec fn obeys_sub_spec() -> bool {
        true
    }

    open spec fn sub_req(self, rhs: Node) -> bool {
        true
    }

    open spec fn sub_spec(self, rhs: Node) -> Node {
        self.minus(rhs)
    }
}

impl core::ops::Mul for Node {
    type Output = Node;

    /// Channel-wise product of the two nodes.
    fn mul(self, rhs: Node) -> (node: Node) {
        self.compose_with(
            rhs,
            Rgba::new(255, 255, 255, 255),
            Equation::Additive,
            Factor::Zero,
            Factor::SrcColor,
        )
    }
}

impl vstd::std_specs::ops::MulSpecImpl for Node {
    open spec fn obeys_mul_spec() -> bool {
        true
    }

    open spec fn mul_req(self, rhs: Node) -> bool {
        true
    }

    open spec fn mul_spec(self, rhs: Node) -> Node {
        self.times(rhs)
    }
}

/// One step for the graphics host. Targets are named by their index in the
/// compositor's pool.
#[derive(Clone, Copy, Debug, PartialEq, Eq, Structural)]
pub enum Command {
    /// Create the off-screen colour and depth target with this index and size.
    Allocate { target: usize, width: u32, height: u32 },
    /// Run the render routine on the target.
    Render { target: usize, layer: RenderLayer },
    /// Clear the target to the colour.
    Clear { target: usize, color: Rgba },
    /// Draw the texture over the whole target, unblended, with its
    /// coordinates scaled (in thousandths).
    Texture { target: usize, texture: TextureLayer, scale: UvScale },
    /// Run the program over the whole target, unblended.
    Effect { target: usize, program: Program },
    /// Draw the colour image of `source`, bound to the texture unit, over the
    /// whole target under the blend state.
    Blend {
        target: usize,
        source: usize,
        unit: u32,
        equation: Equation,
        src_factor: Factor,
        dst_factor: Factor,
    },
    /// Clear the display to opaque black and draw the colour image of
    /// `source` over it, unblended.
    Present { source: usize },
}

/// What a compositor holds, as mathematical values.
pub struct CompositorView {
    /// Width of every target.
    pub w: u32,
    /// Height of every target.
    pub h: u32,
    /// Number of targets created so far; their indices are `0..allocated`.
    pub allocated: nat,
    /// Indices of the targets that can be handed out, last released last.
    pub free: Seq<usize>,
    /// Commands queued for the host, oldest first.
    pub commands: Seq<Command>,
}

impl CompositorView {
    /// Every free index names a created target, and none is listed twice.
    pub open spec fn wf(self) -> bool {
        &&& self.free.no_duplicates()
        &&& forall|i: int| 0 <= i < self.free.len() ==> (#[trigger] self.free[i] as nat) < self.allocated
    }

    /// The targets that were handed out and not yet released.
    pub open spec fn in_use(self) -> Set<usize> {
        Set::new(|i: usize| (i as nat) < self.allocated && !self.free.contains(i))
    }

    /// The view with one more queued command.
    pub open spec fn queue(self, c: Command) -> CompositorView {
        CompositorView { commands: self.commands.push(c), ..self }
    }

    /// Handing out a target: the most recently released one if there is any,
    /// else a new one, whose creation is queued.
    pub open spec fn pull(self) -> (usize, CompositorView) {
        if self.free.len() > 0 {
            (self.free.last(), CompositorView { free: self.free.drop_last(), ..self })
        } else {
            let target = self.allocated as usize;
            (
                target,
                CompositorView {
                    allocated: self.allocated + 1,
                    commands: self.commands.push(
                        Command::Allocate { target, width: self.w, height: self.h },
                    ),
                    ..self
                },
            )
        }
    }

    /// Taking a target back: it becomes the first to be handed out again.
    pub open spec fn dispose(self, target: usize) -> CompositorView {
        CompositorView { free: self.free.push(target), ..self }
    }

    /// A render node: a pulled target, filled by the host routine.
    pub open spec fn render(self, layer: RenderLayer) -> (usize, CompositorView) {
        let (target, s) = self.pull();
        (target, s.queue(Command::Render { target, layer }))
    }

    /// A texture node: a pulled target, cleared to opaque black, with the
    /// texture drawn over it; a missing scale is the unit scale.
    pub open spec fn texturize(self, texture: TextureLayer, opt_scale: Option<UvScale>) -> (
        usize,
        CompositorView,
    ) {
        let (target, s) = self.pull();
        let scale = match opt_scale {
            Some(scale) => scale,
            None => (UvScale { u: SCALE_UNIT, v: SCALE_UNIT }),
        };
        (
            target,
            s.queue(Command::Clear { target, color: Rgba::black() }).queue(
                Command::Texture { target, texture, scale },
            ),
        )
    }

    /// A colour node: a pulled target, cleared to the colour.
    pub open spec fn colorize(self, color: Rgba) -> (usize, CompositorView) {
        let (target, s) = self.pull();
        (target, s.queue(Command::Clear { target, color }))
    }

    /// An effect node: a pulled target, cleared to opaque black, with the
    /// program run over it.
    pub open spec fn fullscreen_effect(self, program: Program) -> (usize, CompositorView) {
        let (target, s) = self.pull();
        (
            target,
            s.queue(Command::Clear { target, color: Rgba::black() }).queue(
                Command::Effect { target, program },
            ),
        )
    }

    /// Blending two finished targets: a pulled target, cleared, with the left
    /// image drawn from unit 0 and then the right image from unit 1 under the
    /// blend state; both inputs are then released, left first.
    pub open spec fn blend(
        self,
        left: usize,
        right: usize,
        clear_color: Rgba,
        eq: Equation,
        src_fct: Factor,
        dst_fct: Factor,
    ) -> (usize, CompositorView) {
        let (target, s) = self.pull();
        (
            target,
            s.queue(Command::Clear { target, color: clear_color }).queue(
                Command::Blend {
                    target,
                    source: left,
                    unit: 0,
                    equation: eq,
                    src_factor: src_fct,
                    dst_factor: dst_fct,
                },
            ).queue(
                Command::Blend {
                    target,
                    source: right,
                    unit: 1,
                    equation: eq,
                    src_factor: src_fct,
                    dst_factor: dst_fct,
                },
            ).dispose(left).dispose(right),
        )
    }

    /// Evaluating a node tree: the target that holds its image, and the
    /// compositor afterwards. A composite evaluates its left child wholly
    /// before its right child, and blends them after both.
    pub open spec fn treat_node(self, node: Node) -> (usize, CompositorView)
        decreases node,
    {
        match node {
            Node::Render(layer) => self.render(layer),
            Node::Texture(texture, scale) => self.texturize(texture, scale),
            Node::Color(color) => self.colorize(color),
            Node::Composite(left, right, clear_color, eq, src_fct, dst_fct) => {
                let (left_index, s1) = self.treat_node(*left);
                let (right_index, s2) = s1.treat_node(*right);
                s2.blend(left_index, right_index, clear_color, eq, src_fct, dst_fct)
            },
            Node::FullscreenEffect(program) => self.fullscreen_effect(program),
        }
    }

    /// Displaying a node tree: evaluate it, present its target, release it.
    pub open spec fn display(self, root: Node) -> CompositorView {
        let (target, s) = self.treat_node(root);
        s.queue(Command::Present { source: target }).dispose(target)
    }

    /// `self.commands` is the beginning of `later.commands`.
    pub open spec fn queued_before(self, later: CompositorView) -> bool {
        self.commands.is_prefix_of(later.commands)
    }
}

/// Pulling hands out a target that was not in use, and only that target
/// becomes in use.
pub proof fn lemma_pull(s: CompositorView)
    requires
        s.wf(),
        s.free.len() == 0 ==> s.allocated < usize::MAX,
    ensures
        s.pull().1.wf(),
        s.pull().1.allocated <= s.allocated + 1,
        s.allocated <= s.pull().1.allocated,
        (s.pull().0 as nat) < s.pull().1.allocated,
        !s.in_use().contains(s.pull().0),
        s.pull().1.in_use() == s.in_use().insert(s.pull().0),
        s.queued_before(s.pull().1),
{
    let (target, after) = s.pull();
    if s.free.len() > 0 {
        let n = s.free.len() - 1;
        assert(s.free[n] == target);
        assert(s.free.contains(target));
        assert(!after.free.contains(target)) by {
            if after.free.contains(target) {
                let j = choose|j: int| 0 <= j < after.free.len() && after.free[j] == target;
                assert(s.free[j] == s.free[n]);
            }
        }
        assert forall|i: usize| after.in_use().contains(i) == s.in_use().insert(target).contains(
            i,
        ) by {
            if i != target {
                if s.free.contains(i) {
                    let j = choose|j: int| 0 <= j < s.free.len() && s.free[j] == i;
                    assert(after.free[j] == i);
                }
                if after.free.contains(i) {
                    let j = choose|j: int| 0 <= j < after.free.len() && after.free[j] == i;
                    assert(s.free[j] == i);
                }
            }
        }
        assert(after.in_use() =~= s.in_use().insert(target));
    } else {
        assert(!s.free.contains(target));
        assert(after.in_use() =~= s.in_use().insert(target));
    }
}

/// Releasing a target that is in use takes it, and only it, out of use.
pub proof fn lemma_dispose(s: CompositorView, target: usize)
    requires
        s.wf(),
        s.in_use().contains(target),
    ensures
        s.dispose(target).wf(),
        s.dispose(target).in_use() == s.in_use().remove(target),
{
    let after = s.dispose(target);
    let n = s.free.len() as int;
    assert(after.free[n] == target);
    assert forall|i: int, j: int|
        0 <= i < after.free.len() && 0 <= j < after.free.len() && i != j implies after.free[i]
        != after.free[j] by {
        if i < n && j < n {
            assert(s.free[i] != s.free[j]);
        } else if i < n {
            assert(s.free.contains(s.free[i]));
        } else {
            assert(s.free.contains(s.free[j]));
        }
    }
    assert forall|i: usize| after.in_use().contains(i) == s.in_use().remove(target).contains(
        i,
    ) by {
        if s.free.contains(i) {
            let j = choose|j: int| 0 <= j < s.free.len() && s.free[j] == i;
            assert(after.free[j] == i);
        }
        if after.free.contains(i) && i != target {
            let j = choose|j: int| 0 <= j < after.free.len() && after.free[j] == i;
            assert(s.free[j] == i);
        }
    }
    assert(after.in_use() =~= s.in_use().remove(target));
}

/// A target that is released is the next one handed out, before any new
/// target is created.
pub proof fn lemma_reuse_before_growth(s: CompositorView, target: usize)
    ensures
        s.dispose(target).pull().0 == target,
        s.dispose(target).pull().1 == s,
{
    let d = s.dispose(target);
    assert(d.free.drop_last() =~= s.free);
}

/// Evaluating a node only adds to the queue: what was queued before stays
/// queued, in front.
pub proof fn lemma_queue_grows(s: CompositorView, node: Node)
    ensures
        s.queued_before(s.treat_node(node).1),
    decreases node,
{
    match node {
        Node::Composite(left, right, clear_color, eq, src_fct, dst_fct) => {
            let (left_index, s1) = s.treat_node(*left);
            let (right_index, s2) = s1.treat_node(*right);
            lemma_queue_grows(s, *left);
            lemma_queue_grows(s1, *right);
        },
        _ => {},
    }
}

/// In a composite the left node is drawn before the right one: everything
/// that evaluates `left` is queued before anything that evaluates `right`,
/// and the queue then ends with the clearing of the new target, the draw of
/// the left image from unit 0 and the draw of the right image from unit 1,
/// in that order and under the composite's blend state.
pub proof fn lemma_left_drawn_before_right(
    s: CompositorView,
    left: Node,
    right: Node,
    clear_color: Rgba,
    eq: Equation,
    src_fct: Factor,
    dst_fct: Factor,
)
    ensures
        ({
            let (left_index, s1) = s.treat_node(left);
            let (right_index, s2) = s1.treat_node(right);
            let (target, out) = s.treat_node(
                Node::Composite(Box::new(left), Box::new(right), clear_color, eq, src_fct, dst_fct),
            );
            let n = out.commands.len();
            &&& s.queued_before(s1)
            &&& s1.queued_before(s2)
            &&& s2.queued_before(out)
            &&& n >= s2.commands.len() + 3
            &&& out.commands[n - 3] == (Command::Clear { target, color: clear_color })
            &&& out.commands[n - 2] == (Command::Blend {
                target,
                source: left_index,
                unit: 0,
                equation: eq,
                src_factor: src_fct,
                dst_factor: dst_fct,
            })
            &&& out.commands[n - 1] == (Command::Blend {
                target,
                source: right_index,
                unit: 1,
                equation: eq,
                src_factor: src_fct,
                dst_factor: dst_fct,
            })
        }),
{
    let (left_index, s1) = s.treat_node(left);
    let (right_index, s2) = s1.treat_node(right);
    lemma_queue_grows(s, left);
    lemma_queue_grows(s1, right);
}

/// With as many free targets as the tree demands, its evaluation creates no
/// target: it takes one from the free list.
pub proof fn lemma_enough_free_targets(s: CompositorView, node: Node)
    requires
        s.free.len() >= node.demand(),
    ensures
        s.treat_node(node).1.allocated == s.allocated,
        s.treat_node(node).1.free.len() == s.free.len() - 1,
    decreases node,
{
    match node {
        Node::Composite(left, right, clear_color, eq, src_fct, dst_fct) => {
            let (left_index, s1) = s.treat_node(*left);
            lemma_enough_free_targets(s, *left);
            lemma_enough_free_targets(s1, *right);
        },
        _ => {},
    }
}

/// Evaluating a tree takes at most one target from the free list, and leaves
/// so many free that, with the target it returns, the tree's demand is met.
pub proof fn lemma_free_after_evaluation(s: CompositorView, node: Node)
    ensures
        s.treat_node(node).1.free.len() + 1 >= s.free.len(),
        s.treat_node(node).1.free.len() + 1 >= node.demand(),
    decreases node,
{
    match node {
        Node::Composite(left, right, clear_color, eq, src_fct, dst_fct) => {
            let (left_index, s1) = s.treat_node(*left);
            lemma_free_after_evaluation(s, *left);
            lemma_free_after_evaluation(s1, *right);
        },
        _ => {},
    }
}

/// Memory is bounded by the trees, not by the number of frames: once a tree
/// has been displayed, displaying a tree that demands no more creates no
/// target.
pub proof fn lemma_display_reuses_targets(s: CompositorView, first: Node, second: Node)
    requires
        second.demand() <= first.demand(),
    ensures
        s.display(first).display(second).allocated == s.display(first).allocated,
{
    lemma_free_after_evaluation(s, first);
    lemma_enough_free_targets(s.display(first), second);
}

/// Compositor: consumes `Node`s and queues what the host has to draw.
pub struct Compositor {
    // width
    w: u32,
    // height
    h: u32,
    // size of each allocated framebuffer that might contain nodes' output
    framebuffers: Vec<(u32, u32)>,
    // free list of available framebuffers
    free_framebuffers: Vec<usize>,
    // commands that the host has not taken yet
    commands: Vec<Command>,
}

impl View for Compositor {
    type V = CompositorView;

    closed spec fn view(&self) -> CompositorView {
        CompositorView {
            w: self.w,
            h: self.h,
            allocated: self.framebuffers@.len(),
            free: self.free_framebuffers@,
            commands: self.commands@,
        }
    }
}

impl Compositor {
    /// The free list is sound: see [`CompositorView::wf`].
    pub open spec fn wf(&self) -> bool {
        self@.wf()
    }

    /// A compositor for targets of the given size, with no target created
    /// and nothing queued.
    pub fn new(w: u32, h: u32) -> (c: Compositor)
        ensures
            c.wf(),
            c@ == (CompositorView { w, h, allocated: 0, free: Seq::empty(), commands: Seq::empty() }),
    {
        Compositor {
            w,
            h,
            framebuffers: Vec::new(),
            free_framebuffers: Vec::new(),
            commands: Vec::new(),
        }
    }

    /// Number of targets created so far.
    pub fn allocated(&self) -> (n: usize)
        ensures
            n == self@.allocated,
    {
        self.framebuffers.len()
    }

    /// Whether the target was handed out and not yet released.
    pub fn is_in_use(&self, target: usize) -> (b: bool)
        ensures
            b == self@.in_use().contains(target),
    {
        if target >= self.framebuffers.len() {
            return false;
        }
        let mut i: usize = 0;
        while i < self.free_framebuffers.len()
            invariant
                i <= self.free_framebuffers.len(),
                forall|j: int| 0 <= j < i ==> self.free_framebuffers@[j] != target,
            decreases self.free_framebuffers.len() - i,
        {
            if self.free_framebuffers[i] == target {
                return false;
            }
            i += 1;
        }
        true
    }

    /// Hands the queued commands to the host, oldest first, and empties the
    /// queue; targets and free list stay as they are.
    pub fn take_commands(&mut self) -> (taken: Vec<Command>)
        ensures
            taken@ == old(self)@.commands,
            final(self)@ == (CompositorView { commands: Seq::empty(), ..old(self)@ }),
    {
        let mut taken: Vec<Command> = Vec::new();
        std::mem::swap(&mut self.commands, &mut taken);
        taken
    }

    /// Whenever a node must be composed, we need a framebuffer to render
    /// into. This function pulls one by returning its index: the most
    /// recently disposed one if there is any, else a new one, whose creation
    /// it queues.
    pub fn pull_framebuffer(&mut self) -> (idx: usize)
        requires
            old(self).wf(),
        ensures
            final(self).wf(),
            idx == old(self)@.pull().0,
            final(self)@ == old(self)@.pull().1,
            !old(self)@.in_use().contains(idx),
            final(self)@.in_use() == old(self)@.in_use().insert(idx),
            old(self)@.queued_before(final(self)@),
            old(self)@.allocated <= final(self)@.allocated,
    {
        match self.free_framebuffers.pop() {
            Some(idx) => {
                proof {
                    lemma_pull(old(self)@);
                }
                idx
            },
            None => {
                let framebuffer_index = self.framebuffers.len();
                self.framebuffers.push((self.w, self.h));
                self.commands.push(
                    Command::Allocate { target: framebuffer_index, width: self.w, height: self.h },
                );
                let grown = self.framebuffers.len();
                proof {
                    assert(grown == framebuffer_index + 1);
                    lemma_pull(old(self)@);
                }
                framebuffer_index
            },
        }
    }

    /// Whenever a node has finished being composed, the framebuffer it has
    /// pulled is disposed of: it is never deallocated, only made available
    /// again, and it is the next one to be pulled.
    pub fn dispose_framebuffer(&mut self, framebuffer_index: usize)
        requires
            old(self).wf(),
            old(self)@.in_use().contains(framebuffer_index),
        ensures
            final(self).wf(),
            final(self)@ == old(self)@.dispose(framebuffer_index),
            final(self)@.in_use() == old(self)@.in_use().remove(framebuffer_index),
    {
        self.free_framebuffers.push(framebuffer_index);
        proof {
            lemma_dispose(old(self)@, framebuffer_index);
        }
    }

    /// Consume a compositing graph and queue what displays it: the tree's
    /// commands, then the presentation of its target. Afterwards exactly the
    /// targets that were in use before are in use. For a tree of colour nodes
    /// and composites, the target presented holds the colour that the blend
    /// algebra gives to the tree.
    pub fn display(&mut self, root: Node)
        requires
            old(self).wf(),
        ensures
            final(self).wf(),
            final(self)@ == old(self)@.display(root),
            final(self)@.in_use() == old(self)@.in_use(),
            old(self)@.queued_before(final(self)@),
            old(self)@.allocated <= final(self)@.allocated,
            final(self)@.commands.len() > 0,
            final(self)@.commands.last() == (Command::Present {
                source: old(self)@.treat_node(root).0,
            }),
            uniform_color(root) is Some ==> stored_color(
                final(self)@.commands,
                old(self)@.treat_node(root).0,
            ) == uniform_color(root),
    {
        let fb_index = self.treat_node(root);
        let ghost evaluated = self@;
        self.commands.push(Command::Present { source: fb_index });
        proof {
            lemma_queue_step(evaluated, Command::Present { source: fb_index });
        }
        self.dispose_framebuffer(fb_index);
    }

    /// Treat a node hierarchy and return the index of the framebuffer that
    /// contains the result. That framebuffer was not in use before, and it is
    /// the only one that the call leaves in use. For a tree of colour nodes
    /// and composites, the queued commands leave in it the colour that the
    /// blend algebra gives to the tree.
    pub fn treat_node(&mut self, node: Node) -> (idx: usize)
        requires
            old(self).wf(),
        ensures
            final(self).wf(),
            idx == old(self)@.treat_node(node).0,
            final(self)@ == old(self)@.treat_node(node).1,
            !old(self)@.in_use().contains(idx),
            final(self)@.in_use() == old(self)@.in_use().insert(idx),
            old(self)@.queued_before(final(self)@),
            old(self)@.allocated <= final(self)@.allocated,
            uniform_color(node) is Some ==> stored_color(final(self)@.commands, idx) == uniform_color(
                node,
            ),
        decreases node.size(), 1nat,
    {
        let ghost tree = node;
        let idx = match node {
            Node::Render(layer) => self.render(layer),
            Node::Texture(texture, scale) => self.texturize(texture, scale),
            Node::Color(color) => self.colorize(color),
            Node::Composite(left, right, clear_color, eq, src_fct, dst_fct) => {
                self.composite(*left, *right, clear_color, eq, src_fct, dst_fct)
            },
            Node::FullscreenEffect(program) => self.fullscreen_effect(program),
        };
        proof {
            assert(self.framebuffers.len() == self.framebuffers@.len());
            lemma_evaluation_stores_color(old(self)@, tree);
        }
        idx
    }

    /// Pull a framebuffer and queue the host routine that fills it.
    pub fn render(&mut self, layer: RenderLayer) -> (idx: usize)
        requires
            old(self).wf(),
        ensures
            final(self).wf(),
            idx == old(self)@.render(layer).0,
            final(self)@ == old(self)@.render(layer).1,
            !old(self)@.in_use().contains(idx),
            final(self)@.in_use() == old(self)@.in_use().insert(idx),
            old(self)@.queued_before(final(self)@),
            old(self)@.allocated <= final(self)@.allocated,
    {
        let fb_index = self.pull_framebuffer();
        self.commands.push(Command::Render { target: fb_index, layer });
        fb_index
    }

    /// Pull a framebuffer and queue the drawing of a texture over it, scaled
    /// by `opt_scale` or, without one, unscaled.
    pub fn texturize(&mut self, texture: TextureLayer, opt_scale: Option<UvScale>) -> (idx: usize)
        requires
            old(self).wf(),
        ensures
            final(self).wf(),
            idx == old(self)@.texturize(texture, opt_scale).0,
            final(self)@ == old(self)@.texturize(texture, opt_scale).1,
            !old(self)@.in_use().contains(idx),
            final(self)@.in_use() == old(self)@.in_use().insert(idx),
            old(self)@.queued_before(final(self)@),
            old(self)@.allocated <= final(self)@.allocated,
    {
        let fb_index = self.pull_framebuffer();
        let scale = match opt_scale {
            Some(scale) => scale,
            None => UvScale { u: SCALE_UNIT, v: SCALE_UNIT },
        };
        self.commands.push(Command::Clear { target: fb_index, color: Rgba::new(0, 0, 0, 255) });
        self.commands.push(Command::Texture { target: fb_index, texture, scale });
        fb_index
    }

    /// Pull a framebuffer and queue its clearing to the colour.
    pub fn colorize(&mut self, color: Rgba) -> (idx: usize)
        requires
            old(self).wf(),
        ensures
            final(self).wf(),
            idx == old(self)@.colorize(color).0,
            final(self)@ == old(self)@.colorize(color).1,
            !old(self)@.in_use().contains(idx),
            final(self)@.in_use() == old(self)@.in_use().insert(idx),
            old(self)@.queued_before(final(self)@),
            old(self)@.allocated <= final(self)@.allocated,
    {
        let fb_index = self.pull_framebuffer();
        self.commands.push(Command::Clear { target: fb_index, color });
        fb_index
    }

    /// Evaluate `left`, then `right`, and blend their images into a third
    /// framebuffer; the two inputs are disposed of, the third is returned.
    pub fn composite(
        &mut self,
        left: Node,
        right: Node,
        clear_color: Rgba,
        eq: Equation,
        src_fct: Factor,
        dst_fct: Factor,
    ) -> (idx: usize)
        requires
            old(self).wf(),
        ensures
            final(self).wf(),
            idx == old(self)@.treat_node(left).1.treat_node(right).1.blend(
                old(self)@.treat_node(left).0,
                old(self)@.treat_node(left).1.treat_node(right).0,
                clear_color,
                eq,
                src_fct,
                dst_fct,
            ).0,
            final(self)@ == old(self)@.treat_node(left).1.treat_node(right).1.blend(
                old(self)@.treat_node(left).0,
                old(self)@.treat_node(left).1.treat_node(right).0,
                clear_color,
                eq,
                src_fct,
                dst_fct,
            ).1,
            !old(self)@.in_use().contains(idx),
            final(self)@.in_use() == old(self)@.in_use().insert(idx),
            old(self)@.queued_before(final(self)@),
            old(self)@.allocated <= final(self)@.allocated,
        decreases left.size() + right.size() + 1, 0nat,
    {
        let left_index = self.treat_node(left);
        let right_index = self.treat_node(right);
        let fb_index = self.pull_framebuffer();
        let ghost pulled = self@;

        self.commands.push(Command::Clear { target: fb_index, color: clear_color });
        self.commands.push(
            Command::Blend {
                target: fb_index,
                source: left_index,
                unit: 0,
                equation: eq,
                src_factor: src_fct,
                dst_factor: dst_fct,
            },
        );
        self.commands.push(
            Command::Blend {
                target: fb_index,
                source: right_index,
                unit: 1,
                equation: eq,
                src_factor: src_fct,
                dst_factor: dst_fct,
            },
        );
        proof {
            assert(pulled.in_use().contains(left_index));
            assert(pulled.in_use().contains(right_index));
        }

        // dispose both left and right framebuffers
        self.dispose_framebuffer(left_index);
        self.dispose_framebuffer(right_index);
        proof {
            assert(self@.in_use() =~= old(self)@.in_use().insert(fb_index));
        }

        fb_index
    }

    /// Pull a framebuffer and queue the run of a program over it.
    pub fn fullscreen_effect(&mut self, program: Program) -> (idx: usize)
        requires
            old(self).wf(),
        ensures
            final(self).wf(),
            idx == old(self)@.fullscreen_effect(program).0,
            final(self)@ == old(self)@.fullscreen_effect(program).1,
            !old(self)@.in_use().contains(idx),
            final(self)@.in_use() == old(self)@.in_use().insert(idx),
            old(self)@.queued_before(final(self)@),
            old(self)@.allocated <= final(self)@.allocated,
    {
        let fb_index = self.pull_framebuffer();
        self.commands.push(Command::Clear { target: fb_index, color: Rgba::new(0, 0, 0, 255) });
        self.commands.push(Command::Effect { target: fb_index, program });
        fb_index
    }
}

} // verus!
