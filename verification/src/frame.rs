use vstd::prelude::*;

verus! {

/// What a layer of the renderer holds, as far as the frame plans read it.
#[derive(Clone, Copy, Debug, PartialEq, Eq, Structural)]
pub struct LayerContents {
    /// Whether the layer's bounds, scaled to physical pixels and clipped to
    /// the viewport, leave a non-empty scissor rectangle.
    pub visible: bool,
    /// Whether the layer holds any quads.
    pub quads: bool,
    /// The number of triangle meshes in the layer.
    pub triangles: usize,
    /// The number of custom primitive instances in the layer.
    pub primitives: usize,
    /// The number of text items in the layer.
    pub text: usize,
}

/// One piece of work of the preparation phase of a frame, which uploads
/// what the layers hold before anything is drawn.
#[derive(Clone, Copy, Debug, PartialEq, Eq, Structural)]
pub enum PrepareStep {
    /// Resize the text viewport to the physical size of the frame.
    TextViewport,
    /// Prepare the quads of a layer.
    Quads { layer: usize },
    /// Prepare the triangle meshes of a layer.
    Triangles { layer: usize },
    /// Prepare one primitive instance of a layer.
    Primitive { layer: usize, index: usize },
    /// Prepare the text of a layer.
    Text { layer: usize },
}

/// `step` once if `present`, else nothing.
pub open spec fn step_if<A>(present: bool, step: A) -> Seq<A> {
    if present {
        seq![step]
    } else {
        Seq::empty()
    }
}

/// The preparation work for the layer at position `layer`: its quads, its
/// meshes, each of its primitive instances in order, and its text, each
/// kind only when the layer holds some.
pub open spec fn spec_layer_prepare(layer: usize, contents: LayerContents) -> Seq<PrepareStep> {
    step_if(contents.quads, PrepareStep::Quads { layer })
        + step_if(contents.triangles > 0, PrepareStep::Triangles { layer })
        + Seq::new(
            contents.primitives as nat,
            |i: int| PrepareStep::Primitive { layer, index: i as usize },
        )
        + step_if(contents.text > 0, PrepareStep::Text { layer })
}

/// The preparation work for all layers, front to back.
pub open spec fn spec_prepare_layers(layers: Seq<LayerContents>) -> Seq<PrepareStep>
    decreases layers.len(),
{
    if layers.len() == 0 {
        Seq::empty()
    } else {
        spec_prepare_layers(layers.drop_last()) + spec_layer_prepare(
            (layers.len() - 1) as usize,
            layers.last(),
        )
    }
}

/// The preparation phase of a frame: the text viewport first, then the
/// work of every layer in order.
pub open spec fn spec_prepare_plan(layers: Seq<LayerContents>) -> Seq<PrepareStep> {
    seq![PrepareStep::TextViewport] + spec_prepare_layers(layers)
}

fn push_layer_prepare(plan: &mut Vec<PrepareStep>, layer: usize, contents: &LayerContents)
    ensures
        final(plan)@ == old(plan)@ + spec_layer_prepare(layer, *contents),
{
    let ghost start = plan@;
    if contents.quads {
        plan.push(PrepareStep::Quads { layer });
    }
    if contents.triangles > 0 {
        plan.push(PrepareStep::Triangles { layer });
    }
    let ghost before_primitives = plan@;
    let mut index: usize = 0;
    while index < contents.primitives
        invariant
            index <= contents.primitives,
            plan@ == before_primitives + Seq::new(
                index as nat,
                |i: int| PrepareStep::Primitive { layer, index: i as usize },
            ),
        decreases contents.primitives - index,
    {
        plan.push(PrepareStep::Primitive { layer, index });
        index = index + 1;
        assert(plan@ =~= before_primitives + Seq::new(
            index as nat,
            |i: int| PrepareStep::Primitive { layer, index: i as usize },
        ));
    }
    if contents.text > 0 {
        plan.push(PrepareStep::Text { layer });
    }
    assert(plan@ =~= start + spec_layer_prepare(layer, *contents));
}

/// The preparation phase of a frame over `layers`, in the order the work
/// is to be done.
pub fn prepare_plan(layers: &Vec<LayerContents>) -> (plan: Vec<PrepareStep>)
    ensures
        plan@ == spec_prepare_plan(layers@),
{
    let mut plan: Vec<PrepareStep> = Vec::new();
    plan.push(PrepareStep::TextViewport);
    let mut i: usize = 0;
    while i < layers.len()
        invariant
            i <= layers.len(),
            plan@ == seq![PrepareStep::TextViewport] + spec_prepare_layers(layers@.take(i as int)),
        decreases layers.len() - i,
    {
        push_layer_prepare(&mut plan, i, &layers[i]);
        assert(layers@.take((i + 1) as int).drop_last() =~= layers@.take(i as int));
        i = i + 1;
        assert(plan@ =~= seq![PrepareStep::TextViewport] + spec_prepare_layers(
            layers@.take(i as int),
        ));
    }
    assert(layers@.take(i as int) =~= layers@);
    plan
}

/// One piece of work of the render phase of a frame.
#[derive(Clone, Copy, Debug, PartialEq, Eq, Structural)]
pub enum RenderStep {
    /// Open a render pass on the frame; `clear` says whether it first clears
    /// the frame to the background color, otherwise it keeps what is there.
    BeginPass { clear: bool },
    /// Close the open render pass.
    EndPass,
    /// Draw the quads of the current layer as quad layer `index`.
    Quads { index: usize },
    /// Draw the meshes of the current layer, numbering their mesh layers
    /// from `start`; this runs outside a render pass.
    Meshes { start: usize },
    /// Draw the custom primitives of the current layer; this runs outside a
    /// render pass.
    Primitives,
    /// Draw the text of the current layer, numbering its text layers from
    /// `start`.
    Text { start: usize },
}

/// How many quad, mesh and text layers the render phase has used so far.
#[derive(Clone, Copy, Debug, PartialEq, Eq, Structural)]
pub struct RenderCursor {
    pub quad_layer: usize,
    pub mesh_layer: usize,
    pub text_layer: usize,
}

impl RenderCursor {
    /// The cursor at the start of a frame: nothing used yet.
    pub fn new() -> (cursor: RenderCursor)
        ensures
            cursor == (RenderCursor { quad_layer: 0, mesh_layer: 0, text_layer: 0 }),
    {
        RenderCursor { quad_layer: 0, mesh_layer: 0, text_layer: 0 }
    }
}

/// The render work for one layer, given what has been used before it. An
/// invisible layer is skipped. Otherwise its quads are drawn in the open
/// pass; its meshes, then its primitives, each need the pass closed and a
/// new one opened (keeping the frame) afterwards; its text is drawn last,
/// in the open pass.
pub open spec fn spec_layer_steps(cursor: RenderCursor, contents: LayerContents) -> Seq<RenderStep> {
    if !contents.visible {
        Seq::empty()
    } else {
        step_if(contents.quads, RenderStep::Quads { index: cursor.quad_layer })
            + (if contents.triangles > 0 {
                seq![
                    RenderStep::EndPass,
                    RenderStep::Meshes { start: cursor.mesh_layer },
                    RenderStep::BeginPass { clear: false },
                ]
            } else {
                Seq::empty()
            })
            + (if contents.primitives > 0 {
                seq![
                    RenderStep::EndPass,
                    RenderStep::Primitives,
                    RenderStep::BeginPass { clear: false },
                ]
            } else {
                Seq::empty()
            })
            + step_if(contents.text > 0, RenderStep::Text { start: cursor.text_layer })
    }
}

/// The numbers of quad, mesh and text layers used after a layer, given
/// those used before it and how many mesh layers and text layers its
/// drawing used: a visible layer with quads uses one quad layer, its meshes
/// and text use what their drawing reported; an invisible layer uses
/// nothing.
pub open spec fn spec_counts_after(
    counts: (int, int, int),
    contents: LayerContents,
    meshes_used: int,
    text_used: int,
) -> (int, int, int) {
    if !contents.visible {
        counts
    } else {
        (
            counts.0 + (if contents.quads { 1int } else { 0int }),
            counts.1 + (if contents.triangles > 0 { meshes_used } else { 0int }),
            counts.2 + (if contents.text > 0 { text_used } else { 0int }),
        )
    }
}

/// The cursor after a layer, as numbers; see `spec_counts_after`.
pub open spec fn spec_after_layer(
    cursor: RenderCursor,
    contents: LayerContents,
    meshes_used: int,
    text_used: int,
) -> (int, int, int) {
    spec_counts_after(
        (cursor.quad_layer as int, cursor.mesh_layer as int, cursor.text_layer as int),
        contents,
        meshes_used,
        text_used,
    )
}

/// What the render phase does for one layer: the quad layer its quads are
/// drawn as, the first mesh layer its meshes are numbered from, whether its
/// primitives are drawn, and the first text layer its text is numbered
/// from; each is absent when the layer has nothing of that kind or is not
/// visible.
#[derive(Clone, Copy, Debug, PartialEq, Eq, Structural)]
pub struct LayerRenderPlan {
    pub quads: Option<usize>,
    pub meshes: Option<usize>,
    pub primitives: bool,
    pub text: Option<usize>,
}

/// The plan for one layer, given what has been used before it.
pub open spec fn spec_layer_plan(cursor: RenderCursor, contents: LayerContents) -> LayerRenderPlan {
    if !contents.visible {
        LayerRenderPlan { quads: None, meshes: None, primitives: false, text: None }
    } else {
        LayerRenderPlan {
            quads: if contents.quads { Some(cursor.quad_layer) } else { None },
            meshes: if contents.triangles > 0 { Some(cursor.mesh_layer) } else { None },
            primitives: contents.primitives > 0,
            text: if contents.text > 0 { Some(cursor.text_layer) } else { None },
        }
    }
}

/// The order in which a layer's plan is carried out: quads in the open
/// pass; meshes, then primitives, each with the pass closed and a new one
/// opened (keeping the frame) afterwards; text last, in the open pass.
pub open spec fn spec_plan_steps(plan: LayerRenderPlan) -> Seq<RenderStep> {
    (match plan.quads {
        Some(index) => seq![RenderStep::Quads { index }],
        None => Seq::empty(),
    }) + (match plan.meshes {
        Some(start) => seq![
            RenderStep::EndPass,
            RenderStep::Meshes { start },
            RenderStep::BeginPass { clear: false },
        ],
        None => Seq::empty(),
    }) + (if plan.primitives {
        seq![RenderStep::EndPass, RenderStep::Primitives, RenderStep::BeginPass { clear: false }]
    } else {
        Seq::empty()
    }) + (match plan.text {
        Some(start) => seq![RenderStep::Text { start }],
        None => Seq::empty(),
    })
}

impl RenderCursor {
    /// The plan for one layer; carried out in order, it is the render work
    /// `spec_layer_steps` describes.
    pub fn layer_plan(&self, contents: &LayerContents) -> (plan: LayerRenderPlan)
        ensures
            plan == spec_layer_plan(*self, *contents),
            spec_plan_steps(plan) == spec_layer_steps(*self, *contents),
            plan.quads is Some <==> contents.visible && contents.quads,
            plan.meshes is Some <==> contents.visible && contents.triangles > 0,
            plan.primitives <==> contents.visible && contents.primitives > 0,
            plan.text is Some <==> contents.visible && contents.text > 0,
            plan.quads matches Some(index) ==> index == self.quad_layer,
            plan.meshes matches Some(start) ==> start == self.mesh_layer,
            plan.text matches Some(start) ==> start == self.text_layer,
    {
        let plan = if !contents.visible {
            LayerRenderPlan { quads: None, meshes: None, primitives: false, text: None }
        } else {
            LayerRenderPlan {
                quads: if contents.quads { Some(self.quad_layer) } else { None },
                meshes: if contents.triangles > 0 { Some(self.mesh_layer) } else { None },
                primitives: contents.primitives > 0,
                text: if contents.text > 0 { Some(self.text_layer) } else { None },
            }
        };
        assert(spec_plan_steps(plan) =~= spec_layer_steps(*self, *contents));
        plan
    }

    /// The cursor after a layer whose meshes used `meshes_used` mesh layers
    /// and whose text used `text_used` text layers; see `spec_after_layer`.
    /// The counts must fit in a `usize`.
    pub fn after_layer(&self, contents: &LayerContents, meshes_used: usize, text_used: usize) -> (next: RenderCursor)
        requires
            spec_after_layer(*self, *contents, meshes_used as int, text_used as int).0 <= usize::MAX,
            spec_after_layer(*self, *contents, meshes_used as int, text_used as int).1 <= usize::MAX,
            spec_after_layer(*self, *contents, meshes_used as int, text_used as int).2 <= usize::MAX,
        ensures
            (next.quad_layer as int, next.mesh_layer as int, next.text_layer as int)
                == spec_after_layer(*self, *contents, meshes_used as int, text_used as int),
            next.quad_layer == self.quad_layer + (if contents.visible && contents.quads {
                1int
            } else {
                0int
            }),
            next.mesh_layer == self.mesh_layer + (if contents.visible && contents.triangles > 0 {
                meshes_used as int
            } else {
                0int
            }),
            next.text_layer == self.text_layer + (if contents.visible && contents.text > 0 {
                text_used as int
            } else {
                0int
            }),
    {
        if !contents.visible {
            return *self;
        }
        let mut next = *self;
        if contents.quads {
            next.quad_layer = next.quad_layer + 1;
        }
        if contents.triangles > 0 {
            next.mesh_layer = next.mesh_layer + meshes_used;
        }
        if contents.text > 0 {
            next.text_layer = next.text_layer + text_used;
        }
        next
    }
}

/// The step that opens a frame's first render pass, clearing the frame
/// when a background color is given.
pub fn frame_opening(clear: bool) -> (step: RenderStep)
    ensures
        step == (RenderStep::BeginPass { clear }),
{
    RenderStep::BeginPass { clear }
}

/// Whether the render pass is open after `step`, starting from `open`;
/// `None` when the step cannot be taken then: a pass is only opened when
/// none is open and only closed when one is, quads and text are drawn in
/// an open pass, meshes and primitives outside one.
pub open spec fn pass_after_step(open: bool, step: RenderStep) -> Option<bool> {
    match step {
        RenderStep::BeginPass { .. } => if open { None } else { Some(true) },
        RenderStep::EndPass => if open { Some(false) } else { None },
        RenderStep::Quads { .. } => if open { Some(true) } else { None },
        RenderStep::Text { .. } => if open { Some(true) } else { None },
        RenderStep::Meshes { .. } => if open { None } else { Some(false) },
        RenderStep::Primitives => if open { None } else { Some(false) },
    }
}

/// Whether the render pass is open after `steps`, starting from `open`;
/// `None` when one of them cannot be taken.
pub open spec fn pass_after(open: bool, steps: Seq<RenderStep>) -> Option<bool>
    decreases steps.len(),
{
    if steps.len() == 0 {
        Some(open)
    } else {
        match pass_after_step(open, steps[0]) {
            Some(next) => pass_after(next, steps.drop_first()),
            None => None,
        }
    }
}

proof fn lemma_pass_after_concat(open: bool, a: Seq<RenderStep>, b: Seq<RenderStep>)
    ensures
        pass_after(open, a + b) == match pass_after(open, a) {
            Some(mid) => pass_after(mid, b),
            None => None,
        },
    decreases a.len(),
{
    if a.len() > 0 {
        assert((a + b).drop_first() =~= a.drop_first() + b);
        assert((a + b)[0] == a[0]);
        match pass_after_step(open, a[0]) {
            Some(next) => lemma_pass_after_concat(next, a.drop_first(), b),
            None => {},
        }
    } else {
        assert(a + b =~= b);
    }
}

/// The render work of any layer starts and ends with the pass open, and
/// every step of it can be taken.
pub proof fn lemma_layer_steps_keep_pass_open(cursor: RenderCursor, contents: LayerContents)
    ensures
        pass_after(true, spec_layer_steps(cursor, contents)) == Some(true),
{
    let q = step_if(contents.quads, RenderStep::Quads { index: cursor.quad_layer });
    let m: Seq<RenderStep> = if contents.triangles > 0 {
        seq![
            RenderStep::EndPass,
            RenderStep::Meshes { start: cursor.mesh_layer },
            RenderStep::BeginPass { clear: false },
        ]
    } else {
        Seq::empty()
    };
    let p: Seq<RenderStep> = if contents.primitives > 0 {
        seq![RenderStep::EndPass, RenderStep::Primitives, RenderStep::BeginPass { clear: false }]
    } else {
        Seq::empty()
    };
    let t = step_if(contents.text > 0, RenderStep::Text { start: cursor.text_layer });
    reveal_with_fuel(pass_after, 4);
    assert(pass_after(true, q) == Some(true));
    assert(pass_after(true, m) == Some(true));
    assert(pass_after(true, p) == Some(true));
    assert(pass_after(true, t) == Some(true));
    lemma_pass_after_concat(true, q, m);
    lemma_pass_after_concat(true, q + m, p);
    lemma_pass_after_concat(true, q + m + p, t);
    if !contents.visible {
        assert(spec_layer_steps(cursor, contents).len() == 0);
    }
}

/// The render work of several layers, one block per layer, in order.
pub open spec fn concat_blocks(blocks: Seq<Seq<RenderStep>>) -> Seq<RenderStep>
    decreases blocks.len(),
{
    if blocks.len() == 0 {
        Seq::empty()
    } else {
        concat_blocks(blocks.drop_last()) + blocks.last()
    }
}

/// A whole frame: the opening pass, the render work of each layer (block
/// `i` being the work of `layers[i]` from whatever cursor it was planned
/// with), and the closing step.
pub open spec fn spec_frame(clear: bool, blocks: Seq<Seq<RenderStep>>) -> Seq<RenderStep> {
    seq![RenderStep::BeginPass { clear }] + concat_blocks(blocks) + seq![RenderStep::EndPass]
}

proof fn lemma_blocks_keep_pass_open(
    blocks: Seq<Seq<RenderStep>>,
    cursors: Seq<RenderCursor>,
    layers: Seq<LayerContents>,
)
    requires
        blocks.len() == cursors.len(),
        blocks.len() == layers.len(),
        forall|i: int| 0 <= i < blocks.len() ==> #[trigger] blocks[i] == spec_layer_steps(cursors[i], layers[i]),
    ensures
        pass_after(true, concat_blocks(blocks)) == Some(true),
    decreases blocks.len(),
{
    if blocks.len() > 0 {
        let n = blocks.len() - 1;
        lemma_blocks_keep_pass_open(blocks.drop_last(), cursors.drop_last(), layers.drop_last());
        lemma_layer_steps_keep_pass_open(cursors[n], layers[n]);
        assert(blocks[n] == spec_layer_steps(cursors[n], layers[n]));
        lemma_pass_after_concat(true, concat_blocks(blocks.drop_last()), blocks.last());
    }
}

/// In every frame the render passes are well nested: a pass is opened only
/// when none is open and closed only when one is, quads and text are drawn
/// inside a pass, meshes and primitives outside one, and no pass is left
/// open at the end, whatever the layers hold and whatever the mesh and text
/// drawing reported.
pub proof fn lemma_frame_passes_well_nested(
    clear: bool,
    blocks: Seq<Seq<RenderStep>>,
    cursors: Seq<RenderCursor>,
    layers: Seq<LayerContents>,
)
    requires
        blocks.len() == cursors.len(),
        blocks.len() == layers.len(),
        forall|i: int| 0 <= i < blocks.len() ==> #[trigger] blocks[i] == spec_layer_steps(cursors[i], layers[i]),
    ensures
        pass_after(false, spec_frame(clear, blocks)) == Some(false),
{
    lemma_blocks_keep_pass_open(blocks, cursors, layers);
    let open_step = seq![RenderStep::BeginPass { clear }];
    let body = concat_blocks(blocks);
    let close_step = seq![RenderStep::EndPass];
    reveal_with_fuel(pass_after, 2);
    assert(pass_after(false, open_step) == Some(true));
    assert(pass_after(true, close_step) == Some(false));
    lemma_pass_after_concat(false, open_step, body);
    lemma_pass_after_concat(false, open_step + body, close_step);
}

/// The numbers of quad, mesh and text layers used after rendering
/// `layers` from the start of a frame, layer `i` having reported
/// `meshes_used[i]` mesh layers and `text_used[i]` text layers.
pub open spec fn spec_counts_after_layers(
    layers: Seq<LayerContents>,
    meshes_used: Seq<int>,
    text_used: Seq<int>,
) -> (int, int, int)
    decreases layers.len(),
{
    if layers.len() == 0 {
        (0, 0, 0)
    } else {
        let n = layers.len() - 1;
        spec_counts_after(
            spec_counts_after_layers(layers.drop_last(), meshes_used.take(n), text_used.take(n)),
            layers.last(),
            meshes_used[n],
            text_used[n],
        )
    }
}

/// How many of `layers` hold quads, counting only the visible ones when
/// `visible_only`.
pub open spec fn quad_layer_count(layers: Seq<LayerContents>, visible_only: bool) -> nat
    decreases layers.len(),
{
    if layers.len() == 0 {
        0
    } else {
        quad_layer_count(layers.drop_last(), visible_only) + (if layers.last().quads && (
        !visible_only || layers.last().visible) {
            1nat
        } else {
            0nat
        })
    }
}

/// How many steps of `steps` prepare quads.
pub open spec fn quad_preparations(steps: Seq<PrepareStep>) -> nat
    decreases steps.len(),
{
    if steps.len() == 0 {
        0
    } else {
        quad_preparations(steps.drop_last()) + (if steps.last() is Quads {
            1nat
        } else {
            0nat
        })
    }
}

proof fn lemma_quad_preparations_concat(a: Seq<PrepareStep>, b: Seq<PrepareStep>)
    ensures
        quad_preparations(a + b) == quad_preparations(a) + quad_preparations(b),
    decreases b.len(),
{
    if b.len() == 0 {
        assert(a + b =~= a);
    } else {
        assert((a + b).drop_last() =~= a + b.drop_last());
        lemma_quad_preparations_concat(a, b.drop_last());
    }
}

proof fn lemma_quad_preparations_none(s: Seq<PrepareStep>)
    requires
        forall|i: int| 0 <= i < s.len() ==> !(#[trigger] s[i] is Quads),
    ensures
        quad_preparations(s) == 0,
    decreases s.len(),
{
    if s.len() > 0 {
        lemma_quad_preparations_none(s.drop_last());
    }
}

proof fn lemma_layer_prepare_quads(layer: usize, contents: LayerContents)
    ensures
        quad_preparations(spec_layer_prepare(layer, contents)) == (if contents.quads {
            1nat
        } else {
            0nat
        }),
{
    let q = step_if(contents.quads, PrepareStep::Quads { layer });
    let t = step_if(contents.triangles > 0, PrepareStep::Triangles { layer });
    let p = Seq::new(
        contents.primitives as nat,
        |i: int| PrepareStep::Primitive { layer, index: i as usize },
    );
    let x = step_if(contents.text > 0, PrepareStep::Text { layer });
    reveal_with_fuel(quad_preparations, 2);
    if contents.quads {
        assert(q.drop_last() =~= Seq::<PrepareStep>::empty());
    }
    lemma_quad_preparations_none(t);
    lemma_quad_preparations_none(p);
    lemma_quad_preparations_none(x);
    lemma_quad_preparations_concat(q, t);
    lemma_quad_preparations_concat(q + t, p);
    lemma_quad_preparations_concat(q + t + p, x);
}

/// Preparation prepares the quads of every layer that holds some, visible
/// or not, in layer order: the preparations of quads in the plan for
/// `layers` are as many as the layers holding quads.
pub proof fn lemma_prepared_quad_layers(layers: Seq<LayerContents>)
    ensures
        quad_preparations(spec_prepare_layers(layers)) == quad_layer_count(layers, false),
    decreases layers.len(),
{
    if layers.len() > 0 {
        lemma_prepared_quad_layers(layers.drop_last());
        lemma_quad_preparations_concat(
            spec_prepare_layers(layers.drop_last()),
            spec_layer_prepare((layers.len() - 1) as usize, layers.last()),
        );
        lemma_layer_prepare_quads((layers.len() - 1) as usize, layers.last());
    }
}

/// Rendering numbers quad layers consecutively from zero over the visible
/// layers that hold quads: after `layers`, as many quad layers are used as
/// there are such layers among them, whatever the mesh and text drawing
/// reported.
pub proof fn lemma_rendered_quad_layers(
    layers: Seq<LayerContents>,
    meshes_used: Seq<int>,
    text_used: Seq<int>,
)
    requires
        meshes_used.len() == layers.len(),
        text_used.len() == layers.len(),
    ensures
        spec_counts_after_layers(layers, meshes_used, text_used).0 == quad_layer_count(layers, true),
    decreases layers.len(),
{
    if layers.len() > 0 {
        let n = layers.len() - 1;
        lemma_rendered_quad_layers(layers.drop_last(), meshes_used.take(n), text_used.take(n));
    }
}

/// After layers of which every one holding quads is visible, rendering
/// has used as many quad layers as preparation has prepared, so the next
/// layer's quads are drawn under the index they were prepared under.
pub proof fn lemma_quad_indices_agree(
    layers: Seq<LayerContents>,
    meshes_used: Seq<int>,
    text_used: Seq<int>,
)
    requires
        meshes_used.len() == layers.len(),
        text_used.len() == layers.len(),
        forall|i: int| 0 <= i < layers.len() && (#[trigger] layers[i]).quads ==> layers[i].visible,
    ensures
        spec_counts_after_layers(layers, meshes_used, text_used).0 == quad_preparations(
            spec_prepare_layers(layers),
        ),
{
    lemma_rendered_quad_layers(layers, meshes_used, text_used);
    lemma_prepared_quad_layers(layers);
    lemma_visible_quad_count(layers);
}

proof fn lemma_visible_quad_count(layers: Seq<LayerContents>)
    requires
        forall|i: int| 0 <= i < layers.len() && (#[trigger] layers[i]).quads ==> layers[i].visible,
    ensures
        quad_layer_count(layers, true) == quad_layer_count(layers, false),
    decreases layers.len(),
{
    if layers.len() > 0 {
        let prefix = layers.drop_last();
        assert forall|i: int| 0 <= i < prefix.len() && (#[trigger] prefix[i]).quads implies prefix[i].visible by {
            assert(prefix[i] == layers[i]);
        }
        lemma_visible_quad_count(prefix);
        assert(layers.last() == layers[layers.len() - 1]);
    }
}

/// A layer's render plan draws each kind of content exactly when the layer
/// is visible and holds some of it, quads under the next quad layer, meshes
/// and text numbered from the next mesh and text layers.
pub proof fn lemma_layer_plan_draws_contents(cursor: RenderCursor, contents: LayerContents)
    ensures
        spec_layer_plan(cursor, contents).quads == (if contents.visible && contents.quads {
            Some(cursor.quad_layer)
        } else {
            None
        }),
        spec_layer_plan(cursor, contents).meshes == (if contents.visible && contents.triangles > 0 {
            Some(cursor.mesh_layer)
        } else {
            None
        }),
        spec_layer_plan(cursor, contents).primitives == (contents.visible && contents.primitives > 0),
        spec_layer_plan(cursor, contents).text == (if contents.visible && contents.text > 0 {
            Some(cursor.text_layer)
        } else {
            None
        }),
{
}

/// Carrying out a plan draws what it says: quads under its quad index,
/// meshes and text from their starts, primitives when it says so, each at
/// most once, and nothing else.
pub proof fn lemma_plan_steps_draw(plan: LayerRenderPlan)
    ensures
        forall|index: usize|
            spec_plan_steps(plan).contains(RenderStep::Quads { index }) <==> plan.quads == Some(index),
        forall|start: usize|
            spec_plan_steps(plan).contains(RenderStep::Meshes { start }) <==> plan.meshes == Some(start),
        forall|start: usize|
            spec_plan_steps(plan).contains(RenderStep::Text { start }) <==> plan.text == Some(start),
        spec_plan_steps(plan).contains(RenderStep::Primitives) <==> plan.primitives,
        !spec_plan_steps(plan).contains(RenderStep::BeginPass { clear: true }),
{
    let q: Seq<RenderStep> = match plan.quads {
        Some(index) => seq![RenderStep::Quads { index }],
        None => Seq::empty(),
    };
    let m: Seq<RenderStep> = match plan.meshes {
        Some(start) => seq![
            RenderStep::EndPass,
            RenderStep::Meshes { start },
            RenderStep::BeginPass { clear: false },
        ],
        None => Seq::empty(),
    };
    let p: Seq<RenderStep> = if plan.primitives {
        seq![RenderStep::EndPass, RenderStep::Primitives, RenderStep::BeginPass { clear: false }]
    } else {
        Seq::empty()
    };
    let t: Seq<RenderStep> = match plan.text {
        Some(start) => seq![RenderStep::Text { start }],
        None => Seq::empty(),
    };
    let all = spec_plan_steps(plan);
    assert(all == q + m + p + t);
    assert forall|step: RenderStep| #[trigger] all.contains(step) <==> (q.contains(step)
        || m.contains(step) || p.contains(step) || t.contains(step)) by {
        if all.contains(step) {
            let k = choose|k: int| 0 <= k < all.len() && all[k] == step;
            if k < q.len() {
                assert(q[k] == step);
            } else if k < q.len() + m.len() {
                assert(m[k - q.len()] == step);
            } else if k < q.len() + m.len() + p.len() {
                assert(p[k - q.len() - m.len()] == step);
            } else {
                assert(t[k - q.len() - m.len() - p.len()] == step);
            }
        }
        if q.contains(step) {
            let k = choose|k: int| 0 <= k < q.len() && q[k] == step;
            assert(all[k] == step);
        }
        if m.contains(step) {
            let k = choose|k: int| 0 <= k < m.len() && m[k] == step;
            assert(all[q.len() + k] == step);
        }
        if p.contains(step) {
            let k = choose|k: int| 0 <= k < p.len() && p[k] == step;
            assert(all[q.len() + m.len() + k] == step);
        }
        if t.contains(step) {
            let k = choose|k: int| 0 <= k < t.len() && t[k] == step;
            assert(all[q.len() + m.len() + p.len() + k] == step);
        }
    }
    assert forall|index: usize|
        all.contains(RenderStep::Quads { index }) <==> plan.quads == Some(index) by {
        if plan.quads == Some(index) {
            assert(q[0] == RenderStep::Quads { index });
        }
    }
    assert forall|start: usize|
        all.contains(RenderStep::Meshes { start }) <==> plan.meshes == Some(start) by {
        if plan.meshes == Some(start) {
            assert(m[1] == RenderStep::Meshes { start });
        }
    }
    assert forall|start: usize|
        all.contains(RenderStep::Text { start }) <==> plan.text == Some(start) by {
        if plan.text == Some(start) {
            assert(t[0] == RenderStep::Text { start });
        }
    }
    if plan.primitives {
        assert(p[1] == RenderStep::Primitives);
    }
}

/// After a visible layer, each count grows by what the layer used: one
/// quad layer if it holds quads, the reported mesh layers if it holds
/// meshes, the reported text layers if it holds text, each independently
/// of the others; an invisible layer changes no count.
pub proof fn lemma_counts_after_layer(
    counts: (int, int, int),
    contents: LayerContents,
    meshes_used: int,
    text_used: int,
)
    ensures
        !contents.visible ==> spec_counts_after(counts, contents, meshes_used, text_used) == counts,
        contents.visible && contents.quads ==> spec_counts_after(counts, contents, meshes_used, text_used).0 == counts.0 + 1,
        contents.visible && !contents.quads ==> spec_counts_after(counts, contents, meshes_used, text_used).0 == counts.0,
        contents.visible && contents.triangles > 0 ==> spec_counts_after(counts, contents, meshes_used, text_used).1 == counts.1 + meshes_used,
        contents.visible && contents.triangles == 0 ==> spec_counts_after(counts, contents, meshes_used, text_used).1 == counts.1,
        contents.visible && contents.text > 0 ==> spec_counts_after(counts, contents, meshes_used, text_used).2 == counts.2 + text_used,
        contents.visible && contents.text == 0 ==> spec_counts_after(counts, contents, meshes_used, text_used).2 == counts.2,
{
}

/// The sum of `used[k]` over the layers `k` among `layers` that `counts`
/// selects.
pub open spec fn reported_total(
    layers: Seq<LayerContents>,
    used: Seq<int>,
    counts: spec_fn(LayerContents) -> bool,
) -> int
    decreases layers.len(),
{
    if layers.len() == 0 {
        0
    } else {
        let n = layers.len() - 1;
        reported_total(layers.drop_last(), used.take(n), counts) + (if counts(layers.last()) {
            used[n]
        } else {
            0
        })
    }
}

/// Over a frame, the mesh layers used are the sum of what the drawing of
/// each visible layer holding meshes reported, and the text layers used the
/// sum of what the drawing of each visible layer holding text reported.
pub proof fn lemma_rendered_mesh_and_text_layers(
    layers: Seq<LayerContents>,
    meshes_used: Seq<int>,
    text_used: Seq<int>,
)
    requires
        meshes_used.len() == layers.len(),
        text_used.len() == layers.len(),
    ensures
        spec_counts_after_layers(layers, meshes_used, text_used).1 == reported_total(
            layers,
            meshes_used,
            |c: LayerContents| c.visible && c.triangles > 0,
        ),
        spec_counts_after_layers(layers, meshes_used, text_used).2 == reported_total(
            layers,
            text_used,
            |c: LayerContents| c.visible && c.text > 0,
        ),
    decreases layers.len(),
{
    if layers.len() > 0 {
        let n = layers.len() - 1;
        lemma_rendered_mesh_and_text_layers(layers.drop_last(), meshes_used.take(n), text_used.take(n));
    }
}

/// How many steps of `steps` satisfy `p`.
pub open spec fn count_prepare(steps: Seq<PrepareStep>, p: spec_fn(PrepareStep) -> bool) -> nat
    decreases steps.len(),
{
    if steps.len() == 0 {
        0
    } else {
        count_prepare(steps.drop_last(), p) + (if p(steps.last()) {
            1nat
        } else {
            0nat
        })
    }
}

proof fn lemma_count_prepare_concat(
    a: Seq<PrepareStep>,
    b: Seq<PrepareStep>,
    p: spec_fn(PrepareStep) -> bool,
)
    ensures
        count_prepare(a + b, p) == count_prepare(a, p) + count_prepare(b, p),
    decreases b.len(),
{
    if b.len() == 0 {
        assert(a + b =~= a);
    } else {
        assert((a + b).drop_last() =~= a + b.drop_last());
        assert((a + b).last() == b.last());
        lemma_count_prepare_concat(a, b.drop_last(), p);
    }
}

proof fn lemma_count_prepare_step_if(present: bool, step: PrepareStep, p: spec_fn(PrepareStep) -> bool)
    ensures
        count_prepare(step_if(present, step), p) == (if present && p(step) {
            1nat
        } else {
            0nat
        }),
{
    reveal_with_fuel(count_prepare, 2);
    if present {
        assert(step_if(present, step).drop_last() =~= Seq::<PrepareStep>::empty());
    }
}

proof fn lemma_count_prepare_primitives(
    layer: usize,
    n: nat,
    p: spec_fn(PrepareStep) -> bool,
)
    requires
        n <= usize::MAX + 1,
    ensures
        count_prepare(Seq::new(n, |i: int| PrepareStep::Primitive { layer, index: i as usize }), p)
            == count_index_below(layer, n, p),
    decreases n,
{
    let s = Seq::new(n, |i: int| PrepareStep::Primitive { layer, index: i as usize });
    if n > 0 {
        assert(s.drop_last() =~= Seq::new(
            (n - 1) as nat,
            |i: int| PrepareStep::Primitive { layer, index: i as usize },
        ));
        lemma_count_prepare_primitives(layer, (n - 1) as nat, p);
    }
}

/// How many of the primitive preparations of `layer` with an index below
/// `n` satisfy `p`.
pub open spec fn count_index_below(layer: usize, n: nat, p: spec_fn(PrepareStep) -> bool) -> nat
    decreases n,
{
    if n == 0 {
        0
    } else {
        count_index_below(layer, (n - 1) as nat, p) + (if p(
            PrepareStep::Primitive { layer, index: (n - 1) as usize },
        ) {
            1nat
        } else {
            0nat
        })
    }
}

proof fn lemma_count_index_below_one(layer: usize, n: nat, j: usize)
    requires
        n <= usize::MAX + 1,
    ensures
        count_index_below(layer, n, |s: PrepareStep| s == PrepareStep::Primitive { layer, index: j })
            == (if j < n { 1nat } else { 0nat }),
    decreases n,
{
    if n > 0 {
        lemma_count_index_below_one(layer, (n - 1) as nat, j);
    }
}

proof fn lemma_count_index_below_all(layer: usize, n: nat, p: spec_fn(PrepareStep) -> bool)
    requires
        forall|j: usize| #[trigger] p(PrepareStep::Primitive { layer, index: j }),
    ensures
        count_index_below(layer, n, p) == n,
    decreases n,
{
    if n > 0 {
        lemma_count_index_below_all(layer, (n - 1) as nat, p);
    }
}

proof fn lemma_count_index_below_none(layer: usize, n: nat, p: spec_fn(PrepareStep) -> bool)
    requires
        forall|j: usize| !#[trigger] p(PrepareStep::Primitive { layer, index: j }),
    ensures
        count_index_below(layer, n, p) == 0,
    decreases n,
{
    if n > 0 {
        lemma_count_index_below_none(layer, (n - 1) as nat, p);
    }
}

/// How many steps satisfying `p` the preparation of one layer holds, piece
/// by piece.
proof fn lemma_count_layer_prepare(layer: usize, contents: LayerContents, p: spec_fn(PrepareStep) -> bool)
    ensures
        count_prepare(spec_layer_prepare(layer, contents), p)
            == (if contents.quads && p(PrepareStep::Quads { layer }) { 1nat } else { 0nat })
            + (if contents.triangles > 0 && p(PrepareStep::Triangles { layer }) { 1nat } else { 0nat })
            + count_index_below(layer, contents.primitives as nat, p)
            + (if contents.text > 0 && p(PrepareStep::Text { layer }) { 1nat } else { 0nat }),
{
    let q = step_if(contents.quads, PrepareStep::Quads { layer });
    let t = step_if(contents.triangles > 0, PrepareStep::Triangles { layer });
    let pr = Seq::new(
        contents.primitives as nat,
        |i: int| PrepareStep::Primitive { layer, index: i as usize },
    );
    let x = step_if(contents.text > 0, PrepareStep::Text { layer });
    lemma_count_prepare_step_if(contents.quads, PrepareStep::Quads { layer }, p);
    lemma_count_prepare_step_if(contents.triangles > 0, PrepareStep::Triangles { layer }, p);
    lemma_count_prepare_step_if(contents.text > 0, PrepareStep::Text { layer }, p);
    lemma_count_prepare_primitives(layer, contents.primitives as nat, p);
    lemma_count_prepare_concat(q, t, p);
    lemma_count_prepare_concat(q + t, pr, p);
    lemma_count_prepare_concat(q + t + pr, x, p);
}

/// How many of `layers` satisfy `holds`.
pub open spec fn layers_where(layers: Seq<LayerContents>, holds: spec_fn(LayerContents) -> bool) -> nat
    decreases layers.len(),
{
    if layers.len() == 0 {
        0
    } else {
        layers_where(layers.drop_last(), holds) + (if holds(layers.last()) {
            1nat
        } else {
            0nat
        })
    }
}

/// The number of primitive instances the layers hold together.
pub open spec fn primitive_total(layers: Seq<LayerContents>) -> nat
    decreases layers.len(),
{
    if layers.len() == 0 {
        0
    } else {
        primitive_total(layers.drop_last()) + layers.last().primitives as nat
    }
}

/// Preparation prepares the meshes of exactly the layers holding at least
/// one mesh, the text of exactly the layers holding some text, the quads of
/// exactly the layers holding quads, and every primitive instance of every
/// layer once: the plan's steps of each kind are as many as that.
pub proof fn lemma_prepare_totals(layers: Seq<LayerContents>)
    ensures
        count_prepare(spec_prepare_layers(layers), |s: PrepareStep| s is Triangles)
            == layers_where(layers, |c: LayerContents| c.triangles > 0),
        count_prepare(spec_prepare_layers(layers), |s: PrepareStep| s is Text)
            == layers_where(layers, |c: LayerContents| c.text > 0),
        count_prepare(spec_prepare_layers(layers), |s: PrepareStep| s is Quads)
            == layers_where(layers, |c: LayerContents| c.quads),
        count_prepare(spec_prepare_layers(layers), |s: PrepareStep| s is Primitive)
            == primitive_total(layers),
        count_prepare(spec_prepare_layers(layers), |s: PrepareStep| s is TextViewport) == 0,
        count_prepare(spec_prepare_plan(layers), |s: PrepareStep| s is TextViewport) == 1,
        spec_prepare_plan(layers)[0] == PrepareStep::TextViewport,
    decreases layers.len(),
{
    let is_tri = |s: PrepareStep| s is Triangles;
    let is_text = |s: PrepareStep| s is Text;
    let is_quads = |s: PrepareStep| s is Quads;
    let is_prim = |s: PrepareStep| s is Primitive;
    let is_vp = |s: PrepareStep| s is TextViewport;
    if layers.len() > 0 {
        let n = (layers.len() - 1) as usize;
        let front = spec_prepare_layers(layers.drop_last());
        let back = spec_layer_prepare(n, layers.last());
        lemma_prepare_totals(layers.drop_last());
        lemma_count_prepare_concat(front, back, is_tri);
        lemma_count_prepare_concat(front, back, is_text);
        lemma_count_prepare_concat(front, back, is_quads);
        lemma_count_prepare_concat(front, back, is_prim);
        lemma_count_prepare_concat(front, back, is_vp);
        lemma_count_layer_prepare(n, layers.last(), is_tri);
        lemma_count_layer_prepare(n, layers.last(), is_text);
        lemma_count_layer_prepare(n, layers.last(), is_quads);
        lemma_count_layer_prepare(n, layers.last(), is_prim);
        lemma_count_layer_prepare(n, layers.last(), is_vp);
        lemma_count_index_below_none(n, layers.last().primitives as nat, is_tri);
        lemma_count_index_below_none(n, layers.last().primitives as nat, is_text);
        lemma_count_index_below_none(n, layers.last().primitives as nat, is_quads);
        lemma_count_index_below_none(n, layers.last().primitives as nat, is_vp);
        lemma_count_index_below_all(n, layers.last().primitives as nat, is_prim);
    }
    let head = seq![PrepareStep::TextViewport];
    lemma_count_prepare_step_if(true, PrepareStep::TextViewport, is_vp);
    assert(step_if(true, PrepareStep::TextViewport) == head);
    lemma_count_prepare_concat(head, spec_prepare_layers(layers), is_vp);
}

proof fn lemma_prepare_layers_skip(layers: Seq<LayerContents>, p: spec_fn(PrepareStep) -> bool)
    requires
        forall|k: usize| k < layers.len() ==> !#[trigger] p(PrepareStep::Quads { layer: k }),
        forall|k: usize| k < layers.len() ==> !#[trigger] p(PrepareStep::Triangles { layer: k }),
        forall|k: usize| k < layers.len() ==> !#[trigger] p(PrepareStep::Text { layer: k }),
        forall|k: usize, j: usize|
            k < layers.len() ==> !#[trigger] p(PrepareStep::Primitive { layer: k, index: j }),
    ensures
        count_prepare(spec_prepare_layers(layers), p) == 0,
    decreases layers.len(),
{
    if layers.len() > 0 {
        let n = (layers.len() - 1) as usize;
        lemma_prepare_layers_skip(layers.drop_last(), p);
        lemma_count_prepare_concat(
            spec_prepare_layers(layers.drop_last()),
            spec_layer_prepare(n, layers.last()),
            p,
        );
        lemma_count_layer_prepare(n, layers.last(), p);
        assert(!p(PrepareStep::Quads { layer: n }));
        assert(!p(PrepareStep::Triangles { layer: n }));
        assert(!p(PrepareStep::Text { layer: n }));
        assert forall|j: usize| !#[trigger] p(PrepareStep::Primitive { layer: n, index: j }) by {}
        lemma_count_index_below_none(n, layers.last().primitives as nat, p);
    }
}

/// For each layer, preparation prepares its quads once if it holds quads,
/// its meshes once if it holds at least one, its text once if it holds
/// some, and each of its primitive instances once, under the layer's own
/// position; and nothing of it otherwise.
pub proof fn lemma_prepare_per_layer(layers: Seq<LayerContents>, i: usize, j: usize)
    requires
        i < layers.len(),
        layers.len() <= usize::MAX,
    ensures
        count_prepare(spec_prepare_layers(layers), |s: PrepareStep| s == PrepareStep::Quads { layer: i })
            == (if layers[i as int].quads { 1nat } else { 0nat }),
        count_prepare(spec_prepare_layers(layers), |s: PrepareStep| s == PrepareStep::Triangles { layer: i })
            == (if layers[i as int].triangles > 0 { 1nat } else { 0nat }),
        count_prepare(spec_prepare_layers(layers), |s: PrepareStep| s == PrepareStep::Text { layer: i })
            == (if layers[i as int].text > 0 { 1nat } else { 0nat }),
        count_prepare(
            spec_prepare_layers(layers),
            |s: PrepareStep| s == PrepareStep::Primitive { layer: i, index: j },
        ) == (if j < layers[i as int].primitives { 1nat } else { 0nat }),
    decreases layers.len(),
{
    let pq = |s: PrepareStep| s == PrepareStep::Quads { layer: i };
    let pt = |s: PrepareStep| s == PrepareStep::Triangles { layer: i };
    let px = |s: PrepareStep| s == PrepareStep::Text { layer: i };
    let pp = |s: PrepareStep| s == PrepareStep::Primitive { layer: i, index: j };
    let n = (layers.len() - 1) as usize;
    let front = spec_prepare_layers(layers.drop_last());
    let back = spec_layer_prepare(n, layers.last());
    lemma_count_prepare_concat(front, back, pq);
    lemma_count_prepare_concat(front, back, pt);
    lemma_count_prepare_concat(front, back, px);
    lemma_count_prepare_concat(front, back, pp);
    lemma_count_layer_prepare(n, layers.last(), pq);
    lemma_count_layer_prepare(n, layers.last(), pt);
    lemma_count_layer_prepare(n, layers.last(), px);
    lemma_count_layer_prepare(n, layers.last(), pp);
    if i < n {
        lemma_prepare_per_layer(layers.drop_last(), i, j);
        assert(layers.drop_last()[i as int] == layers[i as int]);
        lemma_count_index_below_none(n, layers.last().primitives as nat, pq);
        lemma_count_index_below_none(n, layers.last().primitives as nat, pt);
        lemma_count_index_below_none(n, layers.last().primitives as nat, px);
        assert forall|k: usize| !#[trigger] pp(PrepareStep::Primitive { layer: n, index: k }) by {}
        lemma_count_index_below_none(n, layers.last().primitives as nat, pp);
    } else {
        assert(layers.last() == layers[i as int]);
        lemma_prepare_layers_skip(layers.drop_last(), pq);
        lemma_prepare_layers_skip(layers.drop_last(), pt);
        lemma_prepare_layers_skip(layers.drop_last(), px);
        lemma_prepare_layers_skip(layers.drop_last(), pp);
        lemma_count_index_below_none(n, layers.last().primitives as nat, pq);
        lemma_count_index_below_none(n, layers.last().primitives as nat, pt);
        lemma_count_index_below_none(n, layers.last().primitives as nat, px);
        lemma_count_index_below_one(n, layers.last().primitives as nat, j);
    }
}

/// A layer's plan is carried out in a fixed order: quads first, then the
/// meshes in their own pass break, then the primitives in theirs, and text
/// last.
pub proof fn lemma_plan_steps_order(plan: LayerRenderPlan)
    ensures
        ({
            let steps = spec_plan_steps(plan);
            let q: int = if plan.quads is Some { 1 } else { 0 };
            let m: int = if plan.meshes is Some { 3 } else { 0 };
            let p: int = if plan.primitives { 3 } else { 0 };
            let t: int = if plan.text is Some { 1 } else { 0 };
            &&& steps.len() == q + m + p + t
            &&& plan.quads matches Some(index) ==> steps[0] == RenderStep::Quads { index }
            &&& plan.meshes matches Some(start) ==> steps[q] == RenderStep::EndPass
                && steps[q + 1] == RenderStep::Meshes { start }
                && steps[q + 2] == RenderStep::BeginPass { clear: false }
            &&& plan.primitives ==> steps[q + m] == RenderStep::EndPass
                && steps[q + m + 1] == RenderStep::Primitives
                && steps[q + m + 2] == RenderStep::BeginPass { clear: false }
            &&& plan.text matches Some(start) ==> steps[q + m + p] == RenderStep::Text { start }
        }),
{
}

/// One layer's preparation comes in a fixed order: its quads, then its
/// meshes, then its primitive instances by increasing index, then its text.
pub proof fn lemma_layer_prepare_order(layer: usize, contents: LayerContents)
    ensures
        ({
            let steps = spec_layer_prepare(layer, contents);
            let q: int = if contents.quads { 1 } else { 0 };
            let t: int = if contents.triangles > 0 { 1 } else { 0 };
            let n: int = contents.primitives as int;
            let x: int = if contents.text > 0 { 1 } else { 0 };
            &&& steps.len() == q + t + n + x
            &&& contents.quads ==> steps[0] == PrepareStep::Quads { layer }
            &&& contents.triangles > 0 ==> steps[q] == PrepareStep::Triangles { layer }
            &&& forall|i: int| 0 <= i < n ==> #[trigger] steps[q + t + i] == PrepareStep::Primitive { layer, index: i as usize }
            &&& contents.text > 0 ==> steps[q + t + n] == PrepareStep::Text { layer }
        }),
{
}

/// Layers are prepared front to back: the preparation of the first `k`
/// layers is the beginning of the preparation of all of them.
pub proof fn lemma_prepare_layers_prefix(layers: Seq<LayerContents>, k: int)
    requires
        0 <= k <= layers.len(),
    ensures
        spec_prepare_layers(layers.take(k)).len() <= spec_prepare_layers(layers).len(),
        spec_prepare_layers(layers).take(spec_prepare_layers(layers.take(k)).len() as int)
            == spec_prepare_layers(layers.take(k)),
    decreases layers.len() - k,
{
    if k == layers.len() {
        assert(layers.take(k) =~= layers);
        assert(spec_prepare_layers(layers).take(spec_prepare_layers(layers).len() as int)
            =~= spec_prepare_layers(layers));
    } else {
        let shorter = layers.drop_last();
        assert(shorter.take(k) =~= layers.take(k));
        lemma_prepare_layers_prefix(shorter, k);
        let a = spec_prepare_layers(shorter);
        let b = spec_layer_prepare((layers.len() - 1) as usize, layers.last());
        let c = spec_prepare_layers(layers.take(k));
        assert(spec_prepare_layers(layers) == a + b);
        assert((a + b).take(c.len() as int) =~= a.take(c.len() as int));
    }
}

} // verus!
