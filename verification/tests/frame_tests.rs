use iced_lowres::frame::{
    frame_opening, prepare_plan, LayerContents, LayerRenderPlan, PrepareStep,
    RenderCursor, RenderStep,
};

/// The steps a layer plan is carried out as.
fn steps_of(plan: &LayerRenderPlan) -> Vec<RenderStep> {
    let mut steps = vec![];
    if let Some(index) = plan.quads {
        steps.push(RenderStep::Quads { index });
    }
    if let Some(start) = plan.meshes {
        steps.push(RenderStep::EndPass);
        steps.push(RenderStep::Meshes { start });
        steps.push(RenderStep::BeginPass { clear: false });
    }
    if plan.primitives {
        steps.push(RenderStep::EndPass);
        steps.push(RenderStep::Primitives);
        steps.push(RenderStep::BeginPass { clear: false });
    }
    if let Some(start) = plan.text {
        steps.push(RenderStep::Text { start });
    }
    steps
}

fn layer(visible: bool, quads: bool, triangles: usize, primitives: usize, text: usize) -> LayerContents {
    LayerContents { visible, quads, triangles, primitives, text }
}

/// Whether the pass is open after each step, or `None` if a step is out of place.
fn pass_state(steps: &[RenderStep]) -> Option<bool> {
    let mut open = false;
    for step in steps {
        open = match (step, open) {
            (RenderStep::BeginPass { .. }, false) => true,
            (RenderStep::EndPass, true) => false,
            (RenderStep::Quads { .. }, true) | (RenderStep::Text { .. }, true) => true,
            (RenderStep::Meshes { .. }, false) | (RenderStep::Primitives, false) => false,
            _ => return None,
        };
    }
    Some(open)
}

#[test]
fn prepare_plan_of_no_layers() {
    assert_eq!(prepare_plan(&vec![]), vec![PrepareStep::TextViewport]);
}

#[test]
fn prepare_plan_covers_every_kind_in_order() {
    let layers = vec![layer(true, true, 2, 2, 1), layer(false, false, 0, 0, 3), layer(true, false, 0, 0, 0)];
    let plan = prepare_plan(&layers);
    assert_eq!(
        plan,
        vec![
            PrepareStep::TextViewport,
            PrepareStep::Quads { layer: 0 },
            PrepareStep::Triangles { layer: 0 },
            PrepareStep::Primitive { layer: 0, index: 0 },
            PrepareStep::Primitive { layer: 0, index: 1 },
            PrepareStep::Text { layer: 0 },
            PrepareStep::Text { layer: 1 },
        ]
    );
}

#[test]
fn invisible_layer_is_skipped() {
    let cursor = RenderCursor { quad_layer: 3, mesh_layer: 4, text_layer: 5 };
    let hidden = layer(false, true, 1, 1, 1);
    assert_eq!(
        cursor.layer_plan(&hidden),
        LayerRenderPlan { quads: None, meshes: None, primitives: false, text: None }
    );
    assert_eq!(cursor.after_layer(&hidden, 7, 7), cursor);
}

#[test]
fn full_layer_steps() {
    let cursor = RenderCursor { quad_layer: 1, mesh_layer: 2, text_layer: 3 };
    let plan = cursor.layer_plan(&layer(true, true, 4, 1, 2));
    assert_eq!(
        plan,
        LayerRenderPlan { quads: Some(1), meshes: Some(2), primitives: true, text: Some(3) }
    );
    let steps = steps_of(&plan);
    assert_eq!(
        steps,
        vec![
            RenderStep::Quads { index: 1 },
            RenderStep::EndPass,
            RenderStep::Meshes { start: 2 },
            RenderStep::BeginPass { clear: false },
            RenderStep::EndPass,
            RenderStep::Primitives,
            RenderStep::BeginPass { clear: false },
            RenderStep::Text { start: 3 },
        ]
    );
    let next = cursor.after_layer(&layer(true, true, 4, 1, 2), 5, 6);
    assert_eq!(next, RenderCursor { quad_layer: 2, mesh_layer: 7, text_layer: 9 });
}

#[test]
fn counts_only_advance_for_present_kinds() {
    let cursor = RenderCursor::new();
    let next = cursor.after_layer(&layer(true, false, 0, 3, 0), 5, 6);
    assert_eq!(next, RenderCursor::new());
}

#[test]
fn whole_frame_passes_are_well_nested() {
    let layers = vec![
        layer(true, true, 0, 0, 1),
        layer(true, false, 2, 0, 0),
        layer(false, true, 1, 1, 1),
        layer(true, true, 1, 2, 1),
        layer(true, false, 0, 1, 0),
    ];
    let mut steps = vec![frame_opening(true)];
    let mut cursor = RenderCursor::new();
    let mut quad_indices = vec![];
    for l in &layers {
        let block = steps_of(&cursor.layer_plan(l));
        for s in &block {
            if let RenderStep::Quads { index } = s {
                quad_indices.push(*index);
            }
        }
        steps.extend(block);
        cursor = cursor.after_layer(l, 2, 1);
    }
    steps.push(RenderStep::EndPass);
    assert_eq!(steps[0], RenderStep::BeginPass { clear: true });
    assert_eq!(pass_state(&steps), Some(false));
    assert_eq!(quad_indices, vec![0, 1]);
    assert_eq!(cursor, RenderCursor { quad_layer: 2, mesh_layer: 4, text_layer: 2 });
}

#[test]
fn quad_indices_agree_when_quad_layers_are_visible() {
    let layers = vec![layer(true, true, 0, 0, 0), layer(true, false, 1, 0, 0), layer(true, true, 0, 0, 2)];
    let prepared: Vec<usize> = prepare_plan(&layers)
        .iter()
        .filter_map(|s| if let PrepareStep::Quads { layer } = s { Some(*layer) } else { None })
        .collect();
    assert_eq!(prepared, vec![0, 2]);
    let mut cursor = RenderCursor::new();
    let mut drawn = vec![];
    for (i, l) in layers.iter().enumerate() {
        if let Some(index) = cursor.layer_plan(l).quads {
            drawn.push((i, index));
        }
        cursor = cursor.after_layer(l, 1, 1);
    }
    // Layer 0 was the first quad layer prepared, layer 2 the second.
    assert_eq!(drawn, vec![(0, 0), (2, 1)]);
}

#[test]
fn hidden_quad_layer_is_prepared_but_not_numbered() {
    let layers = vec![layer(false, true, 0, 0, 0), layer(true, true, 0, 0, 0)];
    let plan = prepare_plan(&layers);
    assert_eq!(
        plan,
        vec![
            PrepareStep::TextViewport,
            PrepareStep::Quads { layer: 0 },
            PrepareStep::Quads { layer: 1 },
        ]
    );
    let cursor = RenderCursor::new();
    let cursor = cursor.after_layer(&layers[0], 0, 0);
    assert_eq!(cursor.layer_plan(&layers[1]).quads, Some(0));
}

#[test]
fn text_only_layer_stays_in_pass() {
    let cursor = RenderCursor { quad_layer: 0, mesh_layer: 0, text_layer: 4 };
    let plan = cursor.layer_plan(&layer(true, false, 0, 0, 3));
    assert_eq!(plan, LayerRenderPlan { quads: None, meshes: None, primitives: false, text: Some(4) });
    assert_eq!(steps_of(&plan), vec![RenderStep::Text { start: 4 }]);
}
