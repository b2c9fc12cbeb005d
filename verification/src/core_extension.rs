//! The core extension: what it registers, how buttons run operators, and cancelling tools.
use vstd::prelude::*;
use crate::clip_ops::{clip_bindings, clip_operators, law_clip_bindings_resolve};
use crate::context_menu::{
    hierarchy_bindings, hierarchy_operators, law_hierarchy_bindings_resolve,
};
use crate::element_drag::drag_operators;
use crate::entity_menu::{entity_bindings, entity_operators, law_entity_bindings_resolve};
use crate::history_ops::{history_bindings, history_operators, law_history_bindings_resolve};
use crate::operators::{
    bind, bindings_resolve, bound, Binding, ExtensionContext, KeyInput, OperatorResult,
};
use crate::seqs::lemma_push_contains;
use crate::value::Entity;

verus! {

/// The id of the core extension.
pub const CORE_EXTENSION_ID: &'static str = "jackdaw.core";

/// The operator that cancels the active tool.
pub const CANCEL_OPERATOR: &'static str = "modal.cancel";

/// The input context of the core extension's keys.
#[derive(Clone, Copy, Debug, PartialEq, Eq, Structural)]
pub struct CoreExtensionInputContext;

/// Where an extension comes from.
#[derive(Clone, Copy, Debug, PartialEq, Eq, Structural)]
pub enum ExtensionKind {
    Builtin,
    Regular,
}

/// The extension with the editor's own operators. It is always loaded.
#[derive(Clone, Copy, Debug, PartialEq, Eq, Structural)]
pub struct JackdawCoreExtension;

/// The operators that the core extension registers itself.
pub open spec fn core_operators() -> Seq<&'static str> {
    seq![
        "CancelModalOp",
        "ApplyTextureOp",
        "WindowOpenOp",
        "WindowResetLayoutOp",
        "ClipDeleteKeyframesOp",
        "ClipTimelineStepLeftOp",
        "ClipTimelineStepRightOp",
        "ClipTimelineJumpPrevOp",
        "ClipTimelineJumpNextOp",
        "ClipTimelineJumpStartOp",
        "ClipTimelineJumpEndOp",
        "ClipCopyKeyframesOp",
        "ClipPasteKeyframesOp",
        "ClipPlayOp",
        "ClipPauseOp",
        "ClipStopOp",
        "ClipNewOp",
        "ClipNewBlendGraphOp",
    ]
}

/// The keys that the core extension binds itself. Stepping along the timeline repeats while the
/// key is down.
pub open spec fn core_bindings() -> Seq<Binding> {
    seq![
        bound("CancelModalOp", KeyInput::key_spec("Escape")),
        bound("ClipDeleteKeyframesOp", KeyInput::key_spec("Delete")),
        bound("ClipDeleteKeyframesOp", KeyInput::key_spec("Backspace")),
        bound("ClipTimelineStepLeftOp", KeyInput::held_spec("ArrowLeft")),
        bound("ClipTimelineStepRightOp", KeyInput::held_spec("ArrowRight")),
        bound("ClipTimelineJumpPrevOp", KeyInput::key_spec("ArrowLeft").shift_spec()),
        bound("ClipTimelineJumpNextOp", KeyInput::key_spec("ArrowRight").shift_spec()),
        bound("ClipTimelineJumpStartOp", KeyInput::key_spec("Home")),
        bound("ClipTimelineJumpEndOp", KeyInput::key_spec("End")),
        bound("ClipCopyKeyframesOp", KeyInput::key_spec("KeyC").ctrl_spec()),
        bound("ClipPasteKeyframesOp", KeyInput::key_spec("KeyV").ctrl_spec()),
    ]
}

/// The parts of the editor outside of the library that register operators of their own, in the order
/// in which they do.
pub open spec fn editor_features() -> Seq<&'static str> {
    seq![
        "draw_brush",
        "measure_tool",
        "scene_ops",
        "scenes::operators",
        "app_ops",
        "view_ops",
        "fps_overlay",
        "grid_ops",
        "gizmo_ops",
        "tool_ops",
        "numeric_transform",
        "edit_mode_ops",
        "transform_ops",
        "physics_tool",
        "file_ops",
        "material_assets",
        "viewport_select",
        "brush_element_ops",
        "brush::box_select",
    ]
}

/// The parts that edit the topology of brushes.
pub open spec fn topology_features() -> Seq<&'static str> {
    seq![
        "brush::topology_ops::bridge_edge_loops",
        "brush::topology_ops::connect_verts",
        "brush::topology_ops::dissolve_edges",
        "brush::topology_ops::dissolve_faces",
        "brush::topology_ops::dissolve_verts",
        "brush::topology_ops::edge_bevel",
        "brush::topology_ops::vertex_bevel",
        "brush::topology_ops::edge_slide",
        "brush::topology_ops::edge_slide_modal",
        "brush::topology_ops::select_invert",
        "brush::topology_ops::select_less",
        "brush::topology_ops::select_linked",
        "brush::topology_ops::select_loop",
        "brush::topology_ops::select_more",
        "brush::topology_ops::select_ring",
        "brush::topology_ops::extrude",
        "brush::topology_ops::inset",
        "brush::topology_ops::loop_cut",
        "brush::topology_ops::make_edge_face",
        "brush::topology_ops::merge_by_distance",
        "brush::topology_ops::mirror_ops",
        "brush::mirror_plane_ops",
        "modifier_ops",
        "brush::topology_ops::subdivide",
        "brush::topology_ops::vertex_slide",
        "brush::topology_ops::vertex_slide_modal",
        "brush::topology_ops::weld_selected",
        "brush::topology_ops::uv_reset_axes",
        "brush::topology_ops::uv_world_aligned",
        "brush::topology_ops::uv_rotate_90",
        "brush::topology_ops::uv_fit_to_face",
        "brush::topology_ops::uv_texel_density",
        "brush::topology_ops::uv_align_to_edge",
        "brush::topology_ops::reconvexify",
        "brush::knife_mode",
    ]
}

/// The parts that come last: gizmos, terrain, browsers and panels.
pub open spec fn panel_features() -> Seq<&'static str> {
    seq![
        "gizmos",
        "terrain::sculpt",
        "pie",
        "terrain::ops",
        "terrain::regions",
        "terrain::navmesh_bake",
        "terrain::paint",
        "terrain::channel_ops",
        "terrain::quantize_ops",
        "terrain::shape_ops",
        "terrain::scatter",
        "terrain::panel",
        "terrain::texture_ops",
        "terrain::autoterrain_ops",
        "asset_browser",
        "material_browser",
        "inspector::ops",
        "viewport",
        "screenshot",
        "command_palette",
        "document_ops",
        "dock_ops",
    ]
}

/// The operators that the core extension and the parts of the editor register, in order.
pub open spec fn all_operators(camera_rig: bool, multiplayer: bool) -> Seq<&'static str> {
    core_operators() + history_operators() + entity_operators(camera_rig, multiplayer)
        + hierarchy_operators() + clip_operators() + drag_operators()
}

/// The keys that the core extension and the parts of the editor bind, in order.
pub open spec fn all_bindings() -> Seq<Binding> {
    core_bindings() + history_bindings() + entity_bindings() + hierarchy_bindings()
        + clip_bindings()
}

impl JackdawCoreExtension {
    pub fn id(&self) -> (r: String)
        ensures
            r@ == "jackdaw.core"@,
    {
        CORE_EXTENSION_ID.to_owned()
    }

    pub fn label(&self) -> (r: String)
        ensures
            r@ == "Jackdaw Core Functionality"@,
    {
        "Jackdaw Core Functionality".to_owned()
    }

    pub fn description(&self) -> (r: String)
        ensures
            r@
                == "Important functionality for the Jackdaw editor. This extension is always loaded and cannot be disabled."@,
    {
        "Important functionality for the Jackdaw editor. This extension is always loaded and cannot be disabled.".to_owned()
    }

    pub fn kind(&self) -> (r: ExtensionKind)
        ensures
            r == ExtensionKind::Builtin,
    {
        ExtensionKind::Builtin
    }

    /// Registers the operators of the core extension and binds its keys, has the parts of the editor
    /// register theirs, and lists the parts outside of the library that are to do so as well.
    /// `camera_rig` and `multiplayer` tell whether the editor has these optional parts.
    pub fn register(&self, ctx: &mut ExtensionContext, camera_rig: bool, multiplayer: bool)
        ensures
            final(ctx).operators@ == old(ctx).operators@ + all_operators(camera_rig, multiplayer),
            final(ctx).bindings@ == old(ctx).bindings@ + all_bindings(),
            final(ctx).features@ == old(ctx).features@ + editor_features() + topology_features()
                + panel_features(),
            final(ctx).features@.len() == old(ctx).features@.len() + 76,
    {
        register_core_operators(ctx);
        bind_core_keys(ctx);
        crate::history_ops::add_to_extension(ctx);
        crate::entity_menu::add_to_extension(ctx, camera_rig, multiplayer);
        crate::context_menu::add_to_extension(ctx);
        crate::clip_ops::add_to_extension(ctx);
        crate::element_drag::add_to_extension(ctx);
        assert(ctx.operators@ =~= old(ctx).operators@ + all_operators(camera_rig, multiplayer));
        assert(ctx.bindings@ =~= old(ctx).bindings@ + all_bindings());
        add_editor_features(ctx);
        add_topology_features(ctx);
        add_panel_features(ctx);
    }
}

fn register_core_operators(ctx: &mut ExtensionContext)
    ensures
        final(ctx).operators@ == old(ctx).operators@ + core_operators(),
        final(ctx).bindings@ == old(ctx).bindings@,
        final(ctx).features@ == old(ctx).features@,
{
    let operators: Vec<&'static str> = vec![
        "CancelModalOp",
        "ApplyTextureOp",
        "WindowOpenOp",
        "WindowResetLayoutOp",
        "ClipDeleteKeyframesOp",
        "ClipTimelineStepLeftOp",
        "ClipTimelineStepRightOp",
        "ClipTimelineJumpPrevOp",
        "ClipTimelineJumpNextOp",
        "ClipTimelineJumpStartOp",
        "ClipTimelineJumpEndOp",
        "ClipCopyKeyframesOp",
        "ClipPasteKeyframesOp",
        "ClipPlayOp",
        "ClipPauseOp",
        "ClipStopOp",
        "ClipNewOp",
        "ClipNewBlendGraphOp",
    ];
    assert(operators@ =~= core_operators());
    ctx.register_operators(&operators);
}

fn bind_core_keys(ctx: &mut ExtensionContext)
    ensures
        final(ctx).operators@ == old(ctx).operators@,
        final(ctx).bindings@ == old(ctx).bindings@ + core_bindings(),
        final(ctx).features@ == old(ctx).features@,
{
    let bindings: Vec<Binding> = vec![
        bind("CancelModalOp", KeyInput::key("Escape")),
        bind("ClipDeleteKeyframesOp", KeyInput::key("Delete")),
        bind("ClipDeleteKeyframesOp", KeyInput::key("Backspace")),
        bind("ClipTimelineStepLeftOp", KeyInput::held("ArrowLeft")),
        bind("ClipTimelineStepRightOp", KeyInput::held("ArrowRight")),
        bind("ClipTimelineJumpPrevOp", KeyInput::key("ArrowLeft").shift()),
        bind("ClipTimelineJumpNextOp", KeyInput::key("ArrowRight").shift()),
        bind("ClipTimelineJumpStartOp", KeyInput::key("Home")),
        bind("ClipTimelineJumpEndOp", KeyInput::key("End")),
        bind("ClipCopyKeyframesOp", KeyInput::key("KeyC").ctrl()),
        bind("ClipPasteKeyframesOp", KeyInput::key("KeyV").ctrl()),
    ];
    assert(bindings@ =~= core_bindings());
    ctx.bind_operators(&bindings);
}

fn add_editor_features(ctx: &mut ExtensionContext)
    ensures
        final(ctx).operators@ == old(ctx).operators@,
        final(ctx).bindings@ == old(ctx).bindings@,
        final(ctx).features@ == old(ctx).features@ + editor_features(),
{
    let features: Vec<&'static str> = vec![
        "draw_brush",
        "measure_tool",
        "scene_ops",
        "scenes::operators",
        "app_ops",
        "view_ops",
        "fps_overlay",
        "grid_ops",
        "gizmo_ops",
        "tool_ops",
        "numeric_transform",
        "edit_mode_ops",
        "transform_ops",
        "physics_tool",
        "file_ops",
        "material_assets",
        "viewport_select",
        "brush_element_ops",
        "brush::box_select",
    ];
    assert(features@ =~= editor_features());
    ctx.add_features(&features);
}

fn add_topology_features(ctx: &mut ExtensionContext)
    ensures
        final(ctx).operators@ == old(ctx).operators@,
        final(ctx).bindings@ == old(ctx).bindings@,
        final(ctx).features@ == old(ctx).features@ + topology_features(),
{
    let features: Vec<&'static str> = vec![
        "brush::topology_ops::bridge_edge_loops",
        "brush::topology_ops::connect_verts",
        "brush::topology_ops::dissolve_edges",
        "brush::topology_ops::dissolve_faces",
        "brush::topology_ops::dissolve_verts",
        "brush::topology_ops::edge_bevel",
        "brush::topology_ops::vertex_bevel",
        "brush::topology_ops::edge_slide",
        "brush::topology_ops::edge_slide_modal",
        "brush::topology_ops::select_invert",
        "brush::topology_ops::select_less",
        "brush::topology_ops::select_linked",
        "brush::topology_ops::select_loop",
        "brush::topology_ops::select_more",
        "brush::topology_ops::select_ring",
        "brush::topology_ops::extrude",
        "brush::topology_ops::inset",
        "brush::topology_ops::loop_cut",
        "brush::topology_ops::make_edge_face",
        "brush::topology_ops::merge_by_distance",
        "brush::topology_ops::mirror_ops",
        "brush::mirror_plane_ops",
        "modifier_ops",
        "brush::topology_ops::subdivide",
        "brush::topology_ops::vertex_slide",
        "brush::topology_ops::vertex_slide_modal",
        "brush::topology_ops::weld_selected",
        "brush::topology_ops::uv_reset_axes",
        "brush::topology_ops::uv_world_aligned",
        "brush::topology_ops::uv_rotate_90",
        "brush::topology_ops::uv_fit_to_face",
        "brush::topology_ops::uv_texel_density",
        "brush::topology_ops::uv_align_to_edge",
        "brush::topology_ops::reconvexify",
        "brush::knife_mode",
    ];
    assert(features@ =~= topology_features());
    ctx.add_features(&features);
}

fn add_panel_features(ctx: &mut ExtensionContext)
    ensures
        final(ctx).operators@ == old(ctx).operators@,
        final(ctx).bindings@ == old(ctx).bindings@,
        final(ctx).features@ == old(ctx).features@ + panel_features(),
{
    let features: Vec<&'static str> = vec![
        "gizmos",
        "terrain::sculpt",
        "pie",
        "terrain::ops",
        "terrain::regions",
        "terrain::navmesh_bake",
        "terrain::paint",
        "terrain::channel_ops",
        "terrain::quantize_ops",
        "terrain::shape_ops",
        "terrain::scatter",
        "terrain::panel",
        "terrain::texture_ops",
        "terrain::autoterrain_ops",
        "asset_browser",
        "material_browser",
        "inspector::ops",
        "viewport",
        "screenshot",
        "command_palette",
        "document_ops",
        "dock_ops",
    ];
    assert(features@ =~= panel_features());
    ctx.add_features(&features);
}

/// Every key that the core extension binds runs an operator that it registers.
pub proof fn law_core_bindings_resolve()
    ensures
        bindings_resolve(core_operators(), core_bindings()),
{
    let ops = core_operators();
    let bs = core_bindings();
    assert forall|i: int| 0 <= i < bs.len() implies ops.contains((#[trigger] bs[i]).operator) by {
        let at = seq![0int, 4, 4, 5, 6, 7, 8, 9, 10, 11, 12];
        assert(ops[at[i]] == bs[i].operator);
    }
}

/// Keys that resolve stay so beside others that do.
proof fn lemma_resolve_together(
    operators: Seq<&'static str>,
    bindings: Seq<Binding>,
    more: Seq<&'static str>,
    keys: Seq<Binding>,
)
    requires
        bindings_resolve(operators, bindings),
        bindings_resolve(more, keys),
    ensures
        bindings_resolve(operators + more, bindings + keys),
{
    let all = operators + more;
    let bs = bindings + keys;
    assert forall|i: int| 0 <= i < bs.len() implies all.contains((#[trigger] bs[i]).operator) by {
        if i < bindings.len() {
            assert(operators.contains(bindings[i].operator));
            let k = choose|k: int|
                0 <= k < operators.len() && operators[k] == bindings[i].operator;
            assert(all[k] == bs[i].operator);
        } else {
            let j = i - bindings.len();
            assert(more.contains(keys[j].operator));
            let k = choose|k: int| 0 <= k < more.len() && more[k] == keys[j].operator;
            assert(all[operators.len() + k] == bs[i].operator);
        }
    }
}

/// Every key that is bound runs an operator that is registered, whichever optional parts the editor
/// has.
pub proof fn law_all_bindings_resolve(camera_rig: bool, multiplayer: bool)
    ensures
        bindings_resolve(all_operators(camera_rig, multiplayer), all_bindings()),
{
    let entity = entity_operators(camera_rig, multiplayer);
    law_core_bindings_resolve();
    law_history_bindings_resolve();
    law_entity_bindings_resolve(camera_rig, multiplayer);
    law_hierarchy_bindings_resolve();
    law_clip_bindings_resolve();
    let o1 = core_operators() + history_operators();
    let b1 = core_bindings() + history_bindings();
    lemma_resolve_together(
        core_operators(),
        core_bindings(),
        history_operators(),
        history_bindings(),
    );
    lemma_resolve_together(o1, b1, entity, entity_bindings());
    let o2 = o1 + entity;
    let b2 = b1 + entity_bindings();
    lemma_resolve_together(o2, b2, hierarchy_operators(), hierarchy_bindings());
    let o3 = o2 + hierarchy_operators();
    let b3 = b2 + hierarchy_bindings();
    lemma_resolve_together(o3, b3, clip_operators(), clip_bindings());
    let o4 = o3 + clip_operators();
    let b4 = b3 + clip_bindings();
    lemma_resolve_together(o4, b4, drag_operators(), Seq::empty());
    assert(b4 + Seq::<Binding>::empty() =~= all_bindings());
    assert(o4 + drag_operators() =~= all_operators(camera_rig, multiplayer));
}

/// A button's call of an operator: the operator's id, and parameters that the button declares.
#[derive(Debug)]
pub struct ButtonOperatorCall<P> {
    pub id: String,
    pub params: Vec<(String, P)>,
}

/// One call of an operator.
#[derive(Debug)]
pub struct OperatorCall<P> {
    pub id: String,
    pub params: Vec<(String, P)>,
    /// Whether the operator opens what it asks the user, rather than running at once.
    pub invoke: bool,
    pub creates_history_entry: bool,
}

/// What a click on a button runs: the active tool is cancelled first, so that the button is a peer
/// of any tool; then its own operator is invoked with its parameters.
#[derive(Debug)]
pub struct Dispatch<P> {
    pub cancel: &'static str,
    pub call: OperatorCall<P>,
}

/// What running a button's operator comes to.
pub fn queue_operator_dispatch<P>(call: ButtonOperatorCall<P>) -> (r: Dispatch<P>)
    ensures
        r.cancel@ == "modal.cancel"@,
        r.call.id == call.id,
        r.call.params == call.params,
        r.call.invoke,
        r.call.creates_history_entry,
{
    Dispatch {
        cancel: CANCEL_OPERATOR,
        call: OperatorCall {
            id: call.id,
            params: call.params,
            invoke: true,
            creates_history_entry: true,
        },
    }
}

/// What a click runs: nothing for a button that calls no operator.
pub fn dispatch_button_operator_call<P>(call: Option<ButtonOperatorCall<P>>) -> (r: Option<
    Dispatch<P>,
>)
    ensures
        call is None ==> r is None,
        call matches Some(c) ==> {
            &&& r matches Some(d)
            &&& d.cancel@ == "modal.cancel"@
            &&& d.call.id == c.id
            &&& d.call.params == c.params
            &&& d.call.invoke
            &&& d.call.creates_history_entry
        },
{
    match call {
        Some(c) => Some(queue_operator_dispatch(c)),
        None => None,
    }
}

/// A button as the availability of its operator is brought up to date. The operator may not be
/// able to tell whether it is available.
#[derive(Clone, Copy, Debug, PartialEq, Eq, Structural)]
pub struct OperatorButton {
    pub entity: Entity,
    pub alive: bool,
    pub available: Option<bool>,
    pub disabled: bool,
}

/// What changes on a button.
#[derive(Clone, Copy, Debug, PartialEq, Eq, Structural)]
pub enum ButtonChange {
    Enable(Entity),
    Disable(Entity),
}

impl OperatorButton {
    /// Whether the button can be used. One whose operator cannot tell stays usable: dispatch
    /// cancels the active tool first.
    pub open spec fn usable(self) -> bool {
        self.available != Some(false)
    }

    pub open spec fn change_spec(self) -> Option<ButtonChange> {
        if !self.alive || self.usable() != self.disabled {
            None
        } else if self.disabled {
            Some(ButtonChange::Enable(self.entity))
        } else {
            Some(ButtonChange::Disable(self.entity))
        }
    }

    /// What has to change on the button, if anything.
    pub fn change(self) -> (r: Option<ButtonChange>)
        ensures
            r == self.change_spec(),
    {
        let available: bool = match self.available {
            Some(a) => a,
            None => true,
        };
        if !self.alive {
            None
        } else if available && self.disabled {
            Some(ButtonChange::Enable(self.entity))
        } else if !available && !self.disabled {
            Some(ButtonChange::Disable(self.entity))
        } else {
            None
        }
    }

    /// The button after its change was made.
    pub open spec fn settled(self) -> OperatorButton {
        match self.change_spec() {
            Some(ButtonChange::Enable(_)) => OperatorButton { disabled: false, ..self },
            Some(ButtonChange::Disable(_)) => OperatorButton { disabled: true, ..self },
            None => self,
        }
    }
}

/// The changes on buttons, in order.
pub open spec fn changes_of(buttons: Seq<OperatorButton>) -> Seq<ButtonChange>
    decreases buttons.len(),
{
    if buttons.len() == 0 {
        Seq::empty()
    } else {
        let before = changes_of(buttons.drop_last());
        match buttons.last().change_spec() {
            Some(c) => before.push(c),
            None => before,
        }
    }
}

/// Brings the enabled state of buttons in line with their operators: only the buttons whose state
/// differs change.
pub fn update_operator_button_availability(buttons: &Vec<OperatorButton>) -> (r: Vec<ButtonChange>)
    ensures
        r@ == changes_of(buttons@),
{
    let mut out: Vec<ButtonChange> = Vec::new();
    let mut i: usize = 0;
    assert(buttons@.subrange(0, 0) =~= Seq::empty());
    while i < buttons.len()
        invariant
            i <= buttons.len(),
            out@ == changes_of(buttons@.subrange(0, i as int)),
        decreases buttons.len() - i,
    {
        proof {
            assert(buttons@.subrange(0, i + 1).drop_last() =~= buttons@.subrange(0, i as int));
            assert(buttons@.subrange(0, i + 1).last() == buttons@[i as int]);
        }
        if let Some(c) = buttons[i].change() {
            out.push(c);
        }
        i = i + 1;
    }
    assert(buttons@.subrange(0, i as int) =~= buttons@);
    out
}

/// A live button whose change was made is disabled exactly when it cannot be used, and needs no
/// further change.
pub proof fn law_settled_buttons_match(button: OperatorButton)
    requires
        button.alive,
    ensures
        button.settled().disabled == !button.usable(),
        button.settled().change_spec() is None,
{
}

/// Whether buttons are brought up to date: after each change of the selection.
pub fn refresh_buttons_on_selection_change(selection_changed: bool) -> (refresh: bool)
    ensures
        refresh == selection_changed,
{
    selection_changed
}

/// The tool that is running, and the pickers that are open.
#[derive(Debug)]
pub struct ModalState {
    pub running: Option<Entity>,
    pub pickers: Vec<Entity>,
}

/// Whether there is something to cancel.
pub fn is_any_modal_active(state: &ModalState) -> (r: bool)
    ensures
        r == (state.running is Some || state.pickers@.len() > 0),
{
    state.running.is_some() || state.pickers.len() > 0
}

/// Cancels the running tool and closes every picker. Returns the pickers to dismiss.
pub fn cancel_modal(state: &mut ModalState) -> (r: (OperatorResult, Vec<Entity>))
    ensures
        r.0 == OperatorResult::Finished,
        r.1@ == old(state).pickers@,
        final(state).running is None,
        final(state).pickers@ == Seq::<Entity>::empty(),
{
    state.running = None;
    let mut dismissed: Vec<Entity> = Vec::new();
    std::mem::swap(&mut dismissed, &mut state.pickers);
    (OperatorResult::Finished, dismissed)
}

/// The buttons that change are the live ones that are disabled though their operator does not say that
/// it is unavailable, which become enabled, and those that are enabled though it does, which become
/// disabled.
pub proof fn law_buttons_follow_their_operators(buttons: Seq<OperatorButton>, e: Entity)
    ensures
        changes_of(buttons).contains(ButtonChange::Enable(e)) <==> exists|k: int|
            0 <= k < buttons.len() && (#[trigger] buttons[k]).entity == e && buttons[k].alive
                && buttons[k].disabled && buttons[k].available != Some(false),
        changes_of(buttons).contains(ButtonChange::Disable(e)) <==> exists|k: int|
            0 <= k < buttons.len() && (#[trigger] buttons[k]).entity == e && buttons[k].alive
                && !buttons[k].disabled && buttons[k].available == Some(false),
        changes_of(buttons).len() <= buttons.len(),
    decreases buttons.len(),
{
    if buttons.len() > 0 {
        let init = buttons.drop_last();
        let last = buttons.last();
        law_buttons_follow_their_operators(init, e);
        assert(buttons[buttons.len() - 1] == last);
        assert forall|k: int| 0 <= k < init.len() implies #[trigger] init[k] == buttons[k] by {}
        if let Some(c) = last.change_spec() {
            lemma_push_contains(changes_of(init), c, ButtonChange::Enable(e));
            lemma_push_contains(changes_of(init), c, ButtonChange::Disable(e));
        }
        let on = |b: OperatorButton|
            b.entity == e && b.alive && b.disabled && b.available != Some(false);
        let off = |b: OperatorButton|
            b.entity == e && b.alive && !b.disabled && b.available == Some(false);
        if exists|k: int| 0 <= k < init.len() && on(#[trigger] init[k]) {
            let k = choose|k: int| 0 <= k < init.len() && on(#[trigger] init[k]);
            assert(on(buttons[k]));
        }
        if exists|k: int| 0 <= k < init.len() && off(#[trigger] init[k]) {
            let k = choose|k: int| 0 <= k < init.len() && off(#[trigger] init[k]);
            assert(off(buttons[k]));
        }
        if exists|k: int| 0 <= k < buttons.len() && on(#[trigger] buttons[k]) {
            let k = choose|k: int| 0 <= k < buttons.len() && on(#[trigger] buttons[k]);
            if k < init.len() {
                assert(on(init[k]));
            }
        }
        if exists|k: int| 0 <= k < buttons.len() && off(#[trigger] buttons[k]) {
            let k = choose|k: int| 0 <= k < buttons.len() && off(#[trigger] buttons[k]);
            if k < init.len() {
                assert(off(init[k]));
            }
        }
    }
}

} // verus!
