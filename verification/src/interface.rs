//! Menu and toolbar decisions: which entries are shown, enabled and marked
//! active for the current workspace, tool and edit state.
use vstd::prelude::*;

verus! {

#[derive(Debug, Clone, Copy, PartialEq, Eq, PartialOrd, Ord, Structural)]
pub enum ButtonId {
    ToolbarFileOpenFileArchive,
    ToolbarFileOpenFolder,
    ToolbarFileSave,
    ToolbarFileSaveAsArchive,
    ToolbarFileSaveAsFolder,
    ToolbarFileReveal,
    ToolbarFileExportLandMap,
    ToolbarFileExportTerrainMap,
    WorkspaceProvinces,
    WorkspaceStates,
    WorkspaceReviewChanges,
    WorkspaceApplyToMod,
    ToolbarEditUndo,
    ToolbarEditRedo,
    ToolbarEditFindMap,
    ToolbarEditNewState,
    ToolbarEditRemoveState,
    ToolbarEditStateProperties,
    ToolbarEditProvinceData,
    ToolbarEditSelectTargetStateProvinces,
    ToolbarEditActivateStateLasso,
    ToolbarEditStateLassoReplace,
    ToolbarEditStateLassoAdd,
    ToolbarEditStateLassoRemove,
    ToolbarEditStateLassoCentroid,
    ToolbarEditStateLassoAnyIntersection,
    ToolbarEditStateLassoMajority,
    ToolbarEditConfirmStateLasso,
    ToolbarEditCancelStateLasso,
    ToolbarEditActivateStateBrushAssign,
    ToolbarEditActivateStateBrushUnassign,
    ToolbarEditCancelStateBrush,
    ToolbarEditActivateStateFillHovered,
    ToolbarEditActivateStateFillConnectedState,
    ToolbarEditActivateStateFillConnectedUnassigned,
    ToolbarEditActivateStateFillWholeState,
    ToolbarEditConfirmStateFill,
    ToolbarEditCancelStateFill,
    ToolbarEditMoveSelectedToTarget,
    ToolbarEditUnassignSelected,
    ToolbarEditClearStateSelection,
    ToolbarEditDiscardStateSession,
    ToolbarEditCoastal,
    ToolbarEditRecolor,
    ToolbarEditProblems,
    ToolbarEditToggleLassoSnap,
    ToolbarEditNextMaskMode,
    ToolbarEditAdjacencies,
    ToolbarPatchGenerate,
    ToolbarPatchRegenerate,
    ToolbarPatchPreviousFile,
    ToolbarPatchNextFile,
    ToolbarPatchValidate,
    ToolbarPatchValidateReview,
    ToolbarPatchCancelValidation,
    ToolbarPatchViewValidationReport,
    ToolbarPatchClearValidation,
    ToolbarPatchSaveStateFiles,
    ToolbarPatchCancelSave,
    ToolbarPatchViewSaveReport,
    ToolbarPatchRecoverSave,
    ToolbarPatchClear,
    ToolbarViewMode1,
    ToolbarViewMode2,
    ToolbarViewMode3,
    ToolbarViewMode4,
    ToolbarViewMode5,
    ToolbarViewMode6,
    ToolbarViewProvinceMap,
    ToolbarViewStateMap,
    ToolbarViewPoliticalMap,
    ToolbarViewToggleAdjacencies,
    ToolbarViewToggleImageOverlay,
    ToolbarViewToggleStateBoundaries,
    ToolbarViewToggleProvinceIds,
    ToolbarViewToggleProvinceBoundaries,
    ToolbarViewToggleRiverOverlay,
    ToolbarViewToggleStateInspector,
    ToolbarViewCycleProvinceLabels,
    ToolbarViewCycleDeveloperDiagnostics,
    ToolbarViewChooseBaseGameDefinitions,
    ToolbarViewClearBaseGameDefinitions,
    ToolbarViewResetZoom,
    ToolbarViewFontLicense,
    ToolbarHelpAbout,
    ToolbarHelpCopyVersion,
    ToolbarHelpOpenLogs,
    ToolbarImageChoose,
    ToolbarImageUseProjectHeightmap,
    ToolbarImageToggleVisible,
    ToolbarImageOpacityDown,
    ToolbarImageOpacityUp,
    ToolbarImageClear,
    SidebarToolPaintArea,
    SidebarToolPaintBucket,
    SidebarToolLasso,
    SidebarStateSelect,
    SidebarStatePan,
    SidebarStateLasso,
    SidebarStateBrush,
    SidebarStateFill,
    SidebarOptionProvinceIds,
    SidebarOptionProvinceBoundaries,
    SidebarOptionRiverOverlay,
    SidebarOptionAdjacencies,
    SidebarOptionStateBoundaries,
    SidebarOptionImageOverlay,
}

/// The base map modes the map view menu can mark as current.
#[derive(Debug, Clone, Copy, PartialEq, Eq, Structural)]
pub enum MapViewMode {
    ProvinceColors,
    ProvinceTypes,
    Terrain,
    Continents,
    Coastal,
    States,
    Political,
    Resources,
}

/// What the state workspace can currently do; the interface reads it to
/// enable, disable and hide entries.
#[derive(Debug, Clone, Copy, Default, PartialEq, Eq, Structural)]
pub struct StateActionAvailability {
    pub state_view: bool,
    pub lasso_active: bool,
    pub lasso_preview: bool,
    pub brush_active: bool,
    pub fill_active: bool,
    pub fill_preview: bool,
    pub has_selection: bool,
    pub has_target: bool,
    pub can_move: bool,
    pub can_unassign: bool,
    pub can_edit_properties: bool,
    pub can_edit_province_data: bool,
    pub can_create_state: bool,
    pub can_remove_state: bool,
    pub property_editor_open: bool,
    pub property_draft_modified: bool,
    pub can_undo: bool,
    pub can_redo: bool,
    pub has_edits: bool,
    pub has_patch_preview: bool,
    pub patch_preview_files: usize,
    pub patch_preview_stale: bool,
    pub patch_preview_blocked: bool,
    pub patch_preview_review_required: bool,
    pub validation_running: bool,
    pub has_validation_report: bool,
    pub save_eligible: bool,
    pub save_running: bool,
    pub save_cancellable: bool,
    pub recovery_required: bool,
    pub has_save_report: bool,
}

/// What the province canvas shows, which decides the province tools.
#[derive(Debug, Clone, Copy, PartialEq, Eq, Structural)]
pub enum ViewMode {
    Color,
    Kind,
    Terrain,
    Continent,
    Coastal,
    Adjacencies,
}

/// The part of the application state that the interface consults while
/// drawing and handling input.
#[derive(Debug, Clone, Copy, PartialEq, Eq)]
pub struct InterfaceDrawContext {
    pub view_mode: Option<ViewMode>,
    pub selected_tool: Option<usize>,
    pub state_tool: Option<usize>,
    pub map_view_mode: Option<MapViewMode>,
    pub enabled_options: [bool; 6],
    pub available_options: [bool; 6],
    pub states_available: bool,
    pub state_actions: StateActionAvailability,
    pub blocks_tooltips: bool,
}

pub open spec fn map_view_button_active_spec(id: ButtonId, view: Option<MapViewMode>) -> bool {
    match (id, view) {
        (ButtonId::ToolbarViewMode1, Some(MapViewMode::ProvinceColors)) => true,
        (ButtonId::ToolbarViewMode2, Some(MapViewMode::ProvinceTypes)) => true,
        (ButtonId::ToolbarViewMode3, Some(MapViewMode::Terrain)) => true,
        (ButtonId::ToolbarViewMode4, Some(MapViewMode::Continents)) => true,
        (ButtonId::ToolbarViewMode5, Some(MapViewMode::Coastal)) => true,
        (ButtonId::ToolbarViewStateMap, Some(MapViewMode::States)) => true,
        (ButtonId::ToolbarViewPoliticalMap, Some(MapViewMode::Political)) => true,
        _ => false,
    }
}

/// Whether a map view menu entry is the current view.
pub fn map_view_button_active(id: ButtonId, view: Option<MapViewMode>) -> (r: bool)
    ensures
        r == map_view_button_active_spec(id, view),
{
    matches!(
        (id, view),
        (ButtonId::ToolbarViewMode1, Some(MapViewMode::ProvinceColors))
            | (ButtonId::ToolbarViewMode2, Some(MapViewMode::ProvinceTypes))
            | (ButtonId::ToolbarViewMode3, Some(MapViewMode::Terrain))
            | (ButtonId::ToolbarViewMode4, Some(MapViewMode::Continents))
            | (ButtonId::ToolbarViewMode5, Some(MapViewMode::Coastal))
            | (ButtonId::ToolbarViewStateMap, Some(MapViewMode::States))
            | (ButtonId::ToolbarViewPoliticalMap, Some(MapViewMode::Political))
    )
}

/// The overlay slot a toggle entry controls: rivers, adjacencies, province
/// IDs, province borders, state borders, image.
pub open spec fn overlay_index(id: ButtonId) -> Option<int> {
    match id {
        ButtonId::ToolbarViewToggleRiverOverlay => Some(0),
        ButtonId::ToolbarViewToggleAdjacencies => Some(1),
        ButtonId::ToolbarViewToggleProvinceIds => Some(2),
        ButtonId::ToolbarViewToggleProvinceBoundaries => Some(3),
        ButtonId::ToolbarViewToggleStateBoundaries => Some(4),
        ButtonId::ToolbarViewToggleImageOverlay | ButtonId::ToolbarImageToggleVisible => Some(5),
        _ => None,
    }
}

/// Whether an overlay toggle entry is shown as on.
pub fn overlay_button_active(id: ButtonId, enabled: [bool; 6]) -> (r: bool)
    ensures
        r == (match overlay_index(id) {
            Some(i) => enabled[i],
            None => false,
        }),
{
    let index: usize = match id {
        ButtonId::ToolbarViewToggleRiverOverlay => 0,
        ButtonId::ToolbarViewToggleAdjacencies => 1,
        ButtonId::ToolbarViewToggleProvinceIds => 2,
        ButtonId::ToolbarViewToggleProvinceBoundaries => 3,
        ButtonId::ToolbarViewToggleStateBoundaries => 4,
        ButtonId::ToolbarViewToggleImageOverlay | ButtonId::ToolbarImageToggleVisible => 5,
        _ => {
            return false;
        },
    };
    enabled[index]
}

pub open spec fn overlay_labels() -> Seq<Seq<char>> {
    seq![
        "Rivers"@,
        "Adjacencies"@,
        "Province IDs"@,
        "Province Borders"@,
        "State Borders"@,
        "Image"@,
    ]
}

/// The labels of the enabled overlays among the first `n`, in order.
pub open spec fn active_labels(enabled: [bool; 6], n: int) -> Seq<Seq<char>>
    decreases n,
{
    if n <= 0 {
        seq![]
    } else {
        let rest = active_labels(enabled, n - 1);
        if enabled[n - 1] {
            rest.push(overlay_labels()[n - 1])
        } else {
            rest
        }
    }
}

/// Labels joined by ", ".
pub open spec fn join_comma(labels: Seq<Seq<char>>) -> Seq<char>
    decreases labels.len(),
{
    if labels.len() == 0 {
        seq![]
    } else if labels.len() == 1 {
        labels[0]
    } else {
        join_comma(labels.drop_last()) + ", "@ + labels.last()
    }
}

/// "None" without enabled overlays, the labels joined by ", " for one or two,
/// and "<count> active" for more.
pub open spec fn overlay_summary_spec(enabled: [bool; 6]) -> Seq<char> {
    let active = active_labels(enabled, 6);
    if active.len() == 0 {
        "None"@
    } else if active.len() == 3 {
        "3 active"@
    } else if active.len() == 4 {
        "4 active"@
    } else if active.len() == 5 {
        "5 active"@
    } else if active.len() == 6 {
        "6 active"@
    } else {
        join_comma(active)
    }
}

proof fn lemma_active_labels_len(enabled: [bool; 6], n: int)
    requires
        0 <= n <= 6,
    ensures
        active_labels(enabled, n).len() <= n,
    decreases n,
{
    if n > 0 {
        lemma_active_labels_len(enabled, n - 1);
    }
}

fn overlay_label(i: usize) -> (r: &'static str)
    requires
        i < 6,
    ensures
        r@ == overlay_labels()[i as int],
{
    match i {
        0 => "Rivers",
        1 => "Adjacencies",
        2 => "Province IDs",
        3 => "Province Borders",
        4 => "State Borders",
        _ => "Image",
    }
}

/// A compact summary of the enabled overlays for the view menu.
pub fn overlay_summary(enabled: [bool; 6]) -> (r: String)
    ensures
        r@ == overlay_summary_spec(enabled),
{
    let mut count: usize = 0;
    let mut joined = String::new();
    let mut i: usize = 0;
    while i < 6
        invariant
            i <= 6,
            count == active_labels(enabled, i as int).len(),
            joined@ == join_comma(active_labels(enabled, i as int)),
        decreases 6 - i,
    {
        proof {
            lemma_active_labels_len(enabled, i as int);
        }
        let ghost rest = active_labels(enabled, i as int);
        if enabled[i] {
            if count > 0 {
                joined.append(", ");
            }
            let label = overlay_label(i);
            joined.append(label);
            proof {
                let next = rest.push(overlay_labels()[i as int]);
                assert(active_labels(enabled, i + 1) == next);
                assert(next.drop_last() =~= rest);
                if rest.len() == 0 {
                    assert(joined@ =~= label@);
                }
            }
            count = count + 1;
        }
        i = i + 1;
    }
    if count == 0 {
        String::from_str("None")
    } else if count == 3 {
        String::from_str("3 active")
    } else if count == 4 {
        String::from_str("4 active")
    } else if count == 5 {
        String::from_str("5 active")
    } else if count == 6 {
        String::from_str("6 active")
    } else {
        joined
    }
}

pub open spec fn state_only_button(id: ButtonId) -> bool {
    matches!(id, ButtonId::ToolbarEditNewState | ButtonId::ToolbarEditRemoveState | ButtonId::ToolbarEditStateProperties | ButtonId::ToolbarEditProvinceData | ButtonId::ToolbarEditSelectTargetStateProvinces | ButtonId::ToolbarEditMoveSelectedToTarget | ButtonId::ToolbarEditUnassignSelected | ButtonId::ToolbarEditDiscardStateSession | ButtonId::ToolbarPatchGenerate | ButtonId::ToolbarPatchRegenerate | ButtonId::ToolbarPatchPreviousFile | ButtonId::ToolbarPatchNextFile | ButtonId::ToolbarPatchValidate | ButtonId::ToolbarPatchValidateReview | ButtonId::ToolbarPatchCancelValidation | ButtonId::ToolbarPatchViewValidationReport | ButtonId::ToolbarPatchClearValidation | ButtonId::ToolbarPatchSaveStateFiles | ButtonId::ToolbarPatchCancelSave | ButtonId::ToolbarPatchViewSaveReport | ButtonId::ToolbarPatchRecoverSave | ButtonId::ToolbarPatchClear)
}

pub open spec fn province_only_button(id: ButtonId) -> bool {
    matches!(id, ButtonId::ToolbarEditCoastal | ButtonId::ToolbarEditRecolor | ButtonId::ToolbarEditProblems | ButtonId::ToolbarEditAdjacencies)
}

pub open spec fn lasso_button(id: ButtonId) -> bool {
    matches!(id, ButtonId::ToolbarEditToggleLassoSnap | ButtonId::ToolbarEditStateLassoReplace | ButtonId::ToolbarEditStateLassoAdd | ButtonId::ToolbarEditStateLassoRemove | ButtonId::ToolbarEditStateLassoCentroid | ButtonId::ToolbarEditStateLassoAnyIntersection | ButtonId::ToolbarEditStateLassoMajority | ButtonId::ToolbarEditConfirmStateLasso | ButtonId::ToolbarEditCancelStateLasso)
}

pub open spec fn brush_button(id: ButtonId) -> bool {
    matches!(id, ButtonId::ToolbarEditNextMaskMode | ButtonId::ToolbarEditActivateStateBrushAssign | ButtonId::ToolbarEditActivateStateBrushUnassign | ButtonId::ToolbarEditCancelStateBrush)
}

pub open spec fn fill_button(id: ButtonId) -> bool {
    matches!(id, ButtonId::ToolbarEditActivateStateFillHovered | ButtonId::ToolbarEditActivateStateFillConnectedState | ButtonId::ToolbarEditActivateStateFillConnectedUnassigned | ButtonId::ToolbarEditActivateStateFillWholeState | ButtonId::ToolbarEditConfirmStateFill | ButtonId::ToolbarEditCancelStateFill)
}

/// Whether a toolbar entry is shown: state-only entries only in the state
/// workspace, province-only entries only outside it, tool option entries only
/// while their tool is active, and the state and political maps only when
/// states are loaded.
pub open spec fn button_visible_spec(id: ButtonId, ictx: InterfaceDrawContext) -> bool {
    let a = ictx.state_actions;
    if state_only_button(id) && !a.state_view {
        false
    } else if province_only_button(id) && a.state_view {
        false
    } else if lasso_button(id) {
        a.state_view && a.lasso_active
    } else if brush_button(id) {
        a.state_view && a.brush_active
    } else if fill_button(id) {
        a.state_view && a.fill_active
    } else if (id == ButtonId::ToolbarViewStateMap || id == ButtonId::ToolbarViewPoliticalMap)
        && !ictx.states_available {
        false
    } else {
        true
    }
}

pub fn button_visible(id: ButtonId, ictx: InterfaceDrawContext) -> (r: bool)
    ensures
        r == button_visible_spec(id, ictx),
{
    let state_only = matches!(id, ButtonId::ToolbarEditNewState | ButtonId::ToolbarEditRemoveState | ButtonId::ToolbarEditStateProperties | ButtonId::ToolbarEditProvinceData | ButtonId::ToolbarEditSelectTargetStateProvinces | ButtonId::ToolbarEditMoveSelectedToTarget | ButtonId::ToolbarEditUnassignSelected | ButtonId::ToolbarEditDiscardStateSession | ButtonId::ToolbarPatchGenerate | ButtonId::ToolbarPatchRegenerate | ButtonId::ToolbarPatchPreviousFile | ButtonId::ToolbarPatchNextFile | ButtonId::ToolbarPatchValidate | ButtonId::ToolbarPatchValidateReview | ButtonId::ToolbarPatchCancelValidation | ButtonId::ToolbarPatchViewValidationReport | ButtonId::ToolbarPatchClearValidation | ButtonId::ToolbarPatchSaveStateFiles | ButtonId::ToolbarPatchCancelSave | ButtonId::ToolbarPatchViewSaveReport | ButtonId::ToolbarPatchRecoverSave | ButtonId::ToolbarPatchClear);
    let province_only = matches!(id, ButtonId::ToolbarEditCoastal | ButtonId::ToolbarEditRecolor | ButtonId::ToolbarEditProblems | ButtonId::ToolbarEditAdjacencies);
    if state_only && !ictx.state_actions.state_view {
        return false;
    }
    if province_only && ictx.state_actions.state_view {
        return false;
    }
    if matches!(id, ButtonId::ToolbarEditToggleLassoSnap | ButtonId::ToolbarEditStateLassoReplace | ButtonId::ToolbarEditStateLassoAdd | ButtonId::ToolbarEditStateLassoRemove | ButtonId::ToolbarEditStateLassoCentroid | ButtonId::ToolbarEditStateLassoAnyIntersection | ButtonId::ToolbarEditStateLassoMajority | ButtonId::ToolbarEditConfirmStateLasso | ButtonId::ToolbarEditCancelStateLasso) {
        return ictx.state_actions.state_view && ictx.state_actions.lasso_active;
    }
    if matches!(id, ButtonId::ToolbarEditNextMaskMode | ButtonId::ToolbarEditActivateStateBrushAssign | ButtonId::ToolbarEditActivateStateBrushUnassign | ButtonId::ToolbarEditCancelStateBrush) {
        return ictx.state_actions.state_view && ictx.state_actions.brush_active;
    }
    if matches!(id, ButtonId::ToolbarEditActivateStateFillHovered | ButtonId::ToolbarEditActivateStateFillConnectedState | ButtonId::ToolbarEditActivateStateFillConnectedUnassigned | ButtonId::ToolbarEditActivateStateFillWholeState | ButtonId::ToolbarEditConfirmStateFill | ButtonId::ToolbarEditCancelStateFill) {
        return ictx.state_actions.state_view && ictx.state_actions.fill_active;
    }
    if matches!(id, ButtonId::ToolbarViewStateMap | ButtonId::ToolbarViewPoliticalMap)
        && !ictx.states_available {
        return false;
    }
    true
}

/// Whether a toolbar entry can be used in the current state.
pub open spec fn button_enabled_spec(a: StateActionAvailability, id: ButtonId) -> bool {
    match id {
            ButtonId::WorkspaceReviewChanges | ButtonId::WorkspaceApplyToMod => a.state_view,
            ButtonId::ToolbarEditUndo => a.can_undo,
            ButtonId::ToolbarEditRedo => a.can_redo,
            ButtonId::ToolbarEditNewState => {
                a.state_view && a.can_create_state && !a.property_editor_open
            }
            ButtonId::ToolbarEditRemoveState => {
                a.state_view && a.can_remove_state && !a.property_editor_open
            }
            ButtonId::ToolbarEditStateProperties => {
                a.state_view && a.can_edit_properties && !a.property_editor_open
            }
            ButtonId::ToolbarEditProvinceData => {
                a.state_view && a.can_edit_province_data && !a.property_editor_open
            }
            ButtonId::ToolbarEditSelectTargetStateProvinces => a.state_view && a.has_target,
            ButtonId::ToolbarEditActivateStateLasso => a.state_view && !a.lasso_active,
            ButtonId::ToolbarEditStateLassoReplace
            | ButtonId::ToolbarEditStateLassoAdd
            | ButtonId::ToolbarEditStateLassoRemove
            | ButtonId::ToolbarEditStateLassoCentroid
            | ButtonId::ToolbarEditStateLassoAnyIntersection
            | ButtonId::ToolbarEditStateLassoMajority => a.state_view,
            ButtonId::ToolbarEditConfirmStateLasso => a.lasso_preview,
            ButtonId::ToolbarEditCancelStateLasso => a.lasso_active,
            ButtonId::ToolbarEditActivateStateBrushAssign => {
                a.state_view && a.has_target && !a.property_editor_open
            }
            ButtonId::ToolbarEditActivateStateBrushUnassign => a.state_view && !a.property_editor_open,
            ButtonId::ToolbarEditCancelStateBrush => a.brush_active,
            ButtonId::ToolbarEditActivateStateFillHovered
            | ButtonId::ToolbarEditActivateStateFillConnectedState
            | ButtonId::ToolbarEditActivateStateFillConnectedUnassigned
            | ButtonId::ToolbarEditActivateStateFillWholeState => {
                a.state_view && a.has_target && !a.property_editor_open
            }
            ButtonId::ToolbarEditConfirmStateFill => a.fill_preview,
            ButtonId::ToolbarEditCancelStateFill => a.fill_active,
            ButtonId::ToolbarEditMoveSelectedToTarget => a.state_view && a.can_move,
            ButtonId::ToolbarEditUnassignSelected => a.state_view && a.can_unassign,
            ButtonId::ToolbarEditClearStateSelection => !a.state_view || a.has_selection,
            ButtonId::ToolbarEditDiscardStateSession => a.state_view && a.has_edits,
            ButtonId::ToolbarPatchGenerate => a.state_view,
            ButtonId::ToolbarPatchRegenerate => a.state_view && a.has_patch_preview,
            ButtonId::ToolbarPatchPreviousFile | ButtonId::ToolbarPatchNextFile => {
                a.state_view && a.patch_preview_files > 1
            }
            ButtonId::ToolbarPatchValidate => {
                a.state_view
                    && a.has_patch_preview
                    && !a.patch_preview_stale
                    && !a.patch_preview_blocked
                    && !a.patch_preview_review_required
                    && !a.validation_running
            }
            ButtonId::ToolbarPatchValidateReview => {
                a.state_view
                    && a.has_patch_preview
                    && !a.patch_preview_stale
                    && !a.patch_preview_blocked
                    && a.patch_preview_review_required
                    && !a.validation_running
            }
            ButtonId::ToolbarPatchCancelValidation => a.validation_running,
            ButtonId::ToolbarPatchViewValidationReport | ButtonId::ToolbarPatchClearValidation => {
                a.has_validation_report && !a.validation_running
            }
            ButtonId::ToolbarPatchSaveStateFiles => a.save_eligible && !a.save_running,
            ButtonId::ToolbarPatchCancelSave => a.save_running && a.save_cancellable,
            ButtonId::ToolbarPatchViewSaveReport => a.has_save_report && !a.save_running,
            ButtonId::ToolbarPatchRecoverSave => a.recovery_required && !a.save_running,
            ButtonId::ToolbarPatchClear => a.has_patch_preview,
            ButtonId::ToolbarViewStateMap | ButtonId::ToolbarViewPoliticalMap => a.state_view,
            _ => true,
    }
}

impl StateActionAvailability {
    pub fn button_enabled(self, id: ButtonId) -> (r: bool)
        ensures
            r == button_enabled_spec(self, id),
    {
        let a = self;
        match id {
            ButtonId::WorkspaceReviewChanges | ButtonId::WorkspaceApplyToMod => a.state_view,
            ButtonId::ToolbarEditUndo => a.can_undo,
            ButtonId::ToolbarEditRedo => a.can_redo,
            ButtonId::ToolbarEditNewState => {
                a.state_view && a.can_create_state && !a.property_editor_open
            }
            ButtonId::ToolbarEditRemoveState => {
                a.state_view && a.can_remove_state && !a.property_editor_open
            }
            ButtonId::ToolbarEditStateProperties => {
                a.state_view && a.can_edit_properties && !a.property_editor_open
            }
            ButtonId::ToolbarEditProvinceData => {
                a.state_view && a.can_edit_province_data && !a.property_editor_open
            }
            ButtonId::ToolbarEditSelectTargetStateProvinces => a.state_view && a.has_target,
            ButtonId::ToolbarEditActivateStateLasso => a.state_view && !a.lasso_active,
            ButtonId::ToolbarEditStateLassoReplace
            | ButtonId::ToolbarEditStateLassoAdd
            | ButtonId::ToolbarEditStateLassoRemove
            | ButtonId::ToolbarEditStateLassoCentroid
            | ButtonId::ToolbarEditStateLassoAnyIntersection
            | ButtonId::ToolbarEditStateLassoMajority => a.state_view,
            ButtonId::ToolbarEditConfirmStateLasso => a.lasso_preview,
            ButtonId::ToolbarEditCancelStateLasso => a.lasso_active,
            ButtonId::ToolbarEditActivateStateBrushAssign => {
                a.state_view && a.has_target && !a.property_editor_open
            }
            ButtonId::ToolbarEditActivateStateBrushUnassign => a.state_view && !a.property_editor_open,
            ButtonId::ToolbarEditCancelStateBrush => a.brush_active,
            ButtonId::ToolbarEditActivateStateFillHovered
            | ButtonId::ToolbarEditActivateStateFillConnectedState
            | ButtonId::ToolbarEditActivateStateFillConnectedUnassigned
            | ButtonId::ToolbarEditActivateStateFillWholeState => {
                a.state_view && a.has_target && !a.property_editor_open
            }
            ButtonId::ToolbarEditConfirmStateFill => a.fill_preview,
            ButtonId::ToolbarEditCancelStateFill => a.fill_active,
            ButtonId::ToolbarEditMoveSelectedToTarget => a.state_view && a.can_move,
            ButtonId::ToolbarEditUnassignSelected => a.state_view && a.can_unassign,
            ButtonId::ToolbarEditClearStateSelection => !a.state_view || a.has_selection,
            ButtonId::ToolbarEditDiscardStateSession => a.state_view && a.has_edits,
            ButtonId::ToolbarPatchGenerate => a.state_view,
            ButtonId::ToolbarPatchRegenerate => a.state_view && a.has_patch_preview,
            ButtonId::ToolbarPatchPreviousFile | ButtonId::ToolbarPatchNextFile => {
                a.state_view && a.patch_preview_files > 1
            }
            ButtonId::ToolbarPatchValidate => {
                a.state_view
                    && a.has_patch_preview
                    && !a.patch_preview_stale
                    && !a.patch_preview_blocked
                    && !a.patch_preview_review_required
                    && !a.validation_running
            }
            ButtonId::ToolbarPatchValidateReview => {
                a.state_view
                    && a.has_patch_preview
                    && !a.patch_preview_stale
                    && !a.patch_preview_blocked
                    && a.patch_preview_review_required
                    && !a.validation_running
            }
            ButtonId::ToolbarPatchCancelValidation => a.validation_running,
            ButtonId::ToolbarPatchViewValidationReport | ButtonId::ToolbarPatchClearValidation => {
                a.has_validation_report && !a.validation_running
            }
            ButtonId::ToolbarPatchSaveStateFiles => a.save_eligible && !a.save_running,
            ButtonId::ToolbarPatchCancelSave => a.save_running && a.save_cancellable,
            ButtonId::ToolbarPatchViewSaveReport => a.has_save_report && !a.save_running,
            ButtonId::ToolbarPatchRecoverSave => a.recovery_required && !a.save_running,
            ButtonId::ToolbarPatchClear => a.has_patch_preview,
            ButtonId::ToolbarViewStateMap | ButtonId::ToolbarViewPoliticalMap => a.state_view,
            _ => true,
        }
    }
}

/// Entries that change the map or the edit history are never enabled while
/// the state property editor is open.
pub proof fn law_property_editor_blocks_structural_edits(a: StateActionAvailability, id: ButtonId)
    requires
        a.property_editor_open,
        id == ButtonId::ToolbarEditNewState || id == ButtonId::ToolbarEditRemoveState
            || id == ButtonId::ToolbarEditStateProperties
            || id == ButtonId::ToolbarEditProvinceData
            || id == ButtonId::ToolbarEditActivateStateBrushAssign
            || id == ButtonId::ToolbarEditActivateStateBrushUnassign,
    ensures
        !button_enabled_spec(a, id),
{
}

/// Outside the state workspace no state-only entry is shown.
pub proof fn law_state_entries_hidden_outside_state_workspace(id: ButtonId, ictx: InterfaceDrawContext)
    requires
        !ictx.state_actions.state_view,
        state_only_button(id) || lasso_button(id) || brush_button(id) || fill_button(id),
    ensures
        !button_visible_spec(id, ictx),
{
}

/// How the sidebar shows a tool button: hidden, or shown and marked active
/// or not.
#[derive(Debug, Clone, Copy, PartialEq, Eq, Structural)]
pub enum ToolButtonState {
    Hidden,
    Shown { active: bool },
}

/// The sidebar's tool button at position `i`: in the state workspace every
/// state tool shows, the chosen one active; on the color canvas every
/// province tool shows, the selected one active; on the kind, terrain and
/// continent canvases only the first tool shows, always active; otherwise
/// (coastal or adjacency canvases, or none) no tool shows.
pub open spec fn tool_button_state_spec(ictx: InterfaceDrawContext, i: usize) -> ToolButtonState {
    if ictx.state_actions.state_view {
        ToolButtonState::Shown { active: ictx.state_tool == Some(i) }
    } else {
        match ictx.view_mode {
            Some(ViewMode::Color) => ToolButtonState::Shown { active: ictx.selected_tool == Some(i) },
            Some(ViewMode::Kind) | Some(ViewMode::Terrain) | Some(ViewMode::Continent) => if i == 0 {
                ToolButtonState::Shown { active: true }
            } else {
                ToolButtonState::Hidden
            },
            _ => ToolButtonState::Hidden,
        }
    }
}

pub fn tool_button_state(ictx: InterfaceDrawContext, i: usize) -> (r: ToolButtonState)
    ensures
        r == tool_button_state_spec(ictx, i),
{
    if ictx.state_actions.state_view {
        return ToolButtonState::Shown { active: ictx.state_tool == Some(i) };
    }
    match ictx.view_mode {
        Some(ViewMode::Color) => ToolButtonState::Shown { active: ictx.selected_tool == Some(i) },
        Some(ViewMode::Kind) | Some(ViewMode::Terrain) | Some(ViewMode::Continent) => if i == 0 {
            ToolButtonState::Shown { active: true }
        } else {
            ToolButtonState::Hidden
        },
        _ => ToolButtonState::Hidden,
    }
}

/// What each toolbar action needs to be enabled: the edit actions need the
/// state workspace, a closed property editor and the capability they use
/// (creating, removing or editing a state, editing province data, a target
/// for brushes and fills); undo and redo need history; confirming and
/// cancelling need something to confirm or cancel; validation needs a fresh,
/// unblocked preview, and asks for review exactly when the preview does;
/// saving needs an eligible session and no save running. With the state
/// workspace, a closed editor and the capability, the edit actions are
/// enabled; an open property editor disables the structural edits, brushes
/// and fills; in the state workspace each selection and patch action is
/// enabled exactly when what it needs is there.
pub proof fn lemma_button_enabled_laws(a: StateActionAvailability)
    ensures
        button_enabled_spec(a, ButtonId::ToolbarEditRemoveState) ==> a.can_remove_state && a.state_view
            && !a.property_editor_open,
        button_enabled_spec(a, ButtonId::ToolbarEditNewState) ==> a.can_create_state && a.state_view
            && !a.property_editor_open,
        button_enabled_spec(a, ButtonId::ToolbarEditStateProperties) ==> a.can_edit_properties && a.state_view
            && !a.property_editor_open,
        button_enabled_spec(a, ButtonId::ToolbarEditProvinceData) ==> a.can_edit_province_data && a.state_view
            && !a.property_editor_open,
        a.state_view && !a.property_editor_open ==> (button_enabled_spec(a, ButtonId::ToolbarEditRemoveState)
            <==> a.can_remove_state) && (button_enabled_spec(a, ButtonId::ToolbarEditNewState) <==> a.can_create_state)
            && (button_enabled_spec(a, ButtonId::ToolbarEditStateProperties) <==> a.can_edit_properties)
            && (button_enabled_spec(a, ButtonId::ToolbarEditProvinceData) <==> a.can_edit_province_data)
            && (button_enabled_spec(a, ButtonId::ToolbarEditActivateStateBrushAssign) <==> a.has_target)
            && button_enabled_spec(a, ButtonId::ToolbarEditActivateStateBrushUnassign)
            && (button_enabled_spec(a, ButtonId::ToolbarEditActivateStateFillHovered) <==> a.has_target)
            && (button_enabled_spec(a, ButtonId::ToolbarEditActivateStateFillConnectedState) <==> a.has_target)
            && (button_enabled_spec(a, ButtonId::ToolbarEditActivateStateFillConnectedUnassigned) <==> a.has_target)
            && (button_enabled_spec(a, ButtonId::ToolbarEditActivateStateFillWholeState) <==> a.has_target),
        a.property_editor_open ==> !button_enabled_spec(a, ButtonId::ToolbarEditRemoveState) && !button_enabled_spec(
            a,
            ButtonId::ToolbarEditNewState,
        ) && !button_enabled_spec(a, ButtonId::ToolbarEditStateProperties) && !button_enabled_spec(
            a,
            ButtonId::ToolbarEditProvinceData,
        ) && !button_enabled_spec(a, ButtonId::ToolbarEditActivateStateBrushAssign) && !button_enabled_spec(
            a,
            ButtonId::ToolbarEditActivateStateBrushUnassign,
        ) && !button_enabled_spec(a, ButtonId::ToolbarEditActivateStateFillHovered),
        a.state_view ==> (button_enabled_spec(a, ButtonId::ToolbarEditSelectTargetStateProvinces) <==> a.has_target)
            && (button_enabled_spec(a, ButtonId::ToolbarEditMoveSelectedToTarget) <==> a.can_move)
            && (button_enabled_spec(a, ButtonId::ToolbarEditUnassignSelected) <==> a.can_unassign)
            && (button_enabled_spec(a, ButtonId::ToolbarEditDiscardStateSession) <==> a.has_edits)
            && (button_enabled_spec(a, ButtonId::ToolbarEditClearStateSelection) <==> a.has_selection)
            && (button_enabled_spec(a, ButtonId::ToolbarEditActivateStateLasso) <==> !a.lasso_active)
            && (button_enabled_spec(a, ButtonId::ToolbarPatchRegenerate) <==> a.has_patch_preview)
            && (button_enabled_spec(a, ButtonId::ToolbarPatchPreviousFile) <==> a.patch_preview_files > 1)
            && (button_enabled_spec(a, ButtonId::ToolbarPatchNextFile) <==> a.patch_preview_files > 1)
            && button_enabled_spec(a, ButtonId::ToolbarPatchGenerate)
            && button_enabled_spec(a, ButtonId::WorkspaceReviewChanges)
            && button_enabled_spec(a, ButtonId::WorkspaceApplyToMod)
            && button_enabled_spec(a, ButtonId::ToolbarEditStateLassoReplace)
            && button_enabled_spec(a, ButtonId::ToolbarEditStateLassoMajority),
        button_enabled_spec(a, ButtonId::ToolbarEditUndo) <==> a.can_undo,
        button_enabled_spec(a, ButtonId::ToolbarEditRedo) <==> a.can_redo,
        button_enabled_spec(a, ButtonId::ToolbarEditActivateStateBrushAssign) ==> a.has_target,
        button_enabled_spec(a, ButtonId::ToolbarEditActivateStateFillHovered) ==> a.has_target && a.state_view
            && !a.property_editor_open,
        button_enabled_spec(a, ButtonId::ToolbarEditActivateStateFillWholeState) ==> a.has_target,
        button_enabled_spec(a, ButtonId::ToolbarEditSelectTargetStateProvinces) ==> a.has_target && a.state_view,
        button_enabled_spec(a, ButtonId::ToolbarEditMoveSelectedToTarget) ==> a.can_move && a.state_view,
        button_enabled_spec(a, ButtonId::ToolbarEditUnassignSelected) ==> a.can_unassign && a.state_view,
        button_enabled_spec(a, ButtonId::ToolbarEditDiscardStateSession) ==> a.has_edits && a.state_view,
        button_enabled_spec(a, ButtonId::ToolbarEditConfirmStateLasso) <==> a.lasso_preview,
        button_enabled_spec(a, ButtonId::ToolbarEditCancelStateLasso) <==> a.lasso_active,
        button_enabled_spec(a, ButtonId::ToolbarEditActivateStateLasso) ==> !a.lasso_active,
        button_enabled_spec(a, ButtonId::ToolbarEditConfirmStateFill) <==> a.fill_preview,
        button_enabled_spec(a, ButtonId::ToolbarEditCancelStateFill) <==> a.fill_active,
        button_enabled_spec(a, ButtonId::ToolbarEditCancelStateBrush) <==> a.brush_active,
        button_enabled_spec(a, ButtonId::ToolbarPatchValidate) ==> a.has_patch_preview && !a.patch_preview_stale
            && !a.patch_preview_blocked && !a.validation_running && !a.patch_preview_review_required,
        button_enabled_spec(a, ButtonId::ToolbarPatchValidateReview) ==> a.has_patch_preview && !a.patch_preview_stale
            && !a.patch_preview_blocked && !a.validation_running && a.patch_preview_review_required,
        !(button_enabled_spec(a, ButtonId::ToolbarPatchValidate) && button_enabled_spec(
            a,
            ButtonId::ToolbarPatchValidateReview,
        )),
        button_enabled_spec(a, ButtonId::ToolbarPatchCancelValidation) <==> a.validation_running,
        button_enabled_spec(a, ButtonId::ToolbarPatchSaveStateFiles) <==> a.save_eligible && !a.save_running,
        button_enabled_spec(a, ButtonId::ToolbarPatchCancelSave) <==> a.save_running && a.save_cancellable,
        button_enabled_spec(a, ButtonId::ToolbarPatchRecoverSave) ==> a.recovery_required && !a.save_running,
        button_enabled_spec(a, ButtonId::ToolbarPatchPreviousFile) ==> a.patch_preview_files > 1,
        button_enabled_spec(a, ButtonId::ToolbarPatchNextFile) ==> a.patch_preview_files > 1,
        button_enabled_spec(a, ButtonId::ToolbarPatchRegenerate) ==> a.has_patch_preview,
        !a.state_view ==> !button_enabled_spec(a, ButtonId::ToolbarEditRemoveState) && !button_enabled_spec(
            a,
            ButtonId::ToolbarEditNewState,
        ) && !button_enabled_spec(a, ButtonId::WorkspaceApplyToMod) && !button_enabled_spec(
            a,
            ButtonId::WorkspaceReviewChanges,
        ) && button_enabled_spec(a, ButtonId::ToolbarEditClearStateSelection),
{
}

/// The map view menu marks exactly one entry for each view that has one,
/// and none without a view; each overlay button reads its own one of the six
/// overlay switches. State entries show only in the state workspace and
/// province entries only outside it; the state and political map entries
/// need states; entries of an inactive tool stay hidden.
pub proof fn lemma_menu_marking_laws(id: ButtonId, other: ButtonId, view: Option<MapViewMode>, ictx: InterfaceDrawContext)
    ensures
        view is None ==> !map_view_button_active_spec(id, view),
        map_view_button_active_spec(id, view) && map_view_button_active_spec(other, view) ==> id == other,
        overlay_index(id) matches Some(k) ==> 0 <= k < 6,
        overlay_index(id) is Some && overlay_index(other) == overlay_index(id) && id != other ==> overlay_index(id)
            == Some(5int),
        state_only_button(id) && button_visible_spec(id, ictx) ==> ictx.state_actions.state_view,
        province_only_button(id) && button_visible_spec(id, ictx) ==> !ictx.state_actions.state_view,
        (id == ButtonId::ToolbarViewStateMap || id == ButtonId::ToolbarViewPoliticalMap) && button_visible_spec(id, ictx)
            ==> ictx.states_available,
        lasso_button(id) && button_visible_spec(id, ictx) ==> ictx.state_actions.lasso_active,
        brush_button(id) && button_visible_spec(id, ictx) ==> ictx.state_actions.brush_active,
        fill_button(id) && button_visible_spec(id, ictx) ==> ictx.state_actions.fill_active,
        !state_only_button(id) && !province_only_button(id) && !lasso_button(id) && !brush_button(id) && !fill_button(id)
            && id != ButtonId::ToolbarViewStateMap && id != ButtonId::ToolbarViewPoliticalMap ==> button_visible_spec(
            id,
            ictx,
        ),
{
}

} // verus!
