use vstd::prelude::*;

verus! {

/// The map editor's own state: which palette tile is selected for placement
/// (0 meaning selection mode) and whether the key help overlay is shown.
/// Input handling and drawing live with the host shell; the simulation core
/// only keeps the state they read and write.
#[derive(PartialEq, Eq, Structural, Debug, Clone, Copy)]
pub struct MapEditor {
    pub selected_tile_id: usize,
    pub show_editor_keys: bool,
}

impl MapEditor {
    /// A fresh editor: selection mode, help overlay hidden.
    pub fn new() -> (r: MapEditor)
        ensures
            r.selected_tile_id == 0,
            !r.show_editor_keys,
    {
        MapEditor { selected_tile_id: 0, show_editor_keys: false }
    }
}

} // verus!
