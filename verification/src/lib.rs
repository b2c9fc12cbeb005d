//! Editing logic of a scene editor: the scene document, undoable commands, the outliner, the
//! inspector and the brush tools.
pub mod text;
pub mod value;
pub mod seqs;
pub mod patch;
pub mod document;
pub mod world;
pub mod set_field;
pub mod set_field_laws;
pub mod location;
pub mod location_laws;
pub mod agreement;
pub mod component_commands;
pub mod history;
pub mod field_edit;
pub mod lifecycle;
pub mod registration;
pub mod json;
pub mod asset_path;
pub mod path_laws;
pub mod naming;
pub mod node_ids;
pub mod selection;
pub mod templates;
pub mod operators;
pub mod core_extension;
pub mod entity_ops;
pub mod transform_ops;
pub mod clipboard;
pub mod entity_menu;
pub mod gltf;
pub mod history_ops;
pub mod sorting;
pub mod hierarchy;
pub mod outliner;
pub mod outliner_laws;
pub mod outliner_events;
pub mod row_drops;
pub mod row_filter;
pub mod prefab_save;
pub mod context_menu;
pub mod rename;
pub mod brush;
pub mod brush_edit;
pub mod face_drag;
pub mod element_drag;
pub mod brush_mesh;
pub mod draw_brush;
pub mod clip_ops;
pub mod component_picker;
pub mod add_header;
pub mod type_details;
pub mod inspector;
pub mod inspector_cards;
pub mod inspector_panels;
