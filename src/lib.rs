//! A keyed texture cache for egui: textures are loaded through a pluggable
//! loader, decoded by parsers registered per file extension, allocated in
//! egui's texture manager, and evicted least-recently-used first under a byte
//! budget.

pub mod text_man;
