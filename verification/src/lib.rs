//! Bookkeeping for GPU particle buffers: slice allocation inside a buffer,
//! routing of effect instances to buffers, and the staging of per-frame
//! uniform and storage data. Nothing here touches a device; every operation
//! that needs one reports what has to be done on it.

pub mod color_selector;
pub mod mesh;
pub mod render;
pub mod wgsl_syntex_tools;
