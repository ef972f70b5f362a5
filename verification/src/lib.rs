//! The logic of the meatshell terminal client: the session list and the
//! session dialog, the SCP file transfer, the tray and the close button.

pub mod batch_import;
pub mod close;
pub mod color;
pub mod dialog;
pub mod draft;
pub mod groups;
pub mod ids;
pub mod rows;
pub mod scp;
pub mod scp_wire;
pub mod session;
pub mod store;
pub mod text;
pub mod tray;
