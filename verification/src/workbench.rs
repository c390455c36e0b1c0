//! What the windows of the workbench show and decide.
pub mod batches;
pub mod channel_form;
pub mod channels;
pub mod chart_labels;
pub mod curves;
pub mod filters;
pub mod hardware;
pub mod hardware_rows;
pub mod ipc;
pub mod message_rows;
pub mod messages;
pub mod project;
pub mod replay_files;
pub mod requests;
pub mod scripts;
pub mod signals;
pub mod snapshot;
pub mod status;
pub mod stress;
pub mod tx_tasks;
