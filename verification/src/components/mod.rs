//! The components: the values that header fields hold.

pub mod date_time;
pub mod email;
pub mod mailbox;
pub mod mailbox_list;
pub mod message_id;
pub mod phrase;
pub mod raw_unstructured;
pub mod transfer_encoding;
