//! The client side of the connections to a Hadoop distributed file system.

pub mod alignment;
pub mod buffers;
pub mod cache;
pub mod checksum;
pub mod datanode;
pub mod datanode_messages;
pub mod error;
pub mod fields;
pub mod integers;
pub mod message;
pub mod packet;
pub mod rpc;
pub mod rpc_messages;
pub mod text;
pub mod tls;
pub mod wire;
