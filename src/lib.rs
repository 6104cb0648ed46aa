//! Broker-side core of a distributed MQTT messaging platform: the in-memory
//! streaming storage adapter, MQTT framing, the command dispatcher, the staged
//! server's dispatch rule, the connection registry, the shared-subscription
//! leader, the client-pool registry, the retry policy of the placement RPC
//! wrappers, login checks, and the placement center's Raft log and blacklist
//! stores.

pub mod storage;
pub mod dispatch;
pub mod retry;
pub mod share_sub;
pub mod connection;
pub mod client_pool;
pub mod security;
pub mod raft_storage;
pub mod blacklist;
pub mod codec;
pub mod command;
