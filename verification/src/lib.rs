//! Kiln: the decision-making core of a daemonless container runtime.
#![allow(unused_imports)]

pub mod archive;
pub mod audit;
pub mod base64;
pub mod builder;
pub mod cgroups;
pub mod codec;
pub mod daemon;
pub mod error;
pub mod http;
pub mod identity;
pub mod image;
pub mod kilnfile;
pub mod layer;
pub mod namespaces;
pub mod netbpf;
pub mod network;
pub mod network_effects;
pub mod num;
pub mod oci_layer;
pub mod order;
pub mod paths;
pub mod pretty;
pub mod registry;
pub mod registry_auth;
pub mod registry_gc;
pub mod registry_handlers;
pub mod registry_server;
pub mod registry_store;
pub mod rootfs;
pub mod rootfs_effects;
pub mod scan;
pub mod secrets;
pub mod security;
pub mod shown;
pub mod signing;
pub mod store;
pub mod syscalls;
pub mod text;
pub mod tls;
