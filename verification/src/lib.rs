//! A read-only Kubernetes context switcher and cluster inspector, verified with Verus.

pub mod app;
pub mod cli;
pub mod filter;
pub mod kubeconfig;
pub mod kubernetes;
pub mod laws;
pub mod logging;
pub mod output;
pub mod paths;
pub mod text;
pub mod time;
pub mod ui;
