//! What the library promises, stated apart from how it is defined.
//!
//! Each law says what the results of an operation must satisfy, or how the results of two calls
//! relate, over all inputs. What a function returned for some arguments is written as
//! `call_ensures(function, (arguments), result)`.

pub mod app;
pub mod cli;
pub mod discovery;
pub mod filter;
pub mod health;
pub mod inspection;
pub mod kubeconfig;
pub mod output;
pub mod paths;
pub mod text;
pub mod ui;
pub mod workloads;
