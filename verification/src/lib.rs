//! Request routing and dispatch core for an HTTP server.
//!
//! Routes are registered under `/`-separated path patterns, resolved through a
//! segment tree, matched on the request method and dispatched through an
//! ordered chain of middleware pipelines to a handler. A request that no
//! route takes is answered by the response finalizer.
//!
//! A router is built in two phases. While routes are registered, the tree
//! grows ([`builder`], [`tree`]); [`builder::build_router`] then closes the
//! registration, and the [`router::Router`] that it returns never changes
//! again.
//!
//! What the parts mean is said over plain sequences: [`path`] says how a path
//! is cut into segments, [`tree_model`] how segments lead through a tree,
//! [`router`] how a request is resolved, [`handler`] what running a chain of
//! middleware and a handler can end in. The modules whose names end in
//! `_laws` prove what follows from that for every router.

pub mod builder;
pub mod dispatch_laws;
pub mod finalizer;
pub mod handler;
pub mod matcher;
pub mod message;
pub mod method;
pub mod path;
pub mod path_laws;
pub mod pipeline;
pub mod route;
pub mod router;
pub mod routing_laws;
pub mod transport;
pub mod tree;
pub mod tree_model;
