//! What may be asked of a cluster, and what a capped list request returns.
//!
//! There are two operations, `get` and `list`, and no other: nothing that is asked for here can
//! change anything.

use vstd::prelude::*;

verus! {

/// `GET` a single cluster-scoped object.
#[derive(Debug)]
pub struct ClusterGet {
    /// Name of the object.
    pub name: String,
}

/// `LIST` the objects of a cluster-scoped kind.
#[derive(Debug, Clone, Copy, PartialEq, Eq, Structural)]
pub struct ClusterList {
    /// How many objects are asked for at most.
    pub limit: u32,
}

/// `LIST` the objects of a kind within a single namespace.
#[derive(Debug)]
pub struct NamespacedList {
    /// The namespace.
    pub namespace: String,
    /// How many objects are asked for at most.
    pub limit: u32,
}

impl NamespacedList {
    /// At most `limit` objects in a namespace.
    pub fn new(namespace: &str, limit: u32) -> (r: Self)
        ensures
            r.namespace@ == namespace@,
            r.limit == limit,
    {
        NamespacedList { namespace: namespace.to_owned(), limit }
    }
}

/// The result of a capped list request.
#[derive(Debug, Clone)]
pub struct Listing<K> {
    /// The objects that were returned.
    pub items: Vec<K>,
    /// True when the server had more objects than the requested limit.
    ///
    /// kctx never pages: a single capped request keeps inspection fast and bounded, and callers
    /// say so rather than presenting a truncated count as complete.
    pub truncated: bool,
}

impl<K> Listing<K> {
    /// What a list request returned, with the token that continues it where there is one: the
    /// server had more objects exactly where it sent a token that is not empty.
    pub fn new(items: Vec<K>, continue_token: Option<&str>) -> (r: Self)
        ensures
            r.items == items,
            r.truncated == (continue_token is Some && continue_token->0@.len() > 0),
    {
        let truncated: bool = match continue_token {
            Some(token) => !token.is_empty(),
            None => false,
        };
        Listing { items, truncated }
    }
}

} // verus!
