//! A minimal mutual-exclusion primitive: a lock that owns a single value and
//! lends it out through a guard, together with a transition-system model of
//! the flag protocol that the lock's acquire and release follow.

pub mod lock;
pub mod protocol;
