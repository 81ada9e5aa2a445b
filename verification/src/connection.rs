use vstd::prelude::*;

use crate::error::DatabaseError;

verus! {

/// A pool of connections: how many may be open and how many are.
pub struct DatabaseConnection {
    pool_size: usize,
    active_connections: usize,
}

/// The number of open connections after one more is asked for.
pub open spec fn count_after_add(active: nat, pool_size: nat) -> nat {
    if active < pool_size {
        active + 1
    } else {
        active
    }
}

/// The number of open connections after one is closed.
pub open spec fn count_after_end(active: nat) -> nat {
    if active > 0 {
        (active - 1) as nat
    } else {
        0
    }
}

/// The open connections do not exceed the pool, except for the one
/// connection that every new pool starts with.
pub open spec fn within_pool(active: nat, pool_size: nat) -> bool {
    active <= if pool_size > 1 {
        pool_size
    } else {
        1
    }
}

impl DatabaseConnection {
    /// The size of the pool.
    pub closed spec fn pool_size(&self) -> nat {
        self.pool_size as nat
    }

    /// The number of open connections.
    pub closed spec fn active(&self) -> nat {
        self.active_connections as nat
    }

    /// A pool of `pool_size` connections, one of them open.
    pub fn new(pool_size: usize) -> (r: Self)
        ensures
            r.pool_size() == pool_size,
            r.active() == 1,
    {
        Self { pool_size, active_connections: 1 }
    }

    /// Succeeds exactly when a connection is open.
    pub fn check_connection(&self) -> (r: Result<(), DatabaseError>)
        ensures
            r == (if self.active() == 0 {
                Err::<(), DatabaseError>(DatabaseError::NoConnection)
            } else {
                Ok(())
            }),
    {
        if self.active_connections == 0 {
            Err(DatabaseError::NoConnection)
        } else {
            Ok(())
        }
    }

    /// Opens one more connection if the pool has room, else does nothing.
    pub fn add_connection(&mut self)
        ensures
            final(self).pool_size() == old(self).pool_size(),
            final(self).active() == count_after_add(old(self).active(), old(self).pool_size()),
    {
        if self.active_connections < self.pool_size {
            self.active_connections += 1;
        }
    }

    /// Closes one connection if any is open, else does nothing.
    pub fn end_connection(&mut self)
        ensures
            final(self).pool_size() == old(self).pool_size(),
            final(self).active() == count_after_end(old(self).active()),
    {
        if self.active_connections > 0 {
            self.active_connections -= 1;
        }
    }
}

/// Whatever the pool size, a new pool is within it; opening and closing
/// connections keeps the open connections within the pool.
pub proof fn law_connections_within_pool(active: nat, pool_size: nat)
    ensures
        within_pool(1, pool_size),
        within_pool(active, pool_size) ==> within_pool(
            count_after_add(active, pool_size),
            pool_size,
        ),
        within_pool(active, pool_size) ==> within_pool(count_after_end(active), pool_size),
{
}

/// Closing the connection that was just opened restores the count, and
/// opening one after closing one restores it too while the pool is not
/// exhausted.
pub proof fn law_end_undoes_add(active: nat, pool_size: nat)
    ensures
        active < pool_size ==> count_after_end(count_after_add(active, pool_size)) == active,
        0 < active <= pool_size ==> count_after_add(count_after_end(active), pool_size) == active,
{
}

} // verus!
