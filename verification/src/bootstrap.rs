//! The schema bootstrapper's decision core.
//!
//! Before the service accepts traffic, the datastore must exist and carry
//! the full, ordered set of schema migrations.  The outside work — creating
//! a database file, executing migration statements — is driver territory;
//! what is decided here, and verified, is the plan: given what holds of the
//! datastore, create it only if it is missing, apply exactly the migrations
//! that are not applied yet, and end in the one fully-migrated state.  Any
//! driver failure while the plan runs is fatal to startup: the caller must
//! not serve requests from a partially bootstrapped state.

use vstd::prelude::*;

verus! {

/// The number of ordered schema migrations the service ships: one, which
/// creates the visit-record table with its uniqueness constraint.
pub const MIGRATION_COUNT: u64 = 1;

/// What holds of the datastore's schema at some moment.
#[derive(Clone, Copy, PartialEq, Eq, Structural, Debug)]
pub struct SchemaState {
    /// The datastore itself exists.
    pub exists: bool,
    /// How many of the ordered migrations have been applied.
    pub applied: u64,
}

impl SchemaState {
    /// A state the bootstrapper can be faced with: never more migrations
    /// than exist, and none applied to a datastore that is missing.
    pub open spec fn wf(&self) -> bool {
        &&& self.applied <= MIGRATION_COUNT
        &&& !self.exists ==> self.applied == 0
    }

    /// Fully bootstrapped: the datastore exists and every migration is
    /// applied.
    pub open spec fn ready(&self) -> bool {
        self.exists && self.applied == MIGRATION_COUNT
    }
}

/// What one bootstrap run did.
#[derive(Clone, Copy, PartialEq, Eq, Structural, Debug)]
pub struct BootstrapReport {
    /// The run created the datastore (it was missing).
    pub created: bool,
    /// How many migrations the run applied.
    pub migrations_applied: u64,
}

/// The state every bootstrap run ends in.
pub open spec fn bootstrapped(s: SchemaState) -> SchemaState {
    SchemaState { exists: true, applied: MIGRATION_COUNT }
}

/// Decide the bootstrap work for a datastore in state `state`: create it
/// only if it is missing, apply only the migrations not applied yet, and
/// end ready.  On an already-bootstrapped datastore the run is a no-op.
pub fn ensure_ready(state: SchemaState) -> (r: (SchemaState, BootstrapReport))
    requires
        state.wf(),
    ensures
        r.0 == bootstrapped(state),
        r.0.ready(),
        r.0.wf(),
        r.1.created == !state.exists,
        r.1.migrations_applied == MIGRATION_COUNT - state.applied,
        state.ready() ==> r.1 == (BootstrapReport { created: false, migrations_applied: 0 }),
{
    let report = BootstrapReport {
        created: !state.exists,
        migrations_applied: MIGRATION_COUNT - state.applied,
    };
    (SchemaState { exists: true, applied: MIGRATION_COUNT }, report)
}

/// Bootstrapping is idempotent: a run always ends ready, and a second run
/// against the state the first one left creates nothing, applies no
/// migration, and leaves the schema exactly as it was.
pub proof fn lemma_bootstrap_idempotent(s: SchemaState)
    requires
        s.wf(),
    ensures
        bootstrapped(s).ready(),
        bootstrapped(s).wf(),
        bootstrapped(bootstrapped(s)) == bootstrapped(s),
{
}

} // verus!
