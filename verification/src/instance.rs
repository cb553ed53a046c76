//! Execution instances.
//!
//! An instance is created per invocation and never shared or reused: it
//! owns a gas counter bounded by the caller's gas limit, a memory budget,
//! a reference to the immutable compiled module, and the caller-supplied
//! backend for this one call.

use vstd::prelude::*;

use crate::errors::VmError;
use crate::modules::{CompiledModule, ModuleView};

verus! {

/// Per-call resource options.
#[derive(Clone, Copy, Debug, PartialEq, Eq, Structural)]
pub struct InstanceOptions {
    /// The gas budget of the call.
    pub gas_limit: u64,
    /// Whether the contract's debug output is printed.
    pub print_debug: bool,
}

/// A single gas-metered execution context, exclusively owned by one call.
pub struct Instance<B> {
    module: CompiledModule,
    backend: B,
    gas_left: u64,
    memory_limit: usize,
}

impl<B> Instance<B> {
    /// The module the instance runs.
    pub closed spec fn spec_module(&self) -> ModuleView {
        self.module@
    }

    /// The backend bundled into this call.
    pub closed spec fn spec_backend(&self) -> B {
        self.backend
    }

    /// The gas still available.
    pub closed spec fn spec_gas_left(&self) -> u64 {
        self.gas_left
    }

    /// The upper bound on this instance's linear memory, in bytes.
    pub closed spec fn spec_memory_limit(&self) -> usize {
        self.memory_limit
    }

    /// Binds a compiled module, a per-call backend and resource limits
    /// into a fresh instance with a full gas budget.
    pub fn from_module(
        module: CompiledModule,
        backend: B,
        options: InstanceOptions,
        memory_limit: usize,
    ) -> (r: Instance<B>)
        ensures
            r.spec_module() == module@,
            r.spec_backend() == backend,
            r.spec_gas_left() == options.gas_limit,
            r.spec_memory_limit() == memory_limit,
    {
        Instance { module, backend, gas_left: options.gas_limit, memory_limit }
    }

    /// The gas still available.
    pub fn get_gas_left(&self) -> (r: u64)
        ensures
            r == self.spec_gas_left(),
    {
        self.gas_left
    }

    /// The module the instance runs.
    pub fn module(&self) -> (r: &CompiledModule)
        ensures
            r@ == self.spec_module(),
    {
        &self.module
    }

    /// The memory budget of the instance.
    pub fn memory_limit(&self) -> (r: usize)
        ensures
            r == self.spec_memory_limit(),
    {
        self.memory_limit
    }

    /// Charges `amount` gas.  If the budget covers it, the counter
    /// decreases by exactly `amount`; otherwise the counter drops to zero
    /// and the call is aborted with [`VmError::GasDepletion`].  The gas
    /// counter never goes negative, and depletion affects only this call.
    pub fn consume_gas(&mut self, amount: u64) -> (r: Result<(), VmError>)
        ensures
            final(self).spec_module() == old(self).spec_module(),
            final(self).spec_backend() == old(self).spec_backend(),
            final(self).spec_memory_limit() == old(self).spec_memory_limit(),
            amount <= old(self).spec_gas_left() ==> r is Ok && final(self).spec_gas_left()
                == old(self).spec_gas_left() - amount,
            amount > old(self).spec_gas_left() ==> (r matches Err(VmError::GasDepletion)
                && final(self).spec_gas_left() == 0),
    {
        if amount <= self.gas_left {
            self.gas_left = self.gas_left - amount;
            Ok(())
        } else {
            self.gas_left = 0;
            Err(VmError::GasDepletion)
        }
    }

    /// Ends the call, handing the backend back to the caller.
    pub fn recycle(self) -> (r: B)
        ensures
            r == self.spec_backend(),
    {
        self.backend
    }
}

} // verus!
