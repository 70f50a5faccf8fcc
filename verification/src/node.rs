//! Wrappers that mark which calling convention a node function follows.
use vstd::prelude::*;

verus! {

/// Wrapper for functions of the state returning a state update
#[derive(Debug)]
pub struct NodeFnUpdate<F>(pub F);

/// Wrapper for functions of the state and the run configuration returning a
/// state update
#[derive(Debug)]
pub struct NodeFnUpdateWithConfig<F>(pub F);

/// Wrapper for functions of the state returning a command
#[derive(Debug)]
pub struct NodeFnCommand<F>(pub F);

/// Wrapper for functions of the state and the run configuration returning a
/// command
#[derive(Debug)]
pub struct NodeFnCommandWithConfig<F>(pub F);

} // verus!
