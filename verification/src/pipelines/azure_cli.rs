//! The pipeline for the one provider that is supported.

use vstd::prelude::*;

verus! {

/// The pipeline that creates its systems with the provider's command-line
/// tool.
#[derive(Clone, Copy, Debug)]
pub struct AzureTaasPipeline {}

} // verus!
