//! One entry point for the four targets.
use vstd::prelude::*;
use crate::emit::{renders, Syntax};
use crate::error::EmitError;
use crate::json::encodes;
use crate::model::{ModuleView, OffsetMap};

verus! {

/// An output syntax.
#[derive(Clone, Copy, Debug, PartialEq, Eq, Structural)]
pub enum Target {
    /// Managed-language source.
    Cs,
    /// Systems header.
    Hpp,
    /// Structured data.
    Json,
    /// Systems-language module source.
    Rs,
}

/// What rendering `modules` for `target` owes: the contract of that
/// target's emitter.
pub open spec fn rendered(
    target: Target,
    modules: Seq<ModuleView>,
    width: nat,
    r: Result<String, EmitError>,
) -> bool {
    match target {
        Target::Cs => renders(Syntax::Cs, modules, width, r),
        Target::Hpp => renders(Syntax::Hpp, modules, width, r),
        Target::Json => encodes(modules, r),
        Target::Rs => renders(Syntax::Rs, modules, width, r),
    }
}

impl OffsetMap {
    /// Renders the map for `target`, with `indent_size` columns per
    /// nesting level.
    pub fn render(&self, target: Target, indent_size: usize) -> (r: Result<String, EmitError>)
        ensures
            rendered(target, self@, indent_size as nat, r),
    {
        match target {
            Target::Cs => self.to_cs(indent_size),
            Target::Hpp => self.to_hpp(indent_size),
            Target::Json => self.to_json(indent_size),
            Target::Rs => self.to_rs(indent_size),
        }
    }
}

/// Determinism: two renderings of one map for one target at one indent
/// width both give text, and the same text.
pub proof fn lemma_render_deterministic(
    target: Target,
    modules: Seq<ModuleView>,
    width: nat,
    first: Result<String, EmitError>,
    second: Result<String, EmitError>,
)
    requires
        rendered(target, modules, width, first),
        rendered(target, modules, width, second),
    ensures
        first is Ok,
        second is Ok,
        first->Ok_0@ == second->Ok_0@,
{
}

/// The indent width plays no part in the structured data.
pub proof fn lemma_json_ignores_width(
    modules: Seq<ModuleView>,
    narrow: nat,
    wide: nat,
    first: Result<String, EmitError>,
    second: Result<String, EmitError>,
)
    requires
        rendered(Target::Json, modules, narrow, first),
        rendered(Target::Json, modules, wide, second),
    ensures
        first is Ok,
        second is Ok,
        first->Ok_0@ == second->Ok_0@,
{
}

} // verus!
