//! The arrangements a canvas can lay its nodes out in.
use vstd::prelude::*;
use crate::text::str_eq;

verus! {

/// How nodes are placed: where the user puts them, in levels that follow the
/// connections, or by a simulation of attracting and repelling forces.
#[derive(Clone, Copy, Debug, PartialEq, Eq, Hash, Structural)]
pub enum LayoutType {
    Free,
    Hierarchical,
    ForceDirected,
}

/// The layout a toolbar button names: "hierarchical", "force", or any other
/// value for the free layout.
pub open spec fn layout_named(value: Seq<char>) -> LayoutType {
    if value == "hierarchical"@ {
        LayoutType::Hierarchical
    } else if value == "force"@ {
        LayoutType::ForceDirected
    } else {
        LayoutType::Free
    }
}

/// The layout a toolbar button names, as `layout_named` describes it.
pub fn layout_for(value: &str) -> (r: LayoutType)
    ensures
        r == layout_named(value@),
{
    if str_eq(value, "hierarchical") {
        LayoutType::Hierarchical
    } else if str_eq(value, "force") {
        LayoutType::ForceDirected
    } else {
        LayoutType::Free
    }
}

} // verus!
