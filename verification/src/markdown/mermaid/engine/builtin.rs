//! The built-in engine: [`graph::layout`](super::super::graph::layout)
//! behind the [`GraphEngine`] trait. It renders every graph-shaped kind and
//! is the fallback when the selected engine declines a kind.

use vstd::prelude::*;
use super::GraphEngine;
use super::super::parse::{views, Diagram, DiagramV};
use super::super::{kind_of, sniff_kind, Fallback, FallbackV};
use super::super::graph::lines_fit;

verus! {

/// The built-in box-and-connector renderer.
pub struct BuiltinEngine;

/// The kinds the graph engines of this crate render.
pub open spec fn builtin_kind(kind: Seq<char>) -> bool {
    kind == "flowchart"@ || kind == "er"@ || kind == "class"@ || kind == "state"@ || kind == "generic"@
}

/// What the built-in engine gives for a diagram: lines that fit `width`
/// for a graph with nodes, `Empty` (named by the source's kind) for one
/// without or for a diagram that is not graph-shaped, `Overflow` when no
/// abbreviation fits.
pub open spec fn builtin_outcome(src: Seq<char>, diagram: DiagramV, width: u16, r: Result<Vec<String>, Fallback>) -> bool {
    match r {
        Ok(lines) => {
            &&& diagram matches DiagramV::Graph { nodes, .. }
            &&& nodes.len() > 0
            &&& lines_fit(views(lines@), width as nat)
        },
        Err(f) => match f@ {
            FallbackV::Empty { kind } => kind == kind_of(src) && match diagram {
                DiagramV::Graph { nodes, .. } => nodes.len() == 0,
                _ => true,
            },
            FallbackV::Overflow { kind } => kind == kind_of(src) && (match diagram {
                DiagramV::Graph { nodes, .. } => nodes.len() > 0,
                _ => false,
            }),
        },
    }
}

impl GraphEngine for BuiltinEngine {
    fn name(&self) -> (r: &'static str)
        ensures
            r@ == "builtin"@,
    {
        "builtin"
    }

    fn supports(&self, kind: &str) -> (r: bool)
        ensures
            r == builtin_kind(kind@),
    {
        crate::spec::meta::str_eq(kind, "flowchart") || crate::spec::meta::str_eq(kind, "er")
            || crate::spec::meta::str_eq(kind, "class") || crate::spec::meta::str_eq(kind, "state")
            || crate::spec::meta::str_eq(kind, "generic")
    }

    fn render(&self, src: &str, diagram: &Diagram, width: u16) -> (r: Result<Vec<String>, Fallback>)
        ensures
            builtin_outcome(src@, diagram@, width, r),
    {
        super::super::graph::layout(diagram, width, sniff_kind(src))
    }
}

} // verus!
