//! Mermaid diagrams: parsing into a [`parse::Diagram`] and rendering.

use vstd::prelude::*;
use crate::text::{chars_of, lines, lines_of, starts_with_str};
use self::engine::{current, Engine, EngineRegistry, GraphEngine};
use self::engine::builtin::{builtin_outcome, BuiltinEngine};
use self::engine::mdview::mdview_outcome;
use self::parse::{views, Diagram, DiagramV};
use self::seq::{msg_rows, uniform_within};

pub mod canvas;
pub mod engine;
pub mod graph;
pub mod parse;
pub mod seq;

verus! {

/// Why a diagram could not be rendered as a diagram.
#[derive(Debug)]
pub enum Fallback {
    Empty { kind: String },
    Overflow { kind: String },
}

/// [`Fallback`] with its text as character sequences.
pub enum FallbackV {
    Empty { kind: Seq<char> },
    Overflow { kind: Seq<char> },
}

impl View for Fallback {
    type V = FallbackV;

    open spec fn view(&self) -> FallbackV {
        match self {
            Fallback::Empty { kind } => FallbackV::Empty { kind: kind@ },
            Fallback::Overflow { kind } => FallbackV::Overflow { kind: kind@ },
        }
    }
}

/// `Fallback::Empty` for the named diagram kind.
pub fn empty_fallback(kind: &str) -> (f: Fallback)
    ensures
        f@ == (FallbackV::Empty { kind: kind@ }),
{
    Fallback::Empty { kind: kind.to_owned() }
}

/// The diagram kind named by the first non-blank line: `flowchart`
/// (`graph`/`flowchart`), `er`, `class`, `state`, else `generic`.
pub open spec fn kind_of(code: Seq<char>) -> Seq<char> {
    match parse::first_nonblank(lines(code)) {
        Some(l) => if "graph"@.is_prefix_of(l) || "flowchart"@.is_prefix_of(l) {
            "flowchart"@
        } else if "erDiagram"@.is_prefix_of(l) {
            "er"@
        } else if "classDiagram"@.is_prefix_of(l) {
            "class"@
        } else if "stateDiagram"@.is_prefix_of(l) {
            "state"@
        } else {
            "generic"@
        },
        None => "generic"@,
    }
}

/// The diagram kind of a mermaid source (see [`kind_of`]).
pub fn sniff_kind(code: &str) -> (r: &'static str)
    ensures
        r@ == kind_of(code@),
{
    let cs = chars_of(code);
    let ls = lines_of(cs.as_slice());
    match parse::first_nonblank_exec(&ls) {
        Some(l) => {
            if starts_with_str(l.as_slice(), "graph") || starts_with_str(l.as_slice(), "flowchart") {
                "flowchart"
            } else if starts_with_str(l.as_slice(), "erDiagram") {
                "er"
            } else if starts_with_str(l.as_slice(), "classDiagram") {
                "class"
            } else if starts_with_str(l.as_slice(), "stateDiagram") {
                "state"
            } else {
                "generic"
            }
        },
        None => "generic",
    }
}


/// What the sequence renderer gives for a diagram: for a sequence with
/// actors, the rows of [`seq::seq_layout`] (one line for the actors and the
/// message rows, all of one width within `width`), `Overflow` exactly when
/// there are none; `Empty` for a sequence without actors.
pub open spec fn sequence_outcome(diagram: DiagramV, width: u16, r: Result<Vec<String>, Fallback>) -> bool {
    &&& match diagram {
        DiagramV::Sequence { actors, messages } => actors.len() > 0 ==> match r {
            Ok(lines) => seq::seq_layout(actors, messages, width as nat) == Some(views(lines@)),
            Err(_) => seq::seq_layout(actors, messages, width as nat) is None,
        },
        _ => true,
    }
    &&& match r {
        Ok(lines) => {
            &&& diagram matches DiagramV::Sequence { actors, messages }
            &&& actors.len() > 0
            &&& lines@.len() == 1 + msg_rows(messages)
            &&& uniform_within(views(lines@), width as nat)
        },
        Err(f) => match f@ {
            FallbackV::Empty { kind } => kind == "sequence"@ && match diagram {
                DiagramV::Sequence { actors, messages } => actors.len() == 0,
                _ => true,
            },
            FallbackV::Overflow { kind } => kind == "sequence"@ && (match diagram {
                DiagramV::Sequence { actors, messages } => actors.len() > 0,
                _ => false,
            }),
        },
    }
}

/// What rendering mermaid source with a registry gives (see
/// [`render_mermaid`]).
pub open spec fn mermaid_ok<E: GraphEngine>(reg: EngineRegistry<E>, code: Seq<char>, width: u16, r: Result<Vec<String>, Fallback>) -> bool {
    match parse::spec_parse(code) {
        Err(f) => r matches Err(e) && e@ == f,
        Ok(d) => match d {
            DiagramV::Graph { .. } => match reg.spec_engines()[reg.spec_current()] {
                Engine::Builtin => builtin_outcome(code, d, width, r),
                Engine::Mdview => mdview_outcome(code, d, width, r),
                Engine::Custom(_) => true,
            },
            DiagramV::Sequence { .. } => match reg.spec_engines()[reg.spec_current()] {
                Engine::Custom(_) => r is Ok || sequence_outcome(d, width, r),
                _ => sequence_outcome(d, width, r),
            },
        },
    }
}

/// Where a diagram goes once the selected engine has answered.
pub enum MermaidRoute {
    /// The selected engine renders the graph.
    Engine,
    /// The built-in engine renders the graph.
    Builtin,
    /// The selected engine tries the sequence; the sequence renderer
    /// takes over if it fails.
    EngineThenSequence,
    /// The sequence renderer draws it.
    Sequence,
}

/// The kind the selected engine is asked about: its own classification,
/// else the sniffed kind of a graph, `sequence` for a sequence diagram.
pub fn kind_to_ask(is_graph: bool, classified: Option<&'static str>, code: &str) -> (r: &'static str)
    ensures
        r@ == match classified {
            Some(k) => k@,
            None => if is_graph { kind_of(code@) } else { "sequence"@ },
        },
{
    match classified {
        Some(k) => k,
        None => if is_graph { sniff_kind(code) } else { "sequence" },
    }
}

/// The route of a diagram: an engine that supports the kind gets it; a
/// graph it does not support goes to `builtin`, a sequence to the sequence
/// renderer.
pub fn route_of(is_graph: bool, supported: bool) -> (r: MermaidRoute)
    ensures
        r == (if supported {
            if is_graph { MermaidRoute::Engine } else { MermaidRoute::EngineThenSequence }
        } else {
            if is_graph { MermaidRoute::Builtin } else { MermaidRoute::Sequence }
        }),
{
    if supported {
        if is_graph { MermaidRoute::Engine } else { MermaidRoute::EngineThenSequence }
    } else {
        if is_graph { MermaidRoute::Builtin } else { MermaidRoute::Sequence }
    }
}

/// Renders mermaid source in `width` columns with the registry's selected
/// engine. A source that does not parse gives the parser's fallback. A
/// graph-shaped diagram goes to the selected engine when it supports the
/// kind (its own classification, else [`sniff_kind`]) and to `builtin`
/// otherwise. A sequence diagram goes to the selected engine when it
/// supports `sequence` and renders it; otherwise, and when that fails, to
/// the sequence renderer.
pub fn render_mermaid<E: GraphEngine>(reg: &EngineRegistry<E>, code: &str, width: u16) -> (r: Result<Vec<String>, Fallback>)
    requires
        reg.wf(),
    ensures
        mermaid_ok(*reg, code@, width, r),
{    let diagram = match parse::parse(code) {
        Ok(d) => d,
        Err(f) => {
            return Err(f);
        },
    };
    let selected = current(reg);
    let is_graph = match &diagram {
        Diagram::Graph { .. } => true,
        Diagram::Sequence { .. } => false,
    };
    let kind = kind_to_ask(is_graph, selected.classify(code), code);
    let route = route_of(is_graph, selected.supports(kind));
    let engine = match route {
        MermaidRoute::Engine | MermaidRoute::EngineThenSequence => Some(selected.render(code, &diagram, width)),
        _ => None,
    };
    finish_route(route, engine, code, &diagram, width)
}

/// What a route gives, `engine` being the selected engine's answer where
/// the route asks for one: that answer; the built-in engine's rendering;
/// the answer when it succeeds, else the sequence renderer's; the sequence
/// renderer's.
pub fn finish_route(
    route: MermaidRoute,
    engine: Option<Result<Vec<String>, Fallback>>,
    code: &str,
    diagram: &Diagram,
    width: u16,
) -> (r: Result<Vec<String>, Fallback>)
    requires
        (route is Engine || route is EngineThenSequence) ==> engine is Some,
    ensures
        route is Engine ==> r == engine->0,
        route is Builtin ==> builtin_outcome(code@, diagram@, width, r),
        route is EngineThenSequence ==> match engine->0 {
            Ok(lines) => r == Ok::<Vec<String>, Fallback>(lines),
            Err(_) => sequence_outcome(diagram@, width, r),
        },
        route is Sequence ==> sequence_outcome(diagram@, width, r),
{
    match route {
        MermaidRoute::Engine => match engine {
            Some(res) => res,
            None => seq::layout(diagram, width),
        },
        MermaidRoute::Builtin => BuiltinEngine.render(code, diagram, width),
        MermaidRoute::EngineThenSequence => match engine {
            Some(Ok(lines)) => Ok(lines),
            _ => seq::layout(diagram, width),
        },
        MermaidRoute::Sequence => seq::layout(diagram, width),
    }
}

} // verus!
