//! Pluggable renderers for graph-shaped mermaid diagrams, and the registry
//! that holds them and the selected one.
//!
//! The registry starts with the crate's own engines, `builtin` and
//! `mdview` (selected); further engines of the caller's type `E` can be
//! registered under names of their own. When the selected engine declines
//! a diagram kind, [`render_mermaid`](super::render_mermaid) falls back to
//! `builtin`.

use vstd::prelude::*;
use super::parse::Diagram;
use super::Fallback;
use crate::text::{chars_of, concat, join, join_exec, string_of};
use crate::spec::meta::str_eq;

pub mod builtin;
pub mod mdview;

verus! {

/// A renderer for graph-shaped diagrams.
pub trait GraphEngine {
    /// The engine's name, as `--diagram-engine` takes it.
    fn name(&self) -> &'static str;

    /// Whether the engine renders this diagram kind.
    fn supports(&self, kind: &str) -> bool;

    /// The engine's own classification of a diagram source, if it has one;
    /// `None` leaves the kind to the caller.
    fn classify(&self, src: &str) -> Option<&'static str> {
        None
    }

    /// Renders a parsed diagram in `width` columns.
    fn render(&self, src: &str, diagram: &Diagram, width: u16) -> Result<Vec<String>, Fallback>;
}

/// A registered engine: one of the crate's own, or one of the caller's.
pub enum Engine<E> {
    Builtin,
    Mdview,
    Custom(E),
}

impl<E> Engine<E> {
    /// The name of the crate's own engines; the caller's say theirs when
    /// asked.
    pub open spec fn fixed_name(&self) -> Option<Seq<char>> {
        match self {
            Engine::Builtin => Some("builtin"@),
            Engine::Mdview => Some("mdview"@),
            Engine::Custom(_) => None,
        }
    }
}

impl<E: GraphEngine> GraphEngine for Engine<E> {
    fn name(&self) -> (r: &'static str)
        ensures
            self.fixed_name() matches Some(n) ==> r@ == n,
    {
        match self {
            Engine::Builtin => builtin::BuiltinEngine.name(),
            Engine::Mdview => mdview::MdviewEngine.name(),
            Engine::Custom(e) => e.name(),
        }
    }

    fn supports(&self, kind: &str) -> (r: bool)
        ensures
            !(self is Custom) ==> r == builtin::builtin_kind(kind@),
    {
        match self {
            Engine::Builtin => builtin::BuiltinEngine.supports(kind),
            Engine::Mdview => mdview::MdviewEngine.supports(kind),
            Engine::Custom(e) => e.supports(kind),
        }
    }

    fn classify(&self, src: &str) -> (r: Option<&'static str>)
        ensures
            !(self is Custom) ==> r is None,
    {
        match self {
            Engine::Builtin => None,
            Engine::Mdview => None,
            Engine::Custom(e) => e.classify(src),
        }
    }

    fn render(&self, src: &str, diagram: &Diagram, width: u16) -> (r: Result<Vec<String>, Fallback>)
        ensures
            self is Builtin ==> builtin::builtin_outcome(src@, diagram@, width, r),
            self is Mdview ==> mdview::mdview_outcome(src@, diagram@, width, r),
    {
        match self {
            Engine::Builtin => builtin::BuiltinEngine.render(src, diagram, width),
            Engine::Mdview => mdview::MdviewEngine.render(src, diagram, width),
            Engine::Custom(e) => e.render(src, diagram, width),
        }
    }
}

/// The registered engines, oldest first, the names they gave when
/// registered, and the selected one.
pub struct EngineRegistry<E> {
    engines: Vec<Engine<E>>,
    names: Vec<&'static str>,
    current: usize,
}

/// The index of the first of `names` equal to `name`.
proof fn lemma_find_name(names: Seq<Seq<char>>, name: Seq<char>)
    ensures
        find_name(names, name) matches Some(i) ==> 0 <= i < names.len() && names[i] == name,
    decreases names.len(),
{
    if names.len() > 0 && names[0] != name {
        lemma_find_name(names.drop_first(), name);
    }
}

pub open spec fn find_name(names: Seq<Seq<char>>, name: Seq<char>) -> Option<int>
    decreases names.len(),
{
    if names.len() == 0 {
        None
    } else if names[0] == name {
        Some(0)
    } else {
        match find_name(names.drop_first(), name) {
            Some(i) => Some(i + 1),
            None => None,
        }
    }
}

proof fn lemma_find_name_bound(names: Seq<Seq<char>>, name: Seq<char>)
    ensures
        find_name(names, name) matches Some(i) ==> 0 <= i < names.len() && names[i] == name,
    decreases names.len(),
{
    if names.len() > 0 && names[0] != name {
        lemma_find_name_bound(names.drop_first(), name);
    }
}

/// The character sequences of a list of names.
pub open spec fn name_views(names: Seq<&'static str>) -> Seq<Seq<char>> {
    names.map_values(|s: &'static str| s@)
}

impl<E> EngineRegistry<E> {
    /// One name per engine, the crate's own engines under their own
    /// names; the selected engine is one of them.
    pub closed spec fn wf(&self) -> bool {
        &&& self.engines@.len() == self.names@.len()
        &&& self.current < self.engines@.len()
        &&& forall|i: int| 0 <= i < self.engines@.len() ==> ((#[trigger] self.engines@[i]).fixed_name() matches Some(n)
            ==> name_views(self.names@)[i] == n)
    }

    /// The registered engines.
    pub closed spec fn spec_engines(&self) -> Seq<Engine<E>> {
        self.engines@
    }

    /// The names the engines gave when they were registered.
    pub closed spec fn spec_names(&self) -> Seq<Seq<char>> {
        name_views(self.names@)
    }

    /// The index of the selected engine.
    pub closed spec fn spec_current(&self) -> int {
        self.current as int
    }

    /// A registry holding `builtin` and `mdview`, with `mdview` selected.
    pub fn new() -> (r: EngineRegistry<E>)
        ensures
            r.wf(),
            r.spec_engines() == seq![Engine::<E>::Builtin, Engine::<E>::Mdview],
            r.spec_names() == seq!["builtin"@, "mdview"@],
            r.spec_current() == 1,
    {
        let mut engines: Vec<Engine<E>> = Vec::new();
        engines.push(Engine::Builtin);
        engines.push(Engine::Mdview);
        let mut names: Vec<&'static str> = Vec::new();
        names.push("builtin");
        names.push("mdview");
        let r = EngineRegistry { engines, names, current: 1 };
        assert(r.spec_engines() =~= seq![Engine::<E>::Builtin, Engine::<E>::Mdview]);
        assert(r.spec_names() =~= seq!["builtin"@, "mdview"@]);
        r
    }
}

fn find_engine(names: &Vec<&'static str>, name: &str) -> (r: Option<usize>)
    ensures
        match r {
            Some(i) => find_name(name_views(names@), name@) == Some(i as int) && i < names@.len(),
            None => find_name(name_views(names@), name@) is None,
        },
{
    let ghost all = name_views(names@);
    let mut i: usize = 0;
    assert(all.subrange(0, all.len() as int) =~= all);
    while i < names.len()
        invariant
            i <= names@.len(),
            all == name_views(names@),
            all.len() == names@.len(),
            find_name(all, name@) == (match find_name(all.subrange(i as int, all.len() as int), name@) {
                Some(k) => Some(k + i),
                None => None::<int>,
            }),
        decreases names.len() - i,
    {
        let ghost rest = all.subrange(i as int, all.len() as int);
        assert(rest.drop_first() =~= all.subrange(i + 1, all.len() as int));
        assert(rest[0] == names@[i as int]@);
        if str_eq(names[i], name) {
            return Some(i);
        }
        i = i + 1;
    }
    None
}

/// All registered engines, oldest first.
pub fn engines<E>(reg: &EngineRegistry<E>) -> (r: &[Engine<E>])
    ensures
        r@ == reg.spec_engines(),
{
    reg.engines.as_slice()
}

/// The message refusing a second engine of the same name.
pub open spec fn duplicate_text(name: Seq<char>) -> Seq<char> {
    "diagram engine '"@ + name + "' is already registered"@
}

/// Registers another engine under the name it gives; refused when an
/// engine of that name is already registered.
pub fn register<E: GraphEngine>(reg: &mut EngineRegistry<E>, engine: Engine<E>) -> (r: Result<(), String>)
    requires
        old(reg).wf(),
    ensures
        final(reg).wf(),
        final(reg).spec_current() == old(reg).spec_current(),
        match r {
            Ok(()) => {
                &&& final(reg).spec_engines() == old(reg).spec_engines().push(engine)
                &&& final(reg).spec_names().len() == old(reg).spec_names().len() + 1
                &&& final(reg).spec_names().drop_last() == old(reg).spec_names()
                &&& find_name(old(reg).spec_names(), final(reg).spec_names().last()) is None
                &&& (engine.fixed_name() matches Some(n) ==> final(reg).spec_names().last() == n)
            },
            Err(m) => {
                &&& final(reg).spec_engines() == old(reg).spec_engines()
                &&& final(reg).spec_names() == old(reg).spec_names()
                &&& exists|n: Seq<char>| {
                    &&& #[trigger] find_name(old(reg).spec_names(), n) is Some
                    &&& m@ == duplicate_text(n)
                    &&& (engine.fixed_name() matches Some(k) ==> k == n)
                }
            },
        },
{
    let name = engine.name();
    match find_engine(&reg.names, name) {
        Some(_) => {
            let a = chars_of("diagram engine '");
            let b = chars_of(name);
            let c = chars_of("' is already registered");
            let ab = concat(a.as_slice(), b.as_slice());
            let m = string_of(concat(ab.as_slice(), c.as_slice()).as_slice());
            assert(find_name(old(reg).spec_names(), name@) is Some);
            Err(m)
        },
        None => {
            let ghost before = reg.names@;
            reg.engines.push(engine);
            reg.names.push(name);
            assert(name_views(reg.names@).drop_last() =~= name_views(before));
            Ok(())
        },
    }
}

/// The message refusing an unknown engine name, listing the registered ones.
pub open spec fn unknown_text(name: Seq<char>, names: Seq<Seq<char>>) -> Seq<char> {
    "unknown diagram engine '"@ + name + "' (available: "@ + join(names, ", "@) + ")"@
}

/// Selects the engine named `name`; an unknown name is refused with a
/// message listing the registered engines.
pub fn select<E>(reg: &mut EngineRegistry<E>, name: &str) -> (r: Result<(), String>)
    requires
        old(reg).wf(),
    ensures
        final(reg).wf(),
        final(reg).spec_engines() == old(reg).spec_engines(),
        final(reg).spec_names() == old(reg).spec_names(),
        match r {
            Ok(()) => find_name(old(reg).spec_names(), name@) == Some(final(reg).spec_current())
                && (final(reg).spec_engines()[final(reg).spec_current()].fixed_name() matches Some(k) ==> k == name@),
            Err(m) => find_name(old(reg).spec_names(), name@) is None
                && m@ == unknown_text(name@, old(reg).spec_names())
                && final(reg).spec_current() == old(reg).spec_current(),
        },
{
    match find_engine(&reg.names, name) {
        Some(i) => {
            proof {
                lemma_find_name(name_views(reg.names@), name@);
            }
            reg.current = i;
            Ok(())
        },
        None => {
            let mut names: Vec<Vec<char>> = Vec::new();
            let mut k: usize = 0;
            while k < reg.names.len()
                invariant
                    k <= reg.names@.len(),
                    names.deep_view() == name_views(reg.names@).take(k as int),
                decreases reg.names.len() - k,
            {
                let nm = chars_of(reg.names[k]);
                crate::text::push_chars(&mut names, nm);
                k = k + 1;
                assert(names.deep_view() =~= name_views(reg.names@).take(k as int));
            }
            assert(name_views(reg.names@).take(reg.names@.len() as int) =~= name_views(reg.names@));
            let sep = chars_of(", ");
            let list = join_exec(&names, sep.as_slice());
            let a = chars_of("unknown diagram engine '");
            let b = chars_of(name);
            let c = chars_of("' (available: ");
            let d = chars_of(")");
            let ab = concat(a.as_slice(), b.as_slice());
            let abc = concat(ab.as_slice(), c.as_slice());
            let abcl = concat(abc.as_slice(), list.as_slice());
            Err(string_of(concat(abcl.as_slice(), d.as_slice()).as_slice()))
        },
    }
}

/// The selected engine.
pub fn current<E>(reg: &EngineRegistry<E>) -> (r: &Engine<E>)
    requires
        reg.wf(),
    ensures
        *r == reg.spec_engines()[reg.spec_current()],
{
    &reg.engines[reg.current]
}

} // verus!
