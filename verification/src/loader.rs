//! The loading protocol, as a stepped session.
//!
//! Loading needs outside work — canonicalizing paths, reading files,
//! deserializing text, parsing arguments — that the engine cannot perform
//! itself.  A [`Loader`] therefore walks the layer tree as a state
//! machine: [`Loader::next_action`] names the piece of outside work the
//! pass needs next, the caller performs it and hands the outcome back
//! through [`Loader::step`], and the machine decides everything else:
//! format resolution, optional-file fallbacks, cycle detection, discovery
//! of nested layers, and the order of the walk.
//!
//! Each top-level layer is loaded depth-first with a fresh set of visited
//! canonical paths, so a path may appear under two different top-level
//! layers, while a second visit within one top-level pass is a cycle.

use vstd::prelude::*;

use crate::builder::{
    arena_view, builder_wf, rec_wf, usizes_view, Builder, BuilderV, LayerRec, LayerRecV,
};
use crate::error::{sources_view, Error, ErrorV, Source, SourceV};
use crate::format::{resolve_format_spec, Format};
use crate::model::{
    lc_slots, skeleton_slots, strings_view, tree_to_slots, wf_slots, Partial, SlotV,
    Value,
};
use crate::paths::{dir_of, is_absolute_path, join_path};

verus! {

/// The outside work a resolution pass asks its caller to perform next.
#[derive(Debug)]
pub enum Action {
    /// Canonicalize this path; answer with `Canonicalized`,
    /// `CanonicalizeNotFound` or `CanonicalizeFailed`.
    Canonicalize {
        /// The path to canonicalize.
        path: String,
    },
    /// Read this file; answer with `FileRead`, `FileReadNotFound` or
    /// `FileReadFailed`.
    ReadFile {
        /// The canonical path to read.
        path: String,
    },
    /// Deserialize this text in the given concrete format into a datum
    /// tree; answer with `Parsed` or `ParseFailed`.
    Parse {
        /// The concrete format; never `Auto`.
        format: Format,
        /// The text to deserialize.
        text: String,
    },
    /// Parse the process's own arguments through the argument capability;
    /// answer with `ArgumentsParsed`.
    ParseArguments,
    /// Parse this argument list through the argument capability; answer
    /// with `ArgumentsParsed`.
    ParseArgumentsFrom {
        /// The arguments.
        args: Vec<String>,
    },
    /// The pass is over; collect the builder and the outcome with
    /// `finish`.
    Done,
}

/// Mathematical model of an [`Action`].
pub enum ActionV {
    /// Canonicalize this path.
    Canonicalize {
        /// The path to canonicalize.
        path: Seq<char>,
    },
    /// Read this file.
    ReadFile {
        /// The canonical path to read.
        path: Seq<char>,
    },
    /// Deserialize this text.
    Parse {
        /// The concrete format.
        format: Format,
        /// The text to deserialize.
        text: Seq<char>,
    },
    /// Parse the process's own arguments.
    ParseArguments,
    /// Parse this argument list.
    ParseArgumentsFrom {
        /// The arguments.
        args: Seq<Seq<char>>,
    },
    /// The pass is over.
    Done,
}

pub open spec fn action_view(a: Action) -> ActionV {
    match a {
        Action::Canonicalize { path } => ActionV::Canonicalize { path: path@ },
        Action::ReadFile { path } => ActionV::ReadFile { path: path@ },
        Action::Parse { format, text } => ActionV::Parse { format, text: text@ },
        Action::ParseArguments => ActionV::ParseArguments,
        Action::ParseArgumentsFrom { args } => ActionV::ParseArgumentsFrom {
            args: strings_view(args@),
        },
        Action::Done => ActionV::Done,
    }
}

impl View for Action {
    type V = ActionV;

    open spec fn view(&self) -> ActionV {
        action_view(*self)
    }
}

/// The outcome of one piece of outside work, handed back to the machine.
#[derive(Debug)]
pub enum Event {
    /// Canonicalization succeeded.
    Canonicalized {
        /// The canonical path.
        path: String,
    },
    /// The path does not exist.
    CanonicalizeNotFound,
    /// Canonicalization failed for another reason.
    CanonicalizeFailed {
        /// The capability's diagnostic.
        message: String,
    },
    /// The file was read.
    FileRead {
        /// Its contents.
        text: String,
    },
    /// The file does not exist.
    FileReadNotFound,
    /// Reading failed for another reason.
    FileReadFailed {
        /// The capability's diagnostic.
        message: String,
    },
    /// The text deserialized into a datum tree.
    Parsed {
        /// The tree.
        tree: Value,
    },
    /// The text could not be deserialized.
    ParseFailed {
        /// The parser's diagnostic.
        message: String,
    },
    /// The argument capability produced a layer.
    ArgumentsParsed {
        /// The partial view the arguments denote; it must mirror the
        /// builder's shape.
        layer: Partial,
    },
}

/// Mathematical model of an [`Event`].
pub enum EventV {
    /// Canonicalization succeeded.
    Canonicalized {
        /// The canonical path.
        path: Seq<char>,
    },
    /// The path does not exist.
    CanonicalizeNotFound,
    /// Canonicalization failed for another reason.
    CanonicalizeFailed {
        /// The capability's diagnostic.
        message: Seq<char>,
    },
    /// The file was read.
    FileRead {
        /// Its contents.
        text: Seq<char>,
    },
    /// The file does not exist.
    FileReadNotFound,
    /// Reading failed for another reason.
    FileReadFailed {
        /// The capability's diagnostic.
        message: Seq<char>,
    },
    /// The text deserialized into a datum tree.
    Parsed {
        /// The tree's model.
        tree: crate::model::ValueV,
    },
    /// The text could not be deserialized.
    ParseFailed {
        /// The parser's diagnostic.
        message: Seq<char>,
    },
    /// The argument capability produced a layer.
    ArgumentsParsed {
        /// The partial view's model.
        layer: Seq<SlotV>,
    },
}

pub open spec fn event_view(e: Event) -> EventV {
    match e {
        Event::Canonicalized { path } => EventV::Canonicalized { path: path@ },
        Event::CanonicalizeNotFound => EventV::CanonicalizeNotFound,
        Event::CanonicalizeFailed { message } => EventV::CanonicalizeFailed { message: message@ },
        Event::FileRead { text } => EventV::FileRead { text: text@ },
        Event::FileReadNotFound => EventV::FileReadNotFound,
        Event::FileReadFailed { message } => EventV::FileReadFailed { message: message@ },
        Event::Parsed { tree } => EventV::Parsed { tree: tree@ },
        Event::ParseFailed { message } => EventV::ParseFailed { message: message@ },
        Event::ArgumentsParsed { layer } => EventV::ArgumentsParsed { layer: layer@ },
    }
}

impl View for Event {
    type V = EventV;

    open spec fn view(&self) -> EventV {
        event_view(*self)
    }
}

/// Where a resolution pass stands: which layer is mid-load, and which
/// outcome it waits for.
#[derive(Debug)]
pub enum Phase {
    /// Waiting for the canonical form of a file layer's resolved path.
    AwaitCanonical {
        /// The layer being loaded.
        layer: usize,
        /// Its path, resolved against the working directory.
        full: String,
    },
    /// Waiting for a file layer's contents.
    AwaitRead {
        /// The layer being loaded.
        layer: usize,
        /// Its canonical path.
        canon: String,
        /// Its declared format, still to be resolved.
        format: Format,
        /// The working directory its children will resolve against.
        child_cwd: String,
    },
    /// Waiting for a layer's text to deserialize.
    AwaitParse {
        /// The layer being loaded.
        layer: usize,
        /// The concrete format; never `Auto`.
        format: Format,
        /// The text being deserialized.
        text: String,
        /// The working directory its children will resolve against.
        child_cwd: String,
    },
    /// Waiting for the argument capability.
    AwaitArgs {
        /// The layer being loaded.
        layer: usize,
        /// The working directory its children will resolve against.
        child_cwd: String,
    },
    /// The pass is over.
    Finished {
        /// Success, or the error that aborted the pass.
        result: Result<(), Error>,
    },
}

/// Mathematical model of a [`Phase`].
pub enum PhaseV {
    /// Waiting for a canonical path.
    AwaitCanonical {
        /// The layer being loaded.
        layer: int,
        /// Its resolved path.
        full: Seq<char>,
    },
    /// Waiting for a file's contents.
    AwaitRead {
        /// The layer being loaded.
        layer: int,
        /// Its canonical path.
        canon: Seq<char>,
        /// Its declared format.
        format: Format,
        /// The working directory for its children.
        child_cwd: Seq<char>,
    },
    /// Waiting for a deserialized tree.
    AwaitParse {
        /// The layer being loaded.
        layer: int,
        /// The concrete format.
        format: Format,
        /// The text being deserialized.
        text: Seq<char>,
        /// The working directory for its children.
        child_cwd: Seq<char>,
    },
    /// Waiting for the argument capability.
    AwaitArgs {
        /// The layer being loaded.
        layer: int,
        /// The working directory for its children.
        child_cwd: Seq<char>,
    },
    /// The pass is over.
    Finished {
        /// Success, or the error that aborted the pass.
        result: Result<(), ErrorV>,
    },
}

pub open spec fn phase_view(p: Phase) -> PhaseV {
    match p {
        Phase::AwaitCanonical { layer, full } => PhaseV::AwaitCanonical {
            layer: layer as int,
            full: full@,
        },
        Phase::AwaitRead { layer, canon, format, child_cwd } => PhaseV::AwaitRead {
            layer: layer as int,
            canon: canon@,
            format,
            child_cwd: child_cwd@,
        },
        Phase::AwaitParse { layer, format, text, child_cwd } => PhaseV::AwaitParse {
            layer: layer as int,
            format,
            text: text@,
            child_cwd: child_cwd@,
        },
        Phase::AwaitArgs { layer, child_cwd } => PhaseV::AwaitArgs {
            layer: layer as int,
            child_cwd: child_cwd@,
        },
        Phase::Finished { result } => PhaseV::Finished {
            result: match result {
                Result::Ok(u) => Result::Ok(u),
                Result::Err(e) => Result::Err(e@),
            },
        },
    }
}

impl View for Phase {
    type V = PhaseV;

    open spec fn view(&self) -> PhaseV {
        phase_view(*self)
    }
}

/// One resolution pass over a builder's layers: the builder itself, the
/// working directory of the pass, the top-level layers still to load, the
/// depth-first stack of discovered layers, the canonical paths already
/// visited under the current top-level layer, and the phase.
#[derive(Debug)]
pub struct Loader {
    /// The builder whose layers are being loaded.
    pub builder: Builder,
    /// The working directory layers without one of their own resolve
    /// relative paths against.
    pub cwd: String,
    /// Top-level layers still to load, next last.
    pub queue: Vec<usize>,
    /// Discovered layers still to load under the current top-level layer,
    /// next last.
    pub stack: Vec<usize>,
    /// Canonical paths visited under the current top-level layer.
    pub visited: Vec<String>,
    /// Where the pass stands.
    pub phase: Phase,
}

/// Mathematical model of a [`Loader`].
pub struct LoaderV {
    /// The builder whose layers are being loaded.
    pub builder: BuilderV,
    /// The working directory of the pass.
    pub cwd: Seq<char>,
    /// Top-level layers still to load, next last.
    pub queue: Seq<int>,
    /// Discovered layers still to load, next last.
    pub stack: Seq<int>,
    /// Canonical paths visited under the current top-level layer.
    pub visited: Seq<Seq<char>>,
    /// Where the pass stands.
    pub phase: PhaseV,
}

impl View for Loader {
    type V = LoaderV;

    open spec fn view(&self) -> LoaderV {
        LoaderV {
            builder: self.builder@,
            cwd: self.cwd@,
            queue: usizes_view(self.queue@),
            stack: usizes_view(self.stack@),
            visited: strings_view(self.visited@),
            phase: self.phase@,
        }
    }
}

/// The layer a phase is waiting on, if any.
pub open spec fn phase_layer(p: PhaseV) -> Option<int> {
    match p {
        PhaseV::AwaitCanonical { layer, .. } => Option::Some(layer),
        PhaseV::AwaitRead { layer, .. } => Option::Some(layer),
        PhaseV::AwaitParse { layer, .. } => Option::Some(layer),
        PhaseV::AwaitArgs { layer, .. } => Option::Some(layer),
        PhaseV::Finished { .. } => Option::None,
    }
}

/// Agreement of the phase with the layer it loads: the phase's layer
/// exists, and its source fits the phase — a canonicalize or read waits
/// only on file layers, an argument wait only on argument layers, and a
/// parse never carries the unresolved `Auto` format.
pub open spec fn phase_wf(l: LoaderV) -> bool {
    match l.phase {
        PhaseV::AwaitCanonical { layer, .. } => 0 <= layer < l.builder.arena.len() && (
        l.builder.arena[layer].source is File || l.builder.arena[layer].source is FileOptional),
        PhaseV::AwaitRead { layer, .. } => 0 <= layer < l.builder.arena.len() && (
        l.builder.arena[layer].source is File || l.builder.arena[layer].source is FileOptional),
        PhaseV::AwaitParse { layer, format, .. } => 0 <= layer < l.builder.arena.len() && !(
        format is Auto),
        PhaseV::AwaitArgs { layer, .. } => 0 <= layer < l.builder.arena.len() && (
        l.builder.arena[layer].source is Arguments
            || l.builder.arena[layer].source is ArgumentsFrom),
        PhaseV::Finished { result } => result is Ok ==> l.stack.len() == 0 && l.queue.len()
            == 0,
    }
}

/// Whether layer `id` is still scheduled or mid-load in this pass.
pub open spec fn pending(l: LoaderV, id: int) -> bool {
    l.stack.contains(id) || l.queue.contains(id) || phase_layer(l.phase) == Option::Some(id)
}

/// Unless the pass has already failed, every top-level layer is loaded or
/// still on its way: scheduled, or the one mid-load.
pub open spec fn tops_covered(l: LoaderV) -> bool {
    !(l.phase matches PhaseV::Finished { result: Result::Err(_) }) ==> forall|t: int|
        0 <= t < l.builder.top.len() ==> l.builder.arena[#[trigger] l.builder.top[t]].loaded
            || pending(l, l.builder.top[t])
}

/// Whether the layer mid-load, if any, has already been loaded; holds
/// whenever the pass is between layers.
pub open spec fn phase_layer_loaded(l: LoaderV) -> bool {
    match phase_layer(l.phase) {
        Option::Some(id) => 0 <= id < l.builder.arena.len() && l.builder.arena[id].loaded,
        Option::None => true,
    }
}

/// What moving the pass on needs of the state: a valid builder, valid
/// pending layers, every top-level layer accounted for, and no layer
/// mid-load that is not yet loaded.
pub open spec fn advance_pre(l: LoaderV) -> bool {
    &&& builder_wf(l.builder)
    &&& forall|i: int|
        0 <= i < l.queue.len() ==> 0 <= #[trigger] l.queue[i] < l.builder.arena.len()
    &&& forall|i: int|
        0 <= i < l.queue.len() ==> !(l.builder.arena[#[trigger] l.queue[i]].source is Environment)
    &&& forall|i: int|
        0 <= i < l.stack.len() ==> 0 <= #[trigger] l.stack[i] < l.builder.arena.len()
    &&& forall|i: int|
        0 <= i < l.stack.len() ==> !(l.builder.arena[#[trigger] l.stack[i]].source is Environment)
    &&& forall|t: int|
        0 <= t < l.builder.top.len() ==> l.builder.arena[#[trigger] l.builder.top[t]].loaded
            || pending(l, l.builder.top[t])
    &&& phase_layer_loaded(l)
}

/// Validity of a loader: a valid builder, pending layers that exist, and
/// none of them reserved `Environment` sources.
pub open spec fn loader_wf(l: LoaderV) -> bool {
    &&& builder_wf(l.builder)
    &&& forall|i: int|
        0 <= i < l.queue.len() ==> 0 <= #[trigger] l.queue[i] < l.builder.arena.len()
    &&& forall|i: int|
        0 <= i < l.queue.len() ==> !(l.builder.arena[#[trigger] l.queue[i]].source is Environment)
    &&& forall|i: int|
        0 <= i < l.stack.len() ==> 0 <= #[trigger] l.stack[i] < l.builder.arena.len()
    &&& forall|i: int|
        0 <= i < l.stack.len() ==> !(l.builder.arena[#[trigger] l.stack[i]].source is Environment)
    &&& phase_wf(l)
    &&& tops_covered(l)
}

/// The working directory of one layer: its own, or the pass's.
pub open spec fn cwd_of_v(l: LoaderV, id: int) -> Seq<char> {
    match l.builder.arena[id].cwd {
        Option::Some(c) => c,
        Option::None => l.cwd,
    }
}

/// The phase that loading layer `id` begins in, by its source: file
/// layers resolve their path and wait for its canonical form; string
/// layers wait for their text to parse, unless their format was the
/// unresolvable `Auto`; argument layers wait for the argument capability.
pub open spec fn begin_phase(l: LoaderV, id: int) -> PhaseV {
    match l.builder.arena[id].source {
        SourceV::File { path, .. } => PhaseV::AwaitCanonical {
            layer: id,
            full: if is_absolute_path(path) {
                path
            } else {
                join_path(cwd_of_v(l, id), path)
            },
        },
        SourceV::FileOptional { path, .. } => PhaseV::AwaitCanonical {
            layer: id,
            full: if is_absolute_path(path) {
                path
            } else {
                join_path(cwd_of_v(l, id), path)
            },
        },
        SourceV::StringLiteral { content, format } => if format is Auto {
            PhaseV::Finished { result: Result::Err(ErrorV::AutoFormatFailed) }
        } else {
            PhaseV::AwaitParse { layer: id, format, text: content, child_cwd: cwd_of_v(l, id) }
        },
        SourceV::Environment { .. } => PhaseV::Finished { result: Result::Ok(()) },
        SourceV::Arguments => PhaseV::AwaitArgs { layer: id, child_cwd: cwd_of_v(l, id) },
        SourceV::ArgumentsFrom(_) => PhaseV::AwaitArgs { layer: id, child_cwd: cwd_of_v(l, id) },
    }
}

/// How the pass moves on when no layer is mid-load: the next discovered
/// layer of the current top-level pass; else the next top-level layer,
/// with a fresh visited set; else the pass is over.
pub open spec fn advance_rel(mid: LoaderV, post: LoaderV) -> bool {
    if mid.stack.len() > 0 {
        post == LoaderV {
            stack: mid.stack.drop_last(),
            phase: begin_phase(mid, mid.stack.last()),
            ..mid
        }
    } else if mid.queue.len() > 0 {
        post == LoaderV {
            queue: mid.queue.drop_last(),
            visited: Seq::empty(),
            phase: begin_phase(mid, mid.queue.last()),
            ..mid
        }
    } else {
        post == LoaderV { phase: PhaseV::Finished { result: Result::Ok(()) }, ..mid }
    }
}

/// A loader whose layer `id` has been replaced by `rec`, everything else
/// unchanged.
pub open spec fn with_layer(l: LoaderV, id: int, rec: LayerRecV) -> LoaderV {
    LoaderV {
        builder: BuilderV { arena: l.builder.arena.update(id, rec), ..l.builder },
        ..l
    }
}

/// The record of layer `id` completed with value `value` and no children.
pub open spec fn completed_rec(l: LoaderV, id: int, value: Seq<SlotV>) -> LayerRecV {
    LayerRecV {
        value,
        children: Seq::empty(),
        loaded: true,
        ..l.builder.arena[id]
    }
}

/// The child layers that a freshly loaded value spawns: one `Auto`-format
/// file layer per named path, in discovery order, resolving against
/// `child_cwd`, each remembering its ancestry.
pub open spec fn spawned_children(l: LoaderV, id: int, value: Seq<SlotV>, child_cwd: Seq<char>) -> Seq<
    LayerRecV,
> {
    let paths = lc_slots(l.builder.shape, value);
    Seq::new(
        paths.len(),
        |j: int|
            LayerRecV {
                source: SourceV::File { path: paths[j], format: Format::Auto },
                cwd: Option::Some(child_cwd),
                value: skeleton_slots(l.builder.shape),
                children: Seq::empty(),
                loaded: false,
                parents: seq![l.builder.arena[id].source] + l.builder.arena[id].parents,
            },
    )
}

/// Layer `id` completes with `value`: the paths the value names become
/// fresh child layers at the end of the arena, scheduled depth-first in
/// discovery order, and the pass moves on.
pub open spec fn complete_rel(
    pre: LoaderV,
    id: int,
    value: Seq<SlotV>,
    child_cwd: Seq<char>,
    post: LoaderV,
) -> bool {
    let kids = spawned_children(pre, id, value, child_cwd);
    let n0 = pre.builder.arena.len() as int;
    let ids = Seq::new(kids.len(), |j: int| n0 + j);
    let mid = LoaderV {
        builder: BuilderV {
            arena: pre.builder.arena.update(
                id,
                LayerRecV { value, children: ids, loaded: true, ..pre.builder.arena[id] },
            ) + kids,
            ..pre.builder
        },
        stack: pre.stack + Seq::new(kids.len(), |j: int| n0 + kids.len() - 1 - j),
        ..pre
    };
    advance_rel(mid, post)
}

/// The parse-failure error of a concrete format, wrapping the underlying
/// diagnostic verbatim.
pub open spec fn parse_error(format: Format, message: Seq<char>) -> ErrorV {
    match format {
        Format::Json => ErrorV::JsonError { message },
        Format::Toml => ErrorV::TomlError { message },
        Format::Yaml => ErrorV::YamlError { message },
        Format::Auto => ErrorV::AutoFormatFailed,
    }
}

/// A pass that ends in `err` without touching anything else.
pub open spec fn fail_rel(pre: LoaderV, err: ErrorV, post: LoaderV) -> bool {
    post == LoaderV { phase: PhaseV::Finished { result: Result::Err(err) }, ..pre }
}

/// Which events answer the pending phase; an argument layer must mirror
/// the builder's shape, and a value of its load-config fields must be a
/// string path.
pub open spec fn expects(l: LoaderV, e: EventV) -> bool {
    match l.phase {
        PhaseV::AwaitCanonical { .. } => e is Canonicalized || e is CanonicalizeNotFound
            || e is CanonicalizeFailed,
        PhaseV::AwaitRead { .. } => e is FileRead || e is FileReadNotFound || e is FileReadFailed,
        PhaseV::AwaitParse { .. } => e is Parsed || e is ParseFailed,
        PhaseV::AwaitArgs { .. } => e matches EventV::ArgumentsParsed { layer } && wf_slots(
            layer,
            l.builder.shape,
        ),
        PhaseV::Finished { .. } => false,
    }
}

/// The whole transition relation of one step: given the pending phase and
/// the event that answers it, what the next state is.
pub open spec fn step_rel(pre: LoaderV, e: EventV, post: LoaderV) -> bool {
    match pre.phase {
        PhaseV::AwaitCanonical { layer, full } => {
            let source = pre.builder.arena[layer].source;
            match e {
                EventV::Canonicalized { path } => if pre.visited.contains(path) {
                    fail_rel(
                        pre,
                        ErrorV::LoopingLoadConfig {
                            path,
                            parents: pre.builder.arena[layer].parents,
                        },
                        post,
                    )
                } else {
                    post == LoaderV {
                        visited: pre.visited.push(path),
                        phase: PhaseV::AwaitRead {
                            layer,
                            canon: path,
                            format: source_format(source),
                            child_cwd: dir_of(full),
                        },
                        ..pre
                    }
                },
                EventV::CanonicalizeNotFound => if source is File {
                    fail_rel(pre, ErrorV::FileNotFound { path: full }, post)
                } else {
                    complete_empty_rel(pre, layer, post)
                },
                EventV::CanonicalizeFailed { message } => fail_rel(
                    pre,
                    ErrorV::PathCanonicalization { path: full, message },
                    post,
                ),
                _ => false,
            }
        },
        PhaseV::AwaitRead { layer, canon, format, child_cwd } => {
            let source = pre.builder.arena[layer].source;
            match e {
                EventV::FileRead { text } => match resolve_format_spec(format, canon) {
                    Result::Ok(eff) => post == LoaderV {
                        phase: PhaseV::AwaitParse { layer, format: eff, text, child_cwd },
                        ..pre
                    },
                    Result::Err(extension) => fail_rel(
                        pre,
                        ErrorV::UnknownExtension { extension },
                        post,
                    ),
                },
                EventV::FileReadNotFound => if source is File {
                    fail_rel(pre, ErrorV::FileNotFound { path: canon }, post)
                } else {
                    complete_empty_rel(pre, layer, post)
                },
                EventV::FileReadFailed { message } => fail_rel(
                    pre,
                    ErrorV::IoError { path: canon, message },
                    post,
                ),
                _ => false,
            }
        },
        PhaseV::AwaitParse { layer, format, text, child_cwd } => match e {
            EventV::Parsed { tree } => match tree_to_slots(pre.builder.shape, tree) {
                Result::Ok(value) => complete_rel(pre, layer, value, child_cwd, post),
                Result::Err(name) => fail_rel(pre, parse_error(format, name), post),
            },
            EventV::ParseFailed { message } => fail_rel(pre, parse_error(format, message), post),
            _ => false,
        },
        PhaseV::AwaitArgs { layer, child_cwd } => match e {
            EventV::ArgumentsParsed { layer: value } => complete_rel(
                pre,
                layer,
                value,
                child_cwd,
                post,
            ),
            _ => false,
        },
        PhaseV::Finished { .. } => false,
    }
}

/// An optional file that does not exist contributes the all-absent value,
/// spawns nothing, and the pass moves on without error.
pub open spec fn complete_empty_rel(pre: LoaderV, id: int, post: LoaderV) -> bool {
    advance_rel(
        with_layer(pre, id, completed_rec(pre, id, skeleton_slots(pre.builder.shape))),
        post,
    )
}

/// The declared format of a file source.
pub open spec fn source_format(s: SourceV) -> Format {
    match s {
        SourceV::File { format, .. } => format,
        SourceV::FileOptional { format, .. } => format,
        SourceV::StringLiteral { format, .. } => format,
        _ => Format::Auto,
    }
}

/// The starting state of a pass over `b`: every top-level layer queued in
/// declaration order, nothing mid-load.
pub open spec fn init_state(b: BuilderV, cwd: Seq<char>) -> LoaderV {
    LoaderV {
        builder: b,
        cwd,
        queue: b.top.reverse(),
        stack: Seq::empty(),
        visited: Seq::empty(),
        phase: PhaseV::Finished { result: Result::Ok(()) },
    }
}

/// The model of a pass outcome.
pub open spec fn unit_result_view(r: Result<(), Error>) -> Result<(), ErrorV> {
    match r {
        Result::Ok(u) => Result::Ok(u),
        Result::Err(e) => Result::Err(e@),
    }
}

impl Loader {
    /// The working directory of one layer: its own, or the pass's.
    fn cwd_of(&self, id: usize) -> (r: String)
        requires
            id < self@.builder.arena.len(),
        ensures
            r@ == cwd_of_v(self@, id as int),
    {
        match &self.builder.arena[id].cwd {
            Option::Some(c) => c.clone(),
            Option::None => self.cwd.clone(),
        }
    }

    /// Puts the pass at the start of loading layer `id`.
    fn begin(&mut self, id: usize)
        requires
            builder_wf(old(self)@.builder),
            id < old(self)@.builder.arena.len(),
            !(old(self)@.builder.arena[id as int].source is Environment),
        ensures
            final(self)@ == (LoaderV { phase: begin_phase(old(self)@, id as int), ..old(self)@ }),
    {
        let new_phase: Phase = match &self.builder.arena[id].source {
            Source::File { path, .. } | Source::FileOptional { path, .. } => {
                let full = if crate::paths::is_absolute(path) {
                    path.clone()
                } else {
                    let base = self.cwd_of(id);
                    crate::paths::join(&base, path)
                };
                Phase::AwaitCanonical { layer: id, full }
            },
            Source::StringLiteral { content, format } => match format {
                Format::Auto => Phase::Finished {
                    result: Result::Err(Error::AutoFormatFailed),
                },
                _ => {
                    let text = content.clone();
                    let f = *format;
                    let child_cwd = self.cwd_of(id);
                    Phase::AwaitParse { layer: id, format: f, text, child_cwd }
                },
            },
            Source::Environment { .. } => Phase::Finished { result: Result::Ok(()) },
            Source::Arguments | Source::ArgumentsFrom(_) => {
                let child_cwd = self.cwd_of(id);
                Phase::AwaitArgs { layer: id, child_cwd }
            },
        };
        self.phase = new_phase;
    }

    /// Moves the pass on when no layer is mid-load: the next discovered
    /// layer, else the next top-level layer with a fresh visited set, else
    /// the pass is over.
    fn advance(&mut self)
        requires
            advance_pre(old(self)@),
        ensures
            loader_wf(final(self)@),
            advance_rel(old(self)@, final(self)@),
    {
        let ghost pre = self@;
        if self.stack.len() > 0 {
            let id = match self.stack.pop() {
                Option::Some(id) => id,
                Option::None => {
                    proof {
                        assert(false);
                    }
                    0
                },
            };
            proof {
                assert(usizes_view(self.stack@) =~= usizes_view(old(self).stack@).drop_last());
                assert(id as int == old(self)@.stack.last());
            }
            self.begin(id);
            proof {
                lemma_begin_phase_wf(old(self)@, self@, id as int);
                lemma_pending_after_pop(pre, self@, id as int, true);
            }
        } else if self.queue.len() > 0 {
            let id = match self.queue.pop() {
                Option::Some(id) => id,
                Option::None => {
                    proof {
                        assert(false);
                    }
                    0
                },
            };
            self.visited = Vec::new();
            proof {
                assert(usizes_view(self.queue@) =~= usizes_view(old(self).queue@).drop_last());
                assert(strings_view(self.visited@) =~= Seq::<Seq<char>>::empty());
                assert(id as int == old(self)@.queue.last());
            }
            self.begin(id);
            proof {
                lemma_begin_phase_wf(old(self)@, self@, id as int);
                lemma_pending_after_pop(pre, self@, id as int, false);
            }
        } else {
            self.phase = Phase::Finished { result: Result::Ok(()) };
            proof {
                assert(old(self)@.stack.len() == 0);
                assert(old(self)@.queue.len() == 0);
                assert forall|t: int| 0 <= t < self@.builder.top.len() implies self@.builder.arena[
                    #[trigger] self@.builder.top[t]
                ].loaded by {
                    let x = pre.builder.top[t];
                    if !pre.builder.arena[x].loaded {
                        assert(pending(pre, x));
                        if pre.stack.contains(x) {
                            let j = choose|j: int| 0 <= j < pre.stack.len() && pre.stack[j] == x;
                            assert(false);
                        } else if pre.queue.contains(x) {
                            let j = choose|j: int| 0 <= j < pre.queue.len() && pre.queue[j] == x;
                            assert(false);
                        } else {
                            assert(phase_layer(pre.phase) == Option::Some(x));
                            assert(pre.builder.arena[x].loaded);
                        }
                    }
                }
                assert(tops_covered(self@));
            }
        }
    }

    /// A pass over the layers of `builder`, resolving relative paths of
    /// layers without a working directory of their own against `cwd`.
    /// Every top-level layer is (re)loaded, in declaration order, each with
    /// a fresh visited set.  The reserved `Environment` source is not
    /// loaded and must not appear among the layers.
    pub fn new(builder: Builder, cwd: String) -> (r: Loader)
        requires
            builder_wf(builder@),
            forall|t: int|
                0 <= t < builder@.top.len() ==> !(builder@.arena[
                    #[trigger] builder@.top[t]
                ].source is Environment),
        ensures
            loader_wf(r@),
            advance_rel(init_state(builder@, cwd@), r@),
    {
        let ghost bv = builder@;
        let mut queue: Vec<usize> = Vec::new();
        let n = builder.top.len();
        let mut t = n;
        while t > 0
            invariant
                t <= n,
                n == builder.top@.len(),
                queue.len() == n - t,
                forall|j: int|
                    0 <= j < queue.len() ==> queue@[j] == builder.top@[n - 1 - j],
            decreases t,
        {
            t = t - 1;
            queue.push(builder.top[t]);
        }
        let mut r = Loader {
            builder,
            cwd,
            queue,
            stack: Vec::new(),
            visited: Vec::new(),
            phase: Phase::Finished { result: Result::Ok(()) },
        };
        proof {
            assert(usizes_view(r.queue@) =~= bv.top.reverse());
            assert(usizes_view(r.stack@) =~= Seq::<int>::empty());
            assert(strings_view(r.visited@) =~= Seq::<Seq<char>>::empty());
            assert(r@ == init_state(bv, r.cwd@));
            assert forall|i: int| 0 <= i < r@.queue.len() implies 0 <= #[trigger] r@.queue[i]
                < r@.builder.arena.len() && !(r@.builder.arena[r@.queue[i]].source
                is Environment) by {
                assert(r@.queue[i] == bv.top[bv.top.len() - 1 - i]);
            }
            assert forall|t: int|
                0 <= t < r@.builder.top.len() implies r@.builder.arena[
                #[trigger] r@.builder.top[t]
            ].loaded || pending(r@, r@.builder.top[t]) by {
                let i = bv.top.len() - 1 - t;
                assert(r@.queue[i] == bv.top[t]);
                assert(r@.queue.contains(bv.top[t]));
            }
            assert(phase_layer_loaded(r@));
            assert(advance_pre(r@));
        }
        r.advance();
        r
    }

    /// The piece of outside work the pass needs next; `Done` once the pass
    /// is over.
    pub fn next_action(&self) -> (a: Action)
        requires
            loader_wf(self@),
        ensures
            a@ == action_of(self@),
    {
        match &self.phase {
            Phase::AwaitCanonical { full, .. } => Action::Canonicalize { path: full.clone() },
            Phase::AwaitRead { canon, .. } => Action::ReadFile { path: canon.clone() },
            Phase::AwaitParse { format, text, .. } => Action::Parse {
                format: *format,
                text: text.clone(),
            },
            Phase::AwaitArgs { layer, .. } => match &self.builder.arena[*layer].source {
                Source::ArgumentsFrom(args) => Action::ParseArgumentsFrom {
                    args: crate::error::duplicate_strings(args),
                },
                _ => Action::ParseArguments,
            },
            Phase::Finished { .. } => Action::Done,
        }
    }

    /// Takes the pass apart once it is over: the builder, with every
    /// layer the pass loaded, and the outcome.  After a successful pass
    /// every top-level layer is loaded, as the merge step demands.
    pub fn finish(self) -> (r: (Builder, Result<(), Error>))
        requires
            loader_wf(self@),
            self@.phase is Finished,
        ensures
            r.0@ == self@.builder,
            self@.phase == (PhaseV::Finished { result: unit_result_view(r.1) }),
            r.1 is Ok ==> forall|t: int|
                0 <= t < r.0@.top.len() ==> r.0@.arena[#[trigger] r.0@.top[t]].loaded,
    {
        proof {
            if self@.phase == (PhaseV::Finished { result: Result::<(), ErrorV>::Ok(()) }) {
                assert forall|t: int| 0 <= t < self@.builder.top.len() implies self@.builder.arena[
                    #[trigger] self@.builder.top[t]
                ].loaded by {
                    let x = self@.builder.top[t];
                    if !self@.builder.arena[x].loaded {
                        assert(pending(self@, x));
                        if self@.stack.contains(x) {
                            let j = choose|j: int|
                                0 <= j < self@.stack.len() && self@.stack[j] == x;
                            assert(false);
                        } else if self@.queue.contains(x) {
                            let j = choose|j: int|
                                0 <= j < self@.queue.len() && self@.queue[j] == x;
                            assert(false);
                        }
                    }
                }
            }
        }
        let Loader { builder, phase, .. } = self;
        match phase {
            Phase::Finished { result } => (builder, result),
            _ => {
                proof {
                    assert(false);
                }
                (builder, Result::Ok(()))
            },
        }
    }
}

/// Beginning a layer leaves the phase in agreement with it.
pub proof fn lemma_begin_phase_wf(pre: LoaderV, post: LoaderV, id: int)
    requires
        builder_wf(pre.builder),
        0 <= id < pre.builder.arena.len(),
        !(pre.builder.arena[id].source is Environment),
        post.builder == pre.builder,
        post.phase == begin_phase(pre, id),
    ensures
        phase_wf(post),
{
}

/// Whether a string vector holds a string with this text.
fn contains_string(v: &Vec<String>, s: &String) -> (r: bool)
    ensures
        r == strings_view(v@).contains(s@),
{
    let n = v.len();
    for i in 0..n
        invariant
            n == v.len(),
            forall|j: int| 0 <= j < i ==> strings_view(v@)[j] != s@,
    {
        if v[i] == *s {
            proof {
                assert(strings_view(v@)[i as int] == s@);
            }
            return true;
        }
        proof {
            assert(strings_view(v@)[i as int] == v@[i as int]@);
        }
    }
    proof {
        if strings_view(v@).contains(s@) {
            let j = choose|j: int| 0 <= j < strings_view(v@).len() && strings_view(v@)[j] == s@;
            assert(strings_view(v@)[j] != s@);
        }
    }
    false
}

impl Loader {
    /// Completes layer `id` with the all-absent value and no children, as
    /// an optional file that does not exist, and moves the pass on.
    fn complete_empty(&mut self, id: usize)
        requires
            loader_wf(old(self)@),
            id < old(self)@.builder.arena.len(),
            phase_layer(old(self)@.phase) == Option::Some(id as int),
        ensures
            loader_wf(final(self)@),
            complete_empty_rel(old(self)@, id as int, final(self)@),
    {
        let ghost pre = self@;
        let empty_value = self.builder.shape.skeleton();
        self.builder.arena[id].value = empty_value;
        self.builder.arena[id].children = Vec::new();
        self.builder.arena[id].loaded = true;
        proof {
            let mid = with_layer(pre, id as int, completed_rec(pre, id as int, skeleton_slots(pre.builder.shape)));
            assert(usizes_view(self.builder.arena@[id as int].children@) =~= Seq::<int>::empty());
            assert(self.builder.arena@[id as int]@ == completed_rec(
                pre,
                id as int,
                skeleton_slots(pre.builder.shape),
            ));
            assert(arena_view(self.builder.arena@) =~= mid.builder.arena);
            assert(self@ == mid);
            crate::model::lemma_skeleton_wf(pre.builder.shape);
            assert forall|i: int| 0 <= i < mid.builder.arena.len() implies #[trigger] rec_wf(
                mid.builder,
                i,
            ) by {
                assert(rec_wf(pre.builder, i));
                if i != id as int {
                    assert(mid.builder.arena[i] == pre.builder.arena[i]);
                }
            }
            assert(builder_wf(mid.builder));
            assert(phase_wf(mid));
            assert forall|t: int|
                0 <= t < mid.builder.top.len() implies mid.builder.arena[
                #[trigger] mid.builder.top[t]
            ].loaded || pending(mid, mid.builder.top[t]) by {
                let x = pre.builder.top[t];
                if !pre.builder.arena[x].loaded && x != id as int {
                    assert(pending(pre, x));
                    assert(pending(mid, x));
                }
            }
            assert(tops_covered(mid));
            assert(loader_wf(mid));
            assert(phase_layer(mid.phase) == Option::Some(id as int));
            assert(phase_layer_loaded(mid));
            assert(advance_pre(mid));
        }
        self.advance();
    }

    /// Completes layer `id` with `value`: the paths the value names become
    /// fresh child layers, scheduled depth-first in discovery order, and
    /// the pass moves on.
    fn complete_layer(&mut self, id: usize, value: Partial, child_cwd: String)
        requires
            loader_wf(old(self)@),
            id < old(self)@.builder.arena.len(),
            phase_layer(old(self)@.phase) == Option::Some(id as int),
            wf_slots(value@, old(self)@.builder.shape),
        ensures
            loader_wf(final(self)@),
            complete_rel(old(self)@, id as int, value@, child_cwd@, final(self)@),
    {
        let ghost pre = self@;
        let ghost vv = value@;
        let ghost kids = spawned_children(pre, id as int, vv, child_cwd@);
        let ghost n0 = pre.builder.arena.len() as int;
        let paths = value.load_configs(&self.builder.shape);
        proof {
            assert(strings_view(paths@) == lc_slots(pre.builder.shape, vv));
            assert(strings_view(paths@).len() == paths@.len());
            assert(kids.len() == lc_slots(pre.builder.shape, vv).len());
        }
        let mut kid_parents: Vec<Source> = Vec::new();
        kid_parents.push(self.builder.arena[id].source.duplicate());
        let mut rest = crate::error::duplicate_sources(&self.builder.arena[id].parents);
        kid_parents.append(&mut rest);
        proof {
            assert forall|i: int|
                0 <= i < sources_view(kid_parents@).len() implies sources_view(kid_parents@)[i]
                == (seq![pre.builder.arena[id as int].source] + pre.builder.arena[
                id as int
            ].parents)[i] by {
                assert(sources_view(kid_parents@)[i] == kid_parents@[i]@);
                if i > 0 {
                    assert(kid_parents@[i]@ == sources_view(old(self).builder.arena@[
                        id as int
                    ].parents@)[i - 1]);
                }
            }
            assert(sources_view(kid_parents@) =~= seq![pre.builder.arena[id as int].source]
                + pre.builder.arena[id as int].parents);
        }
        self.builder.arena[id].value = value;
        self.builder.arena[id].loaded = true;
        let ghost rec_mid = (LayerRecV { value: vv, loaded: true, ..pre.builder.arena[id as int] });
        proof {
            assert(arena_view(self.builder.arena@)[id as int] == rec_mid);
            assert forall|i: int| 0 <= i < n0 implies arena_view(self.builder.arena@)[i]
                == rec_mid_or_pre(pre, rec_mid, id as int, i) by {}
        }
        let m = paths.len();
        let mut ids: Vec<usize> = Vec::new();
        for j in 0..m
            invariant
                m == paths.len(),
                strings_view(paths@) == lc_slots(pre.builder.shape, vv),
                kids == spawned_children(pre, id as int, vv, child_cwd@),
                kids.len() == m,
                n0 == pre.builder.arena.len(),
                id < n0,
                ids.len() == j,
                self.builder.arena.len() == n0 + j,
                self.builder.shape@ == pre.builder.shape,
                self@.builder.top == pre.builder.top,
                usizes_view(self.stack@) == pre.stack,
                usizes_view(self.queue@) == pre.queue,
                strings_view(self.visited@) == pre.visited,
                self.phase@ == pre.phase,
                self.cwd@ == pre.cwd,
                sources_view(kid_parents@) == kids_parents_spec(pre, id as int),
                forall|t: int| 0 <= t < j ==> ids@[t] as int == n0 + t,
                forall|i: int|
                    0 <= i < n0 ==> arena_view(self.builder.arena@)[i] == rec_mid_or_pre(
                        pre,
                        rec_mid,
                        id as int,
                        i,
                    ),
                forall|t: int|
                    0 <= t < j ==> arena_view(self.builder.arena@)[n0 + t] == kids[t],
        {
            let kid_id = self.builder.arena.len();
            let src_path = paths[j].clone();
            let kid = LayerRec {
                source: Source::File { path: src_path, format: Format::Auto },
                cwd: Option::Some(child_cwd.clone()),
                value: self.builder.shape.skeleton(),
                children: Vec::new(),
                loaded: false,
                parents: crate::error::duplicate_sources(&kid_parents),
            };
            proof {
                assert(usizes_view(kid.children@) =~= Seq::<int>::empty());
                assert(lc_slots(pre.builder.shape, vv)[j as int] == strings_view(paths@)[
                    j as int
                ]);
                assert(kid@ == kids[j as int]);
            }
            self.builder.arena.push(kid);
            ids.push(kid_id);
            proof {
                assert forall|i: int| 0 <= i < n0 implies arena_view(self.builder.arena@)[i]
                    == rec_mid_or_pre(pre, rec_mid, id as int, i) by {
                    assert(self.builder.arena@[i] == self.builder.arena@.drop_last()[i]);
                }
                assert forall|t: int| 0 <= t <= j implies arena_view(self.builder.arena@)[n0 + t]
                    == kids[t] by {
                    if t < j {
                        assert(self.builder.arena@[n0 + t] == self.builder.arena@.drop_last()[n0
                            + t]);
                    }
                }
            }
        }
        let ghost arena_after = self.builder.arena@;
        let ghost built = self@;
        proof {
            assert forall|i: int| 0 <= i < n0 implies arena_view(arena_after)[i] == rec_mid_or_pre(
                pre,
                rec_mid,
                id as int,
                i,
            ) by {
                assert(arena_view(self.builder.arena@)[i] == rec_mid_or_pre(
                    pre,
                    rec_mid,
                    id as int,
                    i,
                ));
            }
            assert forall|t: int| 0 <= t < m implies arena_view(arena_after)[n0 + t] == kids[t] by {
                assert(arena_view(self.builder.arena@)[n0 + t] == kids[t]);
            }
            assert(arena_after.len() == n0 + m);
        }
        let mut k = m;
        let ghost stack_mid = pre.stack + Seq::new(kids.len(), |j: int| n0 + kids.len() - 1 - j);
        proof {
            assert(pre.stack + Seq::new(0, |j: int| n0 + m - 1 - j) =~= pre.stack);
        }
        while k > 0
            invariant
                k <= m,
                m == ids.len(),
                n0 == pre.builder.arena.len(),
                id < n0,
                self.builder.arena@ == arena_after,
                self@.builder == built.builder,
                usizes_view(self.queue@) == built.queue,
                strings_view(self.visited@) == built.visited,
                self.phase@ == built.phase,
                self.cwd@ == built.cwd,
                forall|t: int| 0 <= t < m ==> ids@[t] as int == n0 + t,
                usizes_view(self.stack@) == pre.stack + Seq::new(
                    (m - k) as nat,
                    |j: int| n0 + m - 1 - j,
                ),
            decreases k,
        {
            k = k - 1;
            let c = ids[k];
            let ghost sbv = self.stack@;
            let ghost stack_before = usizes_view(self.stack@);
            self.stack.push(c);
            proof {
                assert(self.stack@ == sbv.push(c));
                let want = pre.stack + Seq::new((m - k) as nat, |j: int| n0 + m - 1 - j);
                assert(stack_before == usizes_view(sbv));
                assert(stack_before.len() == pre.stack.len() + m - k - 1);
                assert(usizes_view(sbv).len() == sbv.len());
                assert(self.stack@.len() == sbv.len() + 1);
                assert(usizes_view(self.stack@).len() == self.stack@.len());
                assert(want.len() == pre.stack.len() + m - k);
                assert forall|i: int| 0 <= i < want.len() implies usizes_view(self.stack@)[i]
                    == want[i] by {
                    assert(usizes_view(self.stack@)[i] == self.stack@[i] as int);
                    if i < want.len() - 1 {
                        assert(sbv.push(c)[i] == sbv[i]);
                        assert(stack_before[i] == sbv[i] as int);
                        assert(stack_before[i] == (pre.stack + Seq::new(
                            (m - (k + 1)) as nat,
                            |j: int| n0 + m - 1 - j,
                        ))[i]);
                    } else {
                        assert(sbv.push(c)[i] == c);
                        assert(want[i] == n0 + m - 1 - (i - pre.stack.len()));
                        assert(i - pre.stack.len() == m - k - 1);
                        assert(c as int == n0 + k);
                    }
                }
                assert(usizes_view(self.stack@) =~= want);
            }
        }
        proof {
            assert(arena_view(arena_after)[id as int] == rec_mid);
            assert(arena_after[id as int]@ == rec_mid);
        }
        self.builder.arena[id].children = ids;
        proof {
            let idsv = Seq::new(kids.len(), |j: int| n0 + j);
            assert forall|t: int| 0 <= t < kids.len() implies usizes_view(
                self.builder.arena@[id as int].children@,
            )[t] == idsv[t] by {
                assert(self.builder.arena@[id as int].children@[t] == ids@[t]);
            }
            assert(usizes_view(self.builder.arena@[id as int].children@) =~= idsv);
            let final_rec = LayerRecV {
                value: vv,
                children: idsv,
                loaded: true,
                ..pre.builder.arena[id as int]
            };
            assert(self.builder.arena@[id as int].value == arena_after[id as int].value);
            assert(self.builder.arena@[id as int]@ == final_rec);
            let mid = LoaderV {
                builder: BuilderV {
                    arena: pre.builder.arena.update(id as int, final_rec) + kids,
                    ..pre.builder
                },
                stack: stack_mid,
                ..pre
            };
            assert forall|i: int| 0 <= i < mid.builder.arena.len() implies arena_view(
                self.builder.arena@,
            )[i] == mid.builder.arena[i] by {
                if i < n0 && i != id as int {
                    assert(arena_view(self.builder.arena@)[i] == rec_mid_or_pre(
                        pre,
                        rec_mid,
                        id as int,
                        i,
                    ));
                    assert(self.builder.arena@[i]@ == pre.builder.arena[i]);
                } else if i >= n0 {
                    assert(arena_view(self.builder.arena@)[i] == kids[i - n0]);
                }
            }
            assert(arena_view(self.builder.arena@) =~= mid.builder.arena);
            assert(usizes_view(self.stack@) =~= stack_mid);
            assert(self@ == mid);
            crate::model::lemma_skeleton_wf(pre.builder.shape);
            assert forall|i: int| 0 <= i < mid.builder.arena.len() implies #[trigger] rec_wf(
                mid.builder,
                i,
            ) by {
                if i < n0 {
                    assert(rec_wf(pre.builder, i));
                    if i != id as int {
                        assert(mid.builder.arena[i] == pre.builder.arena[i]);
                    } else {
                        assert(mid.builder.arena[i].children == idsv);
                        assert(forall|t: int|
                            0 <= t < idsv.len() ==> i < #[trigger] idsv[t]
                                < mid.builder.arena.len());
                    }
                } else {
                    assert(mid.builder.arena[i] == kids[i - n0]);
                    assert(mid.builder.arena[i].children.len() == 0);
                    assert(mid.builder.arena[i].value == skeleton_slots(pre.builder.shape));
                }
            }
            assert forall|t: int| 0 <= t < mid.builder.top.len() implies 0 <= #[trigger] mid.builder.top[t]
                < mid.builder.arena.len() by {
                assert(0 <= pre.builder.top[t] < pre.builder.arena.len());
            }
            assert(builder_wf(mid.builder));
            assert forall|j: int|
                0 <= j < n0 implies mid.builder.arena[j].source == pre.builder.arena[
                j
            ].source by {
                if j == id as int {
                    assert(mid.builder.arena[j] == final_rec);
                } else {
                    assert(mid.builder.arena[j] == pre.builder.arena[j]);
                }
            }
            assert forall|i: int| 0 <= i < mid.stack.len() implies 0 <= #[trigger] mid.stack[i]
                < mid.builder.arena.len() && !(mid.builder.arena[mid.stack[i]].source
                is Environment) by {
                if i < pre.stack.len() {
                    assert(mid.stack[i] == pre.stack[i]);
                    assert(mid.builder.arena[mid.stack[i]].source == pre.builder.arena[
                        pre.stack[i]
                    ].source);
                } else {
                    assert(mid.stack[i] == n0 + kids.len() - 1 - (i - pre.stack.len()));
                    assert(mid.builder.arena[mid.stack[i]] == kids[mid.stack[i] - n0]);
                }
            }
            assert forall|i: int| 0 <= i < mid.queue.len() implies 0 <= #[trigger] mid.queue[i]
                < mid.builder.arena.len() && !(mid.builder.arena[mid.queue[i]].source
                is Environment) by {
                assert(mid.queue[i] == pre.queue[i]);
                assert(mid.builder.arena[mid.queue[i]].source == pre.builder.arena[
                    pre.queue[i]
                ].source);
            }
            assert(phase_wf(mid));
            assert forall|t: int|
                0 <= t < mid.builder.top.len() implies mid.builder.arena[
                #[trigger] mid.builder.top[t]
            ].loaded || pending(mid, mid.builder.top[t]) by {
                let x = pre.builder.top[t];
                if !pre.builder.arena[x].loaded && x != id as int {
                    assert(pending(pre, x));
                    if pre.stack.contains(x) {
                        let j = choose|j: int| 0 <= j < pre.stack.len() && pre.stack[j] == x;
                        assert(mid.stack[j] == x);
                        assert(mid.stack.contains(x));
                    }
                    assert(pending(mid, x));
                }
            }
            assert(tops_covered(mid));
            assert(loader_wf(mid));
            assert(phase_layer(mid.phase) == Option::Some(id as int));
            assert(phase_layer_loaded(mid));
            assert(advance_pre(mid));
        }
        self.advance();
    }
}

impl Loader {
    /// Applies the outcome of the pending outside work and moves the pass
    /// on, exactly as the transition relation `step_rel` describes: cycle
    /// detection on canonical paths, the optional-file fallback, format
    /// resolution after reading, shape checking of parsed documents, and
    /// the spawning of the nested layers a loaded value names.
    pub fn step(&mut self, event: Event)
        requires
            loader_wf(old(self)@),
            expects(old(self)@, event@),
        ensures
            loader_wf(final(self)@),
            step_rel(old(self)@, event@, final(self)@),
    {
        let ghost pre = self@;
        match &self.phase {
            Phase::AwaitCanonical { layer, full } => {
                let id = *layer;
                let full_c = full.clone();
                let is_required = match &self.builder.arena[id].source {
                    Source::File { .. } => true,
                    _ => false,
                };
                let fmt = match &self.builder.arena[id].source {
                    Source::File { format, .. } => *format,
                    Source::FileOptional { format, .. } => *format,
                    _ => Format::Auto,
                };
                match event {
                    Event::Canonicalized { path } => {
                        if contains_string(&self.visited, &path) {
                            let parents = crate::error::duplicate_sources(
                                &self.builder.arena[id].parents,
                            );
                            self.phase = Phase::Finished {
                                result: Result::Err(Error::LoopingLoadConfig { path, parents }),
                            };
                            proof {
                                assert(self@ == (LoaderV { phase: self@.phase, ..pre }));
                            }
                        } else {
                            let child_cwd = crate::paths::parent_dir(&full_c);
                            self.visited.push(path.clone());
                            proof {
                                assert(strings_view(self.visited@) =~= pre.visited.push(path@));
                            }
                            self.phase = Phase::AwaitRead {
                                layer: id,
                                canon: path,
                                format: fmt,
                                child_cwd,
                            };
                        }
                    },
                    Event::CanonicalizeNotFound => {
                        if is_required {
                            self.phase = Phase::Finished {
                                result: Result::Err(Error::FileNotFound { path: full_c }),
                            };
                        } else {
                            self.complete_empty(id);
                        }
                    },
                    Event::CanonicalizeFailed { message } => {
                        self.phase = Phase::Finished {
                            result: Result::Err(
                                Error::PathCanonicalization { path: full_c, message },
                            ),
                        };
                    },
                    _ => {
                        proof {
                            assert(false);
                        }
                    },
                }
            },
            Phase::AwaitRead { layer, canon, format, child_cwd } => {
                let id = *layer;
                let canon_c = canon.clone();
                let fmt = *format;
                let cc = child_cwd.clone();
                let is_required = match &self.builder.arena[id].source {
                    Source::File { .. } => true,
                    _ => false,
                };
                match event {
                    Event::FileRead { text } => {
                        match crate::format::resolve_format(&fmt, &canon_c) {
                            Result::Ok(eff) => {
                                self.phase = Phase::AwaitParse {
                                    layer: id,
                                    format: eff,
                                    text,
                                    child_cwd: cc,
                                };
                            },
                            Result::Err(e) => {
                                self.phase = Phase::Finished { result: Result::Err(e) };
                            },
                        }
                    },
                    Event::FileReadNotFound => {
                        if is_required {
                            self.phase = Phase::Finished {
                                result: Result::Err(Error::FileNotFound { path: canon_c }),
                            };
                        } else {
                            self.complete_empty(id);
                        }
                    },
                    Event::FileReadFailed { message } => {
                        self.phase = Phase::Finished {
                            result: Result::Err(Error::IoError { path: canon_c, message }),
                        };
                    },
                    _ => {
                        proof {
                            assert(false);
                        }
                    },
                }
            },
            Phase::AwaitParse { layer, format, text: _, child_cwd } => {
                let id = *layer;
                let fmt = *format;
                let cc = child_cwd.clone();
                match event {
                    Event::Parsed { tree } => {
                        match Partial::from_tree(&self.builder.shape, &tree) {
                            Result::Ok(value) => {
                                proof {
                                    crate::model::lemma_fields_from_obj_wf(
                                        pre.builder.shape,
                                        tree@->Obj_0,
                                    );
                                }
                                self.complete_layer(id, value, cc);
                            },
                            Result::Err(name) => {
                                let err = wrap_parse_error(&fmt, name);
                                self.phase = Phase::Finished { result: Result::Err(err) };
                            },
                        }
                    },
                    Event::ParseFailed { message } => {
                        let err = wrap_parse_error(&fmt, message);
                        self.phase = Phase::Finished { result: Result::Err(err) };
                    },
                    _ => {
                        proof {
                            assert(false);
                        }
                    },
                }
            },
            Phase::AwaitArgs { layer, child_cwd } => {
                let id = *layer;
                let cc = child_cwd.clone();
                match event {
                    Event::ArgumentsParsed { layer: value } => {
                        self.complete_layer(id, value, cc);
                    },
                    _ => {
                        proof {
                            assert(false);
                        }
                    },
                }
            },
            Phase::Finished { .. } => {
                proof {
                    assert(false);
                }
            },
        }
    }
}

/// The parse-failure error of a concrete format, carrying the diagnostic.
fn wrap_parse_error(format: &Format, message: String) -> (r: Error)
    ensures
        r@ == parse_error(*format, message@),
{
    match format {
        Format::Json => Error::JsonError { message },
        Format::Toml => Error::TomlError { message },
        Format::Yaml => Error::YamlError { message },
        Format::Auto => Error::AutoFormatFailed,
    }
}

/// The ancestry of the children a layer spawns: the layer's own source,
/// then its ancestors.
pub open spec fn kids_parents_spec(l: LoaderV, id: int) -> Seq<SourceV> {
    seq![l.builder.arena[id].source] + l.builder.arena[id].parents
}

/// Either the partly updated record of the completing layer, or the
/// untouched record of any other layer.
pub open spec fn rec_mid_or_pre(pre: LoaderV, rec_mid: LayerRecV, id: int, i: int) -> LayerRecV {
    if i == id {
        rec_mid
    } else {
        pre.builder.arena[i]
    }
}

/// After popping the next layer off the stack or the queue and beginning
/// it, every top-level layer is still loaded or on its way.
pub proof fn lemma_pending_after_pop(pre: LoaderV, post: LoaderV, id: int, from_stack: bool)
    requires
        advance_pre(pre),
        post.builder == pre.builder,
        from_stack ==> pre.stack.len() > 0 && id == pre.stack.last() && post.stack
            == pre.stack.drop_last() && post.queue == pre.queue,
        !from_stack ==> pre.queue.len() > 0 && id == pre.queue.last() && post.queue
            == pre.queue.drop_last() && post.stack == pre.stack,
        phase_layer(post.phase) == Option::Some(id) || (post.phase matches PhaseV::Finished {
            result: Result::Err(_),
        }),
    ensures
        tops_covered(post),
{
    if !(post.phase matches PhaseV::Finished { result: Result::Err(_) }) {
        assert forall|t: int|
            0 <= t < post.builder.top.len() implies post.builder.arena[
            #[trigger] post.builder.top[t]
        ].loaded || pending(post, post.builder.top[t]) by {
            let x = pre.builder.top[t];
            if !pre.builder.arena[x].loaded {
                assert(pending(pre, x));
                if pre.stack.contains(x) {
                    let j = choose|j: int| 0 <= j < pre.stack.len() && pre.stack[j] == x;
                    if from_stack {
                        if j < pre.stack.len() - 1 {
                            assert(post.stack[j] == x);
                            assert(post.stack.contains(x));
                        } else {
                            assert(x == id);
                        }
                    } else {
                        assert(post.stack.contains(x));
                    }
                } else if pre.queue.contains(x) {
                    let j = choose|j: int| 0 <= j < pre.queue.len() && pre.queue[j] == x;
                    if !from_stack {
                        if j < pre.queue.len() - 1 {
                            assert(post.queue[j] == x);
                            assert(post.queue.contains(x));
                        } else {
                            assert(x == id);
                        }
                    } else {
                        assert(post.queue.contains(x));
                    }
                } else {
                    assert(phase_layer(pre.phase) == Option::Some(x));
                    assert(pre.builder.arena[x].loaded);
                }
            }
        }
    }
}

/// The action that answers a phase: the outside work it waits for.
pub open spec fn action_of(l: LoaderV) -> ActionV {
    match l.phase {
        PhaseV::AwaitCanonical { full, .. } => ActionV::Canonicalize { path: full },
        PhaseV::AwaitRead { canon, .. } => ActionV::ReadFile { path: canon },
        PhaseV::AwaitParse { format, text, .. } => ActionV::Parse { format, text },
        PhaseV::AwaitArgs { layer, .. } => match l.builder.arena[layer].source {
            SourceV::ArgumentsFrom(args) => ActionV::ParseArgumentsFrom { args },
            _ => ActionV::ParseArguments,
        },
        PhaseV::Finished { .. } => ActionV::Done,
    }
}

} // verus!
