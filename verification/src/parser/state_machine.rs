//! The parser state machine: it reads tokens from the scanner and builds the `Yaml` value
//! of a document directly, tracking the YAML 1.2 parametric context as it goes.
use vstd::prelude::*;
use crate::error::{Marker, ScanError};
use crate::events::{Event, TokenType};
use crate::linked_hash_map::LinkedHashMap;
use crate::parser::grammar::{Context, ParametricContext};
use crate::parser::loader::{YamlLoader, reads_any, loads_scalar};
use crate::scanner::{Scanner, Token};
use crate::text::{push_str, push_decimal};
use crate::yaml::{Yaml, yaml_insert};
use crate::debug_render::{yaml_debug, yaml_debug_text};
use crate::parser::node_parser::reported_grew;

verus! {

/// The state that restoring a saved state gives: the last saved one, or `st` when none is
/// saved.
pub open spec fn restored(states: Seq<State>, st: State) -> State {
    if states.len() == 0 { st } else { states.last() }
}

/// The saved states after restoring one.
pub open spec fn restored_stack(states: Seq<State>) -> Seq<State> {
    if states.len() == 0 { states } else { states.drop_last() }
}

/// YAML parsing state machine states
#[derive(Clone, Copy, PartialEq, Debug, Eq, Structural)]
pub enum State {
    StreamStart,
    ImplicitDocumentStart,
    DocumentStart,
    DocumentContent,
    DocumentEnd,
    BlockNode,
    BlockSequenceFirstEntry,
    BlockSequenceEntry,
    IndentlessSequenceEntry,
    BlockMappingFirstKey,
    BlockMappingKey,
    BlockMappingValue,
    FlowSequenceFirstEntry,
    FlowSequenceEntry,
    FlowMappingFirstKey,
    FlowMappingKey,
    FlowMappingValue,
    End,
}

/// A value under construction: a sequence, a mapping with the key waiting for its value,
/// or a finished root scalar.
#[derive(Debug)]
pub enum YamlBuilder {
    Sequence(Vec<Yaml>),
    Mapping(LinkedHashMap<Yaml, Yaml>, Option<Yaml>),
    Scalar(String),
}

/// The URI a tag resolves to: `!!x` in the YAML namespace, `!x` as `x`, any other handle
/// prefixed to the suffix.
pub open spec fn tag_uri(handle: Seq<char>, suffix: Seq<char>) -> Seq<char> {
    if handle == "!!"@ {
        "tag:yaml.org,2002:"@ + suffix
    } else if handle == "!"@ {
        suffix
    } else {
        handle + suffix
    }
}

/// `out` is `y` under the pending tag, if any.
pub open spec fn tagged_with(tag: Option<(String, String)>, y: Yaml, out: Yaml) -> bool {
    match tag {
        None => out == y,
        Some((h, s)) => out matches Yaml::Tagged(u, b) && u@ == tag_uri(h@, s@) && *b == y,
    }
}

/// The builder stack after placing `y`: into the sequence on top, inserted under the
/// waiting key (which is then cleared), as the key of a mapping without one, ignored by a
/// finished scalar, or as a root scalar holding its debug rendering when nothing is open.
pub open spec fn placed(old: Seq<YamlBuilder>, y: Yaml, new: Seq<YamlBuilder>) -> bool {
    if old.len() == 0 {
        new.len() == 1 && (new[0] matches YamlBuilder::Scalar(t) && t@ == yaml_debug(y))
    } else {
        &&& new.len() == old.len()
        &&& new.drop_last() == old.drop_last()
        &&& match old.last() {
            YamlBuilder::Sequence(v) => new.last() matches YamlBuilder::Sequence(w) && w@ == v@.push(y),
            YamlBuilder::Mapping(m, Some(k)) => new.last() matches YamlBuilder::Mapping(m2, None)
                && m2.entries() == yaml_insert(m.entries(), k, y),
            YamlBuilder::Mapping(m, None) => new.last() == YamlBuilder::Mapping(m, Some(y)),
            YamlBuilder::Scalar(_) => new.last() == old.last(),
        }
    }
}

/// The builder stack after pairing `y` with the waiting key of the mapping on top; any
/// other top is left alone.
pub open spec fn paired(old: Seq<YamlBuilder>, y: Yaml, new: Seq<YamlBuilder>) -> bool {
    if old.len() == 0 {
        new == old
    } else {
        match old.last() {
            YamlBuilder::Mapping(m, Some(k)) => {
                &&& new.len() == old.len()
                &&& new.drop_last() == old.drop_last()
                &&& new.last() matches YamlBuilder::Mapping(m2, None) && m2.entries() == yaml_insert(m.entries(), k, y)
            },
            _ => new == old,
        }
    }
}

/// The value a finished builder stands for.
pub open spec fn finalized(b: YamlBuilder, y: Yaml) -> bool {
    match b {
        YamlBuilder::Sequence(items) => y == Yaml::Array(items),
        YamlBuilder::Mapping(map, _) => y == Yaml::Hash(map),
        YamlBuilder::Scalar(s) => y matches Yaml::String(t) && t@ == s@,
    }
}

/// Whether a token may appear in a context: no block entry in flow contexts, no flow
/// collection start in a block key.
pub open spec fn accepts_token(c: Context, t: TokenType) -> bool {
    match c {
        Context::FlowIn | Context::FlowOut => !(t is BlockEntry),
        Context::BlockKey => !(t is FlowSequenceStart || t is FlowMappingStart),
        _ => true,
    }
}

/// The context scope a transition leaves: back from a flow entry or value to a block node,
/// or from a block mapping value to its key.
pub open spec fn leaves_scope(from: State, to: State) -> bool {
    (from == State::FlowSequenceEntry && to == State::BlockNode)
        || (from == State::FlowMappingValue && to == State::BlockNode)
        || (from == State::BlockMappingValue && to == State::BlockMappingKey)
}

/// The name `{:?}` gives a context.
pub open spec fn context_name(c: Context) -> Seq<char> {
    match c {
        Context::BlockIn => "BlockIn"@,
        Context::BlockOut => "BlockOut"@,
        Context::BlockKey => "BlockKey"@,
        Context::FlowIn => "FlowIn"@,
        Context::FlowOut => "FlowOut"@,
        Context::FlowKey => "FlowKey"@,
    }
}

/// State machine parser that builds the Yaml AST directly
pub struct StateMachine<F: Fn(&str) -> Option<String>> {
    pub scanner: Scanner,
    pub states: Vec<State>,
    pub state: State,
    /// Anchor names with their ids, the latest registration of a name winning
    pub anchors: Vec<(String, usize)>,
    pub anchor_id: usize,
    pub indents: Vec<usize>,
    /// The values under construction, innermost last
    pub ast_stack: Vec<YamlBuilder>,
    /// A tag (handle, suffix) waiting for the next value
    pub pending_tag: Option<(String, String)>,
    pub context: ParametricContext,
    /// The nesting depth reached, and its limit
    pub recursion_depth: usize,
    pub max_recursion_depth: usize,
    /// The first key of a block mapping whose start was announced, kept for the key state
    pub first_mapping_key: Option<(Event, Marker)>,
    /// An event read ahead and put back for the next step
    pub current: Option<(Event, Marker)>,
    /// Renders the float a plain scalar spells, if it spells one
    pub float_text: F,
    /// Whether the last run that `parse` finished began at the machine's very start
    pub run: RunRecord,
}

/// What is known of the last run a machine finished; only `parse` records one.
pub struct RunRecord {
    ran_from_start: Ghost<bool>,
    value: Ghost<Yaml>,
}

impl RunRecord {
    /// Whether the last finished run began at a fresh machine.
    pub closed spec fn from_start(&self) -> bool {
        self.ran_from_start@
    }

    /// The value the last finished run returned.
    pub closed spec fn value(&self) -> Yaml {
        self.value@
    }
}

/// An error that a step of the machine raises by its own rules rather than one the
/// scanner reported: a stream not opened by its start, nesting past the depth limit, or a
/// token the context does not allow.
pub open spec fn structural_error(e: ScanError) -> bool {
    ||| e.info@ == "expected stream start"@
    ||| e.info@ == "maximum nesting depth exceeded"@
    ||| e.info@.len() >= 6 && e.info@.subrange(0, 6) == "Token "@
}

/// Where a run stands, as the stall check compares it: the input position, whether a
/// token is waiting, the state, and the depths of the state and builder stacks.
pub open spec fn progress_of<F: Fn(&str) -> Option<String>>(m: &StateMachine<F>) -> (usize, bool, State, usize, usize) {
    (m.scanner.spec_state().spec_mark().index, m.scanner.spec_state().spec_cached() is Some, m.state,
        m.states@.len() as usize, m.spec_ast().len() as usize)
}

/// What one step of the machine does from `a` to `b` with result `r` (`execute_state`).
pub open spec fn step_contract<F: Fn(&str) -> Option<String>>(a: &StateMachine<F>, b: &StateMachine<F>,
    r: Result<(), ScanError>) -> bool {
    &&& b.wf()
    &&& step_error(a, b, r)
    &&& a.state == State::DocumentStart ==> r is Ok && b.state == State::DocumentContent
    &&& a.state == State::FlowMappingFirstKey ==> r is Ok && b.state == State::FlowMappingKey
    &&& a.state == State::End ==> r is Ok && b.state == State::End
    &&& a.state == State::StreamStart ==> (r is Ok ==> b.state == State::DocumentStart)
    &&& a.state == State::DocumentContent ==> (r is Ok <==> a.context.indentation.items().len() < 0x100_0000)
        && (r is Ok ==> b.state == State::BlockNode)
    &&& a.state == State::FlowSequenceFirstEntry ==> (r is Ok <==> a.context.indentation.items().len() < 0x100_0000)
        && (r is Ok ==> b.state == State::FlowSequenceEntry)
}

/// A run ended in `b` with the error `e` because a step from a well-formed state `a` not
/// at its end failed with `e`, or succeeded without moving the run on (a stall).
pub open spec fn failed_step<F: Fn(&str) -> Option<String>>(a: &StateMachine<F>, b: &StateMachine<F>, e: ScanError) -> bool {
    &&& a.wf()
    &&& a.state != State::End
    &&& {
        ||| step_contract(a, b, Err(e))
        ||| e.info@ == "parser made no progress"@ && step_contract(a, b, Ok(())) && b.state != State::End
            && progress_of(a) == progress_of(b)
    }
}

/// The errors a run ends with: one of a failing or stalled step, or the step limit (a
/// machine limit) reached.
pub open spec fn run_error<F: Fn(&str) -> Option<String>>(b: &StateMachine<F>, e: ScanError) -> bool {
    ||| e.info@ == "parser step limit reached"@
    ||| exists|a: StateMachine<F>| #[trigger] failed_step(&a, b, e)
}

/// A machine that has not read anything yet: at the stream's start, with its scanner at
/// the input's start and nothing built or saved.
pub open spec fn fresh_machine<F: Fn(&str) -> Option<String>>(m: &StateMachine<F>) -> bool {
    &&& m.state == State::StreamStart
    &&& m.scanner.spec_state().spec_pos() == 0
    &&& !m.scanner.spec_state().spec_started()
    &&& m.scanner.spec_state().spec_cached() is None
    &&& m.states@.len() == 0
    &&& m.spec_ast().len() == 0
}

/// What a step leaves: the scanner's reports only extended, and an error either the one
/// the scanner reported last or one raised by the machine's own rules.
pub open spec fn step_error<F: Fn(&str) -> Option<String>, T>(old: &StateMachine<F>, new: &StateMachine<F>,
    r: Result<T, ScanError>) -> bool {
    &&& reported_grew(old, new)
    &&& new.scanner.spec_state().spec_source() == old.scanner.spec_state().spec_source()
    &&& r matches Err(e) ==> (new.scanner.spec_reported().len() > old.scanner.spec_reported().len()
        && new.scanner.spec_reported().last() == e) || structural_error(e)
}

/// The id the anchors give a name: that of its latest registration.
pub open spec fn anchor_map(s: Seq<(String, usize)>) -> Map<Seq<char>, usize>
    decreases s.len(),
{
    if s.len() == 0 {
        Map::empty()
    } else {
        anchor_map(s.drop_last()).insert(s.last().0@, s.last().1)
    }
}

/// Entries after `i` do not register `name`, so the map agrees with that of the first `i`.
pub proof fn lemma_anchor_map_prefix(s: Seq<(String, usize)>, name: Seq<char>, i: int)
    requires
        0 <= i <= s.len(),
        forall|j: int| i <= j < s.len() ==> (#[trigger] s[j]).0@ != name,
    ensures
        anchor_map(s).dom().contains(name) == anchor_map(s.take(i)).dom().contains(name),
        anchor_map(s).dom().contains(name) ==> anchor_map(s)[name] == anchor_map(s.take(i))[name],
    decreases s.len() - i,
{
    if i < s.len() {
        assert(s.drop_last().take(i) =~= s.take(i));
        lemma_anchor_map_prefix(s.drop_last(), name, i);
    } else {
        assert(s.take(i) =~= s);
    }
}

impl<F: Fn(&str) -> Option<String>> StateMachine<F> {
    pub open spec fn spec_ast(&self) -> Seq<YamlBuilder> {
        self.ast_stack@
    }

    pub open spec fn spec_pending_tag(&self) -> Option<(String, String)> {
        self.pending_tag
    }

    pub open spec fn spec_float(&self) -> F {
        self.float_text
    }

    /// Whether the last run that `parse` finished began at a fresh machine.
    pub open spec fn spec_ran_from_start(&self) -> bool {
        self.run.from_start()
    }

    /// The scanner and the indentation levels are well formed, anchor ids start at one,
    /// and the float reader can be asked about any text.
    pub open spec fn wf(&self) -> bool {
        &&& self.scanner.wf()
        &&& self.context.indentation.wf()
        &&& self.anchor_id >= 1
        &&& reads_any(self.spec_float())
    }

    /// Everything but the builder stack and the pending tag is as in `old`.
    pub open spec fn same_parse_position(&self, old: &Self) -> bool {
        &&& self.scanner == old.scanner
        &&& self.states == old.states
        &&& self.state == old.state
        &&& self.anchors == old.anchors
        &&& self.anchor_id == old.anchor_id
        &&& self.context == old.context
        &&& self.spec_float() == old.spec_float()
        &&& self.first_mapping_key == old.first_mapping_key
        &&& self.current == old.current
        &&& self.indents == old.indents
    }

    /// A state machine over `src` at the stream start, with no anchors, an empty state and
    /// builder stack, and the block-out context at indentation 0. `float_text` renders the
    /// float a plain scalar spells, or `None` when it spells none.
    pub fn new(src: &str, float_text: F) -> (sm: Self)
        requires
            src@.len() < usize::MAX,
            reads_any(float_text),
        ensures
            sm.wf(),
            sm.scanner.spec_state().spec_source() == src@,
            sm.scanner.spec_state().spec_pos() == 0,
            sm.scanner.spec_reported() == Seq::<ScanError>::empty(),
            sm.state == State::StreamStart,
            sm.states@.len() == 0,
            sm.anchors@.len() == 0,
            sm.anchor_id == 1,
            sm.spec_ast().len() == 0,
            sm.spec_pending_tag() is None,
            sm.context.current_context == Context::BlockOut,
            sm.context.indentation.items() == seq![0usize],
            sm.spec_float() == float_text,
            fresh_machine(&sm),
    {
        StateMachine {
            scanner: Scanner::new(src),
            states: Vec::new(),
            state: State::StreamStart,
            anchors: Vec::new(),
            anchor_id: 1,
            indents: Vec::new(),
            ast_stack: Vec::new(),
            pending_tag: None,
            context: ParametricContext::new(),
            recursion_depth: 0,
            max_recursion_depth: 100,
            first_mapping_key: None,
            current: None,
            float_text,
            run: RunRecord { ran_from_start: Ghost(false), value: Ghost(Yaml::Null) },
        }
    }

    /// Push an indentation level.
    pub fn push_indent(&mut self, indent: usize)
        ensures
            final(self).indents@ == old(self).indents@.push(indent),
            final(self).scanner == old(self).scanner,
            final(self).state == old(self).state,
            final(self).states == old(self).states,
            final(self).context == old(self).context,
            final(self).anchors == old(self).anchors,
            final(self).anchor_id == old(self).anchor_id,
            final(self).spec_ast() == old(self).spec_ast(),
            final(self).spec_pending_tag() == old(self).spec_pending_tag(),
            final(self).spec_float() == old(self).spec_float(),
            final(self).first_mapping_key == old(self).first_mapping_key,
            final(self).current == old(self).current,
    {
        self.indents.push(indent);
    }

    /// Pop an indentation level.
    pub fn pop_indent(&mut self)
        ensures
            final(self).indents@ == if old(self).indents@.len() > 0 { old(self).indents@.drop_last() } else { old(self).indents@ },
            final(self).scanner == old(self).scanner,
            final(self).state == old(self).state,
            final(self).states == old(self).states,
            final(self).context == old(self).context,
            final(self).anchors == old(self).anchors,
            final(self).anchor_id == old(self).anchor_id,
            final(self).spec_ast() == old(self).spec_ast(),
            final(self).spec_pending_tag() == old(self).spec_pending_tag(),
            final(self).spec_float() == old(self).spec_float(),
            final(self).first_mapping_key == old(self).first_mapping_key,
            final(self).current == old(self).current,
    {
        self.indents.pop();
    }

    /// Return to the saved state, leaving the context scope when the transition closes
    /// one; nothing happens when no state is saved.
    pub fn pop_state(&mut self)
        requires
            old(self).wf(),
        ensures
            final(self).wf(),
            final(self).scanner == old(self).scanner,
            final(self).spec_ast() == old(self).spec_ast(),
            final(self).spec_pending_tag() == old(self).spec_pending_tag(),
            final(self).anchors == old(self).anchors,
            final(self).anchor_id == old(self).anchor_id,
            final(self).spec_float() == old(self).spec_float(),
            final(self).indents == old(self).indents,
            final(self).first_mapping_key == old(self).first_mapping_key,
            final(self).current == old(self).current,
            old(self).states@.len() == 0 ==> final(self).state == old(self).state
                && final(self).states@ == old(self).states@ && final(self).context == old(self).context,
            old(self).states@.len() > 0 ==> final(self).state == old(self).states@.last()
                && final(self).states@ == old(self).states@.drop_last(),
            old(self).states@.len() > 0 && !leaves_scope(old(self).state, old(self).states@.last())
                ==> final(self).context == old(self).context,
    {
        if let Some(state) = self.states.pop() {
            if (self.state == State::FlowSequenceEntry && state == State::BlockNode)
                || (self.state == State::FlowMappingValue && state == State::BlockNode)
                || (self.state == State::BlockMappingValue && state == State::BlockMappingKey)
            {
                self.context.pop_context();
            }
            self.state = state;
        }
    }

    /// Save the current state and move to `st`.
    pub fn push_state(&mut self, st: State)
        ensures
            final(self).states@ == old(self).states@.push(old(self).state),
            final(self).state == st,
            final(self).scanner == old(self).scanner,
            final(self).context == old(self).context,
            final(self).spec_ast() == old(self).spec_ast(),
            final(self).spec_pending_tag() == old(self).spec_pending_tag(),
            final(self).anchors == old(self).anchors,
            final(self).anchor_id == old(self).anchor_id,
            final(self).spec_float() == old(self).spec_float(),
            final(self).indents == old(self).indents,
            final(self).first_mapping_key == old(self).first_mapping_key,
            final(self).current == old(self).current,
    {
        self.states.push(self.state);
        self.state = st;
    }

    /// Register an anchor name under the next id, which is returned.
    pub fn register_anchor(&mut self, name: String) -> (id: usize)
        requires
            old(self).anchor_id < usize::MAX,
        ensures
            id == old(self).anchor_id,
            final(self).anchor_id == old(self).anchor_id + 1,
            anchor_map(final(self).anchors@) == anchor_map(old(self).anchors@).insert(name@, id),
            final(self).anchors@ == old(self).anchors@.push((name, id)),
            final(self).scanner == old(self).scanner,
            final(self).state == old(self).state,
            final(self).states == old(self).states,
            final(self).context == old(self).context,
            final(self).spec_ast() == old(self).spec_ast(),
            final(self).spec_pending_tag() == old(self).spec_pending_tag(),
            final(self).spec_float() == old(self).spec_float(),
            final(self).indents == old(self).indents,
            final(self).first_mapping_key == old(self).first_mapping_key,
            final(self).current == old(self).current,
    {
        let new_id = self.anchor_id;
        self.anchor_id = self.anchor_id + 1;
        self.anchors.push((name, new_id));
        proof {
            assert(self.anchors@.drop_last() =~= old(self).anchors@);
        }
        new_id
    }

    /// The id registered for an anchor name, if any.
    pub fn lookup_anchor(&self, name: &str) -> (r: Option<usize>)
        ensures
            r == (if anchor_map(self.anchors@).dom().contains(name@) { Some(anchor_map(self.anchors@)[name@]) } else { None::<usize> }),
    {
        let mut i = self.anchors.len();
        while i > 0
            invariant
                i <= self.anchors@.len(),
                forall|j: int| i <= j < self.anchors@.len() ==> (#[trigger] self.anchors@[j]).0@ != name@,
            decreases i,
        {
            if crate::text::str_eq(self.anchors[i - 1].0.as_str(), name) {
                proof {
                    let s = self.anchors@;
                    lemma_anchor_map_prefix(s, name@, i as int);
                    assert(s.take(i as int).drop_last() =~= s.take(i - 1));
                    assert(s.take(i as int).last() == s[i - 1]);
                }
                return Some(self.anchors[i - 1].1);
            }
            i = i - 1;
        }
        proof {
            let s = self.anchors@;
            lemma_anchor_map_prefix(s, name@, 0);
            assert(s.take(0) =~= Seq::<(String, usize)>::empty());
        }
        None
    }

    /// Whether the parse has reached its end state.
    pub fn at_stream_end(&self) -> (b: bool)
        ensures
            b == (self.state == State::End),
    {
        self.state == State::End
    }

    /// `y` is the value the run that ended in `done` built, taken off its builder stack to
    /// leave `after`: the finished innermost builder, or null when none was left.
    pub open spec fn built_value(done: &Self, y: Yaml, after: &Self) -> bool {
        &&& done.state == State::End
        &&& done.wf()
        &&& if done.spec_ast().len() == 0 {
            y == Yaml::Null && after.spec_ast() == done.spec_ast()
        } else {
            finalized(done.spec_ast().last(), y) && after.spec_ast() == done.spec_ast().drop_last()
        }
    }

    /// The next document: none once the end is reached, else the value the run to the end
    /// builds.
    pub fn parse_next_document(&mut self) -> (r: Result<Option<Yaml>, ScanError>)
        requires
            old(self).wf(),
        ensures
            final(self).wf(),
            old(self).state == State::End ==> r == Ok::<Option<Yaml>, ScanError>(None) && *final(self) == *old(self),
            old(self).state != State::End ==> (r is Ok ==> (r matches Ok(Some(_)) && final(self).state == State::End)),
            r matches Ok(Some(y)) ==> exists|done: StateMachine<F>| #[trigger] final(self).same_parse_position(&done)
                && Self::built_value(&done, y, final(self)),
            reported_grew(old(self), final(self)),
            final(self).scanner.spec_state().spec_source() == old(self).scanner.spec_state().spec_source(),
            r matches Err(e) ==> run_error(final(self), e),
            r matches Ok(Some(_)) ==> (final(self).spec_ran_from_start() <==> fresh_machine(old(self))),
            r matches Ok(Some(y)) ==> final(self).run.value() == y,
    {
        if self.at_stream_end() {
            return Ok(None);
        }
        let doc = self.parse()?;
        Ok(Some(doc))
    }

    /// Run the state machine to its end and return the value built: the finished builder,
    /// or null when nothing was built. A run that stops making progress is an error.
    pub fn parse(&mut self) -> (r: Result<Yaml, ScanError>)
        requires
            old(self).wf(),
        ensures
            final(self).wf(),
            r is Ok ==> final(self).state == State::End,
            reported_grew(old(self), final(self)),
            final(self).scanner.spec_state().spec_source() == old(self).scanner.spec_state().spec_source(),
            r matches Err(e) ==> run_error(final(self), e),
            r is Ok ==> (final(self).spec_ran_from_start() <==> fresh_machine(old(self))),
            r matches Ok(y) ==> final(self).run.value() == y,
            old(self).state == State::End ==> (r matches Ok(y) && (if old(self).spec_ast().len() == 0 { y == Yaml::Null }
                else { finalized(old(self).spec_ast().last(), y) })),
            r matches Ok(y) ==> exists|done: StateMachine<F>| #[trigger] final(self).same_parse_position(&done)
                && Self::built_value(&done, y, final(self)),
    {
        let mut steps: usize = 0;
        while self.state != State::End
            invariant
                self.wf(),
                old(self).state == State::End ==> *self == *old(self),
                reported_grew(old(self), self),
                self.scanner.spec_state().spec_source() == old(self).scanner.spec_state().spec_source(),
            decreases usize::MAX - steps,
        {
            if steps == usize::MAX {
                return Err(ScanError::new(self.scanner.mark(), "parser step limit reached"));
            }
            steps = steps + 1;
            let before = self.progress_mark();
            let ghost a = *self;
            match self.execute_state() {
                Ok(()) => {},
                Err(e) => {
                    assert(failed_step(&a, self, e));
                    return Err(e);
                },
            }
            let after = self.progress_mark();
            if self.state != State::End && after.0 == before.0 && after.1 == before.1 && after.2 == before.2
                && after.3 == before.3 && after.4 == before.4
            {
                let e = ScanError::new(self.scanner.mark(), "parser made no progress");
                assert(failed_step(&a, self, e));
                return Err(e);
            }
        }
        let ghost done = *self;
        let y = self.take_result();
        assert(self.same_parse_position(&done));
        self.run = RunRecord { ran_from_start: Ghost(fresh_machine(old(self))), value: Ghost(y) };
        assert(self.same_parse_position(&done));
        Ok(y)
    }

    /// The value of the innermost builder, taken off the stack, or null when none is left.
    fn take_result(&mut self) -> (y: Yaml)
        requires
            old(self).wf(),
        ensures
            final(self).wf(),
            final(self).same_parse_position(old(self)),
            old(self).spec_ast().len() == 0 ==> y == Yaml::Null && final(self).spec_ast() == old(self).spec_ast(),
            old(self).spec_ast().len() > 0 ==> finalized(old(self).spec_ast().last(), y)
                && final(self).spec_ast() == old(self).spec_ast().drop_last(),
    {
        match self.ast_stack.pop() {
            Some(builder) => self.finalize_builder(builder),
            None => Yaml::Null,
        }
    }

    /// Where the parse stands: the input position, whether a token is waiting, the state,
    /// and the depths of the state and builder stacks.
    fn progress_mark(&self) -> (m: (usize, bool, State, usize, usize))
        ensures
            m == (self.scanner.spec_state().spec_mark().index, self.scanner.spec_state().spec_cached() is Some,
                self.state, self.states@.len() as usize, self.spec_ast().len() as usize),
    {
        (self.scanner.mark().index, self.scanner.token_waiting(), self.state, self.states.len(), self.ast_stack.len())
    }

    /// Execute a single state transition
    pub fn execute_state(&mut self) -> (r: Result<(), ScanError>)
        requires
            old(self).wf(),
        ensures
            final(self).wf(),
            step_error(old(self), final(self), r),
            step_contract(old(self), final(self), r),
    {
        match self.state {
            State::StreamStart => self.handle_stream_start(),
            State::DocumentStart => self.handle_document_start(),
            State::DocumentContent => self.handle_document_content(),
            State::BlockNode => self.handle_block_node(),
            State::BlockSequenceFirstEntry => self.handle_block_sequence_first_entry(),
            State::BlockSequenceEntry => self.handle_block_sequence_entry(),
            State::BlockMappingFirstKey => self.handle_block_mapping_first_key(),
            State::BlockMappingKey => self.handle_block_mapping_key(),
            State::BlockMappingValue => self.handle_block_mapping_value(),
            State::FlowSequenceFirstEntry => self.handle_flow_sequence_first_entry(),
            State::FlowSequenceEntry => self.handle_flow_sequence_entry(),
            State::FlowMappingFirstKey => self.handle_flow_mapping_first_key(),
            State::FlowMappingKey => self.handle_flow_mapping_key(),
            State::FlowMappingValue => self.handle_flow_mapping_value(),
            _ => {
                self.state = State::End;
                Ok(())
            },
        }
    }

    /// The stream start token moves to the document start; any other token is an error.
    fn handle_stream_start(&mut self) -> (r: Result<(), ScanError>)
        requires
            old(self).wf(),
        ensures
            final(self).wf(),
            step_error(old(self), final(self), r),
            r is Ok ==> final(self).state == State::DocumentStart,
            old(self).scanner.spec_state().spec_cached() matches Some(t)
                ==> (r is Ok <==> t.1 is StreamStart),
            old(self).scanner.spec_state().spec_cached() is None && !old(self).scanner.spec_state().spec_started()
                ==> r is Ok,
    {
        let token = self.scanner.peek_token()?;
        match &token.1 {
            TokenType::StreamStart(_) => {
                self.scanner.fetch_token();
                self.state = State::DocumentStart;
                Ok(())
            },
            _ => Err(ScanError::new(token.0, "expected stream start")),
        }
    }

    fn handle_document_start(&mut self) -> (r: Result<(), ScanError>)
        requires
            old(self).wf(),
        ensures
            final(self).wf(),
            step_error(old(self), final(self), r),
            r is Ok && final(self).state == State::DocumentContent,
    {
        self.state = State::DocumentContent;
        Ok(())
    }

    /// Document content starts at indent 0 in the BLOCK-OUT context.
    fn handle_document_content(&mut self) -> (r: Result<(), ScanError>)
        requires
            old(self).wf(),
        ensures
            final(self).wf(),
            step_error(old(self), final(self), r),
            r is Ok ==> final(self).state == State::BlockNode
                && final(self).context.current_context == Context::BlockOut,
            r is Ok <==> old(self).context.indentation.items().len() < 0x100_0000,
    {
        self.enter_context(Context::BlockOut, 0)?;
        self.state = State::BlockNode;
        Ok(())
    }

    /// Enter a context at an indentation; an error once the levels cannot grow further.
    fn enter_context(&mut self, c: Context, indent: i32) -> (r: Result<(), ScanError>)
        requires
            old(self).wf(),
        ensures
            final(self).wf(),
            final(self).scanner == old(self).scanner,
            final(self).state == old(self).state,
            final(self).states == old(self).states,
            final(self).spec_ast() == old(self).spec_ast(),
            final(self).spec_pending_tag() == old(self).spec_pending_tag(),
            final(self).anchors == old(self).anchors,
            r is Ok ==> final(self).context.current_context == c
                && final(self).context.indentation.items() == old(self).context.indentation.items().push(indent as usize),
            r is Ok <==> old(self).context.indentation.items().len() < 0x100_0000,
            r is Err ==> *final(self) == *old(self),
            r matches Err(e) ==> e.info@ == "maximum nesting depth exceeded"@,
    {
        if self.context.indentation.level_count() >= 0x100_0000 {
            return Err(ScanError::new(self.scanner.mark(), "maximum nesting depth exceeded"));
        }
        self.context.push_context(c, indent);
        Ok(())
    }

    /// The measure that a token consumed from the scanner decreases.
    pub open spec fn input_left(&self) -> int {
        self.scanner.spec_state().spec_source().len() - self.scanner.spec_state().spec_pos()
            + if self.scanner.spec_state().spec_cached() is Some { 1int } else { 0int }
    }

    /// A block node: a scalar (a mapping key when a `:` follows), a block sequence, an
    /// explicit key, a flow collection, or an empty node; tags before it are kept for it.
    fn handle_block_node(&mut self) -> (r: Result<(), ScanError>)
        requires
            old(self).wf(),
        ensures
            final(self).wf(),
            step_error(old(self), final(self), r),
            old(self).scanner.spec_state().spec_cached() matches Some(t) ==> (!accepts_token(old(self).context.current_context, t.1) ==> r is Err)
                && (accepts_token(old(self).context.current_context, t.1) && !(t.1 is Scalar) && !(t.1 is Tag) ==> r is Ok)
                && (r is Ok ==> match t.1 {
                    TokenType::BlockEntry => final(self).state == State::BlockSequenceFirstEntry,
                    TokenType::Key => final(self).state == State::BlockMappingFirstKey,
                    TokenType::FlowSequenceStart => final(self).state == State::FlowSequenceFirstEntry,
                    TokenType::FlowMappingStart => final(self).state == State::FlowMappingFirstKey,
                    TokenType::Scalar(..) | TokenType::Tag(..) => true,
                    _ => final(self).state == restored(old(self).states@, old(self).state)
                        && final(self).states@ == restored_stack(old(self).states@),
                }),
    {
        let ghost mut first = true;
        loop
            invariant
                self.wf(),
                first ==> *self == *old(self),
                !first ==> (old(self).scanner.spec_state().spec_cached() matches Some(t) ==> t.1 is Tag),
                self.scanner.spec_reported() == old(self).scanner.spec_reported(),
                self.scanner.spec_state().spec_source() == old(self).scanner.spec_state().spec_source(),
            decreases self.input_left(),
        {
            let ghost before = self.input_left();
            let token = self.scanner.peek_token()?;
            if !self.can_accept_token(&token.1) {
                let mut msg = String::new();
                push_str(&mut msg, "Token ");
                push_str(&mut msg, rejected_token_name(&token.1));
                push_str(&mut msg, " not allowed in ");
                push_str(&mut msg, context_text(self.context.current_context));
                push_str(&mut msg, " context");
                proof {
                    reveal_strlit("Token ");
                    assert(msg@.subrange(0, 6) =~= "Token "@);
                }
                return Err(ScanError::new(token.0, msg.as_str()));
            }
            match &token.1 {
                TokenType::Scalar(_, value) => {
                    self.scanner.fetch_token();
                    let next_token = self.scanner.peek_token()?;
                    if matches!(next_token.1, TokenType::Value) {
                        let key = YamlLoader::parse_scalar_direct(value.as_str(), &self.float_text);
                        self.ast_stack.push(YamlBuilder::Mapping(LinkedHashMap::new(), Some(key)));
                        self.state = State::BlockMappingValue;
                        return Ok(());
                    } else {
                        let yaml = YamlLoader::parse_scalar_direct(value.as_str(), &self.float_text);
                        self.push_yaml(yaml);
                        self.pop_state();
                        return Ok(());
                    }
                },
                TokenType::BlockEntry => {
                    self.scanner.fetch_token();
                    self.ast_stack.push(YamlBuilder::Sequence(Vec::new()));
                    self.state = State::BlockSequenceFirstEntry;
                    return Ok(());
                },
                TokenType::Key => {
                    self.scanner.fetch_token();
                    self.ast_stack.push(YamlBuilder::Mapping(LinkedHashMap::new(), None));
                    self.state = State::BlockMappingFirstKey;
                    return Ok(());
                },
                TokenType::FlowSequenceStart => {
                    self.scanner.fetch_token();
                    self.ast_stack.push(YamlBuilder::Sequence(Vec::new()));
                    self.state = State::FlowSequenceFirstEntry;
                    return Ok(());
                },
                TokenType::FlowMappingStart => {
                    self.scanner.fetch_token();
                    self.ast_stack.push(YamlBuilder::Mapping(LinkedHashMap::new(), None));
                    self.state = State::FlowMappingFirstKey;
                    return Ok(());
                },
                TokenType::Tag(handle, suffix) => {
                    self.pending_tag = Some((handle.clone(), suffix.clone()));
                    self.scanner.fetch_token();
                    assert(self.input_left() < before);
                    proof { first = false; }
                },
                _ => {
                    self.push_yaml(Yaml::Null);
                    self.pop_state();
                    return Ok(());
                },
            }
        }
    }

    /// The first entry of a block sequence, whose `-` was consumed: its content.
    fn handle_block_sequence_first_entry(&mut self) -> (r: Result<(), ScanError>)
        requires
            old(self).wf(),
        ensures
            final(self).wf(),
            step_error(old(self), final(self), r),
    {
        self.state = State::BlockSequenceEntry;
        self.handle_sequence_content()
    }

    /// A further `-` entry of a block sequence, or else the sequence's end: the built
    /// array is placed and the saved state restored.
    fn handle_block_sequence_entry(&mut self) -> (r: Result<(), ScanError>)
        requires
            old(self).wf(),
        ensures
            final(self).wf(),
            step_error(old(self), final(self), r),
            old(self).scanner.spec_state().spec_cached() matches Some(t) ==> match t.1 {
                TokenType::BlockEntry => r is Ok ==> (final(self).state == old(self).state && final(self).states@ == old(self).states@)
                    || (final(self).state == State::BlockNode && final(self).states@ == old(self).states@.push(old(self).state)),
                _ => r is Ok && final(self).state == restored(old(self).states@, old(self).state)
                    && final(self).states@ == restored_stack(old(self).states@),
            },
    {
        let token = self.scanner.peek_token()?;
        match &token.1 {
            TokenType::BlockEntry => {
                self.scanner.fetch_token();
                self.handle_sequence_content()
            },
            _ => {
                if let Some(YamlBuilder::Sequence(items)) = self.ast_stack.pop() {
                    self.push_yaml(Yaml::Array(items));
                }
                self.pop_state();
                Ok(())
            },
        }
    }

    /// The content of a block sequence entry: a scalar item, a nested collection (through
    /// a saved state), or a null item.
    fn handle_sequence_content(&mut self) -> (r: Result<(), ScanError>)
        requires
            old(self).wf(),
        ensures
            final(self).wf(),
            step_error(old(self), final(self), r),
            r is Ok ==> (final(self).state == old(self).state && final(self).states@ == old(self).states@)
                || (final(self).state == State::BlockNode && final(self).states@ == old(self).states@.push(old(self).state)),
            old(self).scanner.spec_state().spec_cached() matches Some(t) ==> r is Ok && match t.1 {
                TokenType::BlockEntry | TokenType::Key | TokenType::FlowSequenceStart | TokenType::FlowMappingStart =>
                    final(self).state == State::BlockNode && final(self).states@ == old(self).states@.push(old(self).state),
                _ => final(self).state == old(self).state && final(self).states@ == old(self).states@,
            },
    {
        let token = self.scanner.peek_token()?;
        match &token.1 {
            TokenType::Scalar(_, value) => {
                self.scanner.fetch_token();
                let yaml = YamlLoader::parse_scalar_direct(value.as_str(), &self.float_text);
                self.push_to_sequence(yaml);
                Ok(())
            },
            TokenType::BlockEntry | TokenType::Key | TokenType::FlowSequenceStart | TokenType::FlowMappingStart => {
                self.push_state(State::BlockSequenceEntry);
                self.state = State::BlockNode;
                Ok(())
            },
            _ => {
                self.push_to_sequence(Yaml::Null);
                Ok(())
            },
        }
    }

    /// Append an item to the sequence on top of the builder stack, if one is there.
    fn push_to_sequence(&mut self, yaml: Yaml)
        requires
            old(self).wf(),
        ensures
            final(self).wf(),
            final(self).same_parse_position(old(self)),
            final(self).spec_pending_tag() == old(self).spec_pending_tag(),
            ({
                let s = old(self).spec_ast();
                if s.len() == 0 {
                    final(self).spec_ast() == s
                } else {
                    match s.last() {
                        YamlBuilder::Sequence(v) => {
                            &&& final(self).spec_ast().len() == s.len()
                            &&& final(self).spec_ast().drop_last() == s.drop_last()
                            &&& final(self).spec_ast().last() matches YamlBuilder::Sequence(w) && w@ == v@.push(yaml)
                        },
                        _ => final(self).spec_ast() == s,
                    }
                }
            }),
    {
        let n = self.ast_stack.len();
        if n > 0 {
            let top = self.ast_stack.pop().unwrap();
            match top {
                YamlBuilder::Sequence(mut items) => {
                    items.push(yaml);
                    self.ast_stack.push(YamlBuilder::Sequence(items));
                },
                other => {
                    self.ast_stack.push(other);
                },
            }
            proof {
                assert(self.spec_ast().drop_last() =~= old(self).spec_ast().drop_last());
                assert(old(self).spec_ast() =~= old(self).spec_ast().drop_last().push(old(self).spec_ast().last()));
            }
        }
    }

    /// The first key of a block mapping: enter BLOCK-KEY at one more than the current
    /// indentation, then read the key.
    fn handle_block_mapping_first_key(&mut self) -> (r: Result<(), ScanError>)
        requires
            old(self).wf(),
        ensures
            final(self).wf(),
            step_error(old(self), final(self), r),
            old(self).context.indentation.items().last() as i32 == i32::MAX
                || old(self).context.indentation.items().len() >= 0x100_0000 ==> r is Err,
            r is Ok ==> final(self).state == State::BlockMappingValue
                || final(self).state == (if old(self).states@.len() == 0 { State::End } else { old(self).states@.last() }),
            old(self).scanner.spec_state().spec_cached() matches Some(t) ==> (old(self).context.indentation.items().last() as i32 != i32::MAX
                && old(self).context.indentation.items().len() < 0x100_0000
                ==> r is Ok && (t.1 is Scalar ==> final(self).state == State::BlockMappingValue)),
    {
        let n = self.context.current_indent();
        if n == i32::MAX {
            return Err(ScanError::new(self.scanner.mark(), "maximum nesting depth exceeded"));
        }
        self.enter_context(Context::BlockKey, n + 1)?;
        self.state = State::BlockMappingKey;
        self.handle_mapping_key()
    }

    fn handle_block_mapping_key(&mut self) -> (r: Result<(), ScanError>)
        requires
            old(self).wf(),
        ensures
            final(self).wf(),
            step_error(old(self), final(self), r),
    {
        self.handle_mapping_key()
    }

    /// A scalar key waits for its value; anything else ends the mapping: the built hash is
    /// placed, and the saved state restored (or the parse ends at the root).
    fn handle_mapping_key(&mut self) -> (r: Result<(), ScanError>)
        requires
            old(self).wf(),
        ensures
            final(self).wf(),
            step_error(old(self), final(self), r),
            r is Ok ==> final(self).state == State::BlockMappingValue
                || final(self).state == (if old(self).states@.len() == 0 { State::End } else { old(self).states@.last() }),
            old(self).scanner.spec_state().spec_cached() matches Some(t) ==> r is Ok && match t.1 {
                TokenType::Scalar(..) => final(self).state == State::BlockMappingValue && final(self).states@ == old(self).states@,
                _ => final(self).state == (if old(self).states@.len() == 0 { State::End } else { old(self).states@.last() })
                    && final(self).states@ == restored_stack(old(self).states@),
            },
    {
        let token = self.scanner.peek_token()?;
        match &token.1 {
            TokenType::Scalar(_, value) => {
                self.scanner.fetch_token();
                let key = YamlLoader::parse_scalar_direct(value.as_str(), &self.float_text);
                self.set_current_key(key);
                self.state = State::BlockMappingValue;
                Ok(())
            },
            _ => {
                if let Some(YamlBuilder::Mapping(map, _)) = self.ast_stack.pop() {
                    self.push_yaml(Yaml::Hash(map));
                }
                if self.states.len() == 0 {
                    self.state = State::End;
                } else {
                    self.pop_state();
                }
                Ok(())
            },
        }
    }

    /// Make `key` the waiting key of the mapping on top, if one is there.
    fn set_current_key(&mut self, key: Yaml)
        requires
            old(self).wf(),
        ensures
            final(self).wf(),
            final(self).same_parse_position(old(self)),
            final(self).spec_pending_tag() == old(self).spec_pending_tag(),
            ({
                let s = old(self).spec_ast();
                if s.len() == 0 {
                    final(self).spec_ast() == s
                } else {
                    match s.last() {
                        YamlBuilder::Mapping(m, _) => final(self).spec_ast() == s.drop_last().push(YamlBuilder::Mapping(m, Some(key))),
                        _ => final(self).spec_ast() == s,
                    }
                }
            }),
    {
        let n = self.ast_stack.len();
        if n > 0 {
            let top = self.ast_stack.pop().unwrap();
            match top {
                YamlBuilder::Mapping(map, _) => {
                    self.ast_stack.push(YamlBuilder::Mapping(map, Some(key)));
                },
                other => {
                    self.ast_stack.push(other);
                },
            }
            proof {
                assert(old(self).spec_ast() =~= old(self).spec_ast().drop_last().push(old(self).spec_ast().last()));
            }
        }
    }

    /// After a key: `:` then the value in BLOCK-IN two columns deeper (a scalar pairs at
    /// once, anything else through a saved state); without `:` the key gets null.
    fn handle_block_mapping_value(&mut self) -> (r: Result<(), ScanError>)
        requires
            old(self).wf(),
        ensures
            final(self).wf(),
            step_error(old(self), final(self), r),
            r is Ok ==> (final(self).state == State::BlockMappingKey && final(self).states@ == old(self).states@)
                || (final(self).state == State::BlockNode && final(self).states@ == old(self).states@.push(old(self).state)),
            old(self).scanner.spec_state().spec_cached() matches Some(t) && !(t.1 is Value) ==> r is Ok && final(self).state == State::BlockMappingKey
                && final(self).states@ == old(self).states@,
    {
        let token = self.scanner.peek_token()?;
        match &token.1 {
            TokenType::Value => {
                self.scanner.fetch_token();
                let n = self.context.current_indent();
                if n > i32::MAX - 2 {
                    return Err(ScanError::new(self.scanner.mark(), "maximum nesting depth exceeded"));
                }
                self.enter_context(Context::BlockIn, n + 2)?;
                loop
                    invariant
                        self.wf(),
                        self.state == old(self).state,
                        self.states@ == old(self).states@,
                        old(self).scanner.spec_state().spec_cached() matches Some(t) ==> t.1 is Value,
                        self.scanner.spec_reported() == old(self).scanner.spec_reported(),
                        self.scanner.spec_state().spec_source() == old(self).scanner.spec_state().spec_source(),
                    decreases self.input_left(),
                {
                    let ghost before = self.input_left();
                    let value_token = self.scanner.peek_token()?;
                    match &value_token.1 {
                        TokenType::Tag(handle, suffix) => {
                            self.pending_tag = Some((handle.clone(), suffix.clone()));
                            self.scanner.fetch_token();
                            assert(self.input_left() < before);
                        },
                        TokenType::Scalar(_, value) => {
                            self.scanner.fetch_token();
                            let yaml_value = YamlLoader::parse_scalar_direct(value.as_str(), &self.float_text);
                            self.add_mapping_pair(yaml_value);
                            self.state = State::BlockMappingKey;
                            return Ok(());
                        },
                        _ => {
                            self.push_state(State::BlockMappingKey);
                            self.state = State::BlockNode;
                            return Ok(());
                        },
                    }
                }
            },
            _ => {
                self.add_mapping_pair(Yaml::Null);
                self.state = State::BlockMappingKey;
                Ok(())
            },
        }
    }

    /// A flow sequence enters FLOW-IN at the current indentation.
    fn handle_flow_sequence_first_entry(&mut self) -> (r: Result<(), ScanError>)
        requires
            old(self).wf(),
        ensures
            final(self).wf(),
            step_error(old(self), final(self), r),
            r is Ok ==> final(self).state == State::FlowSequenceEntry,
            r is Ok <==> old(self).context.indentation.items().len() < 0x100_0000,
    {
        let current_indent = self.context.current_indent();
        self.enter_context(Context::FlowIn, current_indent)?;
        self.state = State::FlowSequenceEntry;
        Ok(())
    }

    /// In a flow sequence: `]` ends it (the array is placed and the saved state restored),
    /// `,` is skipped, a scalar is appended; other tokens are left.
    fn handle_flow_sequence_entry(&mut self) -> (r: Result<(), ScanError>)
        requires
            old(self).wf(),
        ensures
            final(self).wf(),
            step_error(old(self), final(self), r),
            old(self).scanner.spec_state().spec_cached() matches Some(t) ==> r is Ok && match t.1 {
                TokenType::FlowSequenceEnd => final(self).state == restored(old(self).states@, old(self).state)
                    && final(self).states@ == restored_stack(old(self).states@),
                TokenType::FlowEntry | TokenType::Scalar(..) => final(self).state == old(self).state
                    && final(self).states@ == old(self).states@ && final(self).scanner.spec_state().spec_cached() is None,
                _ => *final(self) == *old(self),
            },
    {
        let token = self.scanner.peek_token()?;
        match &token.1 {
            TokenType::FlowSequenceEnd => {
                self.scanner.fetch_token();
                if let Some(YamlBuilder::Sequence(items)) = self.ast_stack.pop() {
                    self.push_yaml(Yaml::Array(items));
                }
                self.pop_state();
                Ok(())
            },
            TokenType::FlowEntry => {
                self.scanner.fetch_token();
                Ok(())
            },
            TokenType::Scalar(_, value) => {
                self.scanner.fetch_token();
                let yaml = YamlLoader::parse_scalar_direct(value.as_str(), &self.float_text);
                self.push_to_sequence(yaml);
                Ok(())
            },
            _ => Ok(()),
        }
    }

    fn handle_flow_mapping_first_key(&mut self) -> (r: Result<(), ScanError>)
        requires
            old(self).wf(),
        ensures
            final(self).wf(),
            step_error(old(self), final(self), r),
            r is Ok && final(self).state == State::FlowMappingKey,
    {
        self.state = State::FlowMappingKey;
        Ok(())
    }

    /// In a flow mapping: `}` ends it (the hash is placed and the saved state restored), a
    /// scalar becomes the waiting key; other tokens are left.
    fn handle_flow_mapping_key(&mut self) -> (r: Result<(), ScanError>)
        requires
            old(self).wf(),
        ensures
            final(self).wf(),
            step_error(old(self), final(self), r),
            old(self).scanner.spec_state().spec_cached() matches Some(t) ==> r is Ok && match t.1 {
                TokenType::FlowMappingEnd => final(self).state == restored(old(self).states@, old(self).state)
                    && final(self).states@ == restored_stack(old(self).states@),
                TokenType::Scalar(..) => final(self).state == State::FlowMappingValue && final(self).states@ == old(self).states@,
                _ => *final(self) == *old(self),
            },
    {
        let token = self.scanner.peek_token()?;
        match &token.1 {
            TokenType::FlowMappingEnd => {
                self.scanner.fetch_token();
                if let Some(YamlBuilder::Mapping(map, _)) = self.ast_stack.pop() {
                    self.push_yaml(Yaml::Hash(map));
                }
                self.pop_state();
                Ok(())
            },
            TokenType::Scalar(_, value) => {
                self.scanner.fetch_token();
                let key = YamlLoader::parse_scalar_direct(value.as_str(), &self.float_text);
                self.set_current_key(key);
                self.state = State::FlowMappingValue;
                Ok(())
            },
            _ => Ok(()),
        }
    }

    /// In a flow mapping after a key: `:` and a scalar pair with the key; other tokens are
    /// left.
    fn handle_flow_mapping_value(&mut self) -> (r: Result<(), ScanError>)
        requires
            old(self).wf(),
        ensures
            final(self).wf(),
            step_error(old(self), final(self), r),
            r is Ok ==> final(self).state == old(self).state || final(self).state == State::FlowMappingKey,
            old(self).scanner.spec_state().spec_cached() matches Some(t) && !(t.1 is Value) ==> r is Ok && *final(self) == *old(self),
    {
        let token = self.scanner.peek_token()?;
        match &token.1 {
            TokenType::Value => {
                self.scanner.fetch_token();
                let value_token = self.scanner.peek_token()?;
                match &value_token.1 {
                    TokenType::Scalar(_, value) => {
                        self.scanner.fetch_token();
                        let yaml_value = YamlLoader::parse_scalar_direct(value.as_str(), &self.float_text);
                        self.add_mapping_pair(yaml_value);
                        self.state = State::FlowMappingKey;
                        Ok(())
                    },
                    _ => Ok(()),
                }
            },
            _ => Ok(()),
        }
    }

    /// The pending tag applied to a value, the tag then cleared.
    fn apply_pending_tag(&mut self, value: Yaml) -> (out: Yaml)
        requires
            old(self).wf(),
        ensures
            final(self).wf(),
            final(self).same_parse_position(old(self)),
            final(self).spec_ast() == old(self).spec_ast(),
            final(self).spec_pending_tag() is None,
            tagged_with(old(self).spec_pending_tag(), value, out),
    {
        match self.pending_tag.take() {
            Some((handle, suffix)) => {
                let tag = tag_uri_text(handle.as_str(), suffix);
                Yaml::Tagged(tag, Box::new(value))
            },
            None => value,
        }
    }

    /// Pair a value, under the pending tag, with the waiting key of the mapping on top.
    fn add_mapping_pair(&mut self, value: Yaml)
        requires
            old(self).wf(),
        ensures
            final(self).wf(),
            final(self).same_parse_position(old(self)),
            final(self).spec_pending_tag() is None,
            exists|out: Yaml| tagged_with(old(self).spec_pending_tag(), value, out)
                && paired(old(self).spec_ast(), out, final(self).spec_ast()),
    {
        let value = self.apply_pending_tag(value);
        let ghost s = self.spec_ast();
        let n = self.ast_stack.len();
        if n > 0 {
            let top = self.ast_stack.pop().unwrap();
            match top {
                YamlBuilder::Mapping(mut map, Some(key)) => {
                    proof { crate::parser::loader::lemma_yaml_insert(map.entries(), key, value); }
                    map.insert(key, value);
                    self.ast_stack.push(YamlBuilder::Mapping(map, None));
                },
                other => {
                    self.ast_stack.push(other);
                },
            }
            proof {
                assert(s =~= s.drop_last().push(s.last()));
                assert(self.spec_ast().drop_last() =~= s.drop_last());
            }
        }
        assert(paired(s, value, self.spec_ast()));
    }

    /// Place a value, under the pending tag, into the builder stack (see `placed`).
    fn push_yaml(&mut self, yaml: Yaml)
        requires
            old(self).wf(),
        ensures
            final(self).wf(),
            final(self).same_parse_position(old(self)),
            final(self).spec_pending_tag() is None,
            exists|out: Yaml| tagged_with(old(self).spec_pending_tag(), yaml, out)
                && placed(old(self).spec_ast(), out, final(self).spec_ast()),
    {
        let yaml = self.apply_pending_tag(yaml);
        let ghost s = self.spec_ast();
        let n = self.ast_stack.len();
        if n > 0 {
            let top = self.ast_stack.pop().unwrap();
            match top {
                YamlBuilder::Sequence(mut items) => {
                    items.push(yaml);
                    self.ast_stack.push(YamlBuilder::Sequence(items));
                },
                YamlBuilder::Mapping(mut map, current_key) => {
                    match current_key {
                        Some(key) => {
                            proof { crate::parser::loader::lemma_yaml_insert(map.entries(), key, yaml); }
                            map.insert(key, yaml);
                            self.ast_stack.push(YamlBuilder::Mapping(map, None));
                        },
                        None => {
                            self.ast_stack.push(YamlBuilder::Mapping(map, Some(yaml)));
                        },
                    }
                },
                other => {
                    self.ast_stack.push(other);
                },
            }
            proof {
                assert(s =~= s.drop_last().push(s.last()));
                assert(self.spec_ast().drop_last() =~= s.drop_last());
            }
        } else {
            let text = yaml_debug_text(&yaml);
            self.ast_stack.push(YamlBuilder::Scalar(text));
        }
        assert(placed(s, yaml, self.spec_ast()));
    }

    /// Whether the current context accepts a token (`accepts_token`).
    fn can_accept_token(&self, token: &TokenType) -> (b: bool)
        ensures
            b == accepts_token(self.context.current_context, *token),
    {
        match self.context.current_context {
            Context::FlowIn | Context::FlowOut => !matches!(token, TokenType::BlockEntry),
            Context::BlockKey => !matches!(token, TokenType::FlowSequenceStart | TokenType::FlowMappingStart),
            _ => true,
        }
    }

    /// Check a token's column against the indentation the context requires: the current
    /// one in BLOCK-IN and BLOCK-KEY, none in BLOCK-OUT and flow contexts.
    fn check_indentation(&mut self, token_indent: usize) -> (r: Result<(), ScanError>)
        requires
            old(self).wf(),
        ensures
            *final(self) == *old(self),
            r is Err <==> (old(self).context.current_context == Context::BlockIn
                || old(self).context.current_context == Context::BlockKey)
                && (token_indent as int) < (old(self).context.indentation.items().last() as i32) as int,
    {
        let required_indent: i32 = match self.context.current_context {
            Context::BlockIn => self.context.current_indent(),
            Context::BlockKey => self.context.current_indent(),
            Context::BlockOut => 0,
            Context::FlowIn | Context::FlowOut | Context::FlowKey => {
                return Ok(());
            },
        };
        if required_indent >= 0 && token_indent < required_indent as usize {
            let mut msg = String::new();
            push_str(&mut msg, "Insufficient indentation: expected ");
            crate::scanner::indentation::push_signed_decimal(&mut msg, required_indent);
            push_str(&mut msg, ", got ");
            push_decimal(&mut msg, token_indent);
            return Err(ScanError::new(self.scanner.mark(), msg.as_str()));
        }
        Ok(())
    }

    /// The value a finished builder stands for (`finalized`).
    fn finalize_builder(&self, builder: YamlBuilder) -> (y: Yaml)
        ensures
            finalized(builder, y),
    {
        match builder {
            YamlBuilder::Sequence(items) => Yaml::Array(items),
            YamlBuilder::Mapping(map, _) => Yaml::Hash(map),
            YamlBuilder::Scalar(s) => Yaml::String(s),
        }
    }
}

/// The name `{:?}` gives the tokens a context refuses.
fn rejected_token_name(t: &TokenType) -> (s: &'static str)
{
    match t {
        TokenType::BlockEntry => "BlockEntry",
        TokenType::FlowSequenceStart => "FlowSequenceStart",
        _ => "FlowMappingStart",
    }
}

/// The name `{:?}` gives a context.
pub(crate) fn context_text(c: Context) -> (s: &'static str)
    ensures
        s@ == context_name(c),
{
    match c {
        Context::BlockIn => "BlockIn",
        Context::BlockOut => "BlockOut",
        Context::BlockKey => "BlockKey",
        Context::FlowIn => "FlowIn",
        Context::FlowOut => "FlowOut",
        Context::FlowKey => "FlowKey",
    }
}

/// The tag URI for a handle and suffix (`tag_uri`).
pub fn tag_uri_text(handle: &str, suffix: String) -> (s: String)
    ensures
        s@ == tag_uri(handle@, suffix@),
{
    if crate::text::str_eq(handle, "!!") {
        let mut t = String::new();
        push_str(&mut t, "tag:yaml.org,2002:");
        push_str(&mut t, suffix.as_str());
        t
    } else if crate::text::str_eq(handle, "!") {
        suffix
    } else {
        let mut t = String::new();
        push_str(&mut t, handle);
        push_str(&mut t, suffix.as_str());
        t
    }
}

} // verus!
